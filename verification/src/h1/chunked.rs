//! The `chunked` transfer coding.
//!
//! A chunked body is a sequence of chunks, each one a size in hexadecimal, an
//! optional extension, a line break, that many bytes of data and a line break;
//! a chunk of size zero and an empty line end it. [`ChunkedState`] is the
//! position in that grammar and [`ChunkedState::step`] moves it on by one
//! byte, or by one piece of data.

use bytes::{Bytes, BytesMut};
use vstd::prelude::*;

use crate::ascii::{
    CR, DIGIT_0, DIGIT_9, HT, LF, LOWER_A, LOWER_F, SEMICOLON, SP, UPPER_A, UPPER_F,
};
use crate::external::buffer::{buffered, frozen};

verus! {

/// Whether a computation could go on, or has to wait for more input.
pub enum Async<T> {
    /// It went on, to this value.
    Ready(T),
    /// It needs a byte that has not arrived yet.
    NotReady,
}

/// A byte that the chunked grammar does not allow where it was found.
#[derive(Debug, Clone, Copy, PartialEq, Eq, Structural)]
pub enum ChunkError {
    /// Not a hexadecimal digit, white space, `;` or CR in a chunk size.
    Size,
    /// Not white space, `;` or CR in the white space after a chunk size.
    SizeLws,
    /// Not LF after the CR of a chunk size line.
    SizeLf,
    /// Not CR after the data of a chunk.
    BodyCr,
    /// Not LF after the CR that follows the data of a chunk.
    BodyLf,
    /// Not CR after the last chunk's size line.
    EndCr,
    /// Not LF after the CR that follows the last chunk's size line.
    EndLf,
}

impl ChunkError {
    /// What went wrong, in words.
    pub fn message(&self) -> (r: &'static str)
        ensures
            r@ == (match *self {
                ChunkError::Size => "Invalid chunk size line: Invalid Size"@,
                ChunkError::SizeLws => "Invalid chunk size linear white space"@,
                ChunkError::SizeLf => "Invalid chunk size LF"@,
                ChunkError::BodyCr => "Invalid chunk body CR"@,
                ChunkError::BodyLf => "Invalid chunk body LF"@,
                ChunkError::EndCr => "Invalid chunk end CR"@,
                ChunkError::EndLf => "Invalid chunk end LF"@,
            }),
    {
        match self {
            ChunkError::Size => "Invalid chunk size line: Invalid Size",
            ChunkError::SizeLws => "Invalid chunk size linear white space",
            ChunkError::SizeLf => "Invalid chunk size LF",
            ChunkError::BodyCr => "Invalid chunk body CR",
            ChunkError::BodyLf => "Invalid chunk body LF",
            ChunkError::EndCr => "Invalid chunk end CR",
            ChunkError::EndLf => "Invalid chunk end LF",
        }
    }
}

/// A position in the grammar of a chunked body.
#[derive(Debug, Clone, Copy, PartialEq, Eq, Structural)]
pub enum ChunkedState {
    /// In the digits of a chunk size.
    Size,
    /// In the white space after a chunk size.
    SizeLws,
    /// In a chunk extension.
    Extension,
    /// Between the CR and the LF of a chunk size line.
    SizeLf,
    /// In the data of a chunk.
    Body,
    /// Behind the data of a chunk.
    BodyCr,
    /// Between the CR and the LF behind the data of a chunk.
    BodyLf,
    /// Behind the size line of the last chunk.
    EndCr,
    /// Between the CR and the LF that end the body.
    EndLf,
    /// Behind the body.
    End,
}

/// The value of a hexadecimal digit, in either case.
pub open spec fn hex_value(b: u8) -> Option<u8> {
    if DIGIT_0 <= b <= DIGIT_9 {
        Some((b - DIGIT_0) as u8)
    } else if LOWER_A <= b <= LOWER_F {
        Some((b - LOWER_A + 10) as u8)
    } else if UPPER_A <= b <= UPPER_F {
        Some((b - UPPER_A + 10) as u8)
    } else {
        None
    }
}

/// The chunk size after one more digit. Sizes are 64 bits wide and wrap around.
pub open spec fn size_then_digit(size: u64, digit: u8) -> u64 {
    ((size * 16 + digit) % 0x1_0000_0000_0000_0000) as u64
}

/// Where the size line goes on at a byte behind the digits.
pub open spec fn after_digits(b: u8) -> Option<ChunkedState> {
    if b == HT || b == SP {
        Some(ChunkedState::SizeLws)
    } else if b == SEMICOLON {
        Some(ChunkedState::Extension)
    } else if b == CR {
        Some(ChunkedState::SizeLf)
    } else {
        None
    }
}

impl ChunkedState {
    /// Whether the machine consumes its input byte by byte here: everywhere
    /// but in the data of a chunk and behind the body.
    pub open spec fn is_framing(self) -> bool {
        self != ChunkedState::Body && self != ChunkedState::End
    }

    /// The state and chunk size after the framing byte `b`, or the error it is.
    pub open spec fn transition(self, size: u64, b: u8) -> Result<(ChunkedState, u64), ChunkError> {
        match self {
            ChunkedState::Size => match (hex_value(b), after_digits(b)) {
                (Some(digit), _) => Ok((ChunkedState::Size, size_then_digit(size, digit))),
                (None, Some(state)) => Ok((state, size)),
                (None, None) => Err(ChunkError::Size),
            },
            ChunkedState::SizeLws => match after_digits(b) {
                Some(state) => Ok((state, size)),
                None => Err(ChunkError::SizeLws),
            },
            ChunkedState::Extension => if b == CR {
                Ok((ChunkedState::SizeLf, size))
            } else {
                Ok((ChunkedState::Extension, size))
            },
            ChunkedState::SizeLf => if b != LF {
                Err(ChunkError::SizeLf)
            } else if size > 0 {
                Ok((ChunkedState::Body, size))
            } else {
                Ok((ChunkedState::EndCr, size))
            },
            ChunkedState::BodyCr => if b == CR {
                Ok((ChunkedState::BodyLf, size))
            } else {
                Err(ChunkError::BodyCr)
            },
            ChunkedState::BodyLf => if b == LF {
                Ok((ChunkedState::Size, size))
            } else {
                Err(ChunkError::BodyLf)
            },
            ChunkedState::EndCr => if b == CR {
                Ok((ChunkedState::EndLf, size))
            } else {
                Err(ChunkError::EndCr)
            },
            ChunkedState::EndLf => if b == LF {
                Ok((ChunkedState::End, size))
            } else {
                Err(ChunkError::EndLf)
            },
            ChunkedState::Body | ChunkedState::End => Ok((self, size)),
        }
    }

    /// The states that a decoder can be in together with a chunk size: data is
    /// only expected while some is due, and none is due outside of a chunk.
    pub open spec fn wf(self, size: u64) -> bool {
        match self {
            ChunkedState::Size | ChunkedState::SizeLws | ChunkedState::Extension
            | ChunkedState::SizeLf => true,
            ChunkedState::Body => size > 0,
            _ => size == 0,
        }
    }
}

/// The result of one step of the machine, with all that it changes.
pub enum Step {
    /// A framing byte is missing; nothing has changed.
    NotReady,
    /// The first byte of the input was consumed and is not allowed.
    Fail(ChunkError),
    /// The machine moved on.
    Ready { state: ChunkedState, size: u64, rest: Seq<u8>, chunk: Option<Seq<u8>> },
}

/// How much of a chunk with `size` bytes due is in the first `len` of them.
pub open spec fn piece(size: u64, len: nat) -> int {
    if size > len { len as int } else { size as int }
}

/// One step on `input`: a framing byte, or as much data as is there and due.
pub open spec fn stepped(state: ChunkedState, size: u64, input: Seq<u8>) -> Step {
    if state == ChunkedState::End || (state == ChunkedState::Body && input.len() == 0) {
        Step::Ready { state, size, rest: input, chunk: None }
    } else if input.len() == 0 {
        Step::NotReady
    } else if state == ChunkedState::Body {
        let n = piece(size, input.len());
        Step::Ready {
            state: if size > n { ChunkedState::Body } else { ChunkedState::BodyCr },
            size: (size - n) as u64,
            rest: input.skip(n),
            chunk: Some(input.take(n)),
        }
    } else {
        match state.transition(size, input[0]) {
            Ok((next, next_size)) => Step::Ready {
                state: next,
                size: next_size,
                rest: input.skip(1),
                chunk: None,
            },
            Err(e) => Step::Fail(e),
        }
    }
}

/// The contents of an optional slice.
pub open spec fn frozen_opt(b: Option<Bytes>) -> Option<Seq<u8>> {
    match b {
        Some(b) => Some(frozen(b)),
        None => None,
    }
}

/// What a reader of framing bytes returns and leaves behind, given what one
/// step on its input is.
pub open spec fn follows(
    step: Step,
    input: Seq<u8>,
    size: u64,
    r: Result<Async<ChunkedState>, ChunkError>,
    rest: Seq<u8>,
    new_size: u64,
) -> bool {
    match step {
        Step::NotReady => r == Ok::<_, ChunkError>(Async::<ChunkedState>::NotReady) && rest == input
            && new_size == size,
        Step::Fail(e) => r == Err::<Async<ChunkedState>, _>(e) && rest == input.skip(1)
            && new_size == size,
        Step::Ready { state, size: z, rest: after, chunk: _ } => r == Ok::<_, ChunkError>(
            Async::Ready(state),
        ) && rest == after && new_size == z,
    }
}

/// Takes the first byte off the buffer, if there is one.
fn next_byte(rdr: &mut BytesMut) -> (r: Option<u8>)
    ensures
        match r {
            Some(b) => buffered(*old(rdr)).len() > 0 && b == buffered(*old(rdr))[0] && buffered(
                *final(rdr),
            ) == buffered(*old(rdr)).skip(1),
            None => buffered(*old(rdr)).len() == 0 && *final(rdr) == *old(rdr),
        },
{
    if rdr.len() > 0 {
        let b: u8 = rdr[0];
        rdr.split_to(1);
        Some(b)
    } else {
        None
    }
}

/// Appends a digit to a chunk size.
fn push_digit(size: &mut u64, digit: u8)
    requires
        digit < 16,
    ensures
        *final(size) == size_then_digit(*old(size), digit),
{
    *size = size.wrapping_mul(16).wrapping_add(digit as u64);
}

impl ChunkedState {
    /// Moves on by one step. A piece of chunk data is handed out in `buf`,
    /// which is left alone otherwise.
    pub fn step(&self, body: &mut BytesMut, size: &mut u64, buf: &mut Option<Bytes>) -> (r: Result<
        Async<ChunkedState>,
        ChunkError,
    >)
        ensures
            follows(
                stepped(*self, *old(size), buffered(*old(body))),
                buffered(*old(body)),
                *old(size),
                r,
                buffered(*final(body)),
                *final(size),
            ),
            match stepped(*self, *old(size), buffered(*old(body))) {
                Step::Ready { chunk: Some(data), .. } => frozen_opt(*final(buf)) == Some(data),
                _ => *final(buf) == *old(buf),
            },
    {
        match *self {
            ChunkedState::Size => ChunkedState::read_size(body, size),
            ChunkedState::SizeLws => ChunkedState::read_size_lws(body),
            ChunkedState::Extension => ChunkedState::read_extension(body),
            ChunkedState::SizeLf => ChunkedState::read_size_lf(body, size),
            ChunkedState::Body => ChunkedState::read_body(body, size, buf),
            ChunkedState::BodyCr => ChunkedState::read_body_cr(body),
            ChunkedState::BodyLf => ChunkedState::read_body_lf(body),
            ChunkedState::EndCr => ChunkedState::read_end_cr(body),
            ChunkedState::EndLf => ChunkedState::read_end_lf(body),
            ChunkedState::End => Ok(Async::Ready(ChunkedState::End)),
        }
    }

    /// Reads a digit of a chunk size, or the byte that ends the digits.
    pub fn read_size(rdr: &mut BytesMut, size: &mut u64) -> (r: Result<
        Async<ChunkedState>,
        ChunkError,
    >)
        ensures
            follows(
                stepped(ChunkedState::Size, *old(size), buffered(*old(rdr))),
                buffered(*old(rdr)),
                *old(size),
                r,
                buffered(*final(rdr)),
                *final(size),
            ),
    {
        let b: u8 = match next_byte(rdr) {
            Some(b) => b,
            None => return Ok(Async::NotReady),
        };
        if DIGIT_0 <= b && b <= DIGIT_9 {
            push_digit(size, b - DIGIT_0);
        } else if LOWER_A <= b && b <= LOWER_F {
            push_digit(size, b + 10 - LOWER_A);
        } else if UPPER_A <= b && b <= UPPER_F {
            push_digit(size, b + 10 - UPPER_A);
        } else if b == HT || b == SP {
            return Ok(Async::Ready(ChunkedState::SizeLws));
        } else if b == SEMICOLON {
            return Ok(Async::Ready(ChunkedState::Extension));
        } else if b == CR {
            return Ok(Async::Ready(ChunkedState::SizeLf));
        } else {
            return Err(ChunkError::Size);
        }
        Ok(Async::Ready(ChunkedState::Size))
    }

    /// Reads on in the white space behind a chunk size, where no digit may follow.
    pub fn read_size_lws(rdr: &mut BytesMut) -> (r: Result<Async<ChunkedState>, ChunkError>)
        ensures
            follows(
                stepped(ChunkedState::SizeLws, 0, buffered(*old(rdr))),
                buffered(*old(rdr)),
                0,
                r,
                buffered(*final(rdr)),
                0,
            ),
    {
        match next_byte(rdr) {
            Some(HT) | Some(SP) => Ok(Async::Ready(ChunkedState::SizeLws)),
            Some(SEMICOLON) => Ok(Async::Ready(ChunkedState::Extension)),
            Some(CR) => Ok(Async::Ready(ChunkedState::SizeLf)),
            Some(_) => Err(ChunkError::SizeLws),
            None => Ok(Async::NotReady),
        }
    }

    /// Skips a byte of a chunk extension. No extension is supported.
    pub fn read_extension(rdr: &mut BytesMut) -> (r: Result<Async<ChunkedState>, ChunkError>)
        ensures
            follows(
                stepped(ChunkedState::Extension, 0, buffered(*old(rdr))),
                buffered(*old(rdr)),
                0,
                r,
                buffered(*final(rdr)),
                0,
            ),
    {
        match next_byte(rdr) {
            Some(CR) => Ok(Async::Ready(ChunkedState::SizeLf)),
            Some(_) => Ok(Async::Ready(ChunkedState::Extension)),
            None => Ok(Async::NotReady),
        }
    }

    /// Reads the LF of a size line; a size of zero announces the end.
    pub fn read_size_lf(rdr: &mut BytesMut, size: &mut u64) -> (r: Result<
        Async<ChunkedState>,
        ChunkError,
    >)
        ensures
            follows(
                stepped(ChunkedState::SizeLf, *old(size), buffered(*old(rdr))),
                buffered(*old(rdr)),
                *old(size),
                r,
                buffered(*final(rdr)),
                *final(size),
            ),
    {
        match next_byte(rdr) {
            Some(LF) => if *size > 0 {
                Ok(Async::Ready(ChunkedState::Body))
            } else {
                Ok(Async::Ready(ChunkedState::EndCr))
            },
            Some(_) => Err(ChunkError::SizeLf),
            None => Ok(Async::NotReady),
        }
    }

    /// Hands out as much chunk data as is there, up to the `rem` bytes due.
    pub fn read_body(rdr: &mut BytesMut, rem: &mut u64, buf: &mut Option<Bytes>) -> (r: Result<
        Async<ChunkedState>,
        ChunkError,
    >)
        ensures
            follows(
                stepped(ChunkedState::Body, *old(rem), buffered(*old(rdr))),
                buffered(*old(rdr)),
                *old(rem),
                r,
                buffered(*final(rdr)),
                *final(rem),
            ),
            match stepped(ChunkedState::Body, *old(rem), buffered(*old(rdr))) {
                Step::Ready { chunk: Some(data), .. } => frozen_opt(*final(buf)) == Some(data),
                _ => *final(buf) == *old(buf),
            },
    {
        let len: u64 = rdr.len() as u64;
        if len == 0 {
            Ok(Async::Ready(ChunkedState::Body))
        } else {
            let slice: Bytes;
            if *rem > len {
                slice = rdr.take().freeze();
                *rem -= len;
                assert(buffered(*old(rdr)).take(len as int) =~= buffered(*old(rdr)));
                assert(buffered(*old(rdr)).skip(len as int) =~= Seq::<u8>::empty());
            } else {
                slice = rdr.split_to(*rem as usize).freeze();
                *rem = 0;
            }
            *buf = Some(slice);
            if *rem > 0 {
                Ok(Async::Ready(ChunkedState::Body))
            } else {
                Ok(Async::Ready(ChunkedState::BodyCr))
            }
        }
    }

    /// Reads the CR behind the data of a chunk.
    pub fn read_body_cr(rdr: &mut BytesMut) -> (r: Result<Async<ChunkedState>, ChunkError>)
        ensures
            follows(
                stepped(ChunkedState::BodyCr, 0, buffered(*old(rdr))),
                buffered(*old(rdr)),
                0,
                r,
                buffered(*final(rdr)),
                0,
            ),
    {
        match next_byte(rdr) {
            Some(CR) => Ok(Async::Ready(ChunkedState::BodyLf)),
            Some(_) => Err(ChunkError::BodyCr),
            None => Ok(Async::NotReady),
        }
    }

    /// Reads the LF behind the data of a chunk.
    pub fn read_body_lf(rdr: &mut BytesMut) -> (r: Result<Async<ChunkedState>, ChunkError>)
        ensures
            follows(
                stepped(ChunkedState::BodyLf, 0, buffered(*old(rdr))),
                buffered(*old(rdr)),
                0,
                r,
                buffered(*final(rdr)),
                0,
            ),
    {
        match next_byte(rdr) {
            Some(LF) => Ok(Async::Ready(ChunkedState::Size)),
            Some(_) => Err(ChunkError::BodyLf),
            None => Ok(Async::NotReady),
        }
    }

    /// Reads the CR of the line that ends the body.
    pub fn read_end_cr(rdr: &mut BytesMut) -> (r: Result<Async<ChunkedState>, ChunkError>)
        ensures
            follows(
                stepped(ChunkedState::EndCr, 0, buffered(*old(rdr))),
                buffered(*old(rdr)),
                0,
                r,
                buffered(*final(rdr)),
                0,
            ),
    {
        match next_byte(rdr) {
            Some(CR) => Ok(Async::Ready(ChunkedState::EndLf)),
            Some(_) => Err(ChunkError::EndCr),
            None => Ok(Async::NotReady),
        }
    }

    /// Reads the LF of the line that ends the body.
    pub fn read_end_lf(rdr: &mut BytesMut) -> (r: Result<Async<ChunkedState>, ChunkError>)
        ensures
            follows(
                stepped(ChunkedState::EndLf, 0, buffered(*old(rdr))),
                buffered(*old(rdr)),
                0,
                r,
                buffered(*final(rdr)),
                0,
            ),
    {
        match next_byte(rdr) {
            Some(LF) => Ok(Async::Ready(ChunkedState::End)),
            Some(_) => Err(ChunkError::EndLf),
            None => Ok(Async::NotReady),
        }
    }
}

} // verus!
