//! What holds of body decoding as a whole.
//!
//! [`decoded`](crate::h1::payload::decoded) says what one call of a decoder
//! does. A connection calls it over and over, on a buffer that fills up in
//! pieces of any size; the laws here are about that.

use vstd::prelude::*;

use crate::ascii::{CR, HT, LF, SEMICOLON, SP};
use crate::h1::chunked::{hex_value, piece, stepped, ChunkError, ChunkedState, Step};
use crate::h1::payload::{decoded, decoded_chunked, Decoded, Item, Kind};

verus! {

/// Whether `d` is a possible outcome of a call on `input`.
///
/// A prefix of the input is consumed, and a piece of the body that is handed
/// out is the last part of that prefix, and not empty. More input is asked for
/// only when all of it is used up and the body has not ended, and the end of
/// the body is reported only where it has.
pub open spec fn is_sound(input: Seq<u8>, d: Decoded) -> bool {
    let used = input.len() - d.rest.len();
    &&& d.kind.wf()
    &&& 0 <= used
    &&& d.rest == input.skip(used)
    &&& match d.item {
        Ok(Some(Item::Chunk(data))) => 0 < data.len() <= used && data == input.subrange(
            used - data.len(),
            used,
        ),
        Ok(Some(Item::Eof)) => d.kind.is_done(),
        Ok(None) => d.rest.len() == 0 && !d.kind.is_done(),
        Err(_) => used > 0 && !d.kind.is_done(),
    }
}

/// A decoder in a reachable state stays in one, consumes its input from the
/// front, hands out nothing but consecutive input, and makes progress.
pub proof fn law_decode_is_sound(kind: Kind, input: Seq<u8>)
    requires
        kind.wf(),
    ensures
        is_sound(input, decoded(kind, input)),
{
    match kind {
        Kind::Chunked(state, size) => lemma_chunked_is_sound(state, size, input),
        _ => {
            assert(input.skip(0) =~= input);
            assert(input.skip(input.len() as int) =~= Seq::<u8>::empty());
            assert(input.subrange(0, input.len() as int) =~= input);
        },
    }
}

/// A step from a reachable state leads to one.
proof fn lemma_step_keeps_wf(state: ChunkedState, size: u64, input: Seq<u8>)
    requires
        state.wf(size),
    ensures
        stepped(state, size, input) matches Step::Ready { state: next, size: next_size, .. }
            ==> next.wf(next_size),
{
}

/// The chunked coding is decoded soundly.
proof fn lemma_chunked_is_sound(state: ChunkedState, size: u64, input: Seq<u8>)
    requires
        state.wf(size),
    ensures
        is_sound(input, decoded_chunked(state, size, input)),
    decreases input.len(),
{
    lemma_step_keeps_wf(state, size, input);
    assert(input.skip(0) =~= input);
    let d = decoded_chunked(state, size, input);
    if state == ChunkedState::End || input.len() == 0 {
        assert(is_sound(input, d));
    } else if state == ChunkedState::Body {
        let n = piece(size, input.len());
        assert(d.item == Ok::<_, ChunkError>(Some(Item::Chunk(input.take(n)))));
        assert(input.take(n) =~= input.subrange(0, n));
    } else if let Ok((next, next_size)) = state.transition(size, input[0]) {
        let rest = input.skip(1);
        if next != ChunkedState::End && rest.len() > 0 {
            lemma_chunked_is_sound(next, next_size, rest);
            assert(d == decoded_chunked(next, next_size, rest));
            let used = rest.len() - d.rest.len();
            assert(d.rest =~= input.skip(used + 1));
            if let Ok(Some(Item::Chunk(data))) = d.item {
                assert(data =~= input.subrange(used + 1 - data.len(), used + 1));
            }
        }
    }
}

/// Once a decoder has reported the end of the body it goes on doing so, and
/// leaves the buffer alone: what follows belongs to the next message.
pub proof fn law_end_is_final(kind: Kind, input: Seq<u8>)
    requires
        kind.is_done(),
    ensures
        decoded(kind, input) == (Decoded { item: Ok(Some(Item::Eof)), kind, rest: input }),
{
}

/// How a series of calls ended.
pub enum Ending {
    /// The decoder asks for more input.
    Open,
    /// The body is complete.
    Finished,
    /// The body is malformed.
    Failed(ChunkError),
}

/// The result of a series of calls on one buffer, with all that it changes.
pub struct Drained {
    /// The pieces of the body that were handed out.
    pub chunks: Seq<Seq<u8>>,
    /// Why the series ended.
    pub ending: Ending,
    /// The decoder afterwards.
    pub kind: Kind,
    /// What is left in the buffer.
    pub rest: Seq<u8>,
}

/// Calls a decoder on `input` until it hands out no more data.
pub open spec fn drained(kind: Kind, input: Seq<u8>) -> Drained
    decreases input.len(),
    when kind.wf()
{
    proof {
        law_decode_is_sound(kind, input);
    }
    let d = decoded(kind, input);
    match d.item {
        Ok(Some(Item::Chunk(data))) => {
            let later = drained(d.kind, d.rest);
            Drained { chunks: seq![data] + later.chunks, ..later }
        },
        Ok(Some(Item::Eof)) => Drained {
            chunks: Seq::empty(),
            ending: Ending::Finished,
            kind: d.kind,
            rest: d.rest,
        },
        Ok(None) => Drained {
            chunks: Seq::empty(),
            ending: Ending::Open,
            kind: d.kind,
            rest: d.rest,
        },
        Err(e) => Drained {
            chunks: Seq::empty(),
            ending: Ending::Failed(e),
            kind: d.kind,
            rest: d.rest,
        },
    }
}

/// A body of `n` bytes is the next `n` bytes, whatever pieces they arrive in,
/// and no byte behind them is touched.
pub proof fn law_length(n: u64, input: Seq<u8>)
    ensures
        ({
            let d = drained(Kind::Length(n), input);
            if n <= input.len() {
                &&& d.ending == Ending::Finished
                &&& d.chunks.flatten() == input.take(n as int)
                &&& d.rest == input.skip(n as int)
                &&& d.kind == Kind::Length(0)
            } else {
                &&& d.ending == Ending::Open
                &&& d.chunks.flatten() == input
                &&& d.rest == Seq::<u8>::empty()
                &&& d.kind == Kind::Length((n - input.len()) as u64)
            }
        }),
{
    let d = drained(Kind::Length(n), input);
    let first = decoded(Kind::Length(n), input);
    reveal_with_fuel(drained, 2);
    if n == 0 || input.len() == 0 {
        assert(d.chunks =~= Seq::empty());
        assert(input.skip(0) =~= input);
        assert(d.chunks.flatten() =~= Seq::empty());
    } else {
        let later = drained(first.kind, first.rest);
        assert(later.chunks =~= Seq::empty());
        let data = if n > input.len() { input } else { input.take(n as int) };
        assert(d.chunks =~= seq![data]);
        d.chunks.lemma_flatten_one_element();
    }
}

/// A body that lasts until the connection closes is everything that arrives.
pub proof fn law_until_close(input: Seq<u8>)
    ensures
        ({
            let d = drained(Kind::Eof, input);
            &&& d.ending == Ending::Open
            &&& d.chunks.flatten() == input
            &&& d.rest == Seq::<u8>::empty()
            &&& d.kind == Kind::Eof
        }),
{
    let d = drained(Kind::Eof, input);
    reveal_with_fuel(drained, 2);
    if input.len() == 0 {
        assert(d.chunks =~= Seq::empty());
        assert(d.chunks.flatten() =~= input);
    } else {
        assert(d.chunks =~= seq![input]);
        d.chunks.lemma_flatten_one_element();
    }
}

/// A chunked body read byte by byte: the data in it, and where reading ends.
pub struct Scanned {
    pub data: Seq<u8>,
    pub ending: Ending,
    pub state: ChunkedState,
    pub size: u64,
    pub rest: Seq<u8>,
}

/// Reads `input` as a chunked body, one byte at a time.
pub open spec fn scanned(state: ChunkedState, size: u64, input: Seq<u8>) -> Scanned
    decreases input.len(),
{
    if state == ChunkedState::End {
        Scanned { data: Seq::empty(), ending: Ending::Finished, state, size, rest: input }
    } else if input.len() == 0 {
        Scanned { data: Seq::empty(), ending: Ending::Open, state, size, rest: input }
    } else if state == ChunkedState::Body {
        let later = scanned(
            if size > 1 { ChunkedState::Body } else { ChunkedState::BodyCr },
            (size - 1) as u64,
            input.skip(1),
        );
        Scanned { data: seq![input[0]] + later.data, ..later }
    } else {
        match state.transition(size, input[0]) {
            Ok((next, next_size)) => scanned(next, next_size, input.skip(1)),
            Err(e) => Scanned {
                data: Seq::empty(),
                ending: Ending::Failed(e),
                state,
                size,
                rest: input.skip(1),
            },
        }
    }
}

/// Data is read a piece at a time as it is read a byte at a time.
pub(crate) proof fn lemma_scan_piece(size: u64, input: Seq<u8>, n: int)
    requires
        0 < n <= size,
        n <= input.len(),
    ensures
        scanned(ChunkedState::Body, size, input) == ({
            let later = scanned(
                if size > n { ChunkedState::Body } else { ChunkedState::BodyCr },
                (size - n) as u64,
                input.skip(n),
            );
            Scanned { data: input.take(n) + later.data, ..later }
        }),
    decreases n,
{
    if n == 1 {
        assert(input.take(1) =~= seq![input[0]]);
    } else {
        let rest = input.skip(1);
        lemma_scan_piece((size - 1) as u64, rest, n - 1);
        assert(rest.skip(n - 1) =~= input.skip(n));
        let later = scanned(
            if size > n { ChunkedState::Body } else { ChunkedState::BodyCr },
            (size - n) as u64,
            input.skip(n),
        );
        assert(seq![input[0]] + (rest.take(n - 1) + later.data) =~= input.take(n) + later.data);
    }
}

/// Repeated calls deliver exactly what is in the body.
pub proof fn law_chunked_is_scanned(state: ChunkedState, size: u64, input: Seq<u8>)
    requires
        state.wf(size),
    ensures
        ({
            let d = drained(Kind::Chunked(state, size), input);
            let s = scanned(state, size, input);
            &&& d.chunks.flatten() == s.data
            &&& d.ending == s.ending
            &&& d.kind == Kind::Chunked(s.state, s.size)
            &&& d.rest == s.rest
        }),
    decreases input.len(),
{
    let kind = Kind::Chunked(state, size);
    let d = drained(kind, input);
    lemma_step_keeps_wf(state, size, input);
    law_decode_is_sound(kind, input);
    if state == ChunkedState::End || input.len() == 0 {
        assert(d.chunks =~= Seq::empty());
    } else if state == ChunkedState::Body {
        let n = piece(size, input.len());
        let next = if size > n { ChunkedState::Body } else { ChunkedState::BodyCr };
        lemma_scan_piece(size, input, n);
        law_chunked_is_scanned(next, (size - n) as u64, input.skip(n));
        let later = drained(Kind::Chunked(next, (size - n) as u64), input.skip(n));
        assert(d.chunks == seq![input.take(n)] + later.chunks);
        assert(d.chunks.drop_first() =~= later.chunks);
    } else {
        match state.transition(size, input[0]) {
            Ok((next, next_size)) => {
                law_chunked_is_scanned(next, next_size, input.skip(1));
                if next == ChunkedState::End || input.skip(1).len() == 0 {
                    assert(d.chunks =~= Seq::empty());
                } else {
                    assert(decoded(kind, input) == decoded(
                        Kind::Chunked(next, next_size),
                        input.skip(1),
                    ));
                }
            },
            Err(_) => {
                assert(d.chunks =~= Seq::empty());
            },
        }
    }
}

/// Reading on where an earlier part of the input ended.
proof fn lemma_scan_split(state: ChunkedState, size: u64, a: Seq<u8>, b: Seq<u8>)
    ensures
        ({
            let first = scanned(state, size, a);
            let second = scanned(first.state, first.size, b);
            scanned(state, size, a + b) == if first.ending == Ending::Open {
                Scanned { data: first.data + second.data, ..second }
            } else {
                Scanned { rest: first.rest + b, ..first }
            }
        }),
    decreases a.len(),
{
    let first = scanned(state, size, a);
    if state == ChunkedState::End {
    } else if a.len() == 0 {
        assert(a + b =~= b);
        let second = scanned(first.state, first.size, b);
        assert(first.data + second.data =~= second.data);
    } else {
        assert((a + b).skip(1) =~= a.skip(1) + b);
        if state == ChunkedState::Body {
            let next = if size > 1 { ChunkedState::Body } else { ChunkedState::BodyCr };
            lemma_scan_split(next, (size - 1) as u64, a.skip(1), b);
            let later = scanned(next, (size - 1) as u64, a.skip(1));
            let second = scanned(first.state, first.size, b);
            assert(seq![a[0]] + (later.data + second.data) =~= first.data + second.data);
        } else if let Ok((next, next_size)) = state.transition(size, a[0]) {
            lemma_scan_split(next, next_size, a.skip(1), b);
        }
    }
}

/// It makes no difference in what pieces a body arrives.
///
/// If a decoder is drained of `a` and still open, then draining it of `b`
/// afterwards delivers the same body, and ends in the same way and place, as
/// draining it of `a` and `b` at once. If `a` was the end of the body, or made
/// it fail, then `b` is left in the buffer.
pub proof fn law_split(kind: Kind, a: Seq<u8>, b: Seq<u8>)
    requires
        kind.wf(),
    ensures
        ({
            let first = drained(kind, a);
            let second = drained(first.kind, b);
            let whole = drained(kind, a + b);
            &&& first.kind.wf()
            &&& if first.ending == Ending::Open {
                &&& first.rest == Seq::<u8>::empty()
                &&& whole.chunks.flatten() == first.chunks.flatten() + second.chunks.flatten()
                &&& whole.ending == second.ending
                &&& whole.kind == second.kind
                &&& whole.rest == second.rest
            } else {
                &&& whole.chunks.flatten() == first.chunks.flatten()
                &&& whole.ending == first.ending
                &&& whole.kind == first.kind
                &&& whole.rest == first.rest + b
            }
        }),
{
    lemma_drain_keeps_wf(kind, a);
    let first = drained(kind, a);
    match kind {
        Kind::Length(n) => {
            law_length(n, a);
            law_length(n, a + b);
            if n <= a.len() {
                assert((a + b).take(n as int) =~= a.take(n as int));
                assert((a + b).skip(n as int) =~= a.skip(n as int) + b);
            } else {
                let m = (n - a.len()) as u64;
                law_length(m, b);
                if m <= b.len() {
                    assert((a + b).take(n as int) =~= a + b.take(m as int));
                    assert((a + b).skip(n as int) =~= b.skip(m as int));
                }
            }
        },
        Kind::Chunked(state, size) => {
            law_chunked_is_scanned(state, size, a);
            law_chunked_is_scanned(state, size, a + b);
            lemma_scan_split(state, size, a, b);
            let s = scanned(state, size, a);
            law_chunked_is_scanned(s.state, s.size, b);
        },
        Kind::Eof => {
            law_until_close(a);
            law_until_close(b);
            law_until_close(a + b);
        },
    }
}

/// Draining stays within the reachable states, and leaves nothing in the buffer
/// of an open decoder.
proof fn lemma_drain_keeps_wf(kind: Kind, input: Seq<u8>)
    requires
        kind.wf(),
    ensures
        drained(kind, input).kind.wf(),
        drained(kind, input).ending == Ending::Open ==> drained(kind, input).rest == Seq::<
            u8,
        >::empty(),
    decreases input.len(),
{
    law_decode_is_sound(kind, input);
    let d = decoded(kind, input);
    if let Ok(Some(Item::Chunk(_))) = d.item {
        lemma_drain_keeps_wf(d.kind, d.rest);
    }
}

/// Whether all bytes are hexadecimal digits.
pub open spec fn is_hex(digits: Seq<u8>) -> bool {
    forall|i: int| 0 <= i < digits.len() ==> (#[trigger] hex_value(digits[i])) is Some
}

/// The number that hexadecimal digits denote, most significant first.
pub open spec fn hex_number(digits: Seq<u8>) -> nat
    decreases digits.len(),
{
    if digits.len() == 0 {
        0
    } else {
        match hex_value(digits.last()) {
            Some(digit) => hex_number(digits.drop_last()) * 16 + digit as nat,
            None => hex_number(digits.drop_last()) * 16,
        }
    }
}

/// What may stand between the digits and the line break of a chunk size line:
/// white space, and an extension that starts with `;`.
pub open spec fn is_size_tail(tail: Seq<u8>) -> bool
    decreases tail.len(),
{
    ||| tail.len() == 0
    ||| (tail[0] == HT || tail[0] == SP) && is_size_tail(tail.skip(1))
    ||| tail[0] == SEMICOLON && !tail.contains(CR)
}

/// A line break.
pub open spec fn crlf() -> Seq<u8> {
    seq![CR, LF]
}

/// A chunk as a sender may write it.
pub struct ChunkText {
    /// The size, in hexadecimal.
    pub digits: Seq<u8>,
    /// What follows it on its line.
    pub tail: Seq<u8>,
    /// The data.
    pub data: Seq<u8>,
}

impl ChunkText {
    /// Whether the size line announces the data.
    pub open spec fn wf(self) -> bool {
        &&& is_hex(self.digits)
        &&& is_size_tail(self.tail)
        &&& hex_number(self.digits) == self.data.len()
        &&& self.data.len() <= u64::MAX
    }

    /// The size line.
    pub open spec fn line(self) -> Seq<u8> {
        self.digits + self.tail + crlf()
    }

    /// The chunk on the wire. For a chunk without data, which has to be the
    /// last one, this is also the end of the body.
    pub open spec fn text(self) -> Seq<u8> {
        self.line() + self.data + crlf()
    }
}

/// A body on the wire: chunks, and a chunk of size zero behind them.
pub open spec fn body_text(chunks: Seq<ChunkText>, last: ChunkText) -> Seq<u8>
    decreases chunks.len(),
{
    if chunks.len() == 0 {
        last.text()
    } else {
        chunks[0].text() + body_text(chunks.skip(1), last)
    }
}

/// A call goes on from framing byte to framing byte.
pub(crate) proof fn lemma_decode_byte(
    state: ChunkedState,
    size: u64,
    b: u8,
    next: ChunkedState,
    next_size: u64,
    rest: Seq<u8>,
)
    requires
        state.is_framing(),
        state.transition(size, b) == Ok::<_, ChunkError>((next, next_size)),
        next != ChunkedState::End,
    ensures
        decoded_chunked(state, size, seq![b] + rest) == decoded_chunked(next, next_size, rest),
{
    let input = seq![b] + rest;
    assert(input.skip(1) =~= rest);
    assert(input[0] == b);
}

/// Bits that are lost before a digit is appended do not come back.
pub(crate) proof fn lemma_wrapped_digit(n: nat, digit: nat)
    ensures
        ((n % 0x1_0000_0000_0000_0000) * 16 + digit) % 0x1_0000_0000_0000_0000 == (n * 16 + digit)
            % 0x1_0000_0000_0000_0000,
{
    let wide: int = 0x1_0000_0000_0000_0000;
    let low = n % 0x1_0000_0000_0000_0000;
    let high = n / 0x1_0000_0000_0000_0000;
    assert(n * 16 + digit == (high * 16) * wide + (low * 16 + digit));
    vstd::arithmetic::div_mod::lemma_mod_multiples_vanish(
        (high * 16) as int,
        (low * 16 + digit) as int,
        wide,
    );
    assert(wide * (high * 16) == (high * 16) * wide);
}

/// The size of a chunk is the number its digits denote. Numbers that need more
/// than 64 bits lose the bits above.
pub proof fn law_chunk_size(digits: Seq<u8>, rest: Seq<u8>)
    requires
        is_hex(digits),
    ensures
        decoded(Kind::Chunked(ChunkedState::Size, 0), digits + rest) == decoded(
            Kind::Chunked(
                ChunkedState::Size,
                (hex_number(digits) % 0x1_0000_0000_0000_0000) as u64,
            ),
            rest,
        ),
    decreases digits.len(),
{
    let wide: nat = 0x1_0000_0000_0000_0000;
    if digits.len() == 0 {
        assert(digits + rest =~= rest);
    } else {
        let front = digits.drop_last();
        let b = digits.last();
        assert(hex_value(b) is Some);
        assert(is_hex(front)) by {
            assert forall|i: int| 0 <= i < front.len() implies (#[trigger] hex_value(
                front[i],
            )) is Some by {
                assert(hex_value(digits[i]) is Some);
            }
        }
        law_chunk_size(front, seq![b] + rest);
        assert(front + (seq![b] + rest) =~= digits + rest);
        let n = hex_number(front);
        let digit = hex_value(b)->0 as nat;
        lemma_wrapped_digit(n, digit);
        lemma_decode_byte(
            ChunkedState::Size,
            (n % wide) as u64,
            b,
            ChunkedState::Size,
            (hex_number(digits) % wide) as u64,
            rest,
        );
    }
}

/// Where no CR is, none is behind the first byte.
proof fn lemma_no_cr_behind(s: Seq<u8>)
    requires
        s.len() > 0,
        !s.contains(CR),
    ensures
        !s.skip(1).contains(CR),
{
    if s.skip(1).contains(CR) {
        let i = choose|i: int| 0 <= i < s.skip(1).len() && s.skip(1)[i] == CR;
        assert(s[i + 1] == CR);
    }
}

/// Skipping a chunk extension.
proof fn lemma_decode_extension(size: u64, ext: Seq<u8>, rest: Seq<u8>)
    requires
        !ext.contains(CR),
    ensures
        decoded_chunked(ChunkedState::Extension, size, ext + (seq![CR] + rest)) == decoded_chunked(
            ChunkedState::SizeLf,
            size,
            rest,
        ),
    decreases ext.len(),
{
    if ext.len() == 0 {
        assert(ext + (seq![CR] + rest) =~= seq![CR] + rest);
        lemma_decode_byte(ChunkedState::Extension, size, CR, ChunkedState::SizeLf, size, rest);
    } else {
        let later = ext.skip(1);
        assert(ext.contains(ext[0]));
        lemma_no_cr_behind(ext);
        lemma_decode_extension(size, later, rest);
        assert(ext + (seq![CR] + rest) =~= seq![ext[0]] + (later + (seq![CR] + rest)));
        lemma_decode_byte(
            ChunkedState::Extension,
            size,
            ext[0],
            ChunkedState::Extension,
            size,
            later + (seq![CR] + rest),
        );
    }
}

/// Reading from the last digit of a chunk size to the CR of its line.
proof fn lemma_decode_size_tail(state: ChunkedState, size: u64, tail: Seq<u8>, rest: Seq<u8>)
    requires
        state == ChunkedState::Size || state == ChunkedState::SizeLws,
        is_size_tail(tail),
    ensures
        decoded_chunked(state, size, tail + (seq![CR] + rest)) == decoded_chunked(
            ChunkedState::SizeLf,
            size,
            rest,
        ),
    decreases tail.len(),
{
    if tail.len() == 0 {
        assert(tail + (seq![CR] + rest) =~= seq![CR] + rest);
        lemma_decode_byte(state, size, CR, ChunkedState::SizeLf, size, rest);
    } else {
        let later = tail.skip(1);
        let more = later + (seq![CR] + rest);
        assert(tail + (seq![CR] + rest) =~= seq![tail[0]] + more);
        if tail[0] == SEMICOLON {
            lemma_no_cr_behind(tail);
            lemma_decode_byte(state, size, SEMICOLON, ChunkedState::Extension, size, more);
            lemma_decode_extension(size, later, rest);
        } else {
            lemma_decode_byte(state, size, tail[0], ChunkedState::SizeLws, size, more);
            lemma_decode_size_tail(ChunkedState::SizeLws, size, later, rest);
        }
    }
}

/// Reading a whole chunk size line.
proof fn lemma_decode_line(c: ChunkText, rest: Seq<u8>)
    requires
        c.wf(),
    ensures
        decoded_chunked(ChunkedState::Size, 0, c.line() + rest) == decoded_chunked(
            if c.data.len() > 0 { ChunkedState::Body } else { ChunkedState::EndCr },
            c.data.len() as u64,
            rest,
        ),
{
    let size = c.data.len() as u64;
    let lf = seq![LF] + rest;
    let more = c.tail + (seq![CR] + lf);
    assert(c.line() + rest =~= c.digits + more);
    law_chunk_size(c.digits, more);
    lemma_decode_size_tail(ChunkedState::Size, size, c.tail, lf);
    lemma_decode_byte(
        ChunkedState::SizeLf,
        size,
        LF,
        if c.data.len() > 0 { ChunkedState::Body } else { ChunkedState::EndCr },
        size,
        rest,
    );
}

/// A chunk that has arrived as a whole is handed out in one piece, and the
/// next call starts behind it.
pub proof fn law_whole_chunk(c: ChunkText, rest: Seq<u8>)
    requires
        c.wf(),
        c.data.len() > 0,
    ensures
        ({
            let d = decoded(Kind::Chunked(ChunkedState::Size, 0), c.text() + rest);
            &&& d.item == Ok::<_, ChunkError>(Some(Item::Chunk(c.data)))
            &&& decoded(d.kind, d.rest) == decoded(Kind::Chunked(ChunkedState::Size, 0), rest)
        }),
{
    let more = crlf() + rest;
    assert(c.text() + rest =~= c.line() + (c.data + more));
    lemma_decode_line(c, c.data + more);
    let size = c.data.len() as u64;
    let input = c.data + more;
    assert(piece(size, input.len()) == size);
    assert(input.take(size as int) =~= c.data);
    assert(input.skip(size as int) =~= more);
    assert(more =~= seq![CR] + (seq![LF] + rest));
    lemma_decode_byte(ChunkedState::BodyCr, 0, CR, ChunkedState::BodyLf, 0, seq![LF] + rest);
    lemma_decode_byte(ChunkedState::BodyLf, 0, LF, ChunkedState::Size, 0, rest);
}

/// A chunk of size zero ends the body, and the bytes behind it stay in the
/// buffer.
pub proof fn law_last_chunk(last: ChunkText, rest: Seq<u8>)
    requires
        last.wf(),
        last.data.len() == 0,
    ensures
        decoded(Kind::Chunked(ChunkedState::Size, 0), last.text() + rest) == (Decoded {
            item: Ok(Some(Item::Eof)),
            kind: Kind::Chunked(ChunkedState::End, 0),
            rest,
        }),
{
    let lf = seq![LF] + rest;
    assert(last.text() + rest =~= last.line() + (seq![CR] + lf));
    lemma_decode_line(last, seq![CR] + lf);
    lemma_decode_byte(ChunkedState::EndCr, 0, CR, ChunkedState::EndLf, 0, lf);
    assert(lf.skip(1) =~= rest);
}

/// Decoding undoes encoding.
///
/// However the sizes are written and whatever extensions they carry, draining
/// a decoder of a complete chunked body hands out the data of its chunks, one
/// piece each, and ends exactly behind the body.
pub proof fn law_decode_undoes_encode(chunks: Seq<ChunkText>, last: ChunkText, rest: Seq<u8>)
    requires
        forall|i: int|
            0 <= i < chunks.len() ==> (#[trigger] chunks[i]).wf() && chunks[i].data.len() > 0,
        last.wf(),
        last.data.len() == 0,
    ensures
        drained(Kind::Chunked(ChunkedState::Size, 0), body_text(chunks, last) + rest) == (Drained {
            chunks: chunks.map_values(|c: ChunkText| c.data),
            ending: Ending::Finished,
            kind: Kind::Chunked(ChunkedState::End, 0),
            rest,
        }),
    decreases chunks.len(),
{
    let start = Kind::Chunked(ChunkedState::Size, 0);
    let all = chunks.map_values(|c: ChunkText| c.data);
    if chunks.len() == 0 {
        law_last_chunk(last, rest);
        assert(all =~= Seq::empty());
    } else {
        let later = chunks.skip(1);
        let more = body_text(later, last) + rest;
        let input = body_text(chunks, last) + rest;
        assert(input =~= chunks[0].text() + more);
        law_decode_undoes_encode(later, last, rest);
        law_whole_chunk(chunks[0], more);
        law_decode_is_sound(start, input);
        let d = decoded(start, input);
        assert(drained(d.kind, d.rest) == drained(start, more));
        assert(all =~= seq![chunks[0].data] + later.map_values(|c: ChunkText| c.data));
    }
}

} // verus!
