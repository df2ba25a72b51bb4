//! Message bodies, as the connection delivers them.

use bytes::{Bytes, BytesMut};
use vstd::prelude::*;

use crate::external::buffer::{buffered, frozen};
use crate::h1::chunked::{stepped, Async, ChunkError, ChunkedState, Step};

verus! {

/// Http payload item
#[derive(Debug)]
pub enum PayloadItem {
    /// A piece of the body.
    Chunk(Bytes),
    /// The end of the body.
    Eof,
}

/// What a [`PayloadItem`] holds.
pub enum Item {
    Chunk(Seq<u8>),
    Eof,
}

impl View for PayloadItem {
    type V = Item;

    open spec fn view(&self) -> Item {
        match *self {
            PayloadItem::Chunk(b) => Item::Chunk(frozen(b)),
            PayloadItem::Eof => Item::Eof,
        }
    }
}

impl Clone for PayloadItem {
    fn clone(&self) -> (r: PayloadItem)
        ensures
            r@ == self@,
    {
        match self {
            PayloadItem::Chunk(b) => PayloadItem::Chunk(b.clone()),
            PayloadItem::Eof => PayloadItem::Eof,
        }
    }
}

/// How the end of a body is found, and how far the body has been read.
#[derive(Debug, Clone, Copy, PartialEq, Eq)]
pub enum Kind {
    /// A Reader used when a Content-Length header is passed with a positive
    /// integer. Holds the number of bytes still due.
    Length(u64),
    /// A Reader used when Transfer-Encoding is `chunked`. Holds the position in
    /// the coding, and the size of the current chunk or what is due of it.
    Chunked(ChunkedState, u64),
    /// A Reader used for responses that don't indicate a length or chunked.
    ///
    /// Note: This should only used for `Response`s. It is illegal for a
    /// `Request` to be made with both `Content-Length` and
    /// `Transfer-Encoding: chunked` missing, as explained in RFC 7230:
    ///
    /// > If a Transfer-Encoding header field is present in a response and
    /// > the chunked transfer coding is not the final encoding, the
    /// > message body length is determined by reading the connection until
    /// > it is closed by the server.  If a Transfer-Encoding header field
    /// > is present in a request and the chunked transfer coding is not
    /// > the final encoding, the message body length cannot be determined
    /// > reliably; the server MUST respond with the 400 (Bad Request)
    /// > status code and then close the connection.
    Eof,
}

impl Kind {
    /// The states that decoding can reach.
    pub open spec fn wf(self) -> bool {
        match self {
            Kind::Chunked(state, size) => state.wf(size),
            _ => true,
        }
    }

    /// Whether the end of the body has been reached.
    pub open spec fn is_done(self) -> bool {
        match self {
            Kind::Length(remaining) => remaining == 0,
            Kind::Chunked(state, _) => state == ChunkedState::End,
            Kind::Eof => false,
        }
    }
}

/// The result of one call of [`PayloadDecoder::decode`], with all it changes.
pub struct Decoded {
    /// What is returned.
    pub item: Result<Option<Item>, ChunkError>,
    /// The decoder afterwards.
    pub kind: Kind,
    /// What is left in the buffer.
    pub rest: Seq<u8>,
}

/// Runs the chunked machine on `input` until it has something to report or
/// runs out of input.
pub open spec fn decoded_chunked(state: ChunkedState, size: u64, input: Seq<u8>) -> Decoded
    decreases input.len(),
{
    match stepped(state, size, input) {
        Step::NotReady => Decoded { item: Ok(None), kind: Kind::Chunked(state, size), rest: input },
        Step::Fail(e) => Decoded {
            item: Err(e),
            kind: Kind::Chunked(state, size),
            rest: input.skip(1),
        },
        Step::Ready { state: next, size: next_size, rest, chunk } => {
            let kind = Kind::Chunked(next, next_size);
            if next == ChunkedState::End {
                Decoded { item: Ok(Some(Item::Eof)), kind, rest }
            } else {
                match chunk {
                    Some(data) => Decoded { item: Ok(Some(Item::Chunk(data))), kind, rest },
                    None => if rest.len() == 0 {
                        Decoded { item: Ok(None), kind, rest }
                    } else {
                        decoded_chunked(next, next_size, rest)
                    },
                }
            }
        },
    }
}

/// One call of the decoder on `input`.
pub open spec fn decoded(kind: Kind, input: Seq<u8>) -> Decoded {
    match kind {
        Kind::Length(remaining) => if remaining == 0 {
            Decoded { item: Ok(Some(Item::Eof)), kind, rest: input }
        } else if input.len() == 0 {
            Decoded { item: Ok(None), kind, rest: input }
        } else if remaining > input.len() {
            Decoded {
                item: Ok(Some(Item::Chunk(input))),
                kind: Kind::Length((remaining - input.len()) as u64),
                rest: Seq::empty(),
            }
        } else {
            Decoded {
                item: Ok(Some(Item::Chunk(input.take(remaining as int)))),
                kind: Kind::Length(0),
                rest: input.skip(remaining as int),
            }
        },
        Kind::Chunked(state, size) => decoded_chunked(state, size, input),
        Kind::Eof => if input.len() == 0 {
            Decoded { item: Ok(None), kind, rest: input }
        } else {
            Decoded { item: Ok(Some(Item::Chunk(input))), kind, rest: Seq::empty() }
        },
    }
}

/// What the caller sees of a returned item.
pub open spec fn item_view(r: Result<Option<PayloadItem>, ChunkError>) -> Result<
    Option<Item>,
    ChunkError,
> {
    match r {
        Ok(Some(item)) => Ok(Some(item@)),
        Ok(None) => Ok(None),
        Err(e) => Err(e),
    }
}

/// Decoders to handle different Transfer-Encodings.
///
/// If a message body does not include a Transfer-Encoding, it *should*
/// include a Content-Length header.
#[derive(Debug, PartialEq)]
pub struct PayloadDecoder {
    kind: Kind,
}

impl View for PayloadDecoder {
    type V = Kind;

    closed spec fn view(&self) -> Kind {
        self.kind
    }
}

impl Clone for PayloadDecoder {
    fn clone(&self) -> (r: PayloadDecoder)
        ensures
            r@ == self@,
    {
        PayloadDecoder { kind: self.kind }
    }
}

impl PayloadDecoder {
    /// A body of `x` bytes.
    pub fn length(x: u64) -> (r: PayloadDecoder)
        ensures
            r@ == Kind::Length(x),
            r@.wf(),
    {
        PayloadDecoder { kind: Kind::Length(x) }
    }

    /// A body in the chunked transfer coding.
    pub fn chunked() -> (r: PayloadDecoder)
        ensures
            r@ == Kind::Chunked(ChunkedState::Size, 0),
            r@.wf(),
    {
        PayloadDecoder { kind: Kind::Chunked(ChunkedState::Size, 0) }
    }

    /// A body that lasts until the connection closes.
    pub fn eof() -> (r: PayloadDecoder)
        ensures
            r@ == Kind::Eof,
            r@.wf(),
    {
        PayloadDecoder { kind: Kind::Eof }
    }

    /// Takes the next item of the body off the front of `src`. `None` asks for
    /// more input.
    pub fn decode(&mut self, src: &mut BytesMut) -> (r: Result<Option<PayloadItem>, ChunkError>)
        ensures
            item_view(r) == decoded(old(self)@, buffered(*old(src))).item,
            final(self)@ == decoded(old(self)@, buffered(*old(src))).kind,
            buffered(*final(src)) == decoded(old(self)@, buffered(*old(src))).rest,
            old(self)@.wf() ==> final(self)@.wf(),
    {
        match self.kind {
            Kind::Length(remaining) => {
                if remaining == 0 {
                    Ok(Some(PayloadItem::Eof))
                } else {
                    if src.is_empty() {
                        return Ok(None);
                    }
                    let len: u64 = src.len() as u64;
                    let buf: Bytes;
                    if remaining > len {
                        buf = src.take().freeze();
                        self.kind = Kind::Length(remaining - len);
                    } else {
                        buf = src.split_to(remaining as usize).freeze();
                        self.kind = Kind::Length(0);
                    }
                    Ok(Some(PayloadItem::Chunk(buf)))
                }
            },
            Kind::Chunked(mut state, mut size) => {
                let ghost whole = decoded(old(self)@, buffered(*old(src)));
                loop
                    invariant
                        self.kind == Kind::Chunked(state, size),
                        decoded_chunked(state, size, buffered(*src)) == whole,
                        whole == decoded(old(self)@, buffered(*old(src))),
                        old(self)@.wf() ==> state.wf(size),
                    decreases buffered(*src).len(),
                {
                    let mut buf: Option<Bytes> = None;
                    // advances the chunked state
                    match state.step(src, &mut size, &mut buf) {
                        Err(e) => {
                            return Err(e);
                        },
                        Ok(Async::NotReady) => {
                            return Ok(None);
                        },
                        Ok(Async::Ready(next)) => {
                            state = next;
                        },
                    }
                    self.kind = Kind::Chunked(state, size);
                    if state == ChunkedState::End {
                        return Ok(Some(PayloadItem::Eof));
                    }
                    if let Some(buf) = buf {
                        return Ok(Some(PayloadItem::Chunk(buf)));
                    }
                    if src.is_empty() {
                        return Ok(None);
                    }
                }
            },
            Kind::Eof => {
                if src.is_empty() {
                    Ok(None)
                } else {
                    Ok(Some(PayloadItem::Chunk(src.take().freeze())))
                }
            },
        }
    }
}

} // verus!
