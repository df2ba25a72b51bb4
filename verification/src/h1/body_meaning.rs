//! What a body is, in terms of the bytes that it came in.

use vstd::prelude::*;

use crate::ascii::{CR, LF};
use crate::external::buffer::frozen;
use crate::h1::chunked::{hex_value, ChunkError, ChunkedState};
use crate::h1::laws::{
    body_text, crlf, drained, hex_number, is_hex, is_size_tail, law_chunked_is_scanned,
    law_decode_undoes_encode, lemma_decode_byte, lemma_scan_piece, lemma_wrapped_digit, scanned,
    ChunkText, Drained, Ending, Scanned,
};
use crate::h1::payload::{decoded, item_view, Decoded, Item, Kind, PayloadItem};

verus! {

/// The hexadecimal digit for a number below sixteen, in either case.
pub open spec fn hex_char(n: nat, upper: bool) -> u8 {
    if n < 10 {
        (0x30 + n) as u8
    } else if upper {
        (0x41 + n - 10) as u8
    } else {
        (0x61 + n - 10) as u8
    }
}

/// The digits `0` to `9`, `a` to `f` and `A` to `F` have the values 0 to 9, 10 to
/// 15 and 10 to 15, and no other byte has one.
pub proof fn law_hex_digits(b: u8, n: u8)
    ensures
        hex_value(b) == Some(n) <==> n < 16 && (b == hex_char(n as nat, false) || b == hex_char(
            n as nat,
            true,
        )),
{
}

/// A number in hexadecimal, without leading zeros.
pub open spec fn hex_text(n: nat, upper: bool) -> Seq<u8>
    decreases n,
{
    if n < 16 {
        seq![hex_char(n, upper)]
    } else {
        hex_text(n / 16, upper).push(hex_char(n % 16, upper))
    }
}

/// Reading a number in hexadecimal undoes writing it.
pub proof fn law_hex_text(n: nat, upper: bool)
    ensures
        is_hex(hex_text(n, upper)),
        hex_number(hex_text(n, upper)) == n,
    decreases n,
{
    let text = hex_text(n, upper);
    let front = text.drop_last();
    let d = (n % 16) as u8;
    law_hex_digits(hex_char(d as nat, upper), d);
    assert(text.last() == hex_char(d as nat, upper));
    if n < 16 {
        assert(front =~= Seq::empty());
        assert(hex_number(front) == 0);
    } else {
        law_hex_text(n / 16, upper);
        assert(front =~= hex_text(n / 16, upper));
    }
    assert forall|i: int| 0 <= i < text.len() implies (#[trigger] hex_value(text[i])) is Some by {
        if i < front.len() {
            assert(hex_value(front[i]) is Some);
        }
    }
}

/// Pieces of data as a sender writes them: each one behind its length in
/// hexadecimal, and a chunk of size zero behind them.
pub open spec fn encoded(pieces: Seq<Seq<u8>>, upper: bool) -> Seq<u8>
    decreases pieces.len(),
{
    if pieces.len() == 0 {
        seq![0x30u8, 0x0d, 0x0a, 0x0d, 0x0a]
    } else {
        hex_text(pieces[0].len(), upper) + seq![0x0du8, 0x0a] + pieces[0] + seq![0x0du8, 0x0a]
            + encoded(pieces.skip(1), upper)
    }
}

/// Pieces of any length are handed out as they were sent, and what is behind the
/// body is left.
pub proof fn law_round_trip(pieces: Seq<Seq<u8>>, upper: bool, rest: Seq<u8>)
    requires
        forall|i: int| 0 <= i < pieces.len() ==> 0 < (#[trigger] pieces[i]).len() <= u64::MAX,
    ensures
        drained(Kind::Chunked(ChunkedState::Size, 0), encoded(pieces, upper) + rest) == (Drained {
            chunks: pieces,
            ending: Ending::Finished,
            kind: Kind::Chunked(ChunkedState::End, 0),
            rest,
        }),
{
    let chunks = chunks_of(pieces, upper);
    let last = last_chunk();
    lemma_encoded(pieces, upper);
    assert forall|i: int| 0 <= i < chunks.len() implies (#[trigger] chunks[i]).wf()
        && chunks[i].data.len() > 0 by {
        law_hex_text(pieces[i].len(), upper);
    }
    law_hex_text(0, false);
    assert(last.digits == hex_text(0, false));
    law_decode_undoes_encode(chunks, last, rest);
    assert(chunks.map_values(|c: ChunkText| c.data) =~= pieces);
}

/// The chunks that are written for pieces of data.
spec fn chunks_of(pieces: Seq<Seq<u8>>, upper: bool) -> Seq<ChunkText> {
    pieces.map_values(
        |data: Seq<u8>|
            ChunkText { digits: hex_text(data.len(), upper), tail: Seq::empty(), data },
    )
}

/// The chunk that ends a body.
spec fn last_chunk() -> ChunkText {
    ChunkText { digits: seq![0x30u8], tail: Seq::empty(), data: Seq::empty() }
}

/// What a sender writes is chunks.
proof fn lemma_encoded(pieces: Seq<Seq<u8>>, upper: bool)
    ensures
        encoded(pieces, upper) == body_text(chunks_of(pieces, upper), last_chunk()),
    decreases pieces.len(),
{
    let chunks = chunks_of(pieces, upper);
    if pieces.len() == 0 {
        assert(encoded(pieces, upper) =~= last_chunk().text());
    } else {
        lemma_encoded(pieces.skip(1), upper);
        assert(chunks.skip(1) =~= chunks_of(pieces.skip(1), upper));
        assert(encoded(pieces, upper) =~= chunks[0].text() + encoded(pieces.skip(1), upper));
    }
}

/// Whether a call in some state goes on behind the byte `b`, as if it had started
/// there in another state.
pub open spec fn goes_on(
    state: ChunkedState,
    size: u64,
    b: u8,
    rest: Seq<u8>,
    next: ChunkedState,
    next_size: int,
) -> bool {
    decoded(Kind::Chunked(state, size), seq![b] + rest) == decoded(
        Kind::Chunked(next, next_size as u64),
        rest,
    )
}

/// Whether a call in some state fails at the byte `b`. The byte is dropped, and
/// the state is kept.
pub open spec fn fails(
    state: ChunkedState,
    size: u64,
    b: u8,
    rest: Seq<u8>,
    e: ChunkError,
) -> bool {
    decoded(Kind::Chunked(state, size), seq![b] + rest) == (Decoded {
        item: Err(e),
        kind: Kind::Chunked(state, size),
        rest,
    })
}

/// A chunk size goes on at a digit, which becomes its last one, and ends at white
/// space, a semicolon or a CR. Every other byte is refused. Behind white space no
/// digit may follow, and an extension goes on up to the next CR.
pub proof fn law_size_bytes(size: u64, b: u8, rest: Seq<u8>)
    ensures
        0x30 <= b <= 0x39 ==> goes_on(
            ChunkedState::Size,
            size,
            b,
            rest,
            ChunkedState::Size,
            (size * 16 + (b - 0x30)) % 0x1_0000_0000_0000_0000,
        ),
        0x41 <= b <= 0x46 ==> goes_on(
            ChunkedState::Size,
            size,
            b,
            rest,
            ChunkedState::Size,
            (size * 16 + (b - 0x41 + 10)) % 0x1_0000_0000_0000_0000,
        ),
        0x61 <= b <= 0x66 ==> goes_on(
            ChunkedState::Size,
            size,
            b,
            rest,
            ChunkedState::Size,
            (size * 16 + (b - 0x61 + 10)) % 0x1_0000_0000_0000_0000,
        ),
        forall|state: ChunkedState|
            #![trigger state.is_framing()]
            state == ChunkedState::Size || state == ChunkedState::SizeLws ==> {
                &&& b == 0x09 || b == 0x20 ==> goes_on(
                    state,
                    size,
                    b,
                    rest,
                    ChunkedState::SizeLws,
                    size as int,
                )
                &&& b == 0x3b ==> goes_on(
                    state,
                    size,
                    b,
                    rest,
                    ChunkedState::Extension,
                    size as int,
                )
                &&& b == 0x0d ==> goes_on(state, size, b, rest, ChunkedState::SizeLf, size as int)
            },
        !(0x30 <= b <= 0x39 || 0x41 <= b <= 0x46 || 0x61 <= b <= 0x66 || b == 0x09 || b == 0x20 || b
            == 0x3b || b == 0x0d) ==> fails(ChunkedState::Size, size, b, rest, ChunkError::Size),
        !(b == 0x09 || b == 0x20 || b == 0x3b || b == 0x0d) ==> fails(
            ChunkedState::SizeLws,
            size,
            b,
            rest,
            ChunkError::SizeLws,
        ),
        goes_on(
            ChunkedState::Extension,
            size,
            b,
            rest,
            if b == 0x0d {
                ChunkedState::SizeLf
            } else {
                ChunkedState::Extension
            },
            size as int,
        ),
{
    lemma_byte(ChunkedState::Size, size, b, rest);
    lemma_byte(ChunkedState::SizeLws, size, b, rest);
    lemma_byte(ChunkedState::Extension, size, b, rest);
}

/// Line breaks are a CR and an LF, and nothing else. Data follows a size that is
/// not zero, and the end of the body one that is.
pub proof fn law_line_breaks(size: u64, b: u8, rest: Seq<u8>)
    ensures
        b == 0x0a && size > 0 ==> goes_on(
            ChunkedState::SizeLf,
            size,
            b,
            rest,
            ChunkedState::Body,
            size as int,
        ),
        b == 0x0a && size == 0 ==> goes_on(
            ChunkedState::SizeLf,
            size,
            b,
            rest,
            ChunkedState::EndCr,
            0,
        ),
        b != 0x0a ==> fails(ChunkedState::SizeLf, size, b, rest, ChunkError::SizeLf),
        b == 0x0d ==> goes_on(
            ChunkedState::BodyCr,
            size,
            b,
            rest,
            ChunkedState::BodyLf,
            size as int,
        ),
        b != 0x0d ==> fails(ChunkedState::BodyCr, size, b, rest, ChunkError::BodyCr),
        b == 0x0a ==> goes_on(
            ChunkedState::BodyLf,
            size,
            b,
            rest,
            ChunkedState::Size,
            size as int,
        ),
        b != 0x0a ==> fails(ChunkedState::BodyLf, size, b, rest, ChunkError::BodyLf),
        b == 0x0d ==> goes_on(
            ChunkedState::EndCr,
            size,
            b,
            rest,
            ChunkedState::EndLf,
            size as int,
        ),
        b != 0x0d ==> fails(ChunkedState::EndCr, size, b, rest, ChunkError::EndCr),
        b == 0x0a ==> decoded(Kind::Chunked(ChunkedState::EndLf, size), seq![b] + rest) == (
        Decoded {
            item: Ok(Some(Item::Eof)),
            kind: Kind::Chunked(ChunkedState::End, size),
            rest,
        }),
        b != 0x0a ==> fails(ChunkedState::EndLf, size, b, rest, ChunkError::EndLf),
{
    lemma_byte(ChunkedState::SizeLf, size, b, rest);
    lemma_byte(ChunkedState::BodyCr, size, b, rest);
    lemma_byte(ChunkedState::BodyLf, size, b, rest);
    lemma_byte(ChunkedState::EndCr, size, b, rest);
    lemma_byte(ChunkedState::EndLf, size, b, rest);
}

/// One framing byte.
proof fn lemma_byte(state: ChunkedState, size: u64, b: u8, rest: Seq<u8>)
    requires
        state.is_framing(),
    ensures
        match state.transition(size, b) {
            Ok((next, next_size)) => if next == ChunkedState::End {
                decoded(Kind::Chunked(state, size), seq![b] + rest) == (Decoded {
                    item: Ok(Some(Item::Eof)),
                    kind: Kind::Chunked(next, next_size),
                    rest,
                })
            } else {
                goes_on(state, size, b, rest, next, next_size as int)
            },
            Err(e) => fails(state, size, b, rest, e),
        },
{
    let input = seq![b] + rest;
    assert(input.skip(1) =~= rest);
    assert(input[0] == b);
    if let Ok((next, next_size)) = state.transition(size, b) {
        if next != ChunkedState::End {
            lemma_decode_byte(state, size, b, next, next_size, rest);
        }
    }
}

/// The smaller one of what is due and what is there.
pub open spec fn smaller(due: u64, there: nat) -> int {
    if due <= there {
        due as int
    } else {
        there as int
    }
}

/// Data is handed out at once, as much of it as is there and due, and the rest is
/// due afterwards.
pub proof fn law_all_that_is_there(due: u64, input: Seq<u8>)
    requires
        due > 0,
        input.len() > 0,
    ensures
        ({
            let n = smaller(due, input.len());
            let left = (due - n) as u64;
            let item = Ok::<_, ChunkError>(Some(Item::Chunk(input.subrange(0, n))));
            let rest = input.subrange(n, input.len() as int);
            &&& decoded(Kind::Length(due), input) == (Decoded {
                item,
                kind: Kind::Length(left),
                rest,
            })
            &&& decoded(Kind::Chunked(ChunkedState::Body, due), input) == (Decoded {
                item,
                kind: Kind::Chunked(
                    if due > input.len() {
                        ChunkedState::Body
                    } else {
                        ChunkedState::BodyCr
                    },
                    left,
                ),
                rest,
            })
            &&& decoded(Kind::Eof, input) == (Decoded {
                item: Ok(Some(Item::Chunk(input))),
                kind: Kind::Eof,
                rest: Seq::empty(),
            })
        }),
{
    let n = smaller(due, input.len());
    assert(input.take(n) =~= input.subrange(0, n));
    assert(input.skip(n) =~= input.subrange(n, input.len() as int));
    if due > input.len() {
        assert(input.subrange(0, n) =~= input);
        assert(input.subrange(n, n) =~= Seq::<u8>::empty());
    }
}

/// Without input a decoder asks for more and stays as it is, unless the body has
/// ended. The end is reported whatever the input, and takes nothing off it.
pub proof fn law_without_data(kind: Kind, input: Seq<u8>)
    ensures
        match kind {
            Kind::Length(0) | Kind::Chunked(ChunkedState::End, _) => decoded(kind, input) == (
            Decoded { item: Ok(Some(Item::Eof)), kind, rest: input }),
            _ => input.len() == 0 ==> decoded(kind, input) == (Decoded {
                item: Ok(None),
                kind,
                rest: input,
            }),
        },
{
}

/// A byte that makes a call fail is dropped, and changes nothing else: the
/// decoder is left as it is in front of that byte.
pub proof fn law_failure_drops_a_byte(state: ChunkedState, size: u64, input: Seq<u8>)
    requires
        state.wf(size),
        decoded(Kind::Chunked(state, size), input).item is Err,
    ensures
        ({
            let d = decoded(Kind::Chunked(state, size), input);
            let used = input.len() - d.rest.len();
            &&& 0 < used <= input.len()
            &&& d.rest == input.subrange(used, input.len() as int)
            &&& decoded(Kind::Chunked(state, size), input.subrange(0, used - 1)) == (Decoded {
                item: Ok(None),
                kind: d.kind,
                rest: Seq::empty(),
            })
        }),
    decreases input.len(),
{
    let d = decoded(Kind::Chunked(state, size), input);
    assert(input.len() > 0);
    assert(state.is_framing());
    let rest = input.skip(1);
    assert(rest =~= input.subrange(1, input.len() as int));
    assert(input =~= seq![input[0]] + rest);
    lemma_byte(state, size, input[0], rest);
    match state.transition(size, input[0]) {
        Err(_) => {
            assert(input.subrange(0, 0) =~= Seq::<u8>::empty());
        },
        Ok((next, next_size)) => {
            if next == ChunkedState::Body {
                assert(rest.len() == 0 || decoded(Kind::Chunked(next, next_size), rest).item
                    matches Ok(Some(Item::Chunk(_))));
            }
            law_failure_drops_a_byte(next, next_size, rest);
            let used = rest.len() - d.rest.len();
            assert(d.rest =~= input.subrange(used + 1, input.len() as int));
            let front = rest.subrange(0, used - 1);
            assert(input.subrange(0, used) =~= seq![input[0]] + front);
            lemma_byte(state, size, input[0], front);
        },
    }
}

/// Whether the size line of a chunk announces its data, as far as 64 bits go.
pub open spec fn announces(c: ChunkText) -> bool {
    &&& is_hex(c.digits)
    &&& is_size_tail(c.tail)
    &&& hex_number(c.digits) % 0x1_0000_0000_0000_0000 == c.data.len()
}

/// Whether these chunks are a body at the front of `input`.
pub open spec fn is_body(
    chunks: Seq<ChunkText>,
    last: ChunkText,
    input: Seq<u8>,
    rest: Seq<u8>,
) -> bool {
    &&& forall|i: int|
        0 <= i < chunks.len() ==> announces(#[trigger] chunks[i]) && chunks[i].data.len() > 0
    &&& announces(last)
    &&& last.data.len() == 0
    &&& input == body_text(chunks, last) + rest
}

/// Nothing but a body is decoded as one: if the end is reported, then what was
/// taken off the buffer is a sequence of chunks with a chunk of size zero behind
/// it, and what was handed out is their data.
pub proof fn law_only_bodies_end(input: Seq<u8>)
    requires
        drained(Kind::Chunked(ChunkedState::Size, 0), input).ending == Ending::Finished,
    ensures
        ({
            let d = drained(Kind::Chunked(ChunkedState::Size, 0), input);
            exists|chunks: Seq<ChunkText>, last: ChunkText| #[trigger]
                is_body(chunks, last, input, d.rest) && d.chunks.flatten() == data_of(chunks)
        }),
{
    law_chunked_is_scanned(ChunkedState::Size, 0, input);
    let (chunks, last) = lemma_parse_body(input);
    assert(is_body(chunks, last, input, drained(Kind::Chunked(ChunkedState::Size, 0), input).rest));
}

/// The data of chunks.
pub open spec fn data_of(chunks: Seq<ChunkText>) -> Seq<u8>
    decreases chunks.len(),
{
    if chunks.len() == 0 {
        Seq::empty()
    } else {
        chunks[0].data + data_of(chunks.skip(1))
    }
}

/// Takes a complete body apart.
proof fn lemma_parse_body(input: Seq<u8>) -> (r: (Seq<ChunkText>, ChunkText))
    requires
        scanned(ChunkedState::Size, 0, input).ending == Ending::Finished,
    ensures
        is_body(r.0, r.1, input, scanned(ChunkedState::Size, 0, input).rest),
        scanned(ChunkedState::Size, 0, input).data == data_of(r.0),
    decreases input.len(),
{
    let s = scanned(ChunkedState::Size, 0, input);
    let (digits, tail, after) = lemma_parse_line(Seq::empty(), 0, input);
    assert(Seq::<u8>::empty() + input =~= input);
    let z = (hex_number(digits) % 0x1_0000_0000_0000_0000) as u64;
    if z == 0 {
        let last = ChunkText { digits, tail, data: Seq::empty() };
        assert(after[0] == CR);
        let lf = after.skip(1);
        assert(s == scanned(ChunkedState::EndLf, 0, lf));
        assert(lf.len() > 0 && lf[0] == LF);
        assert(input =~= last.text() + lf.skip(1));
        assert(s == scanned(ChunkedState::End, 0, lf.skip(1)));
        (Seq::empty(), last)
    } else {
        let n = smaller(z, after.len());
        assert(after.len() > 0);
        lemma_scan_piece(z, after, n);
        let b = after.skip(n);
        assert(b.len() > 0 && b[0] == CR && n == z);
        let lf = b.skip(1);
        let end = scanned(ChunkedState::BodyCr, 0, b);
        assert(end == scanned(ChunkedState::BodyLf, 0, lf));
        assert(lf.len() > 0 && lf[0] == LF);
        let more = lf.skip(1);
        let later = scanned(ChunkedState::Size, 0, more);
        assert(end == later);
        assert(s.data == after.take(n) + later.data && s.rest == later.rest);
        let (chunks, last) = lemma_parse_body(more);
        let c = ChunkText { digits, tail, data: after.take(n) };
        let all = seq![c] + chunks;
        assert(all.skip(1) =~= chunks);
        assert(input =~= c.text() + more);
        assert(body_text(all, last) + s.rest =~= c.text() + (body_text(chunks, last) + s.rest));
        assert forall|i: int| 0 <= i < all.len() implies announces(#[trigger] all[i])
            && all[i].data.len() > 0 by {
            if i > 0 {
                assert(all[i] == chunks[i - 1]);
            }
        }
        (all, last)
    }
}

/// What follows a size line that has been read.
spec fn behind_line(size: u64, after: Seq<u8>) -> Scanned {
    scanned(
        if size > 0 {
            ChunkedState::Body
        } else {
            ChunkedState::EndCr
        },
        size,
        after,
    )
}

/// Takes a size line apart, some digits of which have been read.
proof fn lemma_parse_line(seen: Seq<u8>, size: u64, input: Seq<u8>) -> (r: (
    Seq<u8>,
    Seq<u8>,
    Seq<u8>,
))
    requires
        is_hex(seen),
        size == hex_number(seen) % 0x1_0000_0000_0000_0000,
        scanned(ChunkedState::Size, size, input).ending == Ending::Finished,
    ensures
        is_hex(r.0),
        is_size_tail(r.1),
        seen + input == r.0 + r.1 + crlf() + r.2,
        scanned(ChunkedState::Size, size, input) == behind_line(
            (hex_number(r.0) % 0x1_0000_0000_0000_0000) as u64,
            r.2,
        ),
        r.2.len() < input.len(),
    decreases input.len(),
{
    let b = input[0];
    let rest = input.skip(1);
    if let Some(digit) = hex_value(b) {
        let more = seen.push(b);
        assert(more.drop_last() =~= seen);
        assert forall|i: int| 0 <= i < more.len() implies (#[trigger] hex_value(more[i])) is Some by {
            if i < seen.len() {
                assert(hex_value(seen[i]) is Some);
            }
        }
        let n = hex_number(seen);
        lemma_wrapped_digit(n, digit as nat);
        let next = ((size * 16 + digit) % 0x1_0000_0000_0000_0000) as u64;
        let r = lemma_parse_line(more, next, rest);
        assert(more + rest =~= seen + input);
        r
    } else {
        let (tail, after) = lemma_parse_tail(ChunkedState::Size, size, input);
        assert(seen + input =~= seen + tail + crlf() + after);
        (seen, tail, after)
    }
}

/// Takes apart what follows the digits of a size line.
proof fn lemma_parse_tail(state: ChunkedState, size: u64, input: Seq<u8>) -> (r: (
    Seq<u8>,
    Seq<u8>,
))
    requires
        state == ChunkedState::Size || state == ChunkedState::SizeLws,
        input.len() > 0 ==> hex_value(input[0]) is None || state == ChunkedState::SizeLws,
        scanned(state, size, input).ending == Ending::Finished,
    ensures
        is_size_tail(r.0),
        input == r.0 + crlf() + r.1,
        scanned(state, size, input) == behind_line(size, r.1),
    decreases input.len(),
{
    let b = input[0];
    let rest = input.skip(1);
    if b == 0x0d {
        let line = scanned(ChunkedState::SizeLf, size, rest);
        assert(line.ending == Ending::Finished);
        assert(rest.len() > 0 && rest[0] == LF);
        assert(input =~= Seq::<u8>::empty() + crlf() + rest.skip(1));
        (Seq::empty(), rest.skip(1))
    } else if b == 0x3b {
        let (ext, after) = lemma_parse_extension(size, rest);
        let tail = seq![b] + ext;
        if tail.contains(CR) {
            let i = choose|i: int| 0 <= i < tail.len() && tail[i] == CR;
            assert(ext[i - 1] == CR);
        }
        assert(input =~= seq![b] + rest);
        assert(tail + crlf() + after =~= seq![b] + (ext + crlf() + after));
        (tail, after)
    } else {
        let (later, after) = lemma_parse_tail(ChunkedState::SizeLws, size, rest);
        let tail = seq![b] + later;
        assert(tail.skip(1) =~= later);
        assert(input =~= seq![b] + rest);
        assert(tail + crlf() + after =~= seq![b] + (later + crlf() + after));
        (tail, after)
    }
}

/// Takes a chunk extension apart.
proof fn lemma_parse_extension(size: u64, input: Seq<u8>) -> (r: (Seq<u8>, Seq<u8>))
    requires
        scanned(ChunkedState::Extension, size, input).ending == Ending::Finished,
    ensures
        !r.0.contains(CR),
        input == r.0 + crlf() + r.1,
        scanned(ChunkedState::Extension, size, input) == behind_line(size, r.1),
    decreases input.len(),
{
    let b = input[0];
    let rest = input.skip(1);
    if b == 0x0d {
        let line = scanned(ChunkedState::SizeLf, size, rest);
        assert(line.ending == Ending::Finished);
        assert(rest.len() > 0 && rest[0] == LF);
        assert(input =~= Seq::<u8>::empty() + crlf() + rest.skip(1));
        (Seq::empty(), rest.skip(1))
    } else {
        let (later, after) = lemma_parse_extension(size, rest);
        let ext = seq![b] + later;
        if ext.contains(CR) {
            let i = choose|i: int| 0 <= i < ext.len() && ext[i] == CR;
            assert(later[i - 1] == CR);
        }
        assert(input =~= seq![b] + rest);
        assert(ext + crlf() + after =~= seq![b] + (later + crlf() + after));
        (ext, after)
    }
}

/// The caller gets the data, the end and the errors as they are.
pub proof fn law_item_is_returned(r: Result<Option<PayloadItem>, ChunkError>)
    ensures
        match r {
            Ok(Some(PayloadItem::Chunk(data))) => item_view(r) == Ok::<_, ChunkError>(
                Some(Item::Chunk(frozen(data))),
            ),
            Ok(Some(PayloadItem::Eof)) => item_view(r) == Ok::<_, ChunkError>(Some(Item::Eof)),
            Ok(None) => item_view(r) == Ok::<Option<Item>, ChunkError>(None),
            Err(e) => item_view(r) == Err::<Option<Item>, _>(e),
        },
{
}

} // verus!
