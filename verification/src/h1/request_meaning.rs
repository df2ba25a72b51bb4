//! What a request is, in terms of the bytes that it came in.
//!
//! The laws here tell every part of the result of a call from the request line,
//! the places of the headers and the bytes at those places.

use vstd::prelude::*;
use vstd::string::*;

use crate::error::ParseError;
use crate::external::head::http_head;
use crate::external::message::{is_header_name, is_method, is_name_char, is_visible, parsed_uri};
use crate::h1::chunked::ChunkedState;
use crate::h1::decoder::{
    decoded_request, fields_of, has_long_name, request_view,
};
use crate::h1::fields::{
    any_bad, field_at, fields_at, is_bad, is_chunked, last_value,
};
use crate::h1::head::{HeadView, HeaderIndex};
use crate::h1::payload::{Kind, PayloadDecoder};
use crate::h1::request_laws::{
    has_name, law_headers_are_kept, law_last_value_counts, lemma_no_values, values_of,
};
use crate::request::{Request, RequestView, Version};
use crate::text::{
    denotes, law_occurs, law_parse_undoes_write, lowercase, occurs, occurs_at, parsed_u64, stands_at,
};

verus! {

/// Whether `src` starts with a complete head of at most 96 headers, with these
/// parts.
pub open spec fn starts_with(src: Seq<u8>, head: HeadView) -> bool {
    http_head(src, 96) == Ok::<Option<HeadView>, httparse::Error>(Some(head)) && head.wf(src)
}

/// The bytes of `src` from one place up to another.
pub open spec fn part(src: Seq<u8>, place: (usize, usize)) -> Seq<u8> {
    src.subrange(place.0 as int, place.1 as int)
}

/// Whether a text is a word, but for the case of its letters. The word is in
/// lower case.
pub open spec fn spells(text: Seq<u8>, word: Seq<u8>) -> bool {
    text.len() == word.len() && forall|i: int|
        0 <= i < word.len() ==> #[trigger] word[i] == if 0x41 <= text[i] <= 0x5a {
            text[i] + 0x20
        } else {
            text[i] as int
        }
}

/// Whether a word occurs in a text, letter by letter.
pub open spec fn says(text: Seq<u8>, word: Seq<u8>) -> bool {
    exists|i: int| stands_at(word, text, i)
}

/// Whether a word occurs in a text, whatever the case of the letters there. The
/// word is in lower case.
pub open spec fn says_in_any_case(text: Seq<u8>, word: Seq<u8>) -> bool {
    exists|i: int|
        0 <= i && i + word.len() <= text.len() && #[trigger] spells(
            text.subrange(i, i + word.len()),
            word,
        )
}

/// Whether a text is made of printable ASCII characters and tabs.
pub open spec fn printable(text: Seq<u8>) -> bool {
    forall|i: int| 0 <= i < text.len() ==> 0x20 <= #[trigger] text[i] <= 0x7e || text[i] == 0x09
}

/// Whether a byte may stand in a method.
pub open spec fn may_name_method(b: u8) -> bool {
    ||| b == 0x21 || b == 0x2a || b == 0x2b || b == 0x2d || b == 0x2e
    ||| 0x30 <= b <= 0x39
    ||| 0x41 <= b <= 0x5a
    ||| 0x5e <= b <= 0x7a
    ||| b == 0x7c || b == 0x7e
}

/// Whether a byte may stand in a header name.
pub open spec fn may_name_header(b: u8) -> bool {
    may_name_method(b) || 0x22 <= b <= 0x27
}

/// The values of the headers with a name in `src`, first to last.
pub open spec fn values_under(
    src: Seq<u8>,
    places: Seq<HeaderIndex>,
    name: Seq<u8>,
) -> Seq<Seq<u8>>
    decreases places.len(),
{
    if places.len() == 0 {
        Seq::empty()
    } else {
        let before = values_under(src, places.drop_last(), name);
        if spells(part(src, places.last().name), name) {
            before.push(part(src, places.last().value))
        } else {
            before
        }
    }
}

/// Whether the header at a place in `src` has to be refused: its name is none, or
/// it is a `Content-Length` and no number of 64 bits, or it is a
/// `Transfer-Encoding` and not printable.
pub open spec fn refused_at(src: Seq<u8>, place: HeaderIndex) -> bool {
    let name = part(src, place.name);
    let value = part(src, place.value);
    ||| name.len() == 0
    ||| exists|i: int| 0 <= i < name.len() && !may_name_header(#[trigger] name[i])
    ||| spells(name, "content-length".spec_bytes()) && forall|n: u64| !denotes(value, n as nat)
    ||| spells(name, "transfer-encoding".spec_bytes()) && !printable(value)
}

/// Whether the headers ask for the chunked coding: the last `Transfer-Encoding`
/// names it.
pub open spec fn chunked_in(src: Seq<u8>, places: Seq<HeaderIndex>) -> bool {
    let values = values_under(src, places, "transfer-encoding".spec_bytes());
    values.len() > 0 && says_in_any_case(values.last(), "chunked".spec_bytes())
}

/// A text is a word but for case exactly if it is one in lower case.
proof fn lemma_spells(text: Seq<u8>, word: Seq<u8>)
    ensures
        spells(text, word) <==> lowercase(text) == word,
{
    if spells(text, word) {
        assert(lowercase(text) =~= word);
    }
    if lowercase(text) == word {
        assert forall|i: int| 0 <= i < word.len() implies #[trigger] word[i] == if 0x41 <= text[i]
            <= 0x5a {
            text[i] + 0x20
        } else {
            text[i] as int
        } by {
            assert(word[i] == lowercase(text)[i]);
        }
    }
}

/// A word occurs in any case exactly if it occurs in the text in lower case.
proof fn lemma_says_in_any_case(text: Seq<u8>, word: Seq<u8>)
    ensures
        says_in_any_case(text, word) <==> occurs(word, lowercase(text)),
{
    let low = lowercase(text);
    if says_in_any_case(text, word) {
        let i = choose|i: int|
            0 <= i && i + word.len() <= text.len() && #[trigger] spells(
                text.subrange(i, i + word.len()),
                word,
            );
        let piece = text.subrange(i, i + word.len());
        lemma_spells(piece, word);
        assert(low.subrange(i, i + word.len()) =~= lowercase(piece));
        assert(occurs_at(word, low, i));
    }
    if occurs(word, low) {
        let i = choose|i: int| occurs_at(word, low, i);
        let piece = text.subrange(i, i + word.len());
        assert(low.subrange(i, i + word.len()) =~= lowercase(piece));
        lemma_spells(piece, word);
    }
}

/// What is left out behind the head does not show in the headers.
proof fn lemma_part(src: Seq<u8>, len: int, place: (usize, usize))
    requires
        place.0 <= place.1 <= len <= src.len(),
    ensures
        src.take(len).subrange(place.0 as int, place.1 as int) == part(src, place),
{
    assert(src.take(len).subrange(place.0 as int, place.1 as int) =~= part(src, place));
}

/// The values of the headers are parts of the buffer.
proof fn lemma_values(src: Seq<u8>, len: int, places: Seq<HeaderIndex>, name: Seq<u8>)
    requires
        0 <= len <= src.len(),
        forall|i: int| 0 <= i < places.len() ==> (#[trigger] places[i]).wf(src.take(len)),
    ensures
        values_of(fields_at(src.take(len), places), name) == values_under(src, places, name),
        has_name(fields_at(src.take(len), places), name) <==> values_under(src, places, name).len()
            > 0,
    decreases places.len(),
{
    reveal(Seq::filter);
    let fields = fields_at(src.take(len), places);
    if places.len() > 0 {
        let shorter = places.drop_last();
        assert forall|i: int| 0 <= i < shorter.len() implies (#[trigger] shorter[i]).wf(
            src.take(len),
        ) by {
            assert(shorter[i] == places[i]);
        }
        lemma_values(src, len, shorter, name);
        let last = places.last();
        assert(last == places[places.len() - 1]);
        lemma_part(src, len, last.name);
        lemma_part(src, len, last.value);
        lemma_spells(part(src, last.name), name);
        assert(fields.drop_last() =~= fields_at(src.take(len), shorter));
        assert(fields.last() == field_at(src.take(len), last));
        if fields.last().name == name {
            assert(values_of(fields, name) =~= values_of(fields.drop_last(), name).push(
                fields.last().value,
            ));
        } else {
            assert(values_of(fields, name) == values_of(fields.drop_last(), name));
        }
    } else {
        assert(values_of(fields, name) =~= Seq::<Seq<u8>>::empty());
    }
    law_last_value_counts(fields, name);
    if !has_name(fields, name) {
        lemma_no_values(fields, name);
    }
}

/// The headers of a complete head.
proof fn lemma_head_values(src: Seq<u8>, head: HeadView, name: Seq<u8>)
    requires
        head.wf(src),
    ensures
        values_of(fields_of(head, src), name) == values_under(src, head.headers, name),
        has_name(fields_of(head, src), name) <==> values_under(src, head.headers, name).len() > 0,
        last_value(fields_of(head, src), name) == if values_under(src, head.headers, name).len()
            > 0 {
            Some(values_under(src, head.headers, name).last())
        } else {
            None
        },
{
    lemma_values(src, head.len as int, head.headers, name);
    law_last_value_counts(fields_of(head, src), name);
}

/// A header is refused for what stands in the buffer.
proof fn lemma_refused(src: Seq<u8>, len: int, place: HeaderIndex)
    requires
        0 <= len <= src.len(),
        place.wf(src.take(len)),
    ensures
        is_bad(src.take(len), place) <==> refused_at(src, place),
{
    let name = part(src, place.name);
    let value = part(src, place.value);
    lemma_part(src, len, place.name);
    lemma_part(src, len, place.value);
    lemma_spells(name, "content-length".spec_bytes());
    lemma_spells(name, "transfer-encoding".spec_bytes());
    assert forall|n: u64| denotes(value, n as nat) <==> parsed_u64(value) == Some(n) by {
        law_parse_undoes_write(value, n);
    }
    if parsed_u64(value) is Some {
        assert(denotes(value, parsed_u64(value)->0 as nat));
    }
    assert(is_visible(value) <==> printable(value));
    assert forall|b: u8| is_name_char(b) <==> may_name_header(b) by {}
    if !is_header_name(name) && name.len() > 0 {
        let i = choose|i: int| 0 <= i < name.len() && !is_name_char(#[trigger] name[i]);
        assert(!may_name_header(name[i]));
    }
    if exists|i: int| 0 <= i < name.len() && !may_name_header(#[trigger] name[i]) {
        let i = choose|i: int| 0 <= i < name.len() && !may_name_header(#[trigger] name[i]);
        assert(!is_name_char(name[i]));
    }
}

/// The chunked coding is asked for in the buffer.
proof fn lemma_chunked(src: Seq<u8>, head: HeadView)
    requires
        head.wf(src),
    ensures
        is_chunked(fields_of(head, src)) <==> chunked_in(src, head.headers),
{
    let name = "transfer-encoding".spec_bytes();
    let values = values_under(src, head.headers, name);
    lemma_head_values(src, head, name);
    if values.len() > 0 {
        lemma_says_in_any_case(values.last(), "chunked".spec_bytes());
    }
}

/// Method, target and version of a request are those of its request line,
/// whatever its headers say.
pub proof fn law_request_line(src: Seq<u8>, head: HeadView)
    requires
        starts_with(src, head),
    ensures
        decoded_request(src).result matches Ok(Some((req, _))) ==> {
            &&& req.method == head.method
            &&& parsed_uri(head.path) == Ok::<_, http::uri::InvalidUri>(req.uri)
            &&& req.version == if head.version == 1 {
                Version::HTTP_11
            } else {
                Version::HTTP_10
            }
        },
{
}

/// A request holds, under every name in lower case, the complete values of all
/// headers with that name, byte by byte as they stand in the buffer, in order.
pub proof fn law_header_values(src: Seq<u8>, head: HeadView, name: Seq<u8>)
    requires
        starts_with(src, head),
    ensures
        decoded_request(src).result matches Ok(Some((req, _))) ==> {
            let values = values_under(src, head.headers, name);
            &&& req.headers.dom().contains(name) <==> values.len() > 0
            &&& values.len() > 0 ==> req.headers[name] == values
        },
{
    lemma_head_values(src, head, name);
    law_headers_are_kept(fields_of(head, src), name);
}

/// Whether the connection persists: by the version if there is no `Connection`
/// header. Otherwise the last one has to be printable; then an HTTP/1.1
/// connection persists unless the value says `close` or `upgrade`, and an
/// HTTP/1.0 connection if it says `keep-alive`.
pub proof fn law_connection(src: Seq<u8>, head: HeadView)
    requires
        starts_with(src, head),
    ensures
        decoded_request(src).result matches Ok(Some((req, _))) ==> {
            let values = values_under(src, head.headers, "connection".spec_bytes());
            req.keep_alive == if values.len() == 0 {
                head.version == 1
            } else if !printable(values.last()) {
                false
            } else if head.version == 1 {
                !says(values.last(), "close".spec_bytes()) && !says(
                    values.last(),
                    "upgrade".spec_bytes(),
                )
            } else {
                says(values.last(), "keep-alive".spec_bytes())
            }
        },
{
    let values = values_under(src, head.headers, "connection".spec_bytes());
    lemma_head_values(src, head, "connection".spec_bytes());
    if values.len() > 0 {
        let value = values.last();
        assert(is_visible(value) <==> printable(value));
        law_occurs("close".spec_bytes(), value);
        law_occurs("upgrade".spec_bytes(), value);
        law_occurs("keep-alive".spec_bytes(), value);
    }
}

/// How the body of a request ends. The last `Transfer-Encoding` decides whether
/// it is chunked, at whatever place it stands. Otherwise the last
/// `Content-Length` is its length. Otherwise it lasts until the connection closes
/// if there is an `Upgrade` header anywhere, or the method is `CONNECT`.
/// Otherwise there is none, and less than 128 KiB wait behind the head.
pub proof fn law_body_end(src: Seq<u8>, head: HeadView)
    requires
        starts_with(src, head),
    ensures
        decoded_request(src).result matches Ok(Some((_, kind))) ==> {
            let lengths = values_under(src, head.headers, "content-length".spec_bytes());
            let upgrades = values_under(src, head.headers, "upgrade".spec_bytes());
            match kind {
                Some(Kind::Chunked(state, size)) => chunked_in(src, head.headers) && state
                    == ChunkedState::Size && size == 0,
                Some(Kind::Length(n)) => !chunked_in(src, head.headers) && lengths.len() > 0
                    && denotes(lengths.last(), n as nat),
                Some(Kind::Eof) => !chunked_in(src, head.headers) && lengths.len() == 0 && (
                upgrades.len() > 0 || head.method == "CONNECT".spec_bytes()),
                None => !chunked_in(src, head.headers) && lengths.len() == 0 && upgrades.len() == 0
                    && head.method != "CONNECT".spec_bytes() && src.len() - head.len < 131_072,
            }
        },
{
    let name = "content-length".spec_bytes();
    let lengths = values_under(src, head.headers, name);
    lemma_chunked(src, head);
    lemma_head_values(src, head, name);
    lemma_head_values(src, head, "upgrade".spec_bytes());
    if lengths.len() > 0 {
        let value = lengths.last();
        if parsed_u64(value) is Some {
            law_parse_undoes_write(value, parsed_u64(value)->0);
        } else {
            lemma_bad_length(src.take(head.len as int), head.headers);
        }
    }
}

/// Of headers that are not refused, the last length is a number.
proof fn lemma_bad_length(text: Seq<u8>, places: Seq<HeaderIndex>)
    ensures
        last_value(fields_at(text, places), "content-length".spec_bytes()) matches Some(value)
            ==> parsed_u64(value) is None ==> any_bad(text, places),
    decreases places.len(),
{
    let fields = fields_at(text, places);
    if places.len() > 0 {
        let shorter = places.drop_last();
        lemma_bad_length(text, shorter);
        assert(fields.drop_last() =~= fields_at(text, shorter));
        assert(fields.last() == field_at(text, places[places.len() - 1]));
        if any_bad(text, shorter) {
            let i = choose|i: int| 0 <= i < shorter.len() && is_bad(text, #[trigger] shorter[i]);
            assert(is_bad(text, places[i]));
        }
    }
}

/// A complete head is never met by a call for more input. It is refused for its
/// method, its target, one of its headers, or for the data that waits behind a
/// request without a body, in this order, and for nothing else.
pub proof fn law_refusals(src: Seq<u8>, head: HeadView)
    requires
        starts_with(src, head),
    ensures
        ({
            let bad_method = head.method.len() == 0 || exists|i: int|
                0 <= i < head.method.len() && !may_name_method(#[trigger] head.method[i]);
            let bad_header = exists|i: int|
                0 <= i < head.headers.len() && refused_at(src, #[trigger] head.headers[i]);
            let bare = !chunked_in(src, head.headers) && values_under(
                src,
                head.headers,
                "content-length".spec_bytes(),
            ).len() == 0 && values_under(src, head.headers, "upgrade".spec_bytes()).len() == 0
                && head.method != "CONNECT".spec_bytes();
            match decoded_request(src).result {
                Err(ParseError::Method) => bad_method,
                Err(ParseError::Uri(e)) => !bad_method && parsed_uri(head.path) == Err::<
                    http::Uri,
                    _,
                >(e),
                Err(ParseError::Header) => !bad_method && parsed_uri(head.path) is Ok && bad_header,
                Err(ParseError::TooLarge) => !bad_method && parsed_uri(head.path) is Ok
                    && !bad_header && bare && src.len() - head.len >= 131_072,
                Err(_) => false,
                Ok(Some(_)) => !bad_method && parsed_uri(head.path) is Ok && !bad_header && (bare
                    ==> src.len() - head.len < 131_072),
                Ok(None) => false,
            }
        }),
{
    lemma_method(head.method);
    lemma_chunked(src, head);
    lemma_head_values(src, head, "content-length".spec_bytes());
    lemma_head_values(src, head, "upgrade".spec_bytes());
    lemma_any_refused(src, head);
    if !any_bad(src.take(head.len as int), head.headers) {
        lemma_bad_length(src.take(head.len as int), head.headers);
    }
}

/// The characters of a method.
proof fn lemma_method(method: Seq<u8>)
    ensures
        is_method(method) <==> method.len() > 0 && forall|i: int|
            0 <= i < method.len() ==> may_name_method(#[trigger] method[i]),
{
}

/// One of the headers is refused for what stands in the buffer.
proof fn lemma_any_refused(src: Seq<u8>, head: HeadView)
    requires
        head.wf(src),
    ensures
        any_bad(src.take(head.len as int), head.headers) <==> exists|i: int|
            0 <= i < head.headers.len() && refused_at(src, #[trigger] head.headers[i]),
{
    assert forall|i: int| 0 <= i < head.headers.len() implies (is_bad(
        src.take(head.len as int),
        #[trigger] head.headers[i],
    ) <==> refused_at(src, head.headers[i])) by {
        lemma_refused(src, head.len as int, head.headers[i]);
    }
}

/// The head is taken off the buffer with the request, and with the refusal of a
/// header or of too much data. With every other result the buffer stays as it
/// was. No byte behind the head is touched.
pub proof fn law_consumed(src: Seq<u8>, head: HeadView)
    requires
        starts_with(src, head),
    ensures
        match decoded_request(src).result {
            Ok(Some(_)) | Err(ParseError::Header) | Err(ParseError::TooLarge) => decoded_request(
                src,
            ).rest == src.subrange(head.len as int, src.len() as int),
            _ => decoded_request(src).rest == src,
        },
{
    assert(src.skip(head.len as int) =~= src.subrange(head.len as int, src.len() as int));
}

/// Without a complete head the buffer stays as it was: more input is asked for,
/// or the syntax error is passed on.
pub proof fn law_no_head(src: Seq<u8>)
    ensures
        match http_head(src, 96) {
            Ok(Some(_)) => true,
            Ok(None) => decoded_request(src).result == Ok::<
                Option<(RequestView, Option<Kind>)>,
                ParseError,
            >(None) && decoded_request(src).rest == src,
            Err(e) => decoded_request(src).result == Err::<
                Option<(RequestView, Option<Kind>)>,
                ParseError,
            >(ParseError::Syntax(e)) && decoded_request(src).rest == src,
        },
{
}

/// Decoding stops at a header name of 64 KiB or more, if it comes to one: if
/// method and target are valid and no header before it is refused.
pub proof fn law_long_name(src: Seq<u8>, head: HeadView)
    requires
        starts_with(src, head),
    ensures
        has_long_name(src) <==> head.method.len() > 0 && (forall|i: int|
            0 <= i < head.method.len() ==> may_name_method(#[trigger] head.method[i]))
            && parsed_uri(head.path) is Ok && exists|i: int|
            0 <= i < head.headers.len() && (#[trigger] head.headers[i]).name.1
                - head.headers[i].name.0 >= 65_536 && forall|j: int|
                0 <= j < i ==> !refused_at(src, #[trigger] head.headers[j]),
{
    lemma_method(head.method);
    assert forall|i: int| 0 <= i < head.headers.len() implies (is_bad(
        src.take(head.len as int),
        #[trigger] head.headers[i],
    ) <==> refused_at(src, head.headers[i])) by {
        lemma_refused(src, head.len as int, head.headers[i]);
    }
}

/// A request asks for an upgrade if the first `Connection` value is printable and
/// says `upgrade` in any case. If there is none, or it is not printable, the
/// method has to be `CONNECT`.
pub proof fn law_wants_upgrade(req: RequestView)
    ensures
        ({
            let name = "connection".spec_bytes();
            req.wants_upgrade() == if req.headers.dom().contains(name) && printable(
                req.headers[name][0],
            ) {
                says_in_any_case(req.headers[name][0], "upgrade".spec_bytes())
            } else {
                req.method == "CONNECT".spec_bytes()
            }
        }),
{
    let value = req.headers["connection".spec_bytes()][0];
    assert(is_visible(value) <==> printable(value));
    lemma_says_in_any_case(value, "upgrade".spec_bytes());
}

/// A request is chunked if the first `Transfer-Encoding` value says `chunked` in
/// any case. The value has to be printable.
pub proof fn law_says_chunked(req: RequestView)
    ensures
        ({
            let name = "transfer-encoding".spec_bytes();
            req.is_chunked() == if !req.headers.dom().contains(name) {
                Ok::<_, ParseError>(false)
            } else if printable(req.headers[name][0]) {
                Ok(says_in_any_case(req.headers[name][0], "chunked".spec_bytes()))
            } else {
                Err(ParseError::Header)
            }
        }),
{
    let value = req.headers["transfer-encoding".spec_bytes()][0];
    assert(is_visible(value) <==> printable(value));
    lemma_says_in_any_case(value, "chunked".spec_bytes());
}

/// The caller gets the request and the decoder of its body as they are, and the
/// error as it is.
pub proof fn law_request_is_returned(
    r: Result<Option<(Request, Option<PayloadDecoder>)>, ParseError>,
)
    ensures
        match r {
            Ok(Some((req, Some(decoder)))) => request_view(r) == Ok::<_, ParseError>(
                Some((req@, Some(decoder@))),
            ),
            Ok(Some((req, None))) => request_view(r) == Ok::<_, ParseError>(
                Some((req@, None::<Kind>)),
            ),
            Ok(None) => request_view(r) == Ok::<
                Option<(RequestView, Option<Kind>)>,
                ParseError,
            >(None),
            Err(e) => request_view(r) == Err::<Option<(RequestView, Option<Kind>)>, _>(e),
        },
{
}

} // verus!
