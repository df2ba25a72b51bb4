//! What holds of requests, whatever they are.

use http::Uri;
use vstd::prelude::*;
use vstd::string::*;

use crate::error::ParseError;
use crate::external::message::{is_header_name, is_name_char};
use crate::h1::chunked::ChunkedState;
use crate::h1::decoder::{
    assembled, built, decoded_request, fields_of, request_of, with_more, MAX_BUFFER_SIZE,
};
use crate::h1::fields::{
    any_bad, asks_upgrade, collected, connection_persists, content_length, field_at, fields_at,
    is_bad, is_chunked, last_value, persists, Field,
};
use crate::h1::head::{HeadView, HeaderIndex};
use crate::h1::laws::{
    body_text, drained, law_decode_undoes_encode, law_end_is_final, law_until_close, ChunkText, Drained, Ending,
};
use crate::h1::payload::Kind;
use crate::request::{RequestView, Version};
use crate::text::{lower_byte, lowercase};

verus! {

/// The decoder keeps nothing to itself: as long as a head is not complete, it
/// waits in the buffer, and it makes no difference in what pieces it arrives.
pub proof fn law_head_in_pieces(a: Seq<u8>, b: Seq<u8>)
    requires
        decoded_request(a).result == Ok::<Option<(RequestView, Option<Kind>)>, ParseError>(None),
    ensures
        decoded_request(a).rest == a,
        decoded_request(decoded_request(a).rest + b) == decoded_request(a + b),
{
}

/// What stands behind a head makes no difference to the request, and is left
/// in the buffer. The one exception is a request without a body, with too much
/// behind it.
pub proof fn law_more_input(head: HeadView, src: Seq<u8>, more: Seq<u8>)
    requires
        head.wf(src),
    ensures
        assembled(head, src + more) == with_more(assembled(head, src), more),
{
    assert((src + more).take(head.len as int) =~= src.take(head.len as int));
    assert((src + more).skip(head.len as int) =~= src.skip(head.len as int) + more);
}

/// A request is refused for its headers exactly if one of them is bad, whatever
/// the others say; and its head is removed all the same.
pub proof fn law_refused_headers(head: HeadView, uri: Uri, src: Seq<u8>)
    requires
        head.wf(src),
    ensures
        built(head, uri, src).rest == src.skip(head.len as int),
        (built(head, uri, src).result matches Err(ParseError::Header)) <==> exists|i: int|
            0 <= i < head.headers.len() && is_bad(
                src.take(head.len as int),
                #[trigger] head.headers[i],
            ),
{
}

/// The body of a request: the chunked coding overrides a length, which overrides
/// an upgrade. A request with none of these has no body, and is refused if too
/// much data waits behind it; no other request is refused for that.
pub proof fn law_body(head: HeadView, uri: Uri, src: Seq<u8>)
    requires
        head.wf(src),
        !any_bad(src.take(head.len as int), head.headers),
    ensures
        ({
            let fields = fields_of(head, src);
            let upgrade = asks_upgrade(fields) || head.method == "CONNECT".spec_bytes();
            let bare = !is_chunked(fields) && content_length(fields) is None && !upgrade;
            match built(head, uri, src).result {
                Ok(Some((_, Some(Kind::Chunked(state, size))))) => is_chunked(fields) && state
                    == ChunkedState::Size && size == 0,
                Ok(Some((_, Some(Kind::Length(n))))) => !is_chunked(fields) && content_length(
                    fields,
                ) == Some(n),
                Ok(Some((_, Some(Kind::Eof)))) => !is_chunked(fields) && content_length(
                    fields,
                ) is None && upgrade,
                Ok(Some((_, None))) => bare && src.len() - head.len < MAX_BUFFER_SIZE,
                Ok(None) => false,
                Err(e) => bare && src.len() - head.len >= MAX_BUFFER_SIZE && e
                    == ParseError::TooLarge,
            }
        }),
{
}

/// A body is decoded from a state that decoding can reach.
pub proof fn law_body_decoder_is_ready(src: Seq<u8>)
    ensures
        decoded_request(src).result matches Ok(Some((_, Some(kind)))) ==> kind.wf(),
{
}

/// Whether `text` is a head with valid headers, and nothing else.
pub open spec fn is_head(head: HeadView, text: Seq<u8>) -> bool {
    head.wf(text) && head.len == text.len() && !any_bad(text, head.headers)
}

/// A message with a `Content-Length` is a head and so many bytes of body. The
/// body is handed out, and the next message starts where it ends.
pub proof fn law_sized_message(
    head: HeadView,
    uri: Uri,
    text: Seq<u8>,
    body: Seq<u8>,
    next: Seq<u8>,
)
    requires
        is_head(head, text),
        !is_chunked(fields_at(text, head.headers)),
        content_length(fields_at(text, head.headers)) == Some(body.len() as u64),
        body.len() <= u64::MAX,
    ensures
        built(head, uri, text + body + next).result == Ok::<_, ParseError>(
            Some((request_of(head, uri, text), Some(Kind::Length(body.len() as u64)))),
        ),
        drained(
            Kind::Length(body.len() as u64),
            built(head, uri, text + body + next).rest,
        ) == (Drained {
            chunks: if body.len() == 0 {
                Seq::empty()
            } else {
                seq![body]
            },
            ending: Ending::Finished,
            kind: Kind::Length(0),
            rest: next,
        }),
{
    let src = text + body + next;
    let kind = Kind::Length(body.len() as u64);
    assert(text.take(text.len() as int) =~= text);
    assert(src.take(text.len() as int) =~= text);
    assert(src.skip(text.len() as int) =~= body + next);
    assert((body + next).take(body.len() as int) =~= body);
    assert((body + next).skip(body.len() as int) =~= next);
    law_end_is_final(Kind::Length(0), next);
    assert(seq![body] + Seq::<Seq<u8>>::empty() =~= seq![body]);
    assert(drained(Kind::Length(0), next).chunks == Seq::<Seq<u8>>::empty());
}

/// A message in the chunked coding is a head, chunks, and a chunk of size zero.
/// The data of the chunks is handed out, and the next message starts behind
/// the last of them.
pub proof fn law_chunked_message(
    head: HeadView,
    uri: Uri,
    text: Seq<u8>,
    chunks: Seq<ChunkText>,
    last: ChunkText,
    next: Seq<u8>,
)
    requires
        is_head(head, text),
        is_chunked(fields_at(text, head.headers)),
        forall|i: int|
            0 <= i < chunks.len() ==> (#[trigger] chunks[i]).wf() && chunks[i].data.len() > 0,
        last.wf(),
        last.data.len() == 0,
    ensures
        built(head, uri, text + body_text(chunks, last) + next).result == Ok::<_, ParseError>(
            Some((request_of(head, uri, text), Some(Kind::Chunked(ChunkedState::Size, 0)))),
        ),
        drained(
            Kind::Chunked(ChunkedState::Size, 0),
            built(head, uri, text + body_text(chunks, last) + next).rest,
        ) == (Drained {
            chunks: chunks.map_values(|c: ChunkText| c.data),
            ending: Ending::Finished,
            kind: Kind::Chunked(ChunkedState::End, 0),
            rest: next,
        }),
{
    let body = body_text(chunks, last);
    let src = text + body + next;
    assert(text.take(text.len() as int) =~= text);
    assert(src.take(text.len() as int) =~= text);
    assert(src.skip(text.len() as int) =~= body + next);
    law_decode_undoes_encode(chunks, last, next);
}

/// Behind a request for an upgrade, everything that arrives is handed out.
pub proof fn law_upgraded(head: HeadView, uri: Uri, text: Seq<u8>, data: Seq<u8>)
    requires
        is_head(head, text),
        !is_chunked(fields_at(text, head.headers)),
        content_length(fields_at(text, head.headers)) is None,
        asks_upgrade(fields_at(text, head.headers)) || head.method == "CONNECT".spec_bytes(),
    ensures
        built(head, uri, text + data).result == Ok::<_, ParseError>(
            Some((request_of(head, uri, text), Some(Kind::Eof))),
        ),
        drained(Kind::Eof, built(head, uri, text + data).rest).chunks.flatten() == data,
        drained(Kind::Eof, built(head, uri, text + data).rest).ending == Ending::Open,
{
    let src = text + data;
    assert(text.take(text.len() as int) =~= text);
    assert(src.take(text.len() as int) =~= text);
    assert(src.skip(text.len() as int) =~= data);
    law_until_close(data);
}

/// Two headers whose names differ in case alone mean the same.
pub proof fn law_names_ignore_case(
    head: Seq<u8>,
    index: HeaderIndex,
    other_head: Seq<u8>,
    other: HeaderIndex,
)
    requires
        lowercase(index.name_in(head)) == lowercase(other.name_in(other_head)),
        index.value_in(head) == other.value_in(other_head),
    ensures
        field_at(head, index) == field_at(other_head, other),
        is_bad(head, index) == is_bad(other_head, other),
{
    lemma_name_ignores_case(index.name_in(head), other.name_in(other_head));
    lemma_name_ignores_case(other.name_in(other_head), index.name_in(head));
}

/// The case of its letters makes no difference to whether a text is a name.
proof fn lemma_name_ignores_case(a: Seq<u8>, b: Seq<u8>)
    requires
        lowercase(a) == lowercase(b),
    ensures
        is_header_name(a) ==> is_header_name(b),
{
    assert(a.len() == lowercase(a).len() == lowercase(b).len() == b.len());
    assert forall|i: int| is_header_name(a) && 0 <= i < b.len() implies is_name_char(
        #[trigger] b[i],
    ) by {
        assert(lowercase(a)[i] == lower_byte(a[i]));
        assert(lowercase(b)[i] == lower_byte(b[i]));
        assert(is_name_char(a[i]));
    }
}

/// Whether a name occurs among the headers.
pub open spec fn has_name(fields: Seq<Field>, name: Seq<u8>) -> bool {
    exists|i: int| 0 <= i < fields.len() && #[trigger] fields[i].name == name
}

/// The values under a name, in the order of the headers.
pub open spec fn values_of(fields: Seq<Field>, name: Seq<u8>) -> Seq<Seq<u8>> {
    fields.filter(|f: Field| f.name == name).map_values(|f: Field| f.value)
}

/// A request holds all values of all headers, and nothing else. Values of the
/// same name stay in order.
pub proof fn law_headers_are_kept(fields: Seq<Field>, name: Seq<u8>)
    ensures
        collected(fields).dom().contains(name) <==> has_name(fields, name),
        has_name(fields, name) ==> collected(fields)[name] == values_of(fields, name),
    decreases fields.len(),
{
    reveal(Seq::filter);
    let under = |f: Field| f.name == name;
    if fields.len() > 0 {
        let shorter = fields.drop_last();
        law_headers_are_kept(shorter, name);
        assert(fields == shorter.push(fields.last()));
        assert(has_name(shorter, name) ==> has_name(fields, name)) by {
            if has_name(shorter, name) {
                let i = choose|i: int| 0 <= i < shorter.len() && #[trigger] shorter[i].name == name;
                assert(fields[i].name == name);
            }
        }
        if fields.last().name == name {
            assert(fields[fields.len() - 1].name == name);
            if !has_name(shorter, name) {
                lemma_no_values(shorter, name);
            }
            assert(values_of(fields, name) =~= values_of(shorter, name).push(fields.last().value));
        } else {
            if has_name(fields, name) {
                let i = choose|i: int| 0 <= i < fields.len() && #[trigger] fields[i].name == name;
                assert(shorter[i].name == name);
            }
            assert(values_of(fields, name) == values_of(shorter, name));
        }
    }
}

/// A name that does not occur has no values.
pub(crate) proof fn lemma_no_values(fields: Seq<Field>, name: Seq<u8>)
    requires
        !has_name(fields, name),
    ensures
        values_of(fields, name) == Seq::<Seq<u8>>::empty(),
    decreases fields.len(),
{
    reveal(Seq::filter);
    if fields.len() > 0 {
        let shorter = fields.drop_last();
        assert(fields[fields.len() - 1].name != name);
        if has_name(shorter, name) {
            let i = choose|i: int| 0 <= i < shorter.len() && #[trigger] shorter[i].name == name;
            assert(fields[i].name == name);
        }
        lemma_no_values(shorter, name);
    }
    assert(values_of(fields, name) =~= Seq::<Seq<u8>>::empty());
}

/// Where a header occurs more than once, the last value counts for the body and
/// for the connection.
pub proof fn law_last_value_counts(fields: Seq<Field>, name: Seq<u8>)
    ensures
        last_value(fields, name) == if has_name(fields, name) {
            Some(values_of(fields, name).last())
        } else {
            None
        },
        has_name(fields, name) ==> values_of(fields, name).len() > 0,
    decreases fields.len(),
{
    reveal(Seq::filter);
    if fields.len() > 0 {
        let shorter = fields.drop_last();
        law_last_value_counts(shorter, name);
        if fields.last().name == name {
            assert(fields[fields.len() - 1].name == name);
            assert(values_of(fields, name) =~= values_of(shorter, name).push(fields.last().value));
        } else {
            if has_name(shorter, name) {
                let i = choose|i: int| 0 <= i < shorter.len() && #[trigger] shorter[i].name == name;
                assert(fields[i].name == name);
            }
            if has_name(fields, name) {
                let i = choose|i: int| 0 <= i < fields.len() && #[trigger] fields[i].name == name;
                assert(shorter[i].name == name);
            }
            assert(values_of(fields, name) == values_of(shorter, name));
        }
    }
}

/// A header of another name makes no difference, wherever it stands: not to the
/// coding or the length of the body, nor to an upgrade, nor to the connection.
pub proof fn law_other_headers(
    before: Seq<Field>,
    field: Field,
    after: Seq<Field>,
    version: Version,
)
    requires
        field.name != "transfer-encoding".spec_bytes(),
        field.name != "content-length".spec_bytes(),
        field.name != "upgrade".spec_bytes(),
        field.name != "connection".spec_bytes(),
    ensures
        is_chunked(before + seq![field] + after) == is_chunked(before + after),
        content_length(before + seq![field] + after) == content_length(before + after),
        asks_upgrade(before + seq![field] + after) == asks_upgrade(before + after),
        persists(version, before + seq![field] + after) == persists(version, before + after),
{
    lemma_other_header(before, field, after, "transfer-encoding".spec_bytes());
    lemma_other_header(before, field, after, "content-length".spec_bytes());
    lemma_other_header(before, field, after, "upgrade".spec_bytes());
    lemma_other_header(before, field, after, "connection".spec_bytes());
}

/// The last value of a name does not depend on headers of other names.
proof fn lemma_other_header(before: Seq<Field>, field: Field, after: Seq<Field>, name: Seq<u8>)
    requires
        field.name != name,
    ensures
        last_value(before + seq![field] + after, name) == last_value(before + after, name),
    decreases after.len(),
{
    let with = before + seq![field] + after;
    let without = before + after;
    if after.len() == 0 {
        assert(with.drop_last() =~= before);
        assert(without =~= before);
    } else {
        let shorter = after.drop_last();
        lemma_other_header(before, field, shorter, name);
        assert(with.drop_last() =~= before + seq![field] + shorter);
        assert(without.drop_last() =~= before + shorter);
        assert(with.last() == without.last());
    }
}

/// Without a `Connection` header, HTTP/1.1 connections persist and HTTP/1.0
/// connections do not. With one, the last such header decides.
pub proof fn law_keep_alive(version: Version, fields: Seq<Field>)
    ensures
        !has_name(fields, "connection".spec_bytes()) ==> persists(version, fields) == (version
            == Version::HTTP_11),
        has_name(fields, "connection".spec_bytes()) ==> persists(version, fields)
            == connection_persists(version, values_of(fields, "connection".spec_bytes()).last()),
{
    law_last_value_counts(fields, "connection".spec_bytes());
}

} // verus!
