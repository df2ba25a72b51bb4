//! What the headers of a request mean for the connection.

use std::ops::Deref;

use bytes::Bytes;
use http::header::{HeaderMap, HeaderName, HeaderValue};
use vstd::prelude::*;
use vstd::string::*;

use crate::ascii::{DEL, HT, SP};
use crate::error::ParseError;
use crate::external::buffer::frozen;
use crate::external::message::{
    append_header, appended, header_values, is_header_name, is_visible, new_headers, no_values,
    value_bytes,
};
use crate::h1::head::{HeaderIndex, MAX_NAME_LEN};
use crate::request::{visible, Version};
use crate::text::{
    contains, lowercase, occurs, parse_u64, parsed_u64, same, to_lowercase,
};

verus! {

/// A header, with its name in lower case.
pub struct Field {
    pub name: Seq<u8>,
    pub value: Seq<u8>,
}

/// The header at a place in `head`.
pub open spec fn field_at(head: Seq<u8>, index: HeaderIndex) -> Field {
    Field { name: lowercase(index.name_in(head)), value: index.value_in(head) }
}

/// The headers at the given places in `head`.
pub open spec fn fields_at(head: Seq<u8>, indices: Seq<HeaderIndex>) -> Seq<Field> {
    indices.map_values(|index: HeaderIndex| field_at(head, index))
}

/// The value of the last header of a name. It counts where a name occurs more
/// than once.
pub open spec fn last_value(fields: Seq<Field>, name: Seq<u8>) -> Option<Seq<u8>>
    decreases fields.len(),
{
    if fields.len() == 0 {
        None
    } else if fields.last().name == name {
        Some(fields.last().value)
    } else {
        last_value(fields.drop_last(), name)
    }
}

/// The headers, gathered by name.
pub open spec fn collected(fields: Seq<Field>) -> Map<Seq<u8>, Seq<Seq<u8>>>
    decreases fields.len(),
{
    if fields.len() == 0 {
        no_values()
    } else {
        appended(collected(fields.drop_last()), fields.last().name, fields.last().value)
    }
}

/// Whether the header at a place in `head` has to be refused: it has no valid
/// name, or its value makes no sense for the name.
pub open spec fn is_bad(head: Seq<u8>, index: HeaderIndex) -> bool {
    let field = field_at(head, index);
    ||| !is_header_name(index.name_in(head))
    ||| field.name == "content-length".spec_bytes() && parsed_u64(field.value) is None
    ||| field.name == "transfer-encoding".spec_bytes() && !is_visible(field.value)
}

/// Whether any header has to be refused.
pub open spec fn any_bad(head: Seq<u8>, indices: Seq<HeaderIndex>) -> bool {
    exists|i: int| 0 <= i < indices.len() && is_bad(head, #[trigger] indices[i])
}

/// Whether reading the headers in order comes to a name that is too long to be
/// one. It does not if a header before it has to be refused.
pub open spec fn reaches_long_name(head: Seq<u8>, indices: Seq<HeaderIndex>) -> bool {
    exists|i: int|
        0 <= i < indices.len() && !(#[trigger] indices[i]).name_fits() && forall|j: int|
            0 <= j < i ==> !is_bad(head, #[trigger] indices[j])
}

/// The length of the body, by the `Content-Length` header.
pub open spec fn content_length(fields: Seq<Field>) -> Option<u64> {
    match last_value(fields, "content-length".spec_bytes()) {
        Some(value) => parsed_u64(value),
        None => None,
    }
}

/// Whether a `Transfer-Encoding` value names the chunked coding.
pub open spec fn names_chunked(value: Seq<u8>) -> bool {
    occurs("chunked".spec_bytes(), lowercase(value))
}

/// Whether the body is chunked, by the `Transfer-Encoding` header.
pub open spec fn is_chunked(fields: Seq<Field>) -> bool {
    match last_value(fields, "transfer-encoding".spec_bytes()) {
        Some(value) => names_chunked(value),
        None => false,
    }
}

/// Whether a connection persists with this `Connection` value: HTTP/1.0
/// connections if it asks for that, HTTP/1.1 connections unless it asks for
/// something else. A value that is not text ends the connection.
pub open spec fn connection_persists(version: Version, value: Seq<u8>) -> bool {
    is_visible(value) && match version {
        Version::HTTP_10 => occurs("keep-alive".spec_bytes(), value),
        Version::HTTP_11 => !occurs("close".spec_bytes(), value) && !occurs(
            "upgrade".spec_bytes(),
            value,
        ),
    }
}

/// Whether the connection persists after the request, by version and
/// `Connection` header.
pub open spec fn persists(version: Version, fields: Seq<Field>) -> bool {
    match last_value(fields, "connection".spec_bytes()) {
        Some(value) => connection_persists(version, value),
        None => version == Version::HTTP_11,
    }
}

/// Whether there is an `Upgrade` header.
pub open spec fn asks_upgrade(fields: Seq<Field>) -> bool {
    last_value(fields, "upgrade".spec_bytes()) is Some
}

/// Numbers are text.
proof fn lemma_number_is_visible(s: Seq<u8>)
    requires
        parsed_u64(s) is Some,
    ensures
        is_visible(s),
{
    if s[0] == crate::ascii::PLUS {
        assert forall|i: int| 0 <= i < s.len() implies SP <= #[trigger] s[i]
            < DEL by {
            if i > 0 {
                assert(s.skip(1)[i - 1] == s[i]);
            }
        }
    }
}

/// Reads a `Content-Length` value.
pub fn read_content_length(value: &HeaderValue) -> (r: Result<u64, ParseError>)
    ensures
        r == match parsed_u64(value_bytes(*value)) {
            Some(n) => Ok::<_, ParseError>(n),
            None => Err(ParseError::Header),
        },
{
    match visible(value) {
        Some(s) => match parse_u64(s) {
            Some(n) => Ok(n),
            None => Err(ParseError::Header),
        },
        None => {
            proof {
                if parsed_u64(value_bytes(*value)) is Some {
                    lemma_number_is_visible(value_bytes(*value));
                }
            }
            Err(ParseError::Header)
        },
    }
}

/// Reads a `Transfer-Encoding` value: whether it names the chunked coding.
pub fn read_transfer_encoding(value: &HeaderValue) -> (r: Result<bool, ParseError>)
    ensures
        r == if is_visible(value_bytes(*value)) {
            Ok::<_, ParseError>(names_chunked(value_bytes(*value)))
        } else {
            Err(ParseError::Header)
        },
{
    match visible(value) {
        Some(s) => Ok(contains(to_lowercase(s).as_slice(), "chunked".as_bytes())),
        None => Err(ParseError::Header),
    }
}

/// Reads a `Connection` value: whether the connection persists.
pub fn read_connection(version: Version, value: &HeaderValue) -> (r: bool)
    ensures
        r == connection_persists(version, value_bytes(*value)),
{
    match visible(value) {
        Some(conn) => {
            if version == Version::HTTP_10 && contains(conn, "keep-alive".as_bytes()) {
                true
            } else {
                version == Version::HTTP_11 && !(contains(conn, "close".as_bytes()) || contains(
                    conn,
                    "upgrade".as_bytes(),
                ))
            }
        },
        None => false,
    }
}

/// The headers of a request, and what they say.
pub struct Headers {
    /// The headers themselves.
    pub map: HeaderMap<HeaderValue>,
    /// The length of the body, if it is given.
    pub content_length: Option<u64>,
    /// Whether the body is chunked.
    pub chunked: bool,
    /// Whether the connection persists.
    pub keep_alive: bool,
    /// Whether there is an `Upgrade` header.
    pub has_upgrade: bool,
}

impl Headers {
    /// Whether these are the given headers, in a request of that version.
    pub open spec fn describes(&self, version: Version, fields: Seq<Field>) -> bool {
        &&& header_values(self.map) == collected(fields)
        &&& self.content_length == content_length(fields)
        &&& self.chunked == is_chunked(fields)
        &&& self.keep_alive == persists(version, fields)
        &&& self.has_upgrade == asks_upgrade(fields)
    }
}

/// There are no more names than headers.
proof fn lemma_collected_len(fields: Seq<Field>)
    ensures
        collected(fields).dom().finite(),
        collected(fields).dom().len() <= fields.len(),
    decreases fields.len(),
{
    if fields.len() > 0 {
        lemma_collected_len(fields.drop_last());
    }
}

/// The header names with a meaning for the connection are five texts.
proof fn lemma_names_differ()
    ensures
        "content-length".spec_bytes() != "transfer-encoding".spec_bytes(),
        "content-length".spec_bytes() != "connection".spec_bytes(),
        "content-length".spec_bytes() != "upgrade".spec_bytes(),
        "transfer-encoding".spec_bytes() != "connection".spec_bytes(),
        "transfer-encoding".spec_bytes() != "upgrade".spec_bytes(),
        "connection".spec_bytes() != "upgrade".spec_bytes(),
{
    reveal_strlit("content-length");
    reveal_strlit("transfer-encoding");
    reveal_strlit("connection");
    reveal_strlit("upgrade");
    assert("content-length".is_ascii());
    assert("transfer-encoding".is_ascii());
    assert("connection".is_ascii());
    assert("upgrade".is_ascii());
    assert("content-length".spec_bytes().len() == 14);
    assert("transfer-encoding".spec_bytes().len() == 17);
    assert("connection".spec_bytes().len() == 10);
    assert("upgrade".spec_bytes().len() == 7);
}

/// Whether a text is printable ASCII and tabs.
pub fn is_text(s: &[u8]) -> (r: bool)
    ensures
        r == is_visible(s@),
{
    for i in 0..s.len()
        invariant
            forall|j: int| 0 <= j < i ==> SP <= #[trigger] s@[j] < DEL || s@[j] == HT,
    {
        let b: u8 = s[i];
        if (b < SP || b >= DEL) && b != HT {
            return false;
        }
    }
    true
}

/// Whether the header at a place in `text` has to be refused.
pub fn refuses(text: &[u8], index: HeaderIndex) -> (r: bool)
    requires
        index.wf(text@),
        index.name_fits(),
    ensures
        r == is_bad(text@, index),
{
    let name: HeaderName = match HeaderName::from_bytes(&text[index.name.0..index.name.1]) {
        Ok(name) => name,
        Err(_) => {
            return true;
        },
    };
    let value: &[u8] = &text[index.value.0..index.value.1];
    let key: &[u8] = name.as_str().as_bytes();
    proof {
        lemma_names_differ();
    }
    if same(key, "content-length".as_bytes()) {
        parse_u64(value).is_none()
    } else if same(key, "transfer-encoding".as_bytes()) {
        !is_text(value)
    } else {
        false
    }
}

/// Whether reading the headers at the given places in `text` comes to a name
/// that is too long to be one.
pub fn finds_long_name(text: &[u8], indices: &[HeaderIndex]) -> (r: bool)
    requires
        forall|i: int| 0 <= i < indices@.len() ==> (#[trigger] indices@[i]).wf(text@),
    ensures
        r == reaches_long_name(text@, indices@),
{
    for i in 0..indices.len()
        invariant
            forall|j: int| 0 <= j < indices@.len() ==> (#[trigger] indices@[j]).wf(text@),
            forall|j: int|
                0 <= j < i ==> (#[trigger] indices@[j]).name_fits() && !is_bad(text@, indices@[j]),
    {
        let index: HeaderIndex = indices[i];
        assert(indices@[i as int].wf(text@));
        if index.name.1 - index.name.0 >= MAX_NAME_LEN {
            assert(!indices@[i as int].name_fits());
            return true;
        }
        if refuses(text, index) {
            assert(is_bad(text@, indices@[i as int]));
            return false;
        }
    }
    false
}

/// Reads the headers at the given places in `slice`.
pub fn read_headers(slice: &Bytes, indices: &[HeaderIndex], version: Version) -> (r: Result<
    Headers,
    ParseError,
>)
    requires
        indices@.len() <= 0x8000,
        forall|i: int|
            0 <= i < indices@.len() ==> (#[trigger] indices@[i]).wf(frozen(*slice)),
        !reaches_long_name(frozen(*slice), indices@),
    ensures
        match r {
            Ok(headers) => !any_bad(frozen(*slice), indices@) && headers.describes(
                version,
                fields_at(frozen(*slice), indices@),
            ),
            Err(e) => any_bad(frozen(*slice), indices@) && e == ParseError::Header,
        },
{
    let mut map: HeaderMap<HeaderValue> = new_headers();
    let mut content_length: Option<u64> = None;
    let mut chunked: bool = false;
    let mut keep_alive: bool = version != Version::HTTP_10;
    let mut has_upgrade: bool = false;
    let text: &[u8] = (*slice).deref();
    let ghost all = fields_at(text@, indices@);
    let ghost mut told = Headers { map, content_length, chunked, keep_alive, has_upgrade };
    assert(all.take(0) =~= Seq::empty());
    for i in 0..indices.len()
        invariant
            text@ == frozen(*slice),
            all == fields_at(text@, indices@),
            indices@.len() <= 0x8000,
            forall|j: int|
                0 <= j < indices@.len() ==> (#[trigger] indices@[j]).wf(frozen(*slice)),
            !reaches_long_name(text@, indices@),
            forall|j: int| 0 <= j < i ==> !is_bad(text@, #[trigger] indices@[j]),
            told == (Headers { map, content_length, chunked, keep_alive, has_upgrade }),
            told.describes(version, all.take(i as int)),
    {
        let idx: HeaderIndex = indices[i];
        let ghost field = field_at(text@, idx);
        assert(all[i as int] == field);
        assert(all.take(i + 1).drop_last() =~= all.take(i as int));
        assert(all.take(i + 1).last() == field);
        proof {
            lemma_collected_len(all.take(i as int));
            lemma_names_differ();
        }
        assert(indices@[i as int].wf(text@) && indices@[i as int].name_fits());
        let name: HeaderName = match HeaderName::from_bytes(&text[idx.name.0..idx.name.1]) {
            Ok(name) => name,
            Err(_) => {
                assert(is_bad(text@, indices@[i as int]));
                return Err(ParseError::Header);
            },
        };
        let value: HeaderValue = match HeaderValue::from_shared(
            slice.slice(idx.value.0, idx.value.1),
        ) {
            Ok(value) => value,
            Err(_) => {
                assert(false);
                return Err(ParseError::Header);
            },
        };
        let key: &[u8] = name.as_str().as_bytes();
        if same(key, "content-length".as_bytes()) {
            match read_content_length(&value) {
                Ok(len) => {
                    content_length = Some(len);
                },
                Err(e) => {
                    assert(is_bad(text@, indices@[i as int]));
                    return Err(e);
                },
            }
        } else if same(key, "transfer-encoding".as_bytes()) {
            match read_transfer_encoding(&value) {
                Ok(named) => {
                    chunked = named;
                },
                Err(e) => {
                    assert(is_bad(text@, indices@[i as int]));
                    return Err(e);
                },
            }
        } else if same(key, "connection".as_bytes()) {
            keep_alive = read_connection(version, &value);
        } else if same(key, "upgrade".as_bytes()) {
            has_upgrade = true;
        }
        append_header(&mut map, name, value);
        proof {
            told = Headers { map, content_length, chunked, keep_alive, has_upgrade };
        }
    }
    assert(all.take(indices@.len() as int) =~= all);
    Ok(Headers { map, content_length, chunked, keep_alive, has_upgrade })
}

} // verus!
