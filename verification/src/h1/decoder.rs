//! Requests, as the connection delivers them.

use std::ops::Deref;

use bytes::{Bytes, BytesMut};
use http::{Method, Uri};
use vstd::prelude::*;
use vstd::string::*;

use crate::error::ParseError;
use crate::external::buffer::buffered;
use crate::external::head::{head_view, http_head, parse_head};
use crate::external::message::{is_method, method_bytes, parse_uri, parsed_uri};
use crate::h1::chunked::ChunkedState;
use crate::h1::fields::{
    any_bad, asks_upgrade, collected, content_length, fields_at, finds_long_name, is_chunked,
    persists, reaches_long_name, read_headers, Field, Headers,
};
use crate::h1::head::{HeadView, HeaderIndex, RawHead, MAX_NAME_LEN};
use crate::h1::payload::{Kind, PayloadDecoder};
use crate::h1::request_laws::law_more_input;
use crate::request::{Request, RequestView, Version};
use crate::text::same;

verus! {

/// How much data may wait unread behind a request that has no body.
pub const MAX_BUFFER_SIZE: usize = 131_072;

/// How many headers a request may have.
pub const MAX_HEADERS: usize = 96;

/// The result of one call of [`RequestDecoder::decode`], with all it changes.
pub struct Framed {
    /// What is returned.
    pub result: Result<Option<(RequestView, Option<Kind>)>, ParseError>,
    /// What is left in the buffer.
    pub rest: Seq<u8>,
}

/// What a decoder of a body, if there is one, starts with.
pub open spec fn decoder_view(decoder: Option<PayloadDecoder>) -> Option<Kind> {
    match decoder {
        Some(decoder) => Some(decoder@),
        None => None,
    }
}

/// What the caller sees of a returned request.
pub open spec fn request_view(
    r: Result<Option<(Request, Option<PayloadDecoder>)>, ParseError>,
) -> Result<Option<(RequestView, Option<Kind>)>, ParseError> {
    match r {
        Ok(Some(framed)) => Ok(Some((framed.0@, decoder_view(framed.1)))),
        Ok(None) => Ok(None),
        Err(e) => Err(e),
    }
}

/// How the body of a request is found, by what its headers say, its method, and
/// how much is left in the buffer behind the head: the chunked coding wins over
/// a length, a length over an upgrade, and without any of these there is no body.
pub open spec fn body_kind(
    chunked: bool,
    length: Option<u64>,
    upgrade: bool,
    method: Seq<u8>,
    unread: nat,
) -> Result<Option<Kind>, ParseError> {
    if chunked {
        Ok(Some(Kind::Chunked(ChunkedState::Size, 0)))
    } else if length is Some {
        Ok(Some(Kind::Length(length->0)))
    } else if upgrade || method == "CONNECT".spec_bytes() {
        Ok(Some(Kind::Eof))
    } else if unread >= MAX_BUFFER_SIZE {
        Err(ParseError::TooLarge)
    } else {
        Ok(None)
    }
}

/// How the body of a request with these headers is found.
pub open spec fn body_of(fields: Seq<Field>, method: Seq<u8>, unread: nat) -> Result<
    Option<Kind>,
    ParseError,
> {
    body_kind(is_chunked(fields), content_length(fields), asks_upgrade(fields), method, unread)
}

/// The version that a minor version stands for.
pub open spec fn version_of(minor: u8) -> Version {
    if minor == 1 {
        Version::HTTP_11
    } else {
        Version::HTTP_10
    }
}

/// The headers of a head at the front of `src`.
pub open spec fn fields_of(head: HeadView, src: Seq<u8>) -> Seq<Field> {
    fields_at(src.take(head.len as int), head.headers)
}

/// The request with this head.
pub open spec fn request_of(head: HeadView, uri: Uri, src: Seq<u8>) -> RequestView {
    RequestView {
        method: head.method,
        uri,
        version: version_of(head.version),
        headers: collected(fields_of(head, src)),
        keep_alive: persists(version_of(head.version), fields_of(head, src)),
    }
}

/// The result for a head at the front of `src` with a valid method and target.
/// The head is removed.
pub open spec fn built(head: HeadView, uri: Uri, src: Seq<u8>) -> Framed {
    let rest = src.skip(head.len as int);
    Framed {
        result: if any_bad(src.take(head.len as int), head.headers) {
            Err(ParseError::Header)
        } else {
            match body_of(fields_of(head, src), head.method, rest.len()) {
                Ok(kind) => Ok(Some((request_of(head, uri, src), kind))),
                Err(e) => Err(e),
            }
        },
        rest,
    }
}

/// The result for a head at the front of `src`. If its method or its target is
/// not valid, nothing is removed.
pub open spec fn assembled(head: HeadView, src: Seq<u8>) -> Framed {
    if !is_method(head.method) {
        Framed { result: Err(ParseError::Method), rest: src }
    } else {
        match parsed_uri(head.path) {
            Ok(uri) => built(head, uri, src),
            Err(e) => Framed { result: Err(ParseError::Uri(e)), rest: src },
        }
    }
}

/// One call of the decoder on `src`, for what the parser made of `src`.
pub open spec fn framed(
    parsed: Result<Option<HeadView>, httparse::Error>,
    src: Seq<u8>,
) -> Framed {
    match parsed {
        Ok(Some(head)) => assembled(head, src),
        Ok(None) => Framed { result: Ok(None), rest: src },
        Err(e) => Framed { result: Err(ParseError::Syntax(e)), rest: src },
    }
}

/// One call of the decoder on `src`.
pub open spec fn decoded_request(src: Seq<u8>) -> Framed {
    framed(http_head(src, MAX_HEADERS as nat), src)
}

/// The result of a call on a buffer with a complete head, had `more` stood in
/// the buffer behind it.
pub open spec fn with_more(f: Framed, more: Seq<u8>) -> Framed {
    Framed {
        result: match f.result {
            Ok(Some((_, None))) if f.rest.len() + more.len() >= MAX_BUFFER_SIZE => Err(
                ParseError::TooLarge,
            ),
            _ => f.result,
        },
        rest: f.rest + more,
    }
}

/// Whether `src` starts with a complete head.
pub open spec fn has_head(src: Seq<u8>) -> bool {
    http_head(src, MAX_HEADERS as nat) matches Ok(Some(_))
}

/// Whether decoding this head at the front of `src` comes to a header name that
/// is too long. It does not if the method, the target or a header before it is
/// refused.
pub open spec fn stops_at_name(head: HeadView, src: Seq<u8>) -> bool {
    is_method(head.method) && parsed_uri(head.path) is Ok && reaches_long_name(
        src.take(head.len as int),
        head.headers,
    )
}

/// Whether decoding `src` comes to a header name that is too long.
pub open spec fn has_long_name(src: Seq<u8>) -> bool {
    match http_head(src, MAX_HEADERS as nat) {
        Ok(Some(head)) => stops_at_name(head, src),
        _ => false,
    }
}

/// Chooses the decoder for the body of a request.
pub fn choose_body(headers: &Headers, method: &Method, unread: usize) -> (r: Result<
    Option<PayloadDecoder>,
    ParseError,
>)
    ensures
        match r {
            Ok(decoder) => Ok::<_, ParseError>(decoder_view(decoder)),
            Err(e) => Err(e),
        } == body_kind(
            headers.chunked,
            headers.content_length,
            headers.has_upgrade,
            method_bytes(*method),
            unread as nat,
        ),
{
    // https://tools.ietf.org/html/rfc7230#section-3.3.3
    if headers.chunked {
        // Chunked encoding
        Ok(Some(PayloadDecoder::chunked()))
    } else if let Some(len) = headers.content_length {
        // Content-Length
        Ok(Some(PayloadDecoder::length(len)))
    } else if headers.has_upgrade || same(method.as_str().as_bytes(), "CONNECT".as_bytes()) {
        // upgrade(websocket) or connect
        Ok(Some(PayloadDecoder::eof()))
    } else if unread >= MAX_BUFFER_SIZE {
        Err(ParseError::TooLarge)
    } else {
        Ok(None)
    }
}

/// The version that a minor version stands for.
pub fn read_version(minor: u8) -> (r: Version)
    ensures
        r == version_of(minor),
{
    if minor == 1 {
        Version::HTTP_11
    } else {
        Version::HTTP_10
    }
}

/// The places of the headers of a head, and some more places behind them.
fn header_places(head: &RawHead) -> (r: [HeaderIndex; MAX_HEADERS])
    requires
        forall|i: int|
            0 <= i < head.headers@.len() ==> (#[trigger] head.headers@[i]).lies_within(
                head.base,
                head.len,
            ),
        head.headers@.len() <= MAX_HEADERS,
    ensures
        r@.take(head.headers@.len() as int) == head@.headers,
{
    let mut places: [HeaderIndex; MAX_HEADERS] = [HeaderIndex {
        name: (0, 0),
        value: (0, 0),
    };MAX_HEADERS];
    HeaderIndex::record(head.base, head.headers.as_slice(), &mut places);
    assert(places@.take(head.headers@.len() as int) =~= head@.headers);
    places
}

/// Takes a head with a valid method and target off the front of `src`, and
/// makes a request of it.
pub fn build(head: &RawHead, method: Method, uri: Uri, src: &mut BytesMut) -> (r: Result<
    Option<(Request, Option<PayloadDecoder>)>,
    ParseError,
>)
    requires
        head.wf(buffered(*old(src))),
        !reaches_long_name(buffered(*old(src)).take(head.len as int), head@.headers),
        head.headers@.len() <= MAX_HEADERS,
        method_bytes(method) == head.method@,
    ensures
        request_view(r) == built(head@, uri, buffered(*old(src))).result,
        buffered(*final(src)) == built(head@, uri, buffered(*old(src))).rest,
{
    let ghost whole = buffered(*src);
    let version: Version = read_version(head.version);
    let places: [HeaderIndex; MAX_HEADERS] = header_places(head);
    let indices: &[HeaderIndex] = &places[0..head.headers.len()];
    assert(indices@ =~= head@.headers);
    let slice: Bytes = src.split_to(head.len).freeze();
    match read_headers(&slice, indices, version) {
        Ok(headers) => {
            assert(headers.describes(version, fields_of(head@, whole)));
            match choose_body(&headers, &method, src.len()) {
                Ok(decoder) => Ok(
                    Some(
                        (
                            Request::new(method, uri, version, headers.map, headers.keep_alive),
                            decoder,
                        ),
                    ),
                ),
                Err(e) => Err(e),
            }
        },
        Err(e) => Err(e),
    }
}

/// Makes a request of a head at the front of `src`.
pub fn assemble(head: &RawHead, src: &mut BytesMut) -> (r: Result<
    Option<(Request, Option<PayloadDecoder>)>,
    ParseError,
>)
    requires
        head.wf(buffered(*old(src))),
        !stops_at_name(head@, buffered(*old(src))),
        head.headers@.len() <= MAX_HEADERS,
    ensures
        request_view(r) == assembled(head@, buffered(*old(src))).result,
        buffered(*final(src)) == assembled(head@, buffered(*old(src))).rest,
{
    let method: Method = match Method::from_bytes(head.method.as_slice()) {
        Ok(method) => method,
        Err(_) => {
            return Err(ParseError::Method);
        },
    };
    let uri: Uri = match parse_uri(head.path.as_str()) {
        Ok(uri) => uri,
        Err(e) => {
            return Err(ParseError::from(e));
        },
    };
    build(head, method, uri, src)
}

/// Makes a request of what the parser made of `src`.
pub fn frame(parsed: Result<Option<RawHead>, httparse::Error>, src: &mut BytesMut) -> (r: Result<
    Option<(Request, Option<PayloadDecoder>)>,
    ParseError,
>)
    requires
        parsed matches Ok(Some(head)) ==> head.wf(buffered(*old(src))) && !stops_at_name(
            head@,
            buffered(*old(src)),
        ) && head.headers@.len() <= MAX_HEADERS,
    ensures
        request_view(r) == framed(head_view(parsed), buffered(*old(src))).result,
        buffered(*final(src)) == framed(head_view(parsed), buffered(*old(src))).rest,
{
    match parsed {
        Ok(Some(head)) => assemble(&head, src),
        Ok(None) => Ok(None),
        Err(e) => Err(ParseError::from(e)),
    }
}

/// Whether decoding a head at the front of `src` comes to a header name that is
/// too long.
pub fn meets_long_name(head: &RawHead, src: &[u8]) -> (r: bool)
    requires
        head.wf(src@),
        head.headers@.len() <= MAX_HEADERS,
    ensures
        r == stops_at_name(head@, src@),
{
    if Method::from_bytes(head.method.as_slice()).is_err() || parse_uri(
        head.path.as_str(),
    ).is_err() {
        return false;
    }
    let places: [HeaderIndex; MAX_HEADERS] = header_places(head);
    let indices: &[HeaderIndex] = &places[0..head.headers.len()];
    assert(indices@ =~= head@.headers);
    assert(src@.take(head.len as int) =~= src@.subrange(0, head.len as int));
    finds_long_name(&src[0..head.len], indices)
}

/// Decodes requests.
#[derive(Debug)]
pub struct RequestDecoder {}

impl Default for RequestDecoder {
    fn default() -> (r: RequestDecoder)
        ensures
            r == (RequestDecoder {  }),
    {
        RequestDecoder {  }
    }
}

impl RequestDecoder {
    /// Takes a request off the front of `src`, and tells how its body is to be
    /// decoded. `None` asks for more input.
    ///
    /// Decoding must not come to a header name of [`MAX_NAME_LEN`] bytes or more;
    /// see [`RequestDecoder::try_decode`] for input about which that is not known.
    pub fn decode(&mut self, src: &mut BytesMut) -> (r: Result<
        Option<(Request, Option<PayloadDecoder>)>,
        ParseError,
    >)
        requires
            buffered(*old(src)).len() < MAX_NAME_LEN || !has_long_name(buffered(*old(src))),
        ensures
            request_view(r) == decoded_request(buffered(*old(src))).result,
            buffered(*final(src)) == decoded_request(buffered(*old(src))).rest,
            http_head(buffered(*old(src)), MAX_HEADERS as nat) matches Ok(Some(head)) ==> head.wf(
                buffered(*old(src)),
            ) && head.headers.len() <= MAX_HEADERS,
            has_head(buffered(*old(src))) ==> forall|more: Seq<u8>| #[trigger]
                decoded_request(buffered(*old(src)) + more) == with_more(
                    decoded_request(buffered(*old(src))),
                    more,
                ),
            !has_long_name(buffered(*old(src))),
            *final(self) == *old(self),
    {
        let ghost whole = buffered(*src);
        let parsed: Result<Option<RawHead>, httparse::Error> = parse_head(
            (*src).deref(),
            MAX_HEADERS,
        );
        proof {
            if let Ok(Some(head)) = head_view(parsed) {
                assert forall|more: Seq<u8>| #[trigger]
                    decoded_request(whole + more) == with_more(decoded_request(whole), more) by {
                    law_more_input(head, whole, more);
                }
            }
        }
        frame(parsed, src)
    }

    /// Takes a request off the front of `src` as [`RequestDecoder::decode`]
    /// does. If decoding comes to a header name that is too long, there is no
    /// result, and nothing is removed.
    pub fn try_decode(&mut self, src: &mut BytesMut) -> (r: Option<
        Result<Option<(Request, Option<PayloadDecoder>)>, ParseError>,
    >)
        ensures
            match r {
                Some(r) => !has_long_name(buffered(*old(src))) && request_view(r)
                    == decoded_request(buffered(*old(src))).result && buffered(*final(src))
                    == decoded_request(buffered(*old(src))).rest,
                None => has_long_name(buffered(*old(src))) && *final(src) == *old(src),
            },
            http_head(buffered(*old(src)), MAX_HEADERS as nat) matches Ok(Some(head)) ==> head.wf(
                buffered(*old(src)),
            ) && head.headers.len() <= MAX_HEADERS,
            *final(self) == *old(self),
    {
        if src.len() >= MAX_NAME_LEN {
            if let Ok(Some(head)) = parse_head((*src).deref(), MAX_HEADERS) {
                if meets_long_name(&head, (*src).deref()) {
                    return None;
                }
            }
        }
        Some(self.decode(src))
    }
}

} // verus!
