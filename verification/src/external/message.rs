//! The vocabulary types of the `http` crate.

use bytes::Bytes;
use http::header::{
    HeaderMap, HeaderName, HeaderValue, InvalidHeaderName, InvalidHeaderValueBytes, ToStrError,
};
use http::method::InvalidMethod;
use http::uri::InvalidUri;
use http::{HttpTryFrom, StatusCode};
use vstd::prelude::*;
use vstd::string::*;

use crate::ascii::{DEL, DIGIT_0, DIGIT_9, HT, LOWER_A, LOWER_Z, SP, UPPER_A, UPPER_Z};
use crate::external::buffer::frozen;
use crate::text::lowercase;

verus! {

/// `http::Method`, opaque; see [`method_bytes`].
#[verifier::external_type_specification]
#[verifier::external_body]
pub struct ExMethod(http::Method);

/// `http::method::InvalidMethod`, opaque.
#[verifier::external_type_specification]
#[verifier::external_body]
pub struct ExInvalidMethod(InvalidMethod);

/// `http::Uri`, opaque; see [`uri_path`].
#[verifier::external_type_specification]
#[verifier::external_body]
pub struct ExUri(http::Uri);

/// `http::uri::InvalidUri`, opaque.
#[verifier::external_type_specification]
#[verifier::external_body]
pub struct ExInvalidUri(InvalidUri);

/// `http::header::HeaderName`, opaque; see [`name_bytes`].
#[verifier::external_type_specification]
#[verifier::external_body]
pub struct ExHeaderName(HeaderName);

/// `http::header::InvalidHeaderName`, opaque.
#[verifier::external_type_specification]
#[verifier::external_body]
pub struct ExInvalidHeaderName(InvalidHeaderName);

/// `http::header::HeaderValue`, opaque; see [`value_bytes`].
#[verifier::external_type_specification]
#[verifier::external_body]
pub struct ExHeaderValue(HeaderValue);

/// `http::header::InvalidHeaderValueBytes`, opaque.
#[verifier::external_type_specification]
#[verifier::external_body]
pub struct ExInvalidHeaderValueBytes(InvalidHeaderValueBytes);

/// `http::header::ToStrError`, opaque.
#[verifier::external_type_specification]
#[verifier::external_body]
pub struct ExToStrError(ToStrError);

/// `http::HeaderMap`, opaque; see [`header_values`].
#[verifier::external_type_specification]
#[verifier::external_body]
#[verifier::reject_recursive_types(T)]
pub struct ExHeaderMap<T>(HeaderMap<T>);

/// `http::StatusCode`, opaque.
#[verifier::external_type_specification]
#[verifier::external_body]
pub struct ExStatusCode(StatusCode);

/// `http::Error`, opaque.
#[verifier::external_type_specification]
#[verifier::external_body]
pub struct ExHttpError(http::Error);

/// The text of a method, as `Method::as_str` returns it.
pub uninterp spec fn method_bytes(m: http::Method) -> Seq<u8>;

/// The path of a URI, as `Uri::path` returns it.
pub uninterp spec fn uri_path(u: http::Uri) -> Seq<char>;

/// What `Uri::try_from` makes of a text.
pub uninterp spec fn parsed_uri(s: Seq<char>) -> Result<http::Uri, InvalidUri>;

/// The text of a header name, as `HeaderName::as_str` returns it.
pub uninterp spec fn name_bytes(n: HeaderName) -> Seq<u8>;

/// The bytes that a header value holds.
pub uninterp spec fn value_bytes(v: HeaderValue) -> Seq<u8>;

/// The values that a header map holds under each name, in the order in which
/// they were appended.
pub uninterp spec fn header_values(m: HeaderMap<HeaderValue>) -> Map<Seq<u8>, Seq<Seq<u8>>>;

/// Digits and ASCII letters.
pub open spec fn is_alphanumeric(b: u8) -> bool {
    DIGIT_0 <= b <= DIGIT_9 || UPPER_A <= b <= UPPER_Z || LOWER_A <= b <= LOWER_Z
}

/// The characters of a method: `!*+-.^_|~`, the backquote, digits and letters.
pub open spec fn is_method_char(b: u8) -> bool {
    is_alphanumeric(b) || b == 0x21 || 0x2a <= b <= 0x2b || 0x2d <= b <= 0x2e || 0x5e <= b <= 0x60
        || b == 0x7c || b == 0x7e
}

/// The texts that name a method.
pub open spec fn is_method(s: Seq<u8>) -> bool {
    s.len() > 0 && forall|i: int| 0 <= i < s.len() ==> is_method_char(#[trigger] s[i])
}

/// The characters of a header name: those of a method and `"#$%&'`.
pub open spec fn is_name_char(b: u8) -> bool {
    is_method_char(b) || 0x22 <= b <= 0x27
}

/// The texts that name a header.
pub open spec fn is_header_name(s: Seq<u8>) -> bool {
    s.len() > 0 && forall|i: int| 0 <= i < s.len() ==> is_name_char(#[trigger] s[i])
}

/// The bytes of a header value: all but the control characters, and the tab.
pub open spec fn is_value_byte(b: u8) -> bool {
    b >= SP && b != DEL || b == HT
}

/// The texts that are a header value.
pub open spec fn is_header_value(s: Seq<u8>) -> bool {
    forall|i: int| 0 <= i < s.len() ==> is_value_byte(#[trigger] s[i])
}

/// Whether a header value is text: printable ASCII and tabs.
pub open spec fn is_visible(s: Seq<u8>) -> bool {
    forall|i: int| 0 <= i < s.len() ==> SP <= #[trigger] s[i] < DEL || s[i] == HT
}

/// A header map without values.
pub open spec fn no_values() -> Map<Seq<u8>, Seq<Seq<u8>>> {
    Map::empty()
}

/// A header map with one more value, behind those of the same name.
pub open spec fn appended(
    m: Map<Seq<u8>, Seq<Seq<u8>>>,
    name: Seq<u8>,
    value: Seq<u8>,
) -> Map<Seq<u8>, Seq<Seq<u8>>> {
    m.insert(
        name,
        if m.dom().contains(name) {
            m[name].push(value)
        } else {
            seq![value]
        },
    )
}

/// `Method::from_bytes` accepts one or more method characters and keeps them
/// as they are.
pub assume_specification[ http::Method::from_bytes ](src: &[u8]) -> (r: Result<http::Method, InvalidMethod>)
    ensures
        r is Ok <==> is_method(src@),
        r matches Ok(m) ==> method_bytes(m) == src@,
;

/// `Method::as_str` returns the text of the method.
pub assume_specification[ http::Method::as_str ](m: &http::Method) -> (r: &str)
    ensures
        r.spec_bytes() == method_bytes(*m),
;

/// `Uri::path` returns the path of the URI.
pub assume_specification[ http::Uri::path ](u: &http::Uri) -> (r: &str)
    ensures
        r@ == uri_path(*u),
;

/// `Uri::try_from` parses a request target. Which texts are one is left to it.
#[verifier::external_body]
pub(crate) fn parse_uri(s: &str) -> (r: Result<http::Uri, InvalidUri>)
    ensures
        r == parsed_uri(s@),
{
    <http::Uri as HttpTryFrom<&str>>::try_from(s)
}

/// `HeaderName::from_bytes` accepts one or more header name characters and
/// keeps them in lower case. It panics at names of 64 KiB and more.
pub assume_specification[ HeaderName::from_bytes ](src: &[u8]) -> (r: Result<
    HeaderName,
    InvalidHeaderName,
>)
    requires
        src@.len() < 0x1_0000,
    ensures
        r is Ok <==> is_header_name(src@),
        r matches Ok(n) ==> name_bytes(n) == lowercase(src@),
;

/// `HeaderName::as_str` returns the text of the name.
pub assume_specification[ HeaderName::as_str ](n: &HeaderName) -> (r: &str)
    ensures
        r.spec_bytes() == name_bytes(*n),
;

/// `HeaderValue::from_shared` accepts any bytes without control characters and
/// keeps them as they are.
pub assume_specification[ HeaderValue::from_shared ](src: Bytes) -> (r: Result<
    HeaderValue,
    InvalidHeaderValueBytes,
>)
    ensures
        r is Ok <==> is_header_value(frozen(src)),
        r matches Ok(v) ==> value_bytes(v) == frozen(src),
;

/// `HeaderValue::to_str` returns a value that is printable ASCII as text.
pub assume_specification[ HeaderValue::to_str ](v: &HeaderValue) -> (r: Result<&str, ToStrError>)
    ensures
        r is Ok <==> is_visible(value_bytes(*v)),
        r matches Ok(s) ==> s.spec_bytes() == value_bytes(*v),
;

/// `HeaderMap::new` holds nothing.
#[verifier::external_body]
pub(crate) fn new_headers() -> (r: HeaderMap<HeaderValue>)
    ensures
        header_values(r) == no_values(),
{
    HeaderMap::new()
}

/// `HeaderMap::append` adds a value behind those of the same name, and tells
/// whether there were any. It panics at more than 32768 names.
#[verifier::external_body]
pub(crate) fn append_header(
    headers: &mut HeaderMap<HeaderValue>,
    name: HeaderName,
    value: HeaderValue,
) -> (r: bool)
    requires
        header_values(*old(headers)).dom().finite(),
        header_values(*old(headers)).dom().len() < 0x8000,
    ensures
        header_values(*final(headers)) == appended(
            header_values(*old(headers)),
            name_bytes(name),
            value_bytes(value),
        ),
        r == header_values(*old(headers)).dom().contains(name_bytes(name)),
{
    headers.append(name, value)
}

/// `HeaderMap::get` returns the first value under a name, which it compares
/// without regard to case. Nothing is claimed of texts that are not header
/// names, which it does not always tell from one. It panics at names of 64 KiB
/// and more.
#[verifier::external_body]
pub(crate) fn get_header<'a>(headers: &'a HeaderMap<HeaderValue>, name: &str) -> (r: Option<
    &'a HeaderValue,
>)
    requires
        is_header_name(name.spec_bytes()),
        name.spec_bytes().len() < 0x1_0000,
    ensures
        match r {
            Some(v) => header_values(*headers).dom().contains(lowercase(name.spec_bytes()))
                && value_bytes(*v) == header_values(*headers)[lowercase(name.spec_bytes())][0],
            None => !header_values(*headers).dom().contains(lowercase(name.spec_bytes())),
        },
{
    headers.get(name)
}

} // verus!
