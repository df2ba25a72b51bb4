//! Decoded requests.

use http::header::{HeaderMap, HeaderValue};
use http::{Method, Uri};
use vstd::prelude::*;
use vstd::string::*;

use crate::error::ParseError;
use crate::external::message::{
    get_header, header_values, is_visible, method_bytes, uri_path, value_bytes,
};
use crate::text::{contains, lowercase, occurs, same, to_lowercase};

verus! {

/// The version of a message.
#[allow(non_camel_case_types)]
#[derive(Debug, Clone, Copy, PartialEq, Eq, Structural)]
pub enum Version {
    /// `HTTP/1.0`
    HTTP_10,
    /// `HTTP/1.1`
    HTTP_11,
}

/// The head of a request.
#[derive(Debug)]
pub struct Request {
    method: Method,
    uri: Uri,
    version: Version,
    headers: HeaderMap<HeaderValue>,
    keep_alive: bool,
}

/// What a [`Request`] holds.
pub struct RequestView {
    /// The method.
    pub method: Seq<u8>,
    /// The request target.
    pub uri: Uri,
    /// The version.
    pub version: Version,
    /// The values of the headers under each name.
    pub headers: Map<Seq<u8>, Seq<Seq<u8>>>,
    /// Whether the connection may serve another request afterwards.
    pub keep_alive: bool,
}

impl RequestView {
    /// The first value under a header name, if there is one.
    pub open spec fn header(self, name: Seq<u8>) -> Option<Seq<u8>> {
        if self.headers.dom().contains(name) {
            Some(self.headers[name][0])
        } else {
            None
        }
    }

    /// Whether the request asks for a connection upgrade.
    pub open spec fn wants_upgrade(self) -> bool {
        match self.header("connection".spec_bytes()) {
            Some(v) if is_visible(v) => occurs("upgrade".spec_bytes(), lowercase(v)),
            _ => self.method == "CONNECT".spec_bytes(),
        }
    }

    /// Whether the body is in the chunked transfer coding, if that can be told.
    pub open spec fn is_chunked(self) -> Result<bool, ParseError> {
        match self.header("transfer-encoding".spec_bytes()) {
            Some(v) => if is_visible(v) {
                Ok(occurs("chunked".spec_bytes(), lowercase(v)))
            } else {
                Err(ParseError::Header)
            },
            None => Ok(false),
        }
    }
}

impl View for Request {
    type V = RequestView;

    closed spec fn view(&self) -> RequestView {
        RequestView {
            method: method_bytes(self.method),
            uri: self.uri,
            version: self.version,
            headers: header_values(self.headers),
            keep_alive: self.keep_alive,
        }
    }
}

/// A header value as text, if it is text.
pub fn visible(value: &HeaderValue) -> (r: Option<&[u8]>)
    ensures
        match r {
            Some(s) => is_visible(value_bytes(*value)) && s@ == value_bytes(*value),
            None => !is_visible(value_bytes(*value)),
        },
{
    match value.to_str() {
        Ok(s) => Some(s.as_bytes()),
        Err(_) => None,
    }
}

impl Request {
    /// A request with the given parts.
    pub fn new(
        method: Method,
        uri: Uri,
        version: Version,
        headers: HeaderMap<HeaderValue>,
        keep_alive: bool,
    ) -> (r: Request)
        ensures
            r@ == (RequestView {
                method: method_bytes(method),
                uri,
                version,
                headers: header_values(headers),
                keep_alive,
            }),
    {
        Request { method, uri, version, headers, keep_alive }
    }

    /// The method.
    pub fn method(&self) -> (r: &Method)
        ensures
            method_bytes(*r) == self@.method,
    {
        &self.method
    }

    /// The version.
    pub fn version(&self) -> (r: Version)
        ensures
            r == self@.version,
    {
        self.version
    }

    /// The request target.
    pub fn uri(&self) -> (r: &Uri)
        ensures
            *r == self@.uri,
    {
        &self.uri
    }

    /// The path of the request target.
    pub fn path(&self) -> (r: &str)
        ensures
            r@ == uri_path(self@.uri),
    {
        self.uri.path()
    }

    /// The headers.
    pub fn headers(&self) -> (r: &HeaderMap<HeaderValue>)
        ensures
            header_values(*r) == self@.headers,
    {
        &self.headers
    }

    /// Whether the connection should be kept alive after this request.
    pub fn keep_alive(&self) -> (r: bool)
        ensures
            r == self@.keep_alive,
    {
        self.keep_alive
    }

    /// Whether the request asks for a connection upgrade: the first
    /// `Connection` header says so, or, if that is missing or not text, the
    /// method is `CONNECT`.
    pub fn upgrade(&self) -> (r: bool)
        ensures
            r == self@.wants_upgrade(),
            r == match self@.header("connection".spec_bytes()) {
                Some(v) if is_visible(v) => occurs("upgrade".spec_bytes(), lowercase(v)),
                _ => self@.method == "CONNECT".spec_bytes(),
            },
    {
        proof {
            reveal_strlit("connection");
            assert("connection".is_ascii());
            assert(lowercase("connection".spec_bytes()) =~= "connection".spec_bytes());
        }
        if let Some(conn) = get_header(&self.headers, "connection") {
            if let Some(s) = visible(conn) {
                return contains(to_lowercase(s).as_slice(), "upgrade".as_bytes());
            }
        }
        same(self.method.as_str().as_bytes(), "CONNECT".as_bytes())
    }

    /// Whether the body is in the chunked transfer coding, by the first
    /// `Transfer-Encoding` header, which has to be text.
    pub fn chunked(&self) -> (r: Result<bool, ParseError>)
        ensures
            r == self@.is_chunked(),
            r == match self@.header("transfer-encoding".spec_bytes()) {
                Some(v) => if is_visible(v) {
                    Ok::<_, ParseError>(occurs("chunked".spec_bytes(), lowercase(v)))
                } else {
                    Err(ParseError::Header)
                },
                None => Ok(false),
            },
    {
        proof {
            reveal_strlit("transfer-encoding");
            assert("transfer-encoding".is_ascii());
            assert(lowercase("transfer-encoding".spec_bytes())
                =~= "transfer-encoding".spec_bytes());
        }
        match get_header(&self.headers, "transfer-encoding") {
            Some(encodings) => match visible(encodings) {
                Some(s) => Ok(contains(to_lowercase(s).as_slice(), "chunked".as_bytes())),
                None => Err(ParseError::Header),
            },
            None => Ok(false),
        }
    }
}

} // verus!
