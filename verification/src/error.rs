//! What can be wrong with a message.

use http::uri::InvalidUri;
use vstd::prelude::*;

verus! {

/// A set of errors that can occur during parsing HTTP streams
#[derive(Debug)]
pub enum ParseError {
    /// The head of the message is malformed.
    Syntax(httparse::Error),
    /// An invalid method, such as `GE,T`.
    Method,
    /// An invalid request target.
    Uri(InvalidUri),
    /// An invalid header.
    Header,
    /// A message is too large to be reasonable.
    TooLarge,
    /// The connection that the message comes from failed.
    Io(std::io::Error),
}

impl From<httparse::Error> for ParseError {
    fn from(err: httparse::Error) -> (r: ParseError) {
        ParseError::Syntax(err)
    }
}

impl vstd::std_specs::convert::FromSpecImpl<httparse::Error> for ParseError {
    open spec fn obeys_from_spec() -> bool {
        true
    }

    open spec fn from_spec(err: httparse::Error) -> ParseError {
        ParseError::Syntax(err)
    }
}

impl From<InvalidUri> for ParseError {
    fn from(err: InvalidUri) -> (r: ParseError) {
        ParseError::Uri(err)
    }
}

impl vstd::std_specs::convert::FromSpecImpl<InvalidUri> for ParseError {
    open spec fn obeys_from_spec() -> bool {
        true
    }

    open spec fn from_spec(err: InvalidUri) -> ParseError {
        ParseError::Uri(err)
    }
}

impl From<std::io::Error> for ParseError {
    fn from(err: std::io::Error) -> (r: ParseError) {
        ParseError::Io(err)
    }
}

impl vstd::std_specs::convert::FromSpecImpl<std::io::Error> for ParseError {
    open spec fn obeys_from_spec() -> bool {
        true
    }

    open spec fn from_spec(err: std::io::Error) -> ParseError {
        ParseError::Io(err)
    }
}

/// An error is kept as it is when it becomes a parse error.
pub proof fn law_parse_error_conversions(
    syntax: httparse::Error,
    uri: InvalidUri,
    io: std::io::Error,
)
    ensures
        <ParseError as vstd::std_specs::convert::FromSpec<httparse::Error>>::from_spec(syntax)
            == ParseError::Syntax(syntax),
        <ParseError as vstd::std_specs::convert::FromSpec<InvalidUri>>::from_spec(uri)
            == ParseError::Uri(uri),
        <ParseError as vstd::std_specs::convert::FromSpec<std::io::Error>>::from_spec(io)
            == ParseError::Io(io),
{
}

} // verus!
