//! What can go wrong while a client opens a WebSocket.

use actix_net::connector::ConnectorError;
use http::header::HeaderValue;
use http::StatusCode;
use vstd::prelude::*;
use vstd::string::*;

use crate::error::ParseError;
use crate::external::connection::{connector_text, io_text};
use crate::ws::protocol::ProtocolError;

verus! {

/// Websocket client error
#[derive(Debug)]
pub enum ClientError {
    /// Invalid url
    InvalidUrl,
    /// Invalid response status
    InvalidResponseStatus(StatusCode),
    /// Invalid upgrade header
    InvalidUpgradeHeader,
    /// Invalid connection header
    InvalidConnectionHeader(HeaderValue),
    /// Missing CONNECTION header
    MissingConnectionHeader,
    /// Missing SEC-WEBSOCKET-ACCEPT header
    MissingWebSocketAcceptHeader,
    /// Invalid challenge response
    InvalidChallengeResponse(String, HeaderValue),
    /// Http parsing error
    Http(http::Error),
    /// Response parsing error
    ParseError(ParseError),
    /// Protocol error
    Protocol(ProtocolError),
    /// Connect error
    Connect(ConnectorError),
    /// IO Error
    Io(std::io::Error),
    /// "Disconnected"
    Disconnected,
}

impl ClientError {
    /// The text of the error, where it does not come from the connection.
    pub open spec fn text(self) -> Option<Seq<char>> {
        match self {
            ClientError::InvalidUrl => Some("Invalid url"@),
            ClientError::InvalidResponseStatus(_) => Some("Invalid response status"@),
            ClientError::InvalidUpgradeHeader => Some("Invalid upgrade header"@),
            ClientError::InvalidConnectionHeader(_) => Some("Invalid connection header"@),
            ClientError::MissingConnectionHeader => Some("Missing CONNECTION header"@),
            ClientError::MissingWebSocketAcceptHeader => Some(
                "Missing SEC-WEBSOCKET-ACCEPT header"@,
            ),
            ClientError::InvalidChallengeResponse(_, _) => Some("Invalid challenge response"@),
            ClientError::Http(_) => Some("Http parsing error"@),
            ClientError::ParseError(_) => Some("Response parsing error"@),
            ClientError::Protocol(err) => Some(err.description@),
            ClientError::Connect(_) => None,
            ClientError::Io(_) => None,
            ClientError::Disconnected => Some("Disconnected"@),
        }
    }

    /// The error in words. A connection error is told in its own words, which
    /// the contract leaves open: they come from the operating system.
    pub fn message(&self) -> (r: String)
        ensures
            self.text() matches Some(text) ==> r@ == text,
    {
        match self {
            ClientError::InvalidUrl => "Invalid url".to_owned(),
            ClientError::InvalidResponseStatus(_) => "Invalid response status".to_owned(),
            ClientError::InvalidUpgradeHeader => "Invalid upgrade header".to_owned(),
            ClientError::InvalidConnectionHeader(_) => "Invalid connection header".to_owned(),
            ClientError::MissingConnectionHeader => "Missing CONNECTION header".to_owned(),
            ClientError::MissingWebSocketAcceptHeader => {
                "Missing SEC-WEBSOCKET-ACCEPT header".to_owned()
            },
            ClientError::InvalidChallengeResponse(_, _) => "Invalid challenge response".to_owned(),
            ClientError::Http(_) => "Http parsing error".to_owned(),
            ClientError::ParseError(_) => "Response parsing error".to_owned(),
            ClientError::Protocol(err) => err.description.as_str().to_owned(),
            ClientError::Connect(err) => connector_text(err),
            ClientError::Io(err) => io_text(err),
            ClientError::Disconnected => "Disconnected".to_owned(),
        }
    }
}

impl From<http::Error> for ClientError {
    fn from(err: http::Error) -> (r: ClientError) {
        ClientError::Http(err)
    }
}

impl vstd::std_specs::convert::FromSpecImpl<http::Error> for ClientError {
    open spec fn obeys_from_spec() -> bool {
        true
    }

    open spec fn from_spec(err: http::Error) -> ClientError {
        ClientError::Http(err)
    }
}

impl From<ConnectorError> for ClientError {
    fn from(err: ConnectorError) -> (r: ClientError) {
        ClientError::Connect(err)
    }
}

impl vstd::std_specs::convert::FromSpecImpl<ConnectorError> for ClientError {
    open spec fn obeys_from_spec() -> bool {
        true
    }

    open spec fn from_spec(err: ConnectorError) -> ClientError {
        ClientError::Connect(err)
    }
}

impl From<ProtocolError> for ClientError {
    fn from(err: ProtocolError) -> (r: ClientError) {
        ClientError::Protocol(err)
    }
}

impl vstd::std_specs::convert::FromSpecImpl<ProtocolError> for ClientError {
    open spec fn obeys_from_spec() -> bool {
        true
    }

    open spec fn from_spec(err: ProtocolError) -> ClientError {
        ClientError::Protocol(err)
    }
}

impl From<std::io::Error> for ClientError {
    fn from(err: std::io::Error) -> (r: ClientError) {
        ClientError::Io(err)
    }
}

impl vstd::std_specs::convert::FromSpecImpl<std::io::Error> for ClientError {
    open spec fn obeys_from_spec() -> bool {
        true
    }

    open spec fn from_spec(err: std::io::Error) -> ClientError {
        ClientError::Io(err)
    }
}

impl From<ParseError> for ClientError {
    fn from(err: ParseError) -> (r: ClientError) {
        ClientError::ParseError(err)
    }
}

impl vstd::std_specs::convert::FromSpecImpl<ParseError> for ClientError {
    open spec fn obeys_from_spec() -> bool {
        true
    }

    open spec fn from_spec(err: ParseError) -> ClientError {
        ClientError::ParseError(err)
    }
}

/// The text of an error depends on its kind alone, but for a protocol error,
/// which is told in full in its own words.
pub proof fn law_texts(
    status: StatusCode,
    value: HeaderValue,
    key: String,
    parse: ParseError,
    protocol: ProtocolError,
    other: http::Error,
)
    ensures
        ClientError::InvalidUrl.text() == Some("Invalid url"@),
        ClientError::InvalidResponseStatus(status).text() == Some("Invalid response status"@),
        ClientError::InvalidUpgradeHeader.text() == Some("Invalid upgrade header"@),
        ClientError::InvalidConnectionHeader(value).text() == Some("Invalid connection header"@),
        ClientError::MissingConnectionHeader.text() == Some("Missing CONNECTION header"@),
        ClientError::MissingWebSocketAcceptHeader.text() == Some(
            "Missing SEC-WEBSOCKET-ACCEPT header"@,
        ),
        ClientError::InvalidChallengeResponse(key, value).text() == Some(
            "Invalid challenge response"@,
        ),
        ClientError::Http(other).text() == Some("Http parsing error"@),
        ClientError::ParseError(parse).text() == Some("Response parsing error"@),
        ClientError::Protocol(protocol).text() == Some(protocol.description@),
        ClientError::Disconnected.text() == Some("Disconnected"@),
{
}

/// An error is kept as it is when it becomes a client error.
pub proof fn law_conversions(
    other: http::Error,
    connect: ConnectorError,
    protocol: ProtocolError,
    io: std::io::Error,
    parse: ParseError,
)
    ensures
        <ClientError as vstd::std_specs::convert::FromSpec<http::Error>>::from_spec(other)
            == ClientError::Http(other),
        <ClientError as vstd::std_specs::convert::FromSpec<ConnectorError>>::from_spec(connect)
            == ClientError::Connect(connect),
        <ClientError as vstd::std_specs::convert::FromSpec<ProtocolError>>::from_spec(protocol)
            == ClientError::Protocol(protocol),
        <ClientError as vstd::std_specs::convert::FromSpec<std::io::Error>>::from_spec(io)
            == ClientError::Io(io),
        <ClientError as vstd::std_specs::convert::FromSpec<ParseError>>::from_spec(parse)
            == ClientError::ParseError(parse),
{
}

} // verus!
