//! Errors of a WebSocket client.

use std::io;

use actix_net::connector::ConnectorError;
use h1codec::error::ParseError;
use h1codec::ws::client::error::ClientError;
use h1codec::ws::protocol::ProtocolError;
use http::header::HeaderValue;
use http::StatusCode;

fn http_error() -> http::Error {
    http::Error::from(StatusCode::from_u16(1).unwrap_err())
}

#[test]
fn messages() {
    let value = HeaderValue::from_static("x");
    let protocol = ProtocolError { description: "Unknown opcode: 3".to_owned() };
    let cases = vec![
        (ClientError::InvalidUrl, "Invalid url"),
        (ClientError::InvalidResponseStatus(StatusCode::OK), "Invalid response status"),
        (ClientError::InvalidUpgradeHeader, "Invalid upgrade header"),
        (ClientError::InvalidConnectionHeader(value.clone()), "Invalid connection header"),
        (ClientError::MissingConnectionHeader, "Missing CONNECTION header"),
        (ClientError::MissingWebSocketAcceptHeader, "Missing SEC-WEBSOCKET-ACCEPT header"),
        (ClientError::InvalidChallengeResponse("a".to_owned(), value), "Invalid challenge response"),
        (ClientError::Http(http_error()), "Http parsing error"),
        (ClientError::ParseError(ParseError::Method), "Response parsing error"),
        (ClientError::Protocol(protocol), "Unknown opcode: 3"),
        (ClientError::Connect(ConnectorError::NoRecords), "NoRecords"),
        (ClientError::Io(io::Error::new(io::ErrorKind::Other, "broken")), "broken"),
        (ClientError::Disconnected, "Disconnected"),
    ];
    for (err, text) in cases {
        assert_eq!(err.message(), text);
    }
}

#[test]
fn conversions() {
    assert!(matches!(ClientError::from(http_error()), ClientError::Http(_)));
    assert!(matches!(
        ClientError::from(ConnectorError::NoRecords),
        ClientError::Connect(ConnectorError::NoRecords)
    ));
    match ClientError::from(ProtocolError { description: "p".to_owned() }) {
        ClientError::Protocol(err) => assert_eq!(err.description, "p"),
        err => panic!("{:?}", err),
    }
    match ClientError::from(io::Error::new(io::ErrorKind::Other, "broken")) {
        ClientError::Io(err) => assert_eq!(err.kind(), io::ErrorKind::Other),
        err => panic!("{:?}", err),
    }
    assert!(matches!(
        ClientError::from(ParseError::TooLarge),
        ClientError::ParseError(ParseError::TooLarge)
    ));
}

#[test]
fn parse_error_conversions() {
    assert!(matches!(
        ParseError::from(httparse::Error::Token),
        ParseError::Syntax(httparse::Error::Token)
    ));
    let err = "{}".parse::<http::Uri>().unwrap_err();
    assert!(matches!(ParseError::from(err), ParseError::Uri(_)));
    match ParseError::from(io::Error::new(io::ErrorKind::Other, "broken")) {
        ParseError::Io(err) => assert_eq!(err.to_string(), "broken"),
        err => panic!("{:?}", err),
    }
}
