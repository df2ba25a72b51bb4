//! Requests and their bodies, as they come off a connection.

use bytes::{Bytes, BytesMut};
use h1codec::error::ParseError;
use h1codec::h1::decoder::RequestDecoder;
use h1codec::h1::payload::PayloadItem;
use h1codec::request::{Request, Version};
use http::Method;

fn chunk(item: PayloadItem) -> Bytes {
    match item {
        PayloadItem::Chunk(chunk) => chunk,
        _ => panic!("error"),
    }
}

fn eof(item: &PayloadItem) -> bool {
    match *item {
        PayloadItem::Eof => true,
        _ => false,
    }
}

fn parse_ready(buf: &mut BytesMut) -> Request {
    match RequestDecoder::default().decode(buf) {
        Ok(Some((msg, _))) => msg,
        Ok(_) => unreachable!("Eof during parsing http request"),
        Err(err) => unreachable!("Error during parsing http request: {:?}", err),
    }
}

fn expect_parse_err(buf: &mut BytesMut) {
    match RequestDecoder::default().decode(buf) {
        Err(err) => match err {
            ParseError::Io(_) => unreachable!("Parse error expected"),
            _ => (),
        },
        _ => unreachable!("Error expected"),
    }
}

#[test]
fn test_parse() {
    let mut buf = BytesMut::from("GET /test HTTP/1.1\r\n\r\n");

    let mut reader = RequestDecoder::default();
    match reader.decode(&mut buf) {
        Ok(Some((req, _))) => {
            assert_eq!(req.version(), Version::HTTP_11);
            assert_eq!(*req.method(), Method::GET);
            assert_eq!(req.path(), "/test");
        }
        Ok(_) | Err(_) => unreachable!("Error during parsing http request"),
    }
}

#[test]
fn test_parse_partial() {
    let mut buf = BytesMut::from("PUT /test HTTP/1");

    let mut reader = RequestDecoder::default();
    assert!(reader.decode(&mut buf).unwrap().is_none());

    buf.extend(b".1\r\n\r\n");
    let (req, _) = reader.decode(&mut buf).unwrap().unwrap();
    assert_eq!(req.version(), Version::HTTP_11);
    assert_eq!(*req.method(), Method::PUT);
    assert_eq!(req.path(), "/test");
}

#[test]
fn test_parse_post() {
    let mut buf = BytesMut::from("POST /test2 HTTP/1.0\r\n\r\n");

    let mut reader = RequestDecoder::default();
    let (req, _) = reader.decode(&mut buf).unwrap().unwrap();
    assert_eq!(req.version(), Version::HTTP_10);
    assert_eq!(*req.method(), Method::POST);
    assert_eq!(req.path(), "/test2");
}

#[test]
fn test_parse_body() {
    let mut buf =
        BytesMut::from("GET /test HTTP/1.1\r\nContent-Length: 4\r\n\r\nbody");

    let mut reader = RequestDecoder::default();
    let (req, pl) = reader.decode(&mut buf).unwrap().unwrap();
    let mut pl = pl.unwrap();
    assert_eq!(req.version(), Version::HTTP_11);
    assert_eq!(*req.method(), Method::GET);
    assert_eq!(req.path(), "/test");
    assert_eq!(
        chunk(pl.decode(&mut buf).unwrap().unwrap()).as_ref(),
        b"body"
    );
}

#[test]
fn test_parse_body_crlf() {
    let mut buf =
        BytesMut::from("\r\nGET /test HTTP/1.1\r\nContent-Length: 4\r\n\r\nbody");

    let mut reader = RequestDecoder::default();
    let (req, pl) = reader.decode(&mut buf).unwrap().unwrap();
    let mut pl = pl.unwrap();
    assert_eq!(req.version(), Version::HTTP_11);
    assert_eq!(*req.method(), Method::GET);
    assert_eq!(req.path(), "/test");
    assert_eq!(
        chunk(pl.decode(&mut buf).unwrap().unwrap()).as_ref(),
        b"body"
    );
}

#[test]
fn test_parse_partial_eof() {
    let mut buf = BytesMut::from("GET /test HTTP/1.1\r\n");
    let mut reader = RequestDecoder::default();
    assert!(reader.decode(&mut buf).unwrap().is_none());

    buf.extend(b"\r\n");
    let (req, _) = reader.decode(&mut buf).unwrap().unwrap();
    assert_eq!(req.version(), Version::HTTP_11);
    assert_eq!(*req.method(), Method::GET);
    assert_eq!(req.path(), "/test");
}

#[test]
fn test_headers_split_field() {
    let mut buf = BytesMut::from("GET /test HTTP/1.1\r\n");

    let mut reader = RequestDecoder::default();
    assert!(reader.decode(&mut buf).unwrap().is_none());

    buf.extend(b"t");
    assert!(reader.decode(&mut buf).unwrap().is_none());

    buf.extend(b"es");
    assert!(reader.decode(&mut buf).unwrap().is_none());

    buf.extend(b"t: value\r\n\r\n");
    let (req, _) = reader.decode(&mut buf).unwrap().unwrap();
    assert_eq!(req.version(), Version::HTTP_11);
    assert_eq!(*req.method(), Method::GET);
    assert_eq!(req.path(), "/test");
    assert_eq!(req.headers().get("test").unwrap().as_bytes(), b"value");
}

#[test]
fn test_headers_multi_value() {
    let mut buf = BytesMut::from(
        "GET /test HTTP/1.1\r\n\
         Set-Cookie: c1=cookie1\r\n\
         Set-Cookie: c2=cookie2\r\n\r\n",
    );
    let mut reader = RequestDecoder::default();
    let (req, _) = reader.decode(&mut buf).unwrap().unwrap();

    let val: Vec<_> = req
        .headers()
        .get_all("Set-Cookie")
        .iter()
        .map(|v| v.to_str().unwrap().to_owned())
        .collect();
    assert_eq!(val[0], "c1=cookie1");
    assert_eq!(val[1], "c2=cookie2");
}

#[test]
fn test_conn_default_1_0() {
    let mut buf = BytesMut::from("GET /test HTTP/1.0\r\n\r\n");
    let req = parse_ready(&mut buf);

    assert!(!req.keep_alive());
}

#[test]
fn test_conn_default_1_1() {
    let mut buf = BytesMut::from("GET /test HTTP/1.1\r\n\r\n");
    let req = parse_ready(&mut buf);

    assert!(req.keep_alive());
}

#[test]
fn test_conn_close() {
    let mut buf = BytesMut::from(
        "GET /test HTTP/1.1\r\n\
         connection: close\r\n\r\n",
    );
    let req = parse_ready(&mut buf);

    assert!(!req.keep_alive());
}

#[test]
fn test_conn_close_1_0() {
    let mut buf = BytesMut::from(
        "GET /test HTTP/1.0\r\n\
         connection: close\r\n\r\n",
    );
    let req = parse_ready(&mut buf);

    assert!(!req.keep_alive());
}

#[test]
fn test_conn_keep_alive_1_0() {
    let mut buf = BytesMut::from(
        "GET /test HTTP/1.0\r\n\
         connection: keep-alive\r\n\r\n",
    );
    let req = parse_ready(&mut buf);

    assert!(req.keep_alive());
}

#[test]
fn test_conn_keep_alive_1_1() {
    let mut buf = BytesMut::from(
        "GET /test HTTP/1.1\r\n\
         connection: keep-alive\r\n\r\n",
    );
    let req = parse_ready(&mut buf);

    assert!(req.keep_alive());
}

#[test]
fn test_conn_other_1_0() {
    let mut buf = BytesMut::from(
        "GET /test HTTP/1.0\r\n\
         connection: other\r\n\r\n",
    );
    let req = parse_ready(&mut buf);

    assert!(!req.keep_alive());
}

#[test]
fn test_conn_other_1_1() {
    let mut buf = BytesMut::from(
        "GET /test HTTP/1.1\r\n\
         connection: other\r\n\r\n",
    );
    let req = parse_ready(&mut buf);

    assert!(req.keep_alive());
}

#[test]
fn test_conn_upgrade() {
    let mut buf = BytesMut::from(
        "GET /test HTTP/1.1\r\n\
         upgrade: websockets\r\n\
         connection: upgrade\r\n\r\n",
    );
    let req = parse_ready(&mut buf);

    assert!(req.upgrade());
}

#[test]
fn test_conn_upgrade_connect_method() {
    let mut buf = BytesMut::from(
        "CONNECT /test HTTP/1.1\r\n\
         content-type: text/plain\r\n\r\n",
    );
    let req = parse_ready(&mut buf);

    assert!(req.upgrade());
}

#[test]
fn test_request_chunked() {
    let mut buf = BytesMut::from(
        "GET /test HTTP/1.1\r\n\
         transfer-encoding: chunked\r\n\r\n",
    );
    let req = parse_ready(&mut buf);

    if let Ok(val) = req.chunked() {
        assert!(val);
    } else {
        unreachable!("Error");
    }

    // type in chunked
    let mut buf = BytesMut::from(
        "GET /test HTTP/1.1\r\n\
         transfer-encoding: chnked\r\n\r\n",
    );
    let req = parse_ready(&mut buf);

    if let Ok(val) = req.chunked() {
        assert!(!val);
    } else {
        unreachable!("Error");
    }
}

#[test]
fn test_headers_content_length_err_1() {
    let mut buf = BytesMut::from(
        "GET /test HTTP/1.1\r\n\
         content-length: line\r\n\r\n",
    );

    expect_parse_err(&mut buf)
}

#[test]
fn test_headers_content_length_err_2() {
    let mut buf = BytesMut::from(
        "GET /test HTTP/1.1\r\n\
         content-length: -1\r\n\r\n",
    );

    expect_parse_err(&mut buf);
}

#[test]
fn test_invalid_header() {
    let mut buf = BytesMut::from(
        "GET /test HTTP/1.1\r\n\
         test line\r\n\r\n",
    );

    expect_parse_err(&mut buf);
}

#[test]
fn test_invalid_name() {
    let mut buf = BytesMut::from(
        "GET /test HTTP/1.1\r\n\
         test[]: line\r\n\r\n",
    );

    expect_parse_err(&mut buf);
}

#[test]
fn test_http_request_bad_status_line() {
    let mut buf = BytesMut::from("getpath \r\n\r\n");
    expect_parse_err(&mut buf);
}

#[test]
fn test_http_request_upgrade() {
    let mut buf = BytesMut::from(
        "GET /test HTTP/1.1\r\n\
         connection: upgrade\r\n\
         upgrade: websocket\r\n\r\n\
         some raw data",
    );
    let mut reader = RequestDecoder::default();
    let (req, pl) = reader.decode(&mut buf).unwrap().unwrap();
    let mut pl = pl.unwrap();
    assert!(!req.keep_alive());
    assert!(req.upgrade());
    assert_eq!(
        chunk(pl.decode(&mut buf).unwrap().unwrap()).as_ref(),
        b"some raw data"
    );
}

#[test]
fn test_http_request_parser_utf8() {
    let mut buf = BytesMut::from(
        "GET /test HTTP/1.1\r\n\
         x-test: тест\r\n\r\n",
    );
    let req = parse_ready(&mut buf);

    assert_eq!(
        req.headers().get("x-test").unwrap().as_bytes(),
        "тест".as_bytes()
    );
}

#[test]
fn test_http_request_parser_two_slashes() {
    let mut buf = BytesMut::from("GET //path HTTP/1.1\r\n\r\n");
    let req = parse_ready(&mut buf);

    assert_eq!(req.path(), "//path");
}

#[test]
fn test_http_request_parser_bad_method() {
    let mut buf = BytesMut::from("!12%()+=~$ /get HTTP/1.1\r\n\r\n");

    expect_parse_err(&mut buf);
}

#[test]
fn test_http_request_parser_bad_version() {
    let mut buf = BytesMut::from("GET //get HT/11\r\n\r\n");

    expect_parse_err(&mut buf);
}

#[test]
fn test_http_request_chunked_payload() {
    let mut buf = BytesMut::from(
        "GET /test HTTP/1.1\r\n\
         transfer-encoding: chunked\r\n\r\n",
    );
    let mut reader = RequestDecoder::default();
    let (req, pl) = reader.decode(&mut buf).unwrap().unwrap();
    let mut pl = pl.unwrap();
    assert!(req.chunked().unwrap());

    buf.extend(b"4\r\ndata\r\n4\r\nline\r\n0\r\n\r\n");
    assert_eq!(
        chunk(pl.decode(&mut buf).unwrap().unwrap()).as_ref(),
        b"data"
    );
    assert_eq!(
        chunk(pl.decode(&mut buf).unwrap().unwrap()).as_ref(),
        b"line"
    );
    assert!(eof(&pl.decode(&mut buf).unwrap().unwrap()));
}

#[test]
fn test_http_request_chunked_payload_and_next_message() {
    let mut buf = BytesMut::from(
        "GET /test HTTP/1.1\r\n\
         transfer-encoding: chunked\r\n\r\n",
    );
    let mut reader = RequestDecoder::default();
    let (req, pl) = reader.decode(&mut buf).unwrap().unwrap();
    let mut pl = pl.unwrap();
    assert!(req.chunked().unwrap());

    buf.extend(
        b"4\r\ndata\r\n4\r\nline\r\n0\r\n\r\n\
          POST /test2 HTTP/1.1\r\n\
          transfer-encoding: chunked\r\n\r\n"
            .iter(),
    );
    let msg = pl.decode(&mut buf).unwrap().unwrap();
    assert_eq!(chunk(msg).as_ref(), b"data");
    let msg = pl.decode(&mut buf).unwrap().unwrap();
    assert_eq!(chunk(msg).as_ref(), b"line");
    let msg = pl.decode(&mut buf).unwrap().unwrap();
    assert!(eof(&msg));

    let (req, _) = reader.decode(&mut buf).unwrap().unwrap();
    assert!(req.chunked().unwrap());
    assert_eq!(*req.method(), Method::POST);
    assert!(req.chunked().unwrap());
}

#[test]
fn test_http_request_chunked_payload_chunks() {
    let mut buf = BytesMut::from(
        "GET /test HTTP/1.1\r\n\
         transfer-encoding: chunked\r\n\r\n",
    );

    let mut reader = RequestDecoder::default();
    let (req, pl) = reader.decode(&mut buf).unwrap().unwrap();
    let mut pl = pl.unwrap();
    assert!(req.chunked().unwrap());

    buf.extend(b"4\r\n1111\r\n");
    let msg = pl.decode(&mut buf).unwrap().unwrap();
    assert_eq!(chunk(msg).as_ref(), b"1111");

    buf.extend(b"4\r\ndata\r");
    let msg = pl.decode(&mut buf).unwrap().unwrap();
    assert_eq!(chunk(msg).as_ref(), b"data");

    buf.extend(b"\n4");
    assert!(pl.decode(&mut buf).unwrap().is_none());

    buf.extend(b"\r");
    assert!(pl.decode(&mut buf).unwrap().is_none());
    buf.extend(b"\n");
    assert!(pl.decode(&mut buf).unwrap().is_none());

    buf.extend(b"li");
    let msg = pl.decode(&mut buf).unwrap().unwrap();
    assert_eq!(chunk(msg).as_ref(), b"li");

    //trailers
    //buf.feed_data("test: test\r\n");
    //not_ready!(reader.parse(&mut buf, &mut readbuf));

    buf.extend(b"ne\r\n0\r\n");
    let msg = pl.decode(&mut buf).unwrap().unwrap();
    assert_eq!(chunk(msg).as_ref(), b"ne");
    assert!(pl.decode(&mut buf).unwrap().is_none());

    buf.extend(b"\r\n");
    assert!(eof(&pl.decode(&mut buf).unwrap().unwrap()));
}

#[test]
fn test_parse_chunked_payload_chunk_extension() {
    let mut buf = BytesMut::from(
        &"GET /test HTTP/1.1\r\n\
          transfer-encoding: chunked\r\n\r\n"[..],
    );

    let mut reader = RequestDecoder::default();
    let (msg, pl) = reader.decode(&mut buf).unwrap().unwrap();
    let mut pl = pl.unwrap();
    assert!(msg.chunked().unwrap());

    buf.extend(b"4;test\r\ndata\r\n4\r\nline\r\n0\r\n\r\n"); // test: test\r\n\r\n")
    let data = chunk(pl.decode(&mut buf).unwrap().unwrap());
    assert_eq!(data, Bytes::from_static(b"data"));
    let data = chunk(pl.decode(&mut buf).unwrap().unwrap());
    assert_eq!(data, Bytes::from_static(b"line"));
    let msg = pl.decode(&mut buf).unwrap().unwrap();
    assert!(eof(&msg));
}
