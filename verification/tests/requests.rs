//! What becomes of single requests: framing, connection and refusals.

use bytes::BytesMut;
use h1codec::error::ParseError;
use h1codec::h1::decoder::{
    assemble, build, choose_body, frame, meets_long_name, read_version, RequestDecoder, MAX_BUFFER_SIZE,
    MAX_HEADERS,
};
use h1codec::h1::fields::{
    finds_long_name, is_text, read_connection, read_content_length, read_headers,
    read_transfer_encoding, refuses, Headers,
};
use h1codec::h1::head::{HeaderIndex, RawHead, RawHeader, MAX_NAME_LEN};
use h1codec::h1::payload::{PayloadDecoder, PayloadItem};
use h1codec::request::{visible, Request, Version};
use http::header::{HeaderMap, HeaderValue};
use http::{HttpTryFrom, Method, Uri};

type Decoded = Result<Option<(Request, Option<PayloadDecoder>)>, ParseError>;

fn decode(buf: &mut BytesMut) -> Decoded {
    RequestDecoder::default().decode(buf)
}

fn request(text: &str) -> (Request, Option<PayloadDecoder>) {
    decode(&mut BytesMut::from(text)).unwrap().unwrap()
}

fn refusal(text: &str) -> ParseError {
    match decode(&mut BytesMut::from(text)) {
        Err(err) => err,
        Ok(_) => panic!("a refusal was expected"),
    }
}

fn value(text: &'static str) -> HeaderValue {
    HeaderValue::from_static(text)
}

/// A head of the text `GET / HTTP/1.1\r\na: b\r\n\r\n` at address 1000.
fn small_head(method: &str, path: &str) -> RawHead {
    RawHead {
        len: 24,
        method: method.as_bytes().to_vec(),
        path: path.to_owned(),
        version: 1,
        base: 1000,
        headers: vec![RawHeader { name_addr: 1016, name_len: 1, value_addr: 1019, value_len: 1 }],
    }
}

#[test]
fn head_waits_in_the_buffer() {
    let mut buf = BytesMut::from("GET /a HTTP/1.1\r\nHost: x\r\n");
    assert!(decode(&mut buf).unwrap().is_none());
    assert_eq!(buf.as_ref(), &b"GET /a HTTP/1.1\r\nHost: x\r\n"[..]);
    buf.extend(b"\r\nrest");
    let (req, body) = decode(&mut buf).unwrap().unwrap();
    assert_eq!(req.headers().get("host").unwrap().as_bytes(), b"x");
    assert!(body.is_none());
    assert_eq!(buf.as_ref(), b"rest");
}

#[test]
fn head_may_arrive_byte_by_byte() {
    let text = "POST /a HTTP/1.1\r\nContent-Length: 3\r\n\r\n";
    let mut buf = BytesMut::new();
    for (i, b) in text.as_bytes().iter().enumerate() {
        assert_eq!(buf.len(), i);
        assert!(decode(&mut buf).unwrap().is_none());
        buf.extend(&[*b]);
    }
    let (_, body) = decode(&mut buf).unwrap().unwrap();
    assert_eq!(body, Some(PayloadDecoder::length(3)));
    assert!(buf.is_empty());
}

#[test]
fn pipelined_requests_are_taken_one_by_one() {
    let mut buf = BytesMut::from("GET /1 HTTP/1.1\r\n\r\nGET /2 HTTP/1.0\r\n\r\n");
    let (first, _) = decode(&mut buf).unwrap().unwrap();
    assert_eq!((first.path(), first.version()), ("/1", Version::HTTP_11));
    let (second, _) = decode(&mut buf).unwrap().unwrap();
    assert_eq!((second.path(), second.version()), ("/2", Version::HTTP_10));
    assert!(decode(&mut buf).unwrap().is_none());
}

#[test]
fn syntax_error_leaves_the_buffer() {
    let mut buf = BytesMut::from("GET /\x01 HTTP/1.1\r\n\r\n");
    match decode(&mut buf) {
        Err(ParseError::Syntax(err)) => assert_eq!(err, httparse::Error::Token),
        _ => panic!("a syntax error was expected"),
    }
    assert_eq!(buf.as_ref(), &b"GET /\x01 HTTP/1.1\r\n\r\n"[..]);
}

#[test]
fn invalid_method_leaves_the_buffer() {
    // A token may hold `'`, but a method may not.
    let mut buf = BytesMut::from("G'T / HTTP/1.1\r\n\r\n");
    assert!(matches!(decode(&mut buf), Err(ParseError::Method)));
    assert_eq!(buf.as_ref(), &b"G'T / HTTP/1.1\r\n\r\n"[..]);
}

#[test]
fn invalid_target_leaves_the_buffer() {
    let mut buf = BytesMut::from("GET {} HTTP/1.1\r\n\r\n");
    assert!(matches!(decode(&mut buf), Err(ParseError::Uri(_))));
    assert_eq!(buf.as_ref(), &b"GET {} HTTP/1.1\r\n\r\n"[..]);
}

#[test]
fn invalid_header_removes_the_head() {
    let mut buf = BytesMut::from("GET / HTTP/1.1\r\ncontent-length: x\r\n\r\nrest");
    assert!(matches!(decode(&mut buf), Err(ParseError::Header)));
    assert_eq!(buf.as_ref(), b"rest");
}

#[test]
fn headers_that_are_refused() {
    for h in ["content-length: ", "content-length: 1 2", "content-length: 18446744073709551616",
        "content-length: \u{e9}", "transfer-encoding: \u{e9}", "Content-Length: 0x1"]
        .iter()
    {
        let text = format!("GET / HTTP/1.1\r\n{}\r\n\r\n", h);
        assert!(matches!(refusal(&text), ParseError::Header), "{}", h);
    }
}

#[test]
fn too_many_headers_are_refused() {
    let with = |n: usize| {
        let mut text = String::from("GET / HTTP/1.1\r\n");
        for i in 0..n {
            text.push_str(&format!("h{}: {}\r\n", i, i));
        }
        text.push_str("\r\n");
        text
    };
    let (req, _) = request(&with(MAX_HEADERS));
    assert_eq!(req.headers().len(), 96);
    assert_eq!(req.headers().get("h95").unwrap().as_bytes(), b"95");
    match refusal(&with(MAX_HEADERS + 1)) {
        ParseError::Syntax(err) => assert_eq!(err, httparse::Error::TooManyHeaders),
        err => panic!("{:?}", err),
    }
}

#[test]
fn content_length_is_a_number() {
    assert_eq!(request("GET / HTTP/1.1\r\ncontent-length: 10\r\n\r\n").1,
        Some(PayloadDecoder::length(10)));
    assert_eq!(request("GET / HTTP/1.1\r\nCONTENT-LENGTH: +007\r\n\r\n").1,
        Some(PayloadDecoder::length(7)));
    assert_eq!(request("GET / HTTP/1.1\r\ncontent-length: 18446744073709551615\r\n\r\n").1,
        Some(PayloadDecoder::length(u64::MAX)));
    assert_eq!(request("GET / HTTP/1.1\r\ncontent-length: 0\r\n\r\n").1,
        Some(PayloadDecoder::length(0)));
}

#[test]
fn header_names_ignore_case() {
    for name in ["content-length", "Content-Length", "cOnTeNt-LeNgTh"].iter() {
        let (req, body) = request(&format!("GET / HTTP/1.1\r\n{}: 6\r\n\r\n", name));
        assert_eq!(body, Some(PayloadDecoder::length(6)));
        assert_eq!(req.headers().get("content-length").unwrap(), "6");
    }
}

#[test]
fn last_header_counts() {
    assert_eq!(
        request("GET / HTTP/1.1\r\ncontent-length: 1\r\ncontent-length: 2\r\n\r\n").1,
        Some(PayloadDecoder::length(2))
    );
    assert_eq!(
        request("GET / HTTP/1.1\r\ntransfer-encoding: chunked\r\ntransfer-encoding: gzip\r\n\r\n").1,
        None
    );
    let (req, _) = request("GET / HTTP/1.1\r\nconnection: close\r\nconnection: other\r\n\r\n");
    assert!(req.keep_alive());
    let all: Vec<&[u8]> = req.headers().get_all("connection").iter().map(|v| v.as_bytes()).collect();
    assert_eq!(all, vec![&b"close"[..], &b"other"[..]]);
}

#[test]
fn body_precedence() {
    let all = "upgrade: x\r\ncontent-length: 5\r\ntransfer-encoding: gzip, CHUNKED\r\n";
    assert_eq!(request(&format!("GET / HTTP/1.1\r\n{}\r\n", all)).1,
        Some(PayloadDecoder::chunked()));
    assert_eq!(request("CONNECT / HTTP/1.1\r\nupgrade: x\r\ncontent-length: 5\r\n\r\n").1,
        Some(PayloadDecoder::length(5)));
    assert_eq!(request("GET / HTTP/1.1\r\nUpgrade: x\r\n\r\n").1, Some(PayloadDecoder::eof()));
    assert_eq!(request("CONNECT / HTTP/1.1\r\n\r\n").1, Some(PayloadDecoder::eof()));
    assert_eq!(request("GET / HTTP/1.1\r\n\r\n").1, None);
}

#[test]
fn too_much_behind_a_bare_request() {
    let with = |head: &str, n: usize| {
        let mut buf = BytesMut::from(head);
        buf.extend(vec![b'x'; n]);
        let result = decode(&mut buf);
        assert_eq!(buf.len(), n);
        result
    };
    let bare = "GET / HTTP/1.1\r\n\r\n";
    assert!(with(bare, MAX_BUFFER_SIZE - 1).unwrap().is_some());
    assert!(matches!(with(bare, MAX_BUFFER_SIZE), Err(ParseError::TooLarge)));
    assert!(matches!(with(bare, 131_072), Err(ParseError::TooLarge)));
    let sized = "GET / HTTP/1.1\r\ncontent-length: 1\r\n\r\n";
    assert!(with(sized, MAX_BUFFER_SIZE).unwrap().is_some());
}

#[test]
fn connection_header_decides() {
    let alive = |version: &str, value: &str| {
        request(&format!("GET / HTTP/{}\r\nConnection: {}\r\n\r\n", version, value)).0.keep_alive()
    };
    assert!(alive("1.0", "x, keep-alive"));
    assert!(!alive("1.0", "Keep-Alive"));
    assert!(!alive("1.0", "upgrade"));
    assert!(alive("1.1", "keep-alive"));
    assert!(!alive("1.1", "x, close"));
    assert!(!alive("1.1", "upgrade"));
    assert!(alive("1.1", "Close"));
    assert!(alive("1.1", ""));
    assert!(!alive("1.1", "\u{e9}"));
    assert!(!alive("1.0", "\u{e9}keep-alive"));
}

#[test]
fn upgrade_by_header_or_method() {
    assert!(request("GET / HTTP/1.1\r\nconnection: x, UPGRADE\r\n\r\n").0.upgrade());
    assert!(!request("GET / HTTP/1.1\r\nupgrade: websocket\r\n\r\n").0.upgrade());
    assert!(request("CONNECT / HTTP/1.1\r\nconnection: \u{e9}\r\n\r\n").0.upgrade());
    assert!(!request("CONNECT / HTTP/1.1\r\nconnection: close\r\n\r\n").0.upgrade());
}

#[test]
fn chunked_by_first_header() {
    let chunked = |h: &str| request(&format!("GET / HTTP/1.1\r\n{}\r\n", h)).0.chunked();
    assert!(chunked("Transfer-Encoding: ChUnKeD\r\n").unwrap());
    assert!(!chunked("").unwrap());
    assert!(!chunked("transfer-encoding: gzip\r\ntransfer-encoding: chunked\r\n").unwrap());
}

#[test]
fn request_parts() {
    let (req, _) = request("OPTIONS /a/b?c=d HTTP/1.1\r\nX-One: 1\r\n\r\n");
    assert_eq!(*req.method(), Method::OPTIONS);
    assert_eq!(req.uri().query(), Some("c=d"));
    assert_eq!(req.path(), "/a/b");
    assert_eq!(req.headers().len(), 1);
    assert_eq!(req.headers().get("x-one").unwrap(), "1");
    let (req, _) = request("x.Y-z^ / HTTP/1.1\r\n\r\n");
    assert_eq!(req.method().as_str(), "x.Y-z^");
}

#[test]
fn request_from_parts() {
    let mut headers = HeaderMap::new();
    headers.append("transfer-encoding", HeaderValue::from_bytes(b"\xff").unwrap());
    let uri = <Uri as HttpTryFrom<&str>>::try_from("/p").unwrap();
    let req = Request::new(Method::GET, uri, Version::HTTP_10, headers, true);
    assert!(matches!(req.chunked(), Err(ParseError::Header)));
    assert!(!req.upgrade());
    assert!(req.keep_alive());
    assert_eq!(req.version(), Version::HTTP_10);
}

#[test]
fn single_header_values() {
    assert_eq!(visible(&value("a\tb")), Some(&b"a\tb"[..]));
    assert_eq!(visible(&HeaderValue::from_bytes(b"a\xff").unwrap()), None);
    assert_eq!(read_content_length(&value("42")).unwrap(), 42);
    assert!(matches!(read_content_length(&value("4 2")), Err(ParseError::Header)));
    assert!(read_transfer_encoding(&value("xCHUNKEDx")).unwrap());
    assert!(!read_transfer_encoding(&value("chunke")).unwrap());
    assert!(read_connection(Version::HTTP_10, &value("keep-alive")));
    assert!(!read_connection(Version::HTTP_11, &value("close")));
}

#[test]
fn versions() {
    assert_eq!(read_version(1), Version::HTTP_11);
    assert_eq!(read_version(0), Version::HTTP_10);
}

#[test]
fn body_choice() {
    let headers = |chunked: bool, content_length: Option<u64>, has_upgrade: bool| Headers {
        map: HeaderMap::new(),
        content_length,
        chunked,
        keep_alive: true,
        has_upgrade,
    };
    assert_eq!(choose_body(&headers(true, Some(1), true), &Method::GET, 0).unwrap(),
        Some(PayloadDecoder::chunked()));
    assert_eq!(choose_body(&headers(false, Some(1), true), &Method::GET, 0).unwrap(),
        Some(PayloadDecoder::length(1)));
    assert_eq!(choose_body(&headers(false, None, true), &Method::GET, MAX_BUFFER_SIZE).unwrap(),
        Some(PayloadDecoder::eof()));
    assert_eq!(choose_body(&headers(false, None, false), &Method::CONNECT, 0).unwrap(),
        Some(PayloadDecoder::eof()));
    assert_eq!(choose_body(&headers(false, None, false), &Method::GET, 5).unwrap(), None);
    assert!(matches!(
        choose_body(&headers(false, None, false), &Method::GET, MAX_BUFFER_SIZE),
        Err(ParseError::TooLarge)
    ));
}

#[test]
fn header_places() {
    let headers = [
        RawHeader { name_addr: 110, name_len: 4, value_addr: 116, value_len: 3 },
        RawHeader { name_addr: 121, name_len: 1, value_addr: 124, value_len: 0 },
    ];
    let unset = HeaderIndex { name: (7, 7), value: (7, 7) };
    let mut places = [unset; 3];
    HeaderIndex::record(100, &headers, &mut places);
    assert_eq!((places[0].name, places[0].value), ((10, 14), (16, 19)));
    assert_eq!((places[1].name, places[1].value), ((21, 22), (24, 24)));
    assert_eq!((places[2].name, places[2].value), ((7, 7), (7, 7)));
    let mut place = [unset; 1];
    HeaderIndex::record(100, &headers, &mut place);
    assert_eq!(place[0].name, (10, 14));
}

#[test]
fn headers_by_place() {
    let text = bytes::Bytes::from_static(b"Content-Length: 12\r\nA: 1\r\na: 2\r\n");
    let places = [
        HeaderIndex { name: (0, 14), value: (16, 18) },
        HeaderIndex { name: (20, 21), value: (23, 24) },
        HeaderIndex { name: (26, 27), value: (29, 30) },
    ];
    let headers = read_headers(&text, &places, Version::HTTP_11).unwrap();
    assert_eq!(headers.content_length, Some(12));
    assert!(headers.keep_alive && !headers.chunked && !headers.has_upgrade);
    let all: Vec<&[u8]> = headers.map.get_all("a").iter().map(|v| v.as_bytes()).collect();
    assert_eq!(all, vec![&b"1"[..], &b"2"[..]]);
    assert!(matches!(
        read_headers(&text, &[HeaderIndex { name: (14, 16), value: (16, 18) }], Version::HTTP_11),
        Err(ParseError::Header)
    ));
}

#[test]
fn parsed_heads() {
    let text = "GET / HTTP/1.1\r\na: b\r\n\r\n";
    let mut buf = BytesMut::from(text);
    let uri = <Uri as HttpTryFrom<&str>>::try_from("/").unwrap();
    let (req, body) = build(&small_head("GET", "/"), Method::GET, uri, &mut buf).unwrap().unwrap();
    assert_eq!(req.headers().get("a").unwrap(), "b");
    assert!(body.is_none() && buf.is_empty());

    let mut buf = BytesMut::from(text);
    assert!(matches!(assemble(&small_head("G T", "/"), &mut buf), Err(ParseError::Method)));
    assert!(matches!(assemble(&small_head("GET", ""), &mut buf), Err(ParseError::Uri(_))));
    assert_eq!(buf.len(), 24);

    assert!(frame(Ok(None), &mut buf).unwrap().is_none());
    assert!(matches!(
        frame(Err(httparse::Error::Version), &mut buf),
        Err(ParseError::Syntax(httparse::Error::Version))
    ));
    assert!(frame(Ok(Some(small_head("GET", "/"))), &mut buf).unwrap().is_some());
    assert!(buf.is_empty());
}

/// A buffer with these header lines, where `@` stands for a name of so many bytes.
fn with_long_name(first: &str, lines: &str, n: usize) -> BytesMut {
    let name: String = (0..n).map(|_| 'x').collect();
    BytesMut::from(format!("{}\r\n{}\r\n\r\n", first, lines.replace("@", &name)))
}

#[test]
fn long_names_are_told_apart() {
    let mut reader = RequestDecoder::default();
    let mut buf = with_long_name("GET / HTTP/1.1", "@: 1", 65_535);
    let (req, _) = reader.try_decode(&mut buf).unwrap().unwrap().unwrap();
    assert_eq!(req.headers().len(), 1);
    assert!(buf.is_empty());

    for lines in ["@: 1", "a: 1\r\n@: 1", "@: 1\r\ncontent-length: x"].iter() {
        let mut buf = with_long_name("GET / HTTP/1.1", lines, 65_536);
        let whole = buf.clone();
        assert!(reader.try_decode(&mut buf).is_none());
        assert_eq!(buf, whole);
    }

    let mut buf = BytesMut::from("GET / HTTP/1.1\r\n\r\n");
    assert!(reader.try_decode(&mut buf).unwrap().unwrap().is_some());
}

#[test]
fn earlier_refusals_come_before_long_names() {
    let mut reader = RequestDecoder::default();
    let mut buf = with_long_name("G'T / HTTP/1.1", "@: 1", MAX_NAME_LEN);
    let whole = buf.clone();
    assert!(matches!(reader.try_decode(&mut buf), Some(Err(ParseError::Method))));
    assert!(matches!(reader.decode(&mut buf), Err(ParseError::Method)));
    assert_eq!(buf, whole);

    let mut buf = with_long_name("GET {} HTTP/1.1", "@: 1", MAX_NAME_LEN);
    let whole = buf.clone();
    assert!(matches!(reader.try_decode(&mut buf), Some(Err(ParseError::Uri(_)))));
    assert!(matches!(reader.decode(&mut buf), Err(ParseError::Uri(_))));
    assert_eq!(buf, whole);

    for bad in ["content-length: x", "transfer-encoding: \u{e9}", "a: 1\r\nContent-Length: -1"].iter() {
        let mut buf = with_long_name("GET / HTTP/1.1", &format!("{}\r\n@: 1", bad), MAX_NAME_LEN);
        buf.extend(b"rest");
        let mut other = buf.clone();
        assert!(matches!(reader.try_decode(&mut buf), Some(Err(ParseError::Header))));
        assert_eq!(buf.as_ref(), b"rest");
        assert!(matches!(reader.decode(&mut other), Err(ParseError::Header)));
        assert_eq!(other.as_ref(), b"rest");
    }
}

#[test]
fn long_names_in_parsed_heads() {
    let mut text = b"GET / HTTP/1.1\r\n".to_vec();
    text.extend(vec![b'x'; MAX_NAME_LEN]);
    text.extend(b": b\r\n\r\n");
    let mut head = small_head("GET", "/");
    head.len = text.len();
    head.headers[0].name_len = MAX_NAME_LEN;
    head.headers[0].value_addr = 1018 + MAX_NAME_LEN;
    assert!(meets_long_name(&head, &text));
    head.headers[0].name_len = MAX_NAME_LEN - 1;
    assert!(!meets_long_name(&head, &text));
    head.headers[0].name_len = MAX_NAME_LEN;
    head.method = b"G T".to_vec();
    assert!(!meets_long_name(&head, &text));

    let text = b"content-length: x\r\na[: 1\r\nte: 2\r\n";
    let bad = HeaderIndex { name: (0, 14), value: (16, 17) };
    let nameless = HeaderIndex { name: (19, 21), value: (23, 24) };
    let good = HeaderIndex { name: (26, 28), value: (30, 31) };
    assert!(refuses(text, bad) && refuses(text, nameless) && !refuses(text, good));
    assert!(!finds_long_name(text, &[good, bad, good]));
    assert!(is_text(b"a\tb~") && !is_text(b"\x7f") && !is_text(b"\x80"));
}

#[test]
fn upgraded_connection_hands_out_everything() {
    let mut buf = BytesMut::from("CONNECT /a HTTP/1.1\r\n\r\nraw");
    let (_, body) = decode(&mut buf).unwrap().unwrap();
    let mut body = body.unwrap();
    match body.decode(&mut buf).unwrap() {
        Some(PayloadItem::Chunk(data)) => assert_eq!(data.as_ref(), b"raw"),
        _ => panic!("data was expected"),
    }
    assert!(body.decode(&mut buf).unwrap().is_none());
}

#[test]
fn sized_body_ends_where_it_should() {
    let mut buf = BytesMut::from("PUT / HTTP/1.1\r\ncontent-length: 4\r\n\r\nbodyGET / HTTP/1.0\r\n\r\n");
    let (_, body) = decode(&mut buf).unwrap().unwrap();
    let mut body = body.unwrap();
    match body.decode(&mut buf).unwrap() {
        Some(PayloadItem::Chunk(data)) => assert_eq!(data.as_ref(), b"body"),
        _ => panic!("data was expected"),
    }
    assert!(matches!(body.decode(&mut buf).unwrap(), Some(PayloadItem::Eof)));
    assert_eq!(decode(&mut buf).unwrap().unwrap().0.version(), Version::HTTP_10);
}
