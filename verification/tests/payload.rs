//! Message bodies.

use bytes::{Bytes, BytesMut};
use h1codec::h1::chunked::{Async, ChunkError, ChunkedState};
use h1codec::h1::payload::{PayloadDecoder, PayloadItem};

/// Calls the decoder until it hands out no more data: the pieces, and whether
/// the body has ended.
fn drain(decoder: &mut PayloadDecoder, buf: &mut BytesMut) -> Result<(Vec<Bytes>, bool), ChunkError> {
    let mut chunks = Vec::new();
    loop {
        match decoder.decode(buf)? {
            Some(PayloadItem::Chunk(data)) => chunks.push(data),
            Some(PayloadItem::Eof) => return Ok((chunks, true)),
            None => return Ok((chunks, false)),
        }
    }
}

fn whole(text: &str) -> (Vec<Bytes>, bool, Bytes) {
    let mut buf = BytesMut::from(text);
    let (chunks, end) = drain(&mut PayloadDecoder::chunked(), &mut buf).unwrap();
    (chunks, end, buf.freeze())
}

fn failure(text: &str) -> (ChunkError, Bytes) {
    let mut buf = BytesMut::from(text);
    let err = drain(&mut PayloadDecoder::chunked(), &mut buf).unwrap_err();
    (err, buf.freeze())
}

fn joined(chunks: &[Bytes]) -> Vec<u8> {
    chunks.iter().flat_map(|c| c.iter().cloned()).collect()
}

#[test]
fn sized_body_in_pieces() {
    let mut decoder = PayloadDecoder::length(5);
    let mut buf = BytesMut::new();
    assert!(decoder.decode(&mut buf).unwrap().is_none());
    buf.extend(b"ab");
    let (chunks, end) = drain(&mut decoder, &mut buf).unwrap();
    assert_eq!((joined(&chunks), end), (b"ab".to_vec(), false));
    assert_eq!(decoder, PayloadDecoder::length(3));
    buf.extend(b"cdefg");
    let (chunks, end) = drain(&mut decoder, &mut buf).unwrap();
    assert_eq!((joined(&chunks), end), (b"cde".to_vec(), true));
    assert_eq!(buf.as_ref(), b"fg");
}

#[test]
fn empty_sized_body() {
    let mut buf = BytesMut::from("x");
    assert_eq!(drain(&mut PayloadDecoder::length(0), &mut buf).unwrap(), (vec![], true));
    assert_eq!(buf.as_ref(), b"x");
}

#[test]
fn body_until_close() {
    let mut decoder = PayloadDecoder::eof();
    let mut buf = BytesMut::from("abc");
    let (chunks, end) = drain(&mut decoder, &mut buf).unwrap();
    assert_eq!((joined(&chunks), end), (b"abc".to_vec(), false));
    assert!(buf.is_empty());
    buf.extend(b"d");
    assert_eq!(joined(&drain(&mut decoder, &mut buf).unwrap().0), b"d".to_vec());
}

#[test]
fn end_is_final() {
    let mut decoder = PayloadDecoder::chunked();
    let mut buf = BytesMut::from("0\r\n\r\nnext");
    for _ in 0..3 {
        assert!(matches!(decoder.decode(&mut buf).unwrap(), Some(PayloadItem::Eof)));
        assert_eq!(buf.as_ref(), b"next");
    }
}

#[test]
fn chunk_sizes() {
    let (chunks, end, rest) = whole("1\r\na\r\n00A\r\n0123456789\r\nb\r\n01234567890\r\n0\r\n\r\nz");
    assert_eq!(chunks, vec![
        Bytes::from_static(b"a"),
        Bytes::from_static(b"0123456789"),
        Bytes::from_static(b"01234567890"),
    ]);
    assert!(end);
    assert_eq!(rest.as_ref(), b"z");
}

#[test]
fn chunk_size_is_hexadecimal() {
    let data: String = (0..0x1f).map(|_| 'q').collect();
    let (chunks, end, _) = whole(&format!("1F\r\n{}\r\n0\r\n\r\n", data));
    assert_eq!((chunks[0].len(), chunks.len(), end), (31, 1, true));
}

#[test]
fn chunk_size_keeps_64_bits() {
    let (chunks, end, _) = whole("10000000000000002\r\nab\r\n0\r\n\r\n");
    assert_eq!((chunks, end), (vec![Bytes::from_static(b"ab")], true));
    let mut size: u64 = u64::MAX;
    let mut buf = BytesMut::from("7");
    assert!(matches!(ChunkedState::read_size(&mut buf, &mut size),
        Ok(Async::Ready(ChunkedState::Size))));
    assert_eq!(size, 0xffff_ffff_ffff_fff7);
}

#[test]
fn chunk_size_may_be_missing() {
    let (chunks, end, _) = whole("\r\n\r\n");
    assert_eq!((chunks, end), (vec![], true));
}

#[test]
fn extensions_and_white_space_are_skipped() {
    let (chunks, end, _) = whole("2 \t \r\nab\r\n1;x=\"\n;\"\r\nc\r\n0 ;y\r\n\r\n");
    assert_eq!((joined(&chunks), end), (b"abc".to_vec(), true));
}

#[test]
fn chunked_body_byte_by_byte() {
    let text = b"3;e\r\nabc\r\n2\r\nde\r\n0\r\n\r\n";
    let mut decoder = PayloadDecoder::chunked();
    let mut data = Vec::new();
    let mut ended = false;
    for b in text.iter() {
        assert!(!ended);
        let mut buf = BytesMut::from(vec![*b]);
        let (chunks, end) = drain(&mut decoder, &mut buf).unwrap();
        data.extend(joined(&chunks));
        ended = end;
    }
    assert!(ended);
    assert_eq!(data, b"abcde".to_vec());
}

#[test]
fn split_makes_no_difference() {
    let text = "4\r\nwiki\r\n5 \r\npedia\r\n0;z\r\n\r\nrest";
    let (chunks, _, _) = whole(text);
    for i in 0..text.len() + 1 {
        let mut decoder = PayloadDecoder::chunked();
        let mut buf = BytesMut::from(&text[..i]);
        let (first, end) = drain(&mut decoder, &mut buf).unwrap();
        buf.extend(text[i..].as_bytes());
        let (second, last) = drain(&mut decoder, &mut buf).unwrap();
        assert!(last);
        assert!(!end || second.is_empty());
        assert_eq!([joined(&first), joined(&second)].concat(), joined(&chunks));
        assert_eq!(buf.as_ref(), b"rest");
    }
}

#[test]
fn malformed_chunks() {
    let cases = [
        ("4x", ChunkError::Size, "Invalid chunk size line: Invalid Size"),
        ("4 4", ChunkError::SizeLws, "Invalid chunk size linear white space"),
        ("4\rx", ChunkError::SizeLf, "Invalid chunk size LF"),
        ("1\r\nax", ChunkError::BodyCr, "Invalid chunk body CR"),
        ("1\r\na\rx", ChunkError::BodyLf, "Invalid chunk body LF"),
        ("0\r\nx", ChunkError::EndCr, "Invalid chunk end CR"),
        ("0\r\n\rx", ChunkError::EndLf, "Invalid chunk end LF"),
    ];
    for &(text, err, message) in cases.iter() {
        let (found, rest) = failure(&format!("{}rest", text));
        assert_eq!(found, err);
        assert_eq!(found.message(), message);
        assert_eq!(rest.as_ref(), b"rest");
    }
}

#[test]
fn trailers_are_refused() {
    assert_eq!(failure("0\r\ntest: test\r\n\r\n").0, ChunkError::EndCr);
}

#[test]
fn failing_decoder_stays_where_it_was() {
    let mut decoder = PayloadDecoder::chunked();
    let mut buf = BytesMut::from("1\r\naX\r\n0\r\n\r\n");
    assert!(matches!(decoder.decode(&mut buf), Ok(Some(PayloadItem::Chunk(_)))));
    assert_eq!(decoder.decode(&mut buf).unwrap_err(), ChunkError::BodyCr);
    assert!(matches!(decoder.decode(&mut buf), Ok(Some(PayloadItem::Eof))));
}

#[test]
fn single_steps() {
    let mut size: u64 = 0;
    let mut buf: Option<Bytes> = None;
    let mut body = BytesMut::new();
    assert!(matches!(ChunkedState::Size.step(&mut body, &mut size, &mut buf),
        Ok(Async::NotReady)));
    assert!(matches!(ChunkedState::Body.step(&mut body, &mut size, &mut buf),
        Ok(Async::Ready(ChunkedState::Body))));
    assert!(matches!(ChunkedState::End.step(&mut body, &mut size, &mut buf),
        Ok(Async::Ready(ChunkedState::End))));

    body.extend(b"3\r\nab");
    assert!(matches!(ChunkedState::Size.step(&mut body, &mut size, &mut buf),
        Ok(Async::Ready(ChunkedState::Size))));
    assert_eq!((size, body.as_ref()), (3, &b"\r\nab"[..]));
    assert!(matches!(ChunkedState::read_size(&mut body, &mut size),
        Ok(Async::Ready(ChunkedState::SizeLf))));
    assert!(matches!(ChunkedState::read_size_lf(&mut body, &mut size),
        Ok(Async::Ready(ChunkedState::Body))));
    assert!(buf.is_none());
    assert!(matches!(ChunkedState::read_body(&mut body, &mut size, &mut buf),
        Ok(Async::Ready(ChunkedState::Body))));
    assert_eq!((size, buf.unwrap().as_ref(), body.len()), (1, &b"ab"[..], 0));

    let mut body = BytesMut::from("\t;\r\r\n\r\n");
    assert!(matches!(ChunkedState::read_size_lws(&mut body),
        Ok(Async::Ready(ChunkedState::SizeLws))));
    assert!(matches!(ChunkedState::read_extension(&mut body),
        Ok(Async::Ready(ChunkedState::Extension))));
    assert!(matches!(ChunkedState::read_extension(&mut body),
        Ok(Async::Ready(ChunkedState::SizeLf))));
    assert!(matches!(ChunkedState::read_body_cr(&mut body),
        Ok(Async::Ready(ChunkedState::BodyLf))));
    assert!(matches!(ChunkedState::read_body_lf(&mut body),
        Ok(Async::Ready(ChunkedState::Size))));
    assert!(matches!(ChunkedState::read_end_cr(&mut body),
        Ok(Async::Ready(ChunkedState::EndLf))));
    assert!(matches!(ChunkedState::read_end_lf(&mut body),
        Ok(Async::Ready(ChunkedState::End))));
}

#[test]
fn clones_are_equal() {
    let mut decoder = PayloadDecoder::length(9);
    assert_eq!(decoder.clone(), decoder);
    decoder.decode(&mut BytesMut::from("abc")).unwrap();
    assert_eq!(decoder.clone(), PayloadDecoder::length(6));
    assert!(PayloadDecoder::chunked() != PayloadDecoder::eof());
    match PayloadItem::Chunk(Bytes::from_static(b"x")).clone() {
        PayloadItem::Chunk(data) => assert_eq!(data.as_ref(), b"x"),
        PayloadItem::Eof => panic!("data was expected"),
    }
    assert!(matches!(PayloadItem::Eof.clone(), PayloadItem::Eof));
}
