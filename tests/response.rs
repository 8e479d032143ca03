use tinyget::{
    body_framing, parse_chunk_size, parse_header_line, parse_number, parse_response,
    parse_status_line, Error, Fault, Fed, Phase, ResponseReader,
};

#[test]
fn chunked_body_is_decoded() {
    let raw = b"HTTP/1.1 200 OK\r\nTransfer-Encoding: chunked\r\n\r\n4\r\nWiki\r\n0\r\n\r\n";
    let resp = parse_response(raw).unwrap();
    assert_eq!(resp.status_code, 200);
    assert_eq!(resp.reason_phrase, "OK");
    assert_eq!(resp.as_str().unwrap(), "Wiki");
}

#[test]
fn chunked_body_with_extension_and_several_chunks() {
    let raw = b"HTTP/1.1 200 OK\r\ntransfer-encoding: chunked\r\n\r\n4;name=v\r\nWiki\r\n5\r\npedia\r\n0\r\nX-Trailer: 1\r\n\r\n";
    let resp = parse_response(raw).unwrap();
    assert_eq!(resp.as_str().unwrap(), "Wikipedia");
}

#[test]
fn content_length_body_is_exact() {
    let raw = b"HTTP/1.1 200 OK\r\nContent-Length: 4\r\n\r\nj: Qextra";
    let resp = parse_response(raw).unwrap();
    assert_eq!(resp.as_bytes(), b"j: Q");
}

#[test]
fn short_content_length_body_is_io_error() {
    let raw = b"HTTP/1.1 200 OK\r\nContent-Length: 10\r\n\r\nabc";
    assert!(matches!(parse_response(raw), Err(Error::IoError(_))));
}

#[test]
fn no_framing_means_empty_body() {
    let raw = b"HTTP/1.1 204 No Content\r\nServer: x\r\n\r\nignored";
    let resp = parse_response(raw).unwrap();
    assert_eq!(resp.status_code, 204);
    assert_eq!(resp.reason_phrase, "No Content");
    assert!(resp.into_bytes().is_empty());
}

#[test]
fn headers_are_lowercased_and_trimmed() {
    let raw = b"HTTP/1.1 200 OK\r\nContent-Type:   application/json  \r\nX-A: 1\r\nx-a: 2\r\n\r\n";
    let resp = parse_response(raw).unwrap();
    assert_eq!(resp.headers.get("content-type").unwrap(), "application/json");
    assert_eq!(resp.headers.get("x-a").unwrap(), "2");
    assert!(resp.headers.get("Content-Type").is_none());
}

#[test]
fn malformed_content_length() {
    let raw = b"HTTP/1.1 200 OK\r\nContent-Length: abc\r\n\r\n";
    assert!(matches!(parse_response(raw), Err(Error::MalformedContentLength)));
    let raw = b"HTTP/1.1 200 OK\r\nContent-Length: -1\r\n\r\n";
    assert!(matches!(parse_response(raw), Err(Error::MalformedContentLength)));
}

#[test]
fn malformed_chunk_length() {
    let raw = b"HTTP/1.1 200 OK\r\nTransfer-Encoding: chunked\r\n\r\nzz\r\nWiki\r\n0\r\n\r\n";
    assert!(matches!(parse_response(raw), Err(Error::MalformedChunkLength)));
}

#[test]
fn invalid_utf8_in_header() {
    let raw = b"HTTP/1.1 200 OK\r\nX-Bad: \xff\xfe\r\n\r\n";
    assert!(matches!(parse_response(raw), Err(Error::InvalidUtf8InResponse)));
}

#[test]
fn invalid_utf8_in_body() {
    let raw = b"HTTP/1.1 200 OK\r\nContent-Length: 2\r\n\r\n\xff\xfe";
    let resp = parse_response(raw).unwrap();
    assert!(matches!(resp.as_str(), Err(Error::InvalidUtf8InBody(_))));
}

#[test]
fn malformed_status_line_is_io_error() {
    assert!(matches!(parse_response(b"garbage\r\n\r\n"), Err(Error::IoError(_))));
    assert!(matches!(
        parse_response(b"HTTP/1.1 abc OK\r\n\r\n"),
        Err(Error::IoError(_))
    ));
}

#[test]
fn empty_stream_is_io_error() {
    assert!(matches!(parse_response(b""), Err(Error::IoError(_))));
}

#[test]
fn status_line_fields() {
    assert_eq!(
        parse_status_line(b"HTTP/1.1 418 I'm a teapot").unwrap(),
        (418, "I'm a teapot".to_string())
    );
    assert_eq!(parse_status_line(b"HTTP/1.1 200").unwrap(), (200, String::new()));
    assert_eq!(parse_status_line(b"HTTP/1.1"), Err(Fault::MalformedStatusLine));
    assert_eq!(parse_status_line(b"HTTP/1.1 99999999999 X"), Err(Fault::MalformedStatusLine));
    assert_eq!(parse_status_line(b"\xff 200 OK"), Err(Fault::InvalidUtf8));
}

#[test]
fn header_line_fields() {
    assert_eq!(
        parse_header_line(b"Location: http://a/b").unwrap(),
        Some(("location".to_string(), "http://a/b".to_string()))
    );
    assert_eq!(parse_header_line(b"no colon here").unwrap(), None);
    assert_eq!(
        parse_header_line(b"K:").unwrap(),
        Some(("k".to_string(), String::new()))
    );
}

#[test]
fn chunk_size_lines() {
    assert_eq!(parse_chunk_size(b"1A"), Ok(26));
    assert_eq!(parse_chunk_size(b"ff ; ext"), Ok(255));
    assert_eq!(parse_chunk_size(b"0"), Ok(0));
    assert_eq!(parse_chunk_size(b""), Err(Fault::MalformedChunkLength));
    assert_eq!(parse_chunk_size(b"+5"), Err(Fault::MalformedChunkLength));
    assert_eq!(
        parse_chunk_size(b"1ffffffffffffffff"),
        Err(Fault::MalformedChunkLength)
    );
}

#[test]
fn numbers_in_both_bases() {
    assert_eq!(parse_number(b"1234", 10), Some(1234));
    assert_eq!(parse_number(b"beef", 16), Some(0xbeef));
    assert_eq!(parse_number(b"beef", 10), None);
    assert_eq!(parse_number(b"18446744073709551615", 10), Some(u64::MAX));
    assert_eq!(parse_number(b"18446744073709551616", 10), None);
}

#[test]
fn framing_prefers_chunked() {
    let raw = b"HTTP/1.1 200 OK\r\nContent-Length: 3\r\nTransfer-Encoding: chunked\r\n\r\n";
    let mut r = ResponseReader::new();
    let mut last = Fed::Pending;
    for b in raw.iter() {
        last = r.feed(*b);
    }
    assert_eq!(last, Fed::Head);
    assert_eq!(r.phase(), Phase::ChunkSize);
    assert_eq!(body_framing(r.headers()), Ok(Phase::ChunkSize));
}

#[test]
fn reader_stops_needing_bytes_at_end_of_body() {
    let raw = b"HTTP/1.1 200 OK\r\nContent-Length: 2\r\n\r\nab";
    let mut r = ResponseReader::new();
    let mut body = Vec::new();
    for b in raw.iter() {
        if let Fed::Byte(x) = r.feed(*b) {
            body.push(x);
        }
    }
    assert!(r.is_done());
    assert_eq!(body, b"ab");
    assert_eq!(r.feed(b'z'), Fed::End);
    assert_eq!(r.finish(), Ok(()));
    assert_eq!(r.status_code(), 200);
    assert_eq!(r.reason_phrase(), "OK");
}

#[test]
fn lone_line_feeds_end_lines() {
    let raw = b"HTTP/1.1 200 OK\nContent-Length: 1\n\nx";
    let resp = parse_response(raw).unwrap();
    assert_eq!(resp.as_str().unwrap(), "x");
}

#[test]
fn cloned_response_keeps_everything() {
    let raw = b"HTTP/1.1 200 OK\r\nContent-Length: 4\r\nPing: Test\r\n\r\nTest";
    let response = parse_response(raw).unwrap();
    let copy = response.clone();
    assert_eq!(copy.status_code, 200);
    assert_eq!(copy.reason_phrase, "OK");
    assert_eq!(copy.headers.get("ping").unwrap(), "Test");
    assert_eq!(copy.as_str().unwrap(), "Test");
    assert_eq!(response.as_str().unwrap(), "Test");
}
