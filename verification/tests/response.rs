use ureq::body::copy_chunked;
use ureq::response::{
    parse_status_line_from_header, read_body, read_body_into, read_status_and_headers,
    BodyFraming, Buffer,
    HeadReader, Response, Status, Version, HEAD_CAPACITY,
};
use ureq::{Cause, Error, ErrorKind};

fn response(head_and_more: &[u8], to_head: bool) -> Response {
    let b = read_status_and_headers(head_and_more, false).unwrap().unwrap();
    Response::do_from_stream(b, to_head).unwrap()
}

fn bad_status(line: &[u8]) -> Option<&'static str> {
    match parse_status_line_from_header(line) {
        Ok(_) => panic!("the status line was accepted"),
        Err(e) => {
            assert_eq!(e.kind(), ErrorKind::BadStatus);
            e.message()
        }
    }
}

fn io_error<T>(r: Result<T, Error>) -> &'static str {
    match r {
        Ok(_) => panic!("no error"),
        Err(e) => {
            assert_eq!(e.kind(), ErrorKind::Io);
            e.message().unwrap()
        }
    }
}

#[test]
fn status_line_ok() {
    let line = parse_status_line_from_header(b"HTTP/1.1 200 OK\r\n").unwrap();
    assert_eq!(line.version, Version::Http11);
    assert_eq!(line.version.to_str(), "HTTP/1.1");
    assert_eq!(line.code, 200);
    assert_eq!(line.status(), Status::Success);
}

#[test]
fn status_line_borked() {
    assert_eq!(
        bad_status(b"HTTP/1.1 BORKED\r\n"),
        Some("HTTP status code must be a 3 digit number")
    );
}

#[test]
fn status_line_http10() {
    let line = parse_status_line_from_header(b"HTTP/1.0 404 Not Found\r\n").unwrap();
    assert_eq!(line.version, Version::Http10);
    assert_eq!(line.code, 404);
    assert_eq!(line.status(), Status::NotFound);
}

#[test]
fn status_line_codes() {
    assert_eq!(parse_status_line_from_header(b"HTTP/1.1 000 x").unwrap().code, 0);
    assert_eq!(parse_status_line_from_header(b"HTTP/1.1 999 x").unwrap().code, 999);
    assert_eq!(parse_status_line_from_header(b"HTTP/1.1 307 ").unwrap().code, 307);
    assert_eq!(parse_status_line_from_header(b"HTTP/1.1 500 \r\n").unwrap().status(), Status::InternalServerError);
    assert_eq!(parse_status_line_from_header(b"HTTP/1.1 400 Bad").unwrap().status(), Status::BadRequest);
    assert_eq!(parse_status_line_from_header(b"HTTP/1.1 201 Created").unwrap().status(), Status::Unsupported);
}

#[test]
fn status_line_too_short() {
    let msg = Some("Status line isn't formatted correctly");
    assert_eq!(bad_status(b""), msg);
    assert_eq!(bad_status(b"HTTP/1.1 200"), msg);
    assert_eq!(bad_status(b"HTTP/1.1 20"), msg);
}

#[test]
fn status_line_bad_version() {
    let msg = Some("HTTP version not formatted correctly");
    assert_eq!(bad_status(b"HTTP/2.0 200 OK\r\n"), msg);
    assert_eq!(bad_status(b"HTTP/1.2 200 OK\r\n"), msg);
    assert_eq!(bad_status(b"http/1.1 200 OK\r\n"), msg);
    assert_eq!(bad_status(b"HTTP/1.1\t200 OK\r\n"), msg);
}

#[test]
fn status_line_bad_code() {
    let msg = Some("HTTP status code must be a 3 digit number");
    assert_eq!(bad_status(b"HTTP/1.1 20x OK\r\n"), msg);
    assert_eq!(bad_status(b"HTTP/1.1 2000 OK\r\n"), msg);
    assert_eq!(bad_status(b"HTTP/1.1 200\r\n"), msg);
    assert_eq!(bad_status(b"HTTP/1.1 +20 OK\r\n"), msg);
}

#[test]
fn status_line_reason_not_ascii() {
    assert_eq!(bad_status(b"HTTP/1.1 200 \xc3\xa9\r\n"), None);
    assert_eq!(bad_status(b"HTTP/1.1 200 OK\xff"), None);
}

#[test]
fn status_names() {
    assert_eq!(Status::from(200), Status::Success);
    assert_eq!(Status::from(400), Status::BadRequest);
    assert_eq!(Status::from(404), Status::NotFound);
    assert_eq!(Status::from(500), Status::InternalServerError);
    assert_eq!(Status::from(302), Status::Unsupported);
    assert_eq!(Status::Success.to_str(), "200 Ok");
    assert_eq!(Status::BadRequest.to_str(), "400 Bad Request");
    assert_eq!(Status::NotFound.to_str(), "404 Not Found");
    assert_eq!(Status::InternalServerError.to_str(), "500 Internal Server Error");
    assert_eq!(Status::Unsupported.to_str(), "Unknown");
    assert_eq!(Version::Http10.to_str(), "HTTP/1.0");
}

#[test]
fn head_found_with_carry_over() {
    let data = b"HTTP/1.1 200 OK\r\nA: b\r\n\r\nhello";
    let b = read_status_and_headers(data, false).unwrap().unwrap();
    assert_eq!(b.head_bytes(), &b"HTTP/1.1 200 OK\r\nA: b\r\n"[..]);
    assert_eq!(b.carry_bytes(), &b"hello"[..]);
}

#[test]
fn head_found_without_carry_over() {
    let b = read_status_and_headers(b"HTTP/1.1 204 No Content\r\n\r\n", true).unwrap().unwrap();
    assert_eq!(b.head_bytes(), &b"HTTP/1.1 204 No Content\r\n"[..]);
    assert_eq!(b.carry_bytes(), &b""[..]);
}

#[test]
fn head_first_empty_line_ends_it() {
    let b = read_status_and_headers(b"a\r\n\r\nb\r\n\r\nc", false).unwrap().unwrap();
    assert_eq!(b.head_bytes(), &b"a\r\n"[..]);
    assert_eq!(b.carry_bytes(), &b"b\r\n\r\nc"[..]);
}

#[test]
fn buffer_parts_must_add_up() {
    assert!(Buffer::new(b"ab\r\ncd".to_vec(), 2, 2).is_some());
    assert!(Buffer::new(b"ab\r\ncd".to_vec(), 2, 3).is_none());
    assert!(Buffer::new(b"ab\r\ncd".to_vec(), 5, 0).is_none());
    assert!(Buffer::new(b"a".to_vec(), 0, 0).is_none());
    assert!(Buffer::new(Vec::new(), usize::MAX, 1).is_none());
}

#[test]
fn head_needs_more() {
    assert!(read_status_and_headers(b"", false).unwrap().is_none());
    assert!(read_status_and_headers(b"HTTP/1.1 200 OK\r\nA: b\r\n\r", false).unwrap().is_none());
}

#[test]
fn head_cut_short() {
    assert_eq!(
        io_error(read_status_and_headers(b"HTTP/1.1 200 OK\r\n", true)),
        "Unexpected end of stream in HTTP headers"
    );
    assert_eq!(
        io_error(read_status_and_headers(b"", true)),
        "Unexpected end of stream in HTTP headers"
    );
}

#[test]
fn head_too_large() {
    let msg = "Failed to fetch HTTP headers in given buffer";
    let data = vec![b'a'; HEAD_CAPACITY];
    assert_eq!(io_error(read_status_and_headers(&data, false)), msg);
    assert_eq!(io_error(read_status_and_headers(&data, true)), msg);

    let mut data = vec![b'a'; HEAD_CAPACITY - 3];
    data.extend_from_slice(b"\r\n\r\nbody");
    assert_eq!(io_error(read_status_and_headers(&data, false)), msg);

    let mut data = vec![b'a'; HEAD_CAPACITY - 4];
    data.extend_from_slice(b"\r\n\r\nbody");
    let b = read_status_and_headers(&data, false).unwrap().unwrap();
    assert_eq!(b.head_bytes().len(), HEAD_CAPACITY - 2);
    assert_eq!(b.carry_bytes(), &b"body"[..]);

    let data = vec![b'a'; HEAD_CAPACITY - 1];
    assert!(read_status_and_headers(&data, false).unwrap().is_none());
}

#[test]
fn response_from_head() {
    let r = response(b"HTTP/1.1 200 OK\r\nContent-Type: text/plain\r\nX-Foo: bar\r\n\r\nhello", false);
    assert_eq!(r.status(), Status::Success);
    assert_eq!(r.code(), 200);
    assert_eq!(r.version(), Version::Http11);
    assert_eq!(r.header("content-type"), Some("text/plain"));
    assert_eq!(r.header("X-FOO"), Some("bar"));
    assert_eq!(r.header("missing"), None);
}

#[test]
fn response_without_headers() {
    let r = response(b"HTTP/1.1 404 Not Found\r\n\r\n", false);
    assert_eq!(r.status(), Status::NotFound);
    assert_eq!(r.header("a"), None);
}

#[test]
fn response_header_that_is_not_utf8() {
    let r = response(b"HTTP/1.1 200 OK\r\nX-Legacy: caf\xe9\r\nX-Fine: caf\xc3\xa9\r\n\r\n", false);
    assert_eq!(r.header("x-legacy"), None);
    assert_eq!(r.header("x-fine"), Some("caf\u{e9}"));
}

#[test]
fn response_bad_status_line() {
    let b = read_status_and_headers(b"HTTP/1.1 BORKED\r\nA: b\r\n\r\n", false).unwrap().unwrap();
    let e = Response::do_from_stream(b, false).err().unwrap();
    assert_eq!(e.kind(), ErrorKind::BadStatus);
    assert_eq!(e.message(), Some("HTTP status code must be a 3 digit number"));
}

#[test]
fn response_missing_status_line() {
    let b = Buffer::new(b"HTTP/1.1 200 OK\r\r\rbody".to_vec(), 16, 4).unwrap();
    assert_eq!(b.head_bytes(), &b"HTTP/1.1 200 OK\r"[..]);
    assert_eq!(b.carry_bytes(), &b"body"[..]);
    let e = Response::do_from_stream(b, false).err().unwrap();
    assert_eq!(e.kind(), ErrorKind::BadStatus);
    assert_eq!(e.message(), Some("Missing Status Line"));

    let b = read_status_and_headers(b"\r\n\r\n", false).unwrap().unwrap();
    assert_eq!(b.head_bytes(), &b"\r\n"[..]);
    let e = Response::do_from_stream(b, false).err().unwrap();
    assert_eq!(e.kind(), ErrorKind::BadStatus);
    assert_eq!(e.message(), Some("Status line isn't formatted correctly"));
}

#[test]
fn response_bad_header() {
    let b = read_status_and_headers(b"HTTP/1.1 200 OK\r\nnonsense\r\n\r\n", false).unwrap().unwrap();
    let e = Response::do_from_stream(b, false).err().unwrap();
    assert_eq!(e.kind(), ErrorKind::BadHeader);
    assert_eq!(e.message(), Some("HTTP header must be a key-value separated by a colon"));
}

#[test]
fn framing_content_length() {
    let r = response(b"HTTP/1.1 200 OK\r\nContent-Length: 5\r\n\r\n", false);
    assert_eq!(r.framing(), BodyFraming::FixedLength(5));
    let r = response(b"HTTP/1.1 200 OK\r\ncontent-length:  0012 \r\n\r\n", false);
    assert_eq!(r.framing(), BodyFraming::FixedLength(12));
    let r = response(b"HTTP/1.1 200 OK\r\nContent-Length: 18446744073709551615\r\n\r\n", false);
    assert_eq!(r.framing(), BodyFraming::FixedLength(u64::MAX));
}

#[test]
fn framing_content_length_that_is_no_number() {
    for value in ["", "abc", "-1", "1.5", "18446744073709551616", "5 5"] {
        let head = format!("HTTP/1.1 200 OK\r\nContent-Length: {}\r\n\r\n", value);
        assert_eq!(response(head.as_bytes(), false).framing(), BodyFraming::UntilClose, "{:?}", value);
    }
}

#[test]
fn framing_chunked_beats_content_length() {
    let r = response(b"HTTP/1.1 200 OK\r\nContent-Length: 5\r\nTransfer-Encoding: chunked\r\n\r\n", false);
    assert_eq!(r.framing(), BodyFraming::Chunked);
    let r = response(b"HTTP/1.1 200 OK\r\nTransfer-Encoding: whatever\r\n\r\n", false);
    assert_eq!(r.framing(), BodyFraming::Chunked);
}

#[test]
fn framing_empty_transfer_encoding_is_none() {
    let r = response(b"HTTP/1.1 200 OK\r\nTransfer-Encoding:  \r\nContent-Length: 5\r\n\r\n", false);
    assert_eq!(r.framing(), BodyFraming::FixedLength(5));
}

#[test]
fn framing_connection_close_beats_all() {
    let r = response(b"HTTP/1.1 200 OK\r\nConnection: Close\r\nContent-Length: 5\r\n\r\n", false);
    assert_eq!(r.framing(), BodyFraming::UntilClose);
    let r = response(b"HTTP/1.1 200 OK\r\nConnection: close\r\nTransfer-Encoding: chunked\r\n\r\n", false);
    assert_eq!(r.framing(), BodyFraming::UntilClose);
}

#[test]
fn framing_http10() {
    let r = response(b"HTTP/1.0 200 OK\r\nContent-Length: 5\r\n\r\n", false);
    assert_eq!(r.framing(), BodyFraming::UntilClose);
    let r = response(b"HTTP/1.0 200 OK\r\nConnection: Keep-Alive\r\nContent-Length: 5\r\n\r\n", false);
    assert_eq!(r.framing(), BodyFraming::FixedLength(5));
    let r = response(b"HTTP/1.1 200 OK\r\nConnection: keep-alive\r\nContent-Length: 5\r\n\r\n", false);
    assert_eq!(r.framing(), BodyFraming::FixedLength(5));
}

#[test]
fn framing_default_is_until_close() {
    let r = response(b"HTTP/1.1 200 OK\r\nA: b\r\n\r\n", false);
    assert_eq!(r.framing(), BodyFraming::UntilClose);
}

#[test]
fn framing_no_body() {
    let head = b"HTTP/1.1 200 OK\r\nContent-Length: 5\r\nTransfer-Encoding: chunked\r\nConnection: close\r\n\r\n";
    assert_eq!(response(head, true).framing(), BodyFraming::FixedLength(0));
    let r = response(b"HTTP/1.1 204 No Content\r\nContent-Length: 5\r\n\r\n", false);
    assert_eq!(r.framing(), BodyFraming::FixedLength(0));
    let r = response(b"HTTP/1.0 304 Not Modified\r\n\r\n", false);
    assert_eq!(r.framing(), BodyFraming::FixedLength(0));
}

#[test]
fn framing_ignores_header_that_is_not_utf8() {
    let r = response(b"HTTP/1.1 200 OK\r\nTransfer-Encoding: \xff\r\nContent-Length: 3\r\n\r\n", false);
    assert_eq!(r.framing(), BodyFraming::FixedLength(3));
}

#[test]
fn body_fixed_length_keeps_what_follows() {
    let next = b"HTTP/1.1 200 OK\r\n\r\n";
    let mut wire = b"HTTP/1.1 200 OK\r\nContent-Length: 5\r\n\r\nhello".to_vec();
    wire.extend_from_slice(next);
    let reader = response(&wire, false).into_reader();
    assert_eq!(reader.framing(), BodyFraming::FixedLength(5));
    let body = reader.read_to_end(b"", false, usize::MAX).unwrap().unwrap();
    assert_eq!(body.bytes, b"hello".to_vec());
    assert_eq!(body.rest, next.to_vec());
}

#[test]
fn body_fixed_length_across_reads() {
    let reader = response(b"HTTP/1.1 200 OK\r\nContent-Length: 5\r\n\r\nhe", false).into_reader();
    assert!(reader.read_to_end(b"l", false, usize::MAX).unwrap().is_none());
    let reader = response(b"HTTP/1.1 200 OK\r\nContent-Length: 5\r\n\r\nhe", false).into_reader();
    let body = reader.read_to_end(b"lloNEXT", false, usize::MAX).unwrap().unwrap();
    assert_eq!(body.bytes, b"hello".to_vec());
    assert_eq!(body.rest, b"NEXT".to_vec());
}

#[test]
fn body_fixed_length_cut_short() {
    let reader = response(b"HTTP/1.1 200 OK\r\nContent-Length: 5\r\n\r\nhe", false).into_reader();
    assert_eq!(io_error(reader.read_to_end(b"l", true, usize::MAX)), "Unexpected end of stream in body");
    assert_eq!(
        io_error(read_body(BodyFraming::FixedLength(1), b"", true)),
        "Unexpected end of stream in body"
    );
}

#[test]
fn body_fixed_length_zero() {
    let body = read_body(BodyFraming::FixedLength(0), b"abc", false).unwrap().unwrap();
    assert_eq!(body.bytes, Vec::<u8>::new());
    assert_eq!(body.rest, b"abc".to_vec());
    let body = read_body(BodyFraming::FixedLength(0), b"", true).unwrap().unwrap();
    assert!(body.bytes.is_empty() && body.rest.is_empty());
}

#[test]
fn body_until_close() {
    assert!(read_body(BodyFraming::UntilClose, b"abc", false).unwrap().is_none());
    let body = read_body(BodyFraming::UntilClose, b"abc", true).unwrap().unwrap();
    assert_eq!(body.bytes, b"abc".to_vec());
    assert!(body.rest.is_empty());
}

#[test]
fn body_chunked_decode() {
    let body = read_body(BodyFraming::Chunked, b"3\r\nhel\r\n2\r\nlo\r\n0\r\n\r\n", false).unwrap().unwrap();
    assert_eq!(body.bytes, b"hello".to_vec());
    assert!(body.rest.is_empty());
}

#[test]
fn body_chunked_keeps_what_follows() {
    let body = read_body(BodyFraming::Chunked, b"3\r\nhel\r\n0\r\n\r\nHTTP/1.1 200 OK\r\n", false).unwrap().unwrap();
    assert_eq!(body.bytes, b"hel".to_vec());
    assert_eq!(body.rest, b"HTTP/1.1 200 OK\r\n".to_vec());
}

#[test]
fn body_chunked_through_reader() {
    let reader = response(b"HTTP/1.1 200 OK\r\nTransfer-Encoding: chunked\r\n\r\n3\r\nhe", false).into_reader();
    let body = reader.read_to_end(b"l\r\n2\r\nlo\r\n0\r\n\r\nX", false, usize::MAX).unwrap().unwrap();
    assert_eq!(body.bytes, b"hello".to_vec());
    assert_eq!(body.rest, b"X".to_vec());
}

#[test]
fn body_chunked_not_complete() {
    for part in [&b""[..], b"3", b"3\r\n", b"3\r\nhe", b"3\r\nhel", b"3\r\nhel\r\n", b"3\r\nhel\r\n0\r\n", b"3\r\nhel\r\n0\r\n\r"] {
        assert!(read_body(BodyFraming::Chunked, part, false).unwrap().is_none(), "{:?}", part);
        assert!(read_body(BodyFraming::Chunked, part, true).is_err(), "{:?}", part);
    }
    assert_eq!(
        io_error(read_body(BodyFraming::Chunked, b"3\r\nhe", true)),
        "Unexpected end of stream in body"
    );
    assert_eq!(
        io_error(read_body(BodyFraming::Chunked, b"zz\r\nhe", true)),
        "Error while decoding chunks"
    );
}

#[test]
fn body_chunked_round_trip() {
    let mut source = Vec::new();
    for i in 0..40000u32 {
        source.push((i % 251) as u8);
    }
    let mut wire = Vec::new();
    copy_chunked(&source, &mut wire);
    wire.extend_from_slice(b"tail");
    let body = read_body(BodyFraming::Chunked, &wire, false).unwrap().unwrap();
    assert_eq!(body.bytes, source);
    assert_eq!(body.rest, b"tail".to_vec());
}

#[test]
fn head_reader_across_reads() {
    let mut head = HeadReader::new();
    assert_eq!(head.room(), HEAD_CAPACITY);
    assert!(head.feed(Ok(b"HTTP/1.1 200 OK\r\nA: b\r")).unwrap().is_none());
    assert_eq!(head.room(), HEAD_CAPACITY - 22);
    let b = head.feed(Ok(b"\n\r\nhello")).unwrap().unwrap();
    assert_eq!(b.head_bytes(), &b"HTTP/1.1 200 OK\r\nA: b\r\n"[..]);
    assert_eq!(b.carry_bytes(), &b"hello"[..]);
}

#[test]
fn head_reader_at_the_end_of_the_stream() {
    let mut head = HeadReader::new();
    assert!(head.feed(Ok(b"HTTP/1.1 200 OK\r\n")).unwrap().is_none());
    assert_eq!(io_error(head.feed(Ok(b""))), "Unexpected end of stream in HTTP headers");
}

#[test]
fn head_reader_with_a_full_buffer() {
    let mut head = HeadReader::new();
    let fill = vec![b'a'; HEAD_CAPACITY - 1];
    assert!(head.feed(Ok(&fill)).unwrap().is_none());
    assert_eq!(head.room(), 1);
    assert_eq!(io_error(head.feed(Ok(b"a"))), "Failed to fetch HTTP headers in given buffer");
    assert_eq!(head.room(), 0);
    assert_eq!(io_error(head.feed(Ok(b""))), "Failed to fetch HTTP headers in given buffer");
}

#[test]
fn head_reader_on_a_failed_read() {
    let mut head = HeadReader::new();
    let e = head.feed(Err(Cause::Io("reset".to_string()))).err().unwrap();
    assert_eq!(e.kind(), ErrorKind::Io);
    assert_eq!(e.message(), None);
    assert_eq!(e.to_text(), "Network Error: reset");
    assert_eq!(head.room(), HEAD_CAPACITY);
}

#[test]
fn response_header_text_is_trimmed_as_text() {
    let r = response(b"HTTP/1.1 200 OK\r\nA: \xc2\xa0w x\xe2\x80\x83\r\nB: \x0bv\x0b\r\nC: \xc2\x85\r\n\r\n", false);
    assert_eq!(r.header("a"), Some("w x"));
    assert_eq!(r.header("\u{a0}A"), Some("w x"));
    assert_eq!(r.header("b"), Some("v"));
    assert_eq!(r.header("c"), Some(""));
}

#[test]
fn framing_reads_trimmed_text() {
    let r = response(b"HTTP/1.1 200 OK\r\nConnection: close\xc2\xa0\r\nContent-Length: 5\r\n\r\n", false);
    assert_eq!(r.framing(), BodyFraming::UntilClose);
    let r = response(b"HTTP/1.1 200 OK\r\nContent-Length: \xe3\x80\x807\x0b\r\n\r\n", false);
    assert_eq!(r.framing(), BodyFraming::FixedLength(7));
    let r = response(b"HTTP/1.1 200 OK\r\nTransfer-Encoding: \xc2\xa0\r\nContent-Length: 3\r\n\r\n", false);
    assert_eq!(r.framing(), BodyFraming::FixedLength(3));
}

#[test]
fn body_chunked_that_is_no_chunks_fails_at_once() {
    for part in [&b"zz\r\nhe"[..], b"3\r\nhelXY", b"3\rX\n", b"\r\n\r\n", b"3\r\nhel\r\n0\r\nXY"] {
        assert_eq!(
            io_error(read_body(BodyFraming::Chunked, part, false)),
            "Error while decoding chunks",
            "{:?}",
            part
        );
        assert_eq!(io_error(read_body(BodyFraming::Chunked, part, true)), "Error while decoding chunks");
    }
    assert!(read_body(BodyFraming::Chunked, b"zz", false).unwrap().is_none());
    assert!(read_body(BodyFraming::Chunked, b"3\r\nhelX", false).unwrap().is_none());
}

#[test]
fn body_that_fits_the_buffer() {
    let body = read_body_into(BodyFraming::FixedLength(5), b"helloNEXT", false, 5).unwrap().unwrap();
    assert_eq!(body.bytes, b"hello".to_vec());
    assert_eq!(body.rest, b"NEXT".to_vec());
    let body = read_body_into(BodyFraming::UntilClose, b"hello", true, 5).unwrap().unwrap();
    assert_eq!(body.bytes, b"hello".to_vec());
    let body = read_body_into(BodyFraming::Chunked, b"3\r\nhel\r\n2\r\nlo\r\n0\r\n\r\n", false, 5).unwrap().unwrap();
    assert_eq!(body.bytes, b"hello".to_vec());
    let body = read_body_into(BodyFraming::FixedLength(0), b"", false, 0).unwrap().unwrap();
    assert!(body.bytes.is_empty());
    assert!(read_body_into(BodyFraming::FixedLength(5), b"he", false, 5).unwrap().is_none());
    assert!(read_body_into(BodyFraming::UntilClose, b"hello", false, 5).unwrap().is_none());
}

#[test]
fn body_that_does_not_fit_the_buffer() {
    let msg = "Body larger than the buffer";
    assert_eq!(io_error(read_body_into(BodyFraming::FixedLength(5), b"helloNEXT", false, 4)), msg);
    assert_eq!(io_error(read_body_into(BodyFraming::FixedLength(5), b"", false, 4)), msg);
    assert_eq!(io_error(read_body_into(BodyFraming::FixedLength(5), b"he", true, 4)), msg);
    assert_eq!(io_error(read_body_into(BodyFraming::UntilClose, b"hello", true, 4)), msg);
    assert_eq!(io_error(read_body_into(BodyFraming::UntilClose, b"hello", false, 4)), msg);
    assert_eq!(
        io_error(read_body_into(BodyFraming::Chunked, b"3\r\nhel\r\n2\r\nlo\r\n0\r\n\r\n", false, 4)),
        msg
    );
    assert_eq!(io_error(read_body_into(BodyFraming::FixedLength(1), b"x", false, 0)), msg);

    let reader = response(b"HTTP/1.1 200 OK\r\nContent-Length: 5\r\n\r\nhe", false).into_reader();
    assert_eq!(io_error(reader.read_to_end(b"llo", false, 4)), msg);
    let body = reader.read_to_end(b"llo", false, 5).unwrap().unwrap();
    assert_eq!(body.bytes, b"hello".to_vec());
}
