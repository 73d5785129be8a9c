use tcp_ip_monitor::body_type::BodyType;
use tcp_ip_monitor::error::{IoKind, TcpIpError};
use tcp_ip_monitor::forward::{after_read, prepare_request, prepare_response, LoopAction};
use tcp_ip_monitor::header_map::HeaderMap;
use tcp_ip_monitor::request::{Request, RequestBuilder, RequestHeader, RequestMethod};
use tcp_ip_monitor::response::{reason_for, Response, ResponseBuilder, ResponseHeader};
use tcp_ip_monitor::text::{decimal_string, eq_ignore_case, parse_decimal};
use tcp_ip_monitor::util::slice_find_to_end;

#[test]
fn request_round_trip_example() {
    let raw = "GET /v1/api HTTP/2\r\nHost: x\r\n\r\n";
    let header = RequestHeader::from_bytes(raw.as_bytes()).unwrap();
    assert_eq!(header.method, RequestMethod::Get);
    assert_eq!(header.uri, "/v1/api");
    assert_eq!(header.version, "2");
    assert_eq!(header.version.parse::<f32>().unwrap(), 2.0);
    assert_eq!(header.to_bytes(), raw.as_bytes());
}

#[test]
fn response_round_trip_with_spaced_reason() {
    let raw = "HTTP/1.0 404 Not Found\r\nServer: stub\r\nX-Thing: a: b\r\n\r\n";
    let header = ResponseHeader::from_bytes(raw.as_bytes()).unwrap();
    assert_eq!(header.status_code, 404);
    assert_eq!(header.reason_phrase, "Not Found");
    assert_eq!(header.headers.as_ref().unwrap().get("x-thing"), Some("a: b"));
    assert_eq!(header.to_bytes(), raw.as_bytes());
}

#[test]
fn header_block_without_fields() {
    let header = RequestHeader::from_bytes(b"DELETE /x HTTP/1.1").unwrap();
    assert_eq!(header.method, RequestMethod::Delete);
    assert!(header.headers.is_none());
    assert_eq!(header.body_type(), None);
    assert_eq!(header.to_bytes(), b"DELETE /x HTTP/1.1\r\n\r\n".to_vec());
}

#[test]
fn malformed_lines_are_skipped() {
    let header = RequestHeader::from_bytes(b"PUT /y HTTP/1.1\r\nnot a field\r\nA: 1").unwrap();
    let headers = header.headers.unwrap();
    assert_eq!(headers.headers.len(), 1);
    assert_eq!(headers.get("a"), Some("1"));
}

#[test]
fn request_line_errors() {
    assert!(RequestHeader::from_bytes(b"FETCH /x HTTP/1.1\r\n\r\n").is_err());
    assert!(RequestHeader::from_bytes(b"GET /x\r\n\r\n").is_err());
    assert!(RequestHeader::from_bytes(b"GET /x HTTP/one\r\n\r\n").is_err());
    assert!(RequestHeader::from_bytes(b"GET /x HTTP/1.1.1\r\n\r\n").is_err());
    assert!(RequestHeader::from_bytes(b"GET /x HTTP/1.1\r\nA: \xff\r\n\r\n").is_err());
    assert!(RequestHeader::from_bytes(b"").is_err());
}

#[test]
fn status_line_errors() {
    assert!(ResponseHeader::from_bytes(b"HTTP/1.1 70000 Big\r\n\r\n").is_err());
    assert!(ResponseHeader::from_bytes(b"HTTP/1.1 2x0 OK\r\n\r\n").is_err());
    assert!(ResponseHeader::from_bytes(b"HTTP/1.1 200\r\n\r\n").is_err());
    assert!(ResponseHeader::from_bytes(b"HTTP/1.1 200 \r\n\r\n").is_err());
}

#[test]
fn chunked_incomplete_and_malformed() {
    assert_eq!(BodyType::Chunked.read_body(b"7\r\nMozi"), Ok(None));
    assert_eq!(BodyType::Chunked.read_body(b"7"), Ok(None));
    assert!(BodyType::Chunked.read_body(b"zz\r\nabc\r\n").is_err());
    assert!(BodyType::Chunked.read_body(b"\r\n").is_err());
    let (body, used) = BodyType::Chunked.read_body(b"a\r\n0123456789\r\n0\r\n\r\nNEXT").unwrap().unwrap();
    assert_eq!(body, b"0123456789".to_vec());
    assert_eq!(used, 20);
    let (body, used) = BodyType::Chunked.read_body(b"A\r\n0123456789\r\n0\r\n\r\n").unwrap().unwrap();
    assert_eq!(body.len(), 10);
    assert_eq!(used, 20);
}

#[test]
fn fixed_body() {
    assert_eq!(BodyType::Fixed(3).read_body(b"ab"), Ok(None));
    assert_eq!(BodyType::Fixed(3).read_body(b"abcd"), Ok(Some((b"abc".to_vec(), 3))));
    assert_eq!(BodyType::Fixed(0).read_body(b""), Ok(Some((Vec::new(), 0))));
}

#[test]
fn body_type_neither_field() {
    let header = ResponseHeader::from_bytes(b"HTTP/1.1 200 OK\r\nServer: x\r\n\r\n").unwrap();
    assert_eq!(header.body_type(), None);
    let header = ResponseHeader::from_bytes(b"HTTP/1.1 200 OK\r\nContent-Length: lots\r\n\r\n").unwrap();
    assert_eq!(header.body_type(), None);
    let header = ResponseHeader::from_bytes(b"HTTP/1.1 200 OK\r\nTransfer-Encoding: CHUNKED\r\nContent-Length: 5\r\n\r\n").unwrap();
    assert_eq!(header.body_type(), Some(BodyType::Fixed(5)));
}

#[test]
fn strip_keeps_other_fields() {
    let mut header = ResponseHeader::from_bytes(
        b"HTTP/1.1 200 OK\r\nConnection: close\r\nServer: x\r\nTE: trailers\r\nKeep-Alive: 5\r\nDate: today\r\n\r\n",
    )
    .unwrap();
    header.strip_hop_by_hop();
    let headers = header.headers.unwrap();
    assert_eq!(
        headers.headers,
        vec![("Server".to_owned(), "x".to_owned()), ("Date".to_owned(), "today".to_owned())]
    );
}

#[test]
fn insert_twice_keeps_position() {
    let mut m = HeaderMap::new();
    m.insert("Accept", "a");
    m.insert("Host", "h");
    m.insert("ACCEPT", "b");
    assert_eq!(
        m.headers,
        vec![("Accept".to_owned(), "b".to_owned()), ("Host".to_owned(), "h".to_owned())]
    );
    assert!(!m.remove("missing"));
    assert!(m.remove("host"));
    assert!(!m.is_empty());
    assert!(HeaderMap::new().is_empty());
}

#[test]
fn from_header_lines_empty_gives_none() {
    assert!(HeaderMap::from_header_lines(&vec![b"junk".to_vec()]).is_none());
    let m = HeaderMap::from_header_lines(&vec![b"A: 1".to_vec(), b"a: 2".to_vec()]).unwrap();
    assert_eq!(m.headers, vec![("A".to_owned(), "2".to_owned())]);
}

#[test]
fn timeouts_classify_quietly() {
    let e = TcpIpError::from_io(IoKind::TimedOut, "timed out");
    assert_eq!(e, TcpIpError::TcpTimeout);
    assert_eq!(after_read(&Err(e)), LoopAction::Close);
    assert_eq!(TcpIpError::from_io(IoKind::WouldBlock, "would block"), TcpIpError::TcpTimeout);
    assert_eq!(
        TcpIpError::from_io(IoKind::Other, "An established connection was aborted (os error 10053)"),
        TcpIpError::TcpTimeout
    );
    let other = TcpIpError::from_io(IoKind::Other, "connection refused");
    assert_eq!(other, TcpIpError::Other("connection refused".to_owned()));
    assert_eq!(after_read(&Err(other)), LoopAction::LogAndClose);
    assert_eq!(after_read(&Err(TcpIpError::DataTimeout)), LoopAction::LogAndClose);
}

#[test]
fn error_messages() {
    assert_eq!(TcpIpError::DataTimeout.message(), "Data Timed out");
    assert_eq!(TcpIpError::TcpTimeout.message(), "TCP Socket Timed out");
    assert_eq!(TcpIpError::new("boom").message(), "boom");
    assert!(TcpIpError::TcpTimeout.is_tcp_timeout());
}

#[test]
fn relayed_response_end_to_end() {
    let upstream = b"HTTP/1.1 200 OK\r\nTransfer-Encoding: chunked\r\nServer: stub\r\n\r\n4\r\nWiki\r\n6\r\npedia \r\n0\r\n\r\n";
    let (mut response, used) = Response::from_buffer(upstream).unwrap().unwrap();
    assert_eq!(used, upstream.len());
    prepare_response(&mut response);
    let headers = response.header.headers.as_ref().unwrap();
    assert_eq!(headers.get("transfer-encoding"), None);
    assert_eq!(headers.get("content-length"), Some("10"));
    assert_eq!(
        response.to_bytes(),
        b"HTTP/1.1 200 OK\r\nServer: stub\r\nContent-Length: 10\r\n\r\nWikipedia ".to_vec()
    );
}

#[test]
fn request_read_and_prepared() {
    let client = b"GET /a HTTP/1.1\r\nContent-Length: 3\r\nConnection: keep-alive\r\n\r\nabcGET";
    let (mut request, used) = Request::from_buffer(client).unwrap().unwrap();
    assert_eq!(used, client.len() - 3);
    assert_eq!(request.body, Some(b"abc".to_vec()));
    prepare_request(&mut request);
    assert_eq!(request.to_bytes(), b"GET /a HTTP/1.1\r\nContent-Length: 3\r\n\r\nabc".to_vec());
    assert_eq!(after_read(&Ok(request)), LoopAction::Forward);
}

#[test]
fn buffer_outcomes() {
    assert_eq!(Request::from_buffer(b"GET / HTTP/1.1\r\nHost: x\r\n").unwrap_err(), TcpIpError::DataTimeout);
    assert!(Request::from_buffer(b"GET / HTTP/1.1\r\nContent-Length: 9\r\n\r\nabc").unwrap().is_none());
    assert!(matches!(Request::from_buffer(b"BREW / HTTP/1.1\r\n\r\n"), Err(TcpIpError::Other(_))));
    let (r, used) = Request::from_buffer(b"HEAD / HTTP/1.1\r\n\r\n").unwrap().unwrap();
    assert_eq!(r.body, None);
    assert_eq!(used, 19);
}

#[test]
fn builders() {
    assert!(RequestBuilder::new().uri("/x").build().is_none());
    let request = RequestBuilder::new()
        .method(RequestMethod::Post)
        .uri("/x")
        .header("Accept", "*/*")
        .body(b"hello".to_vec())
        .build()
        .unwrap();
    assert_eq!(
        request.to_bytes(),
        b"POST /x HTTP/1.1\r\nAccept: */*\r\nContent-Length: 5\r\n\r\nhello".to_vec()
    );
    assert!(ResponseBuilder::new().build().is_err());
    assert!(ResponseBuilder::new().status_code(799).build().is_err());
    let response = ResponseBuilder::new().version("1.0").status_code(404).build().unwrap();
    assert_eq!(response.header.reason_phrase, "Not Found");
    let response = ResponseBuilder::new().status_code(799).reason_phrase("Odd").body(vec![1]).build().unwrap();
    assert_eq!(response.to_bytes(), b"HTTP/1.1 799 Odd\r\nContent-Length: 1\r\n\r\n\x01".to_vec());
}

#[test]
fn reasons_and_numbers() {
    assert_eq!(reason_for(200), Some("OK"));
    assert_eq!(reason_for(503), Some("Service Unavailable"));
    assert_eq!(reason_for(299), None);
    assert_eq!(decimal_string(0), "0");
    assert_eq!(decimal_string(1234567890), "1234567890");
    assert_eq!(parse_decimal("0042"), Some(42));
    assert_eq!(parse_decimal("18446744073709551615"), Some(u64::MAX));
    assert_eq!(parse_decimal("18446744073709551616"), None);
    assert_eq!(parse_decimal(""), None);
    assert_eq!(parse_decimal("-1"), None);
    assert!(eq_ignore_case("Content-Length", "content-LENGTH"));
    assert!(!eq_ignore_case("Content-Length", "Content-Lengt"));
    assert_eq!(RequestMethod::from_name(b"PATCH"), Some(RequestMethod::Patch));
    assert_eq!(RequestMethod::from_name(b"get"), None);
    assert_eq!(RequestMethod::Options.name(), "OPTIONS");
}

#[test]
fn find_edge_cases() {
    assert_eq!(slice_find_to_end(b"abc", b""), None);
    assert_eq!(slice_find_to_end(b"ab", b"abc"), None);
    assert_eq!(slice_find_to_end(b"xxabab", b"ab"), Some(2));
}

#[test]
fn log_entries() {
    let request = RequestBuilder::new().method(RequestMethod::Get).uri("/").build().unwrap();
    let text = request.pretty_text("80 -> 127.0.0.1:5000");
    let rule = "-".repeat(60);
    assert_eq!(text, format!("{}\nRequest [80 -> 127.0.0.1:5000]\n{}\n\nGET / HTTP/1.1\r\n\r\n", rule, rule));
    let response = Response::new(
        ResponseHeader::new("1.1", 200, "OK", None),
        Some(vec![0xff, 0xfe]),
    );
    assert!(response.pretty_text("p").ends_with("HTTP/1.1 200 OK\r\n\r\nBinary data\n\n"));
    assert_eq!(response.item_name(), "Response");
    assert!(response.as_string().is_err());
    assert_eq!(response.header.as_string().unwrap(), "HTTP/1.1 200 OK\r\n\r\n");
    let plain = Request::new(RequestHeader::new(RequestMethod::Trace, "/t", "1.1", None), None);
    assert_eq!(plain.as_string().unwrap(), "TRACE /t HTTP/1.1\r\n\r\n");
}
