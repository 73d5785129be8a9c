use tcp_ip_monitor::body_type::BodyType;
use tcp_ip_monitor::header_map::HeaderMap;
use tcp_ip_monitor::request::{Request, RequestHeader, RequestMethod};
use tcp_ip_monitor::response::{Response, ResponseHeader};
use tcp_ip_monitor::util::slice_find_to_end;

#[test]
fn test_read_chunked() {
    let raw_data = "7\r\nMozilla\r\n9\r\nDeveloper\r\n7\r\nNetwork\r\n0\r\n\r\n";

    let (bytes, _) = BodyType::Chunked
        .read_body(raw_data.as_bytes())
        .expect("Failed to read body")
        .expect("Failed to read body");
    assert_eq!(
        String::from_utf8(bytes).expect("Failed to convert body to String"),
        "MozillaDeveloperNetwork"
    );

    let raw_data = "4\r\nWiki\r\n6\r\npedia \r\nE\r\nin \r\n\r\nchunks.\r\n0\r\n\r\n";

    let (bytes, _) = BodyType::Chunked
        .read_body(raw_data.as_bytes())
        .expect("Failed to read body")
        .expect("Failed to read body");
    assert_eq!(
        String::from_utf8(bytes).expect("Failed to convert body to String"),
        "Wikipedia in \r\n\r\nchunks."
    );
}

#[test]
fn test_insert() {
    let mut header_map = HeaderMap::new();

    header_map.insert("Transfer-Encoding", "chunked");

    assert_eq!(header_map.get("Transfer-Encoding"), Some("chunked"));

    header_map.insert("Transfer-Encoding", "gzip");

    assert_eq!(header_map.get("Transfer-Encoding"), Some("gzip"));
}

#[test]
fn test_remove() {
    let mut header_map = HeaderMap::new();

    header_map.insert("Transfer-Encoding", "chunked");

    assert_eq!(header_map.get("Transfer-Encoding"), Some("chunked"));

    assert_eq!(header_map.remove("Transfer-Encoding"), true);

    assert_eq!(header_map.get("Transfer-Encoding"), None);
}

#[test]
fn test_get() {
    let mut header_map = HeaderMap::new();

    header_map.insert("Transfer-Encoding", "chunked");

    assert_eq!(header_map.get("Transfer-Encoding"), Some("chunked"));
}

#[test]
fn test_get_mut() {
    let mut header_map = HeaderMap::new();

    header_map.insert("Transfer-Encoding", "chunked");

    assert_eq!(header_map.get("Transfer-Encoding"), Some("chunked"));

    if let Some(te_mut) = header_map.get_mut("Transfer-Encoding") {
        *te_mut = "compress".to_owned();
    }

    assert_eq!(header_map.get("Transfer-Encoding"), Some("compress"));
}

#[test]
fn test_slice_find_to_end() {
    let slice: [u8; 10] = [72, 84, 84, 80, 47, 50, 13, 10, 13, 10];

    let res = slice_find_to_end(&slice, &[13, 10, 13, 10]).expect("Failed to find to_end");

    assert_eq!(&slice[..res], [72, 84, 84, 80, 47, 50]);
}

#[test]
fn mod_test_to_bytes() {
    let request = Request {
        header: RequestHeader {
            method: RequestMethod::Get,
            uri: "/abc/123".to_string(),
            version: "1.1".to_string(),
            headers: Some(HeaderMap {
                headers: vec![
                    ("Content-Type".to_owned(), "application/json".to_owned()),
                    ("Accept".to_owned(), "*/*".to_owned()),
                    ("Content-Length".to_owned(), "26".to_owned()),
                ],
            }),
        },
        body: Some(vec![
            123, 10, 9, 34, 100, 97, 116, 97, 34, 58, 32, 34, 104, 101, 108, 108, 111, 32, 119,
            111, 114, 108, 100, 34, 10, 125,
        ]),
    };

    let request_str_raw = "GET /abc/123 HTTP/1.1\r\nContent-Type: application/json\r\nAccept: */*\r\nContent-Length: 26\r\n\r\n{\n\t\"data\": \"hello world\"\n}";

    let request_str = request
        .as_string()
        .expect("Failed to convert request to str");

    assert_eq!(request_str_raw, request_str);
}

#[test]
fn request_header_test_from_bytes_to_bytes() {
    let raw_request = String::from("GET /v1/api/episode/watch/random HTTP/2\r\nHost: pkaindex.com\r\nuser-agent: insomnia/2020.5.2\r\ncookie: __cfduid=d863d271a2081db4604f4f9ba9a131f221608908853\r\naccept: */*\r\n\r\n");

    let header =
        RequestHeader::from_bytes(raw_request.as_bytes()).expect("Failed to read request");

    assert_eq!(header.method, RequestMethod::Get);
    assert_eq!(header.uri, "/v1/api/episode/watch/random");
    assert_eq!(header.version.parse::<f32>().unwrap(), 2.0);

    let headers = header.headers.as_ref().expect("Headers was None");

    assert_eq!(headers.get("Host"), Some("pkaindex.com"));
    assert_eq!(headers.get("user-agent"), Some("insomnia/2020.5.2"));
    assert_eq!(
        headers.get("cookie"),
        Some("__cfduid=d863d271a2081db4604f4f9ba9a131f221608908853")
    );
    assert_eq!(headers.get("accept"), Some("*/*"));

    assert_eq!(header.to_bytes(), raw_request.as_bytes());
}

#[test]
fn request_header_test_body_type_fixed() {
    let raw_request = String::from("GET /v1/api/episode/watch/random HTTP/1.1\r\nHost: localhost:5678\r\nUser-Agent: insomnia/2020.5.2\r\nContent-Type: application/json\r\nAccept: */*\r\nContent-Length: 20\r\n\r\n");
    let header =
        RequestHeader::from_bytes(raw_request.as_bytes()).expect("Failed to read request");

    assert_eq!(header.body_type(), Some(BodyType::Fixed(20)))
}

#[test]
fn request_header_test_body_type_chunked() {
    let raw_request = String::from("GET /v1/api/episode/watch/random HTTP/1.1\r\nHost: localhost:5678\r\nUser-Agent: insomnia/2020.5.2\r\nContent-Type: application/json\r\nAccept: */*\r\nTransfer-Encoding: Chunked\r\n\r\n");
    let header =
        RequestHeader::from_bytes(raw_request.as_bytes()).expect("Failed to read request");

    assert_eq!(header.body_type(), Some(BodyType::Chunked))
}

#[test]
fn test_strip_hop_by_hop() {
    let raw_request = String::from("GET /v1/api/episode/watch/random HTTP/1.1\r\nHost: localhost:5678\r\nUser-Agent: insomnia/2020.5.2\r\nContent-Type: application/json\r\nAccept: */*\r\nTransfer-Encoding: Chunked\r\n\r\n");
    let mut header =
        RequestHeader::from_bytes(raw_request.as_bytes()).expect("Failed to read request");

    assert!(header
        .headers
        .as_ref()
        .expect("Headers was None")
        .get("transfer-encoding")
        .is_some());

    header.strip_hop_by_hop();

    assert!(header
        .headers
        .as_ref()
        .expect("Headers was None")
        .get("transfer-encoding")
        .is_none());
}

#[test]
fn response_mod_test_to_bytes() {
    let request = Response {
        header: ResponseHeader {
            version: "1.1".to_string(),
            status_code: 200,
            reason_phrase: "OK".to_string(),
            headers: Some(HeaderMap {
                headers: vec![("Content-Length".to_owned(), "24".to_owned())],
            }),
        },
        body: Some(vec![
            123, 10, 9, 34, 100, 97, 116, 97, 34, 58, 32, 34, 104, 101, 108, 108, 111, 32, 122,
            97, 107, 34, 10, 125,
        ]),
    };

    let request_str_raw =
        "HTTP/1.1 200 OK\r\nContent-Length: 24\r\n\r\n{\n\t\"data\": \"hello zak\"\n}";

    let request_str = request
        .as_string()
        .expect("Failed to convert request to str");

    assert_eq!(request_str_raw, request_str);
}

#[test]
fn response_header_test_from_bytes_to_bytes() {
    let raw_request = String::from("HTTP/1.1 200 OK\r\nContent-Length: 13\r\n\r\n");

    let header =
        ResponseHeader::from_bytes(raw_request.as_bytes()).expect("Failed to read request");

    assert_eq!(header.version.parse::<f32>().unwrap(), 1.1);
    assert_eq!(header.status_code, 200);
    assert_eq!(header.reason_phrase, "OK");

    let headers = header.headers.as_ref().expect("Headers was None");

    assert_eq!(headers.get("Content-Length"), Some("13"));

    assert_eq!(header.to_bytes(), raw_request.as_bytes());
}

#[test]
fn response_header_test_body_type_fixed() {
    let raw_request = String::from("HTTP/1.1 200 OK\r\nContent-Length: 13\r\n\r\n");

    let header =
        ResponseHeader::from_bytes(raw_request.as_bytes()).expect("Failed to read request");

    assert_eq!(header.body_type(), Some(BodyType::Fixed(13)))
}

#[test]
fn response_header_test_body_type_chunked() {
    let raw_request = String::from("HTTP/1.1 200 OK\r\nTransfer-Encoding: chunked\r\n\r\n");

    let header =
        ResponseHeader::from_bytes(raw_request.as_bytes()).expect("Failed to read request");

    assert_eq!(header.body_type(), Some(BodyType::Chunked))
}
