use low_level_lab::bit_reader::Reader;
use low_level_lab::bit_writer::{Writer, WriterError};
use low_level_lab::decimal::decimal_string;
use low_level_lab::http_request::{Method, ParseError, Request, Version};
use low_level_lab::http_response::{build_response, route_request};

#[test]
fn writer_packs_msb_first() {
    let mut w = Writer::new();
    w.write(0b101, 3).unwrap();
    assert_eq!(w.current_byte, 0b1010_0000);
    assert_eq!(w.num_bits_filled, 3);
    assert!(w.packed.is_empty());
    w.write(0b11111, 5).unwrap();
    assert_eq!(w.packed, vec![0b1011_1111]);
    assert_eq!(w.current_byte, 0);
    assert_eq!(w.num_bits_filled, 0);
}

#[test]
fn writer_masks_extra_bits() {
    let mut w = Writer::new();
    w.write(89, 8).unwrap();
    w.write(10000, 8).unwrap();
    assert_eq!(w.packed, vec![89, 16]);
}

#[test]
fn writer_spills_across_bytes() {
    let mut w = Writer::new();
    // 9764609 = 0x94FF01; its low 20 bits are 0100 11111111 00000001
    assert!(w.write(9764609, 20).is_ok());
    assert_eq!(w.packed, vec![0x4F, 0xF0]);
    assert_eq!(w.current_byte, 0x10);
    assert_eq!(w.num_bits_filled, 4);
    w.write(1, 2).unwrap();
    assert_eq!(w.current_byte, 0x14);
    assert_eq!(w.num_bits_filled, 6);
    assert!(w.write(0xFF, 7).is_ok());
    assert_eq!(w.packed, vec![0x4F, 0xF0, 0x17]);
    assert_eq!(w.current_byte, 0xF8);
    assert_eq!(w.num_bits_filled, 5);
}

#[test]
fn writer_spills_widest_value() {
    let mut w = Writer::new();
    w.write(u64::MAX, 63).unwrap();
    assert_eq!(w.packed, vec![0xFF; 7]);
    assert_eq!(w.current_byte, 0xFE);
    assert_eq!(w.num_bits_filled, 7);
    w.write(0, 1).unwrap();
    assert_eq!(w.packed, vec![0xFF, 0xFF, 0xFF, 0xFF, 0xFF, 0xFF, 0xFF, 0xFE]);
    assert_eq!(w.num_bits_filled, 0);
}

#[test]
fn writer_zero_bits() {
    let mut w = Writer::new();
    w.write(0xFFFF, 0).unwrap();
    assert_eq!(w.current_byte, 0);
    assert_eq!(w.num_bits_filled, 0);
}

#[test]
fn writer_rejects_bit_count_over_64() {
    let mut w = Writer::new();
    match w.write(1, 65) {
        Err(WriterError::InvalidBitCount(65)) => {}
        _ => panic!("expected InvalidBitCount"),
    }
    assert_eq!(w.num_bits_filled, 0);
    let e = WriterError::InvalidBitCount(65);
    assert_eq!(e.message(), "Invalid bit count: 65");
    assert!(e.source().is_none());
}

#[test]
fn writer_io_error_message() {
    let e = WriterError::Io(std::io::Error::new(std::io::ErrorKind::Other, "disk gone"));
    assert_eq!(e.message(), "IO Error: disk gone");
    assert!(e.source().is_some());
}

#[test]
fn reader_keeps_bytes() {
    let r = Reader::new(vec![1, 2, 3]);
    assert_eq!(r.packed, vec![1, 2, 3]);
}

#[test]
fn decimal_text() {
    assert_eq!(decimal_string(0), "0");
    assert_eq!(decimal_string(7), "7");
    assert_eq!(decimal_string(10), "10");
    assert_eq!(decimal_string(1234567890), "1234567890");
    assert_eq!(decimal_string(u64::MAX), "18446744073709551615");
}

fn header_pairs(req: &Request) -> Vec<(String, String)> {
    req.headers.iter().map(|h| (h.name.clone(), h.value.clone())).collect()
}

#[test]
fn parses_documented_post_request() {
    let raw = b"POST /users?id=42&active=true HTTP/1.1\r\nHost: localhost:7878\r\nUser-Agent: curl/8.7.1\r\nAccept: application/json\r\nContent-Type: application/json\r\nContent-Length: 30\r\nConnection: close\r\n\r\n{\"name\":\"Han\",\"role\":\"admin\"}";
    let req = Request::parse(raw).unwrap();
    assert_eq!(req.method, Method::POST);
    assert_eq!(req.path, "/users");
    assert_eq!(req.query, Some("id=42&active=true"));
    assert_eq!(req.version, Version::HTTP1_1);
    let expected: Vec<(String, String)> = [
        ("Host", "localhost:7878"),
        ("User-Agent", "curl/8.7.1"),
        ("Accept", "application/json"),
        ("Content-Type", "application/json"),
        ("Content-Length", "30"),
        ("Connection", "close"),
    ]
    .iter()
    .map(|(n, v)| (n.to_string(), v.to_string()))
    .collect();
    assert_eq!(header_pairs(&req), expected);
    assert_eq!(req.body, Some(&br#"{"name":"Han","role":"admin"}"#[..]));
}

#[test]
fn header_values_are_trimmed_and_body_optional() {
    let req = Request::parse(b"GET / HTTP/1.1\r\nX-A:\t v:1 \t\r\nX-B:\r\n\r\n").unwrap();
    assert_eq!(
        header_pairs(&req),
        vec![("X-A".to_string(), "v:1".to_string()), ("X-B".to_string(), String::new())]
    );
    assert_eq!(req.body, None);
    // a last header line may end with the input
    let req = Request::parse(b"GET / HTTP/1.1\r\nHost: x").unwrap();
    assert_eq!(header_pairs(&req), vec![("Host".to_string(), "x".to_string())]);
    assert_eq!(req.body, None);
}

#[test]
fn header_errors() {
    assert_eq!(
        Request::parse(b"GET / HTTP/1.1\r\nNoColon\r\n\r\n").err(),
        Some(ParseError::InvalidHeader)
    );
    assert_eq!(
        Request::parse(b"GET / HTTP/1.1\r\n: empty name\r\n\r\n").err(),
        Some(ParseError::InvalidHeader)
    );
    assert_eq!(
        Request::parse(b"GET / HTTP/1.1\r\nA: \xff\r\n\r\n").err(),
        Some(ParseError::InvalidHeader)
    );
    // the request line is checked before the headers
    assert_eq!(
        Request::parse(b"GET / HTTP/9\r\nNoColon\r\n\r\n").err(),
        Some(ParseError::InvalidVersion)
    );
}

#[test]
fn parses_get_without_query() {
    let req = Request::parse(b"GET / HTTP/1.0\r\n").unwrap();
    assert_eq!(req.method, Method::GET);
    assert_eq!(req.path, "/");
    assert_eq!(req.query, None);
    assert_eq!(req.version, Version::HTTP1_0);
}

#[test]
fn query_splits_at_first_question_mark() {
    let req = Request::parse(b"GET /a?b?c HTTP/1.1\r\n").unwrap();
    assert_eq!(req.path, "/a");
    assert_eq!(req.query, Some("b?c"));
    let req = Request::parse(b"GET /a? HTTP/1.1\r\n").unwrap();
    assert_eq!(req.query, Some(""));
}

#[test]
fn request_errors() {
    assert_eq!(Request::parse(b"GET / HTTP/1.1").err(), Some(ParseError::MissingCRLF));
    assert_eq!(Request::parse(b"GET / HTTP/1.1\n").err(), Some(ParseError::MissingCRLF));
    assert_eq!(Request::parse(b"GET /  HTTP/1.1\r\n").err(), Some(ParseError::InvalidRequest));
    assert_eq!(Request::parse(b"GET /\r\n").err(), Some(ParseError::InvalidRequest));
    assert_eq!(Request::parse(b"\r\n").err(), Some(ParseError::InvalidRequest));
    assert_eq!(Request::parse(b"PUT / HTTP/1.1\r\n").err(), Some(ParseError::InvalidMethod));
    assert_eq!(Request::parse(b"PUT / HTTP/2\r\n").err(), Some(ParseError::InvalidMethod));
    assert_eq!(Request::parse(b"GET / HTTP/2\r\n").err(), Some(ParseError::InvalidVersion));
    assert_eq!(Request::parse(b"GET /\xff HTTP/1.1\r\n").err(), Some(ParseError::InvalidTarget));
    assert_eq!(Request::parse(b"GET /a?\xfe HTTP/1.1\r\n").err(), Some(ParseError::InvalidTarget));
}

#[test]
fn parses_request_in_zero_padded_buffer() {
    let mut buffer = [0u8; 64];
    let msg = b"GET /index.html HTTP/1.1\r\nHost: x\r\n\r\n";
    buffer[..msg.len()].copy_from_slice(msg);
    let req = Request::parse(&buffer).unwrap();
    assert_eq!(req.path, "/index.html");
    assert_eq!(header_pairs(&req), vec![("Host".to_string(), "x".to_string())]);
    assert_eq!(req.body, Some(&buffer[msg.len()..]));
}

#[test]
fn tab_separates_words() {
    let req = Request::parse(b"GET\t/x\tHTTP/1.1\r\n").unwrap();
    assert_eq!(req.path, "/x");
}

#[test]
fn routes_requests() {
    let r = route_request("GET / HTTP/1.1");
    assert_eq!((r.status_line, r.file_path, r.delay_secs), ("HTTP/1.1 200 OK", "src/hello.html", 0));
    let r = route_request("GET /sleep HTTP/1.1");
    assert_eq!((r.status_line, r.file_path, r.delay_secs), ("HTTP/1.1 200 OK", "src/hello.html", 5));
    let r = route_request("GET /other HTTP/1.1");
    assert_eq!(
        (r.status_line, r.file_path, r.delay_secs),
        ("HTTP/1.1 404 Not Found", "src/404.html", 0)
    );
}

#[test]
fn frames_response() {
    assert_eq!(
        build_response("HTTP/1.1 200 OK", "<p>hi</p>"),
        "HTTP/1.1 200 OK\r\nContent-Length: 9\r\n\r\n<p>hi</p>"
    );
    assert_eq!(
        build_response("HTTP/1.1 404 Not Found", "é"),
        "HTTP/1.1 404 Not Found\r\nContent-Length: 2\r\n\r\né"
    );
}
