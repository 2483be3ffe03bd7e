use rust_web_server::http::{build_response, is_get_root_request};

#[test]
fn root_get_request_is_recognised() {
    let data = b"GET / HTTP/1.1\r\nHost: localhost:9001\r\n\r\n";
    assert!(is_get_root_request(data));
}

#[test]
fn exact_request_line_alone_is_enough() {
    assert!(is_get_root_request(b"GET / HTTP/1.1\r\n"));
}

#[test]
fn other_requests_are_not_recognised() {
    assert!(!is_get_root_request(b"POST / HTTP/1.1\r\nHost: x\r\n\r\n"));
    assert!(!is_get_root_request(b"GET /index HTTP/1.1\r\n"));
    assert!(!is_get_root_request(b"GET / HTTP/1.0\r\n"));
    assert!(!is_get_root_request(b""));
    // A strict prefix of the request line is too short to match.
    assert!(!is_get_root_request(b"GET / HTTP/1.1"));
}

#[test]
fn response_is_header_then_body_exactly() {
    let header = b"HTTP/1.1 200 OK\r\n\r\n";
    let body = b"<html><body>hello</body></html>";
    let response = build_response(header, body);
    let mut expected = Vec::new();
    expected.extend_from_slice(header);
    expected.extend_from_slice(body);
    assert_eq!(response, expected);
}

#[test]
fn empty_parts_add_nothing_to_the_response() {
    assert_eq!(build_response(b"", b""), Vec::<u8>::new());
    assert_eq!(build_response(b"abc", b""), b"abc".to_vec());
    assert_eq!(build_response(b"", b"xyz"), b"xyz".to_vec());
}

#[test]
fn not_found_response_keeps_both_parts() {
    let response = build_response(b"HTTP/1.1 404 NOT FOUND\r\n\r\n", b"missing");
    assert_eq!(response, b"HTTP/1.1 404 NOT FOUND\r\n\r\nmissing".to_vec());
}
