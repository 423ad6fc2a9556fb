use join_proxy::forwarding::ProxyError;
use join_proxy::framing::{compare_bytes, deserialize_http_response, serialize_http_request, serialize_http_response, Comparison, FrameError};

fn h(name: &str, value: &str) -> (Vec<u8>, Vec<u8>) {
    (name.as_bytes().to_vec(), value.as_bytes().to_vec())
}

#[test]
fn request_headers_are_grouped_by_name_in_byte_order() {
    let headers = vec![h("x-b", "2"), h("accept", "x"), h("x-b", "1")];
    let framed = serialize_http_request(b"GET", b"/a?b", &headers, b"hi").unwrap();
    assert_eq!(framed, b"GET\n/a?b\naccept\tx\rx-b\t2\t1\nhi".to_vec());
}

#[test]
fn request_without_headers() {
    let framed = serialize_http_request(b"POST", b"/", &Vec::new(), b"body").unwrap();
    assert_eq!(framed, b"POST\n/\n\nbody".to_vec());
}

#[test]
fn request_framing_ignores_interleaving_of_names() {
    let a = vec![h("b", "1"), h("a", "x"), h("b", "2")];
    let b = vec![h("a", "x"), h("b", "1"), h("b", "2")];
    assert_eq!(serialize_http_request(b"GET", b"/", &a, b""), serialize_http_request(b"GET", b"/", &b, b""));
    let c = vec![h("b", "2"), h("a", "x"), h("b", "1")];
    assert_ne!(serialize_http_request(b"GET", b"/", &a, b""), serialize_http_request(b"GET", b"/", &c, b""));
}

#[test]
fn request_with_unreadable_header_value_is_refused() {
    let headers = vec![h("accept", "x"), (b"x-bin".to_vec(), vec![0x61, 0x80])];
    assert_eq!(serialize_http_request(b"GET", b"/", &headers, b""), Err(ProxyError::UnreadableHeader));
    let tabbed = vec![h("x-t", "a\tb")];
    assert!(serialize_http_request(b"GET", b"/", &tabbed, b"").is_ok());
}

#[test]
fn response_framing() {
    let headers = vec![h("content-type", "text/plain"), h("x", "y")];
    let (framed, body) = serialize_http_response(200, &headers, b"body");
    assert_eq!(framed, b"200\ncontent-type\ttext/plain\rx\ty\nbody".to_vec());
    assert_eq!(body, b"body".to_vec());
}

#[test]
fn response_round_trip() {
    let headers = vec![h("content-type", "text/plain"), h("set-cookie", "a=1"), h("set-cookie", "b\t2")];
    let body = b"line one\nline two\r\n".to_vec();
    let (framed, _) = serialize_http_response(404, &headers, &body);
    let parts = deserialize_http_response(&framed).unwrap();
    assert_eq!(parts.status, 404);
    assert_eq!(parts.headers, headers);
    assert_eq!(parts.body, body);
}

#[test]
fn response_without_headers_cannot_be_read_back() {
    let (framed, _) = serialize_http_response(204, &Vec::new(), b"");
    assert_eq!(framed, b"204\n\n".to_vec());
    assert_eq!(deserialize_http_response(&framed).err(), Some(FrameError::Corrupted));
}

#[test]
fn missing_parts_are_corruption() {
    assert_eq!(deserialize_http_response(b"200").err(), Some(FrameError::Corrupted));
    assert_eq!(deserialize_http_response(b"200\nx\ty").err(), Some(FrameError::Corrupted));
    assert_eq!(deserialize_http_response(b"200\nnotab\nbody").err(), Some(FrameError::Corrupted));
    assert_eq!(deserialize_http_response(b"200\na\tb\rbad\nbody").err(), Some(FrameError::Corrupted));
}

#[test]
fn bad_status_lines() {
    assert_eq!(deserialize_http_response(b"abc\nx\ty\n").err(), Some(FrameError::BadStatus));
    assert_eq!(deserialize_http_response(b"99\nx\ty\n").err(), Some(FrameError::BadStatus));
    assert_eq!(deserialize_http_response(b"1000\nx\ty\n").err(), Some(FrameError::BadStatus));
    assert_eq!(deserialize_http_response(b"70000\nx\ty\n").err(), Some(FrameError::BadStatus));
    assert_eq!(deserialize_http_response(b"\nx\ty\n").err(), Some(FrameError::BadStatus));
    assert_eq!(deserialize_http_response(b"+\nx\ty\n").err(), Some(FrameError::BadStatus));
}

#[test]
fn status_with_plus_sign_is_read() {
    let parts = deserialize_http_response(b"+201\nk\tv1\tv2\nb").unwrap();
    assert_eq!(parts.status, 201);
    assert_eq!(parts.headers, vec![h("k", "v1\tv2")]);
    assert_eq!(parts.body, b"b".to_vec());
}

#[test]
fn frame_error_messages() {
    assert_eq!(FrameError::Corrupted.message(), "corrupted cache entry");
    assert_eq!(FrameError::BadStatus.message(), "invalid status code in cache entry");
}

#[test]
fn byte_order() {
    assert!(matches!(compare_bytes(b"a", b"b"), Comparison::Less));
    assert!(matches!(compare_bytes(b"ab", b"a"), Comparison::Greater));
    assert!(matches!(compare_bytes(b"", b""), Comparison::Equal));
    assert!(matches!(compare_bytes(b"a", b"ab"), Comparison::Less));
}
