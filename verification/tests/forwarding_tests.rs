use join_proxy::forwarding::{
    check_proxy_key, check_setup_owner, choose_serve_config, decode_config_uid, first_header_value,
    is_header_text, is_header_value, last_header_value, obtain_upstream_base_url, request_cache_key,
    request_headers_for_setup, request_headers_plain, response_headers_for_setup, response_headers_plain,
    upstream_url, KeyVerdict, ProxyError,
};

fn h(name: &str, value: &str) -> (Vec<u8>, Vec<u8>) {
    (name.as_bytes().to_vec(), value.as_bytes().to_vec())
}

fn names(list: &[&str]) -> Vec<Vec<u8>> {
    list.iter().map(|n| n.as_bytes().to_vec()).collect()
}

#[test]
fn no_secret_lets_every_request_in() {
    assert_eq!(check_proxy_key(&None, &None), KeyVerdict::Proceed);
    assert_eq!(check_proxy_key(&None, &Some(b"anything".to_vec())), KeyVerdict::Proceed);
}

#[test]
fn secret_requires_the_bearer_key() {
    let secret = Some("s3cret".to_string());
    assert_eq!(check_proxy_key(&secret, &Some(b"Bearer s3cret".to_vec())), KeyVerdict::Proceed);
    assert_eq!(check_proxy_key(&secret, &Some(b"Bearer other".to_vec())), KeyVerdict::Rejected);
    assert_eq!(check_proxy_key(&secret, &Some(b"s3cret".to_vec())), KeyVerdict::Rejected);
    assert_eq!(check_proxy_key(&secret, &Some(b"bearer s3cret".to_vec())), KeyVerdict::Rejected);
    assert_eq!(check_proxy_key(&secret, &None), KeyVerdict::Rejected);
    assert_eq!(check_proxy_key(&secret, &Some(b"Bearer s3cret\x01".to_vec())), KeyVerdict::Unreadable);
    assert_eq!(check_proxy_key(&secret, &Some(vec![0xc3, 0xa9])), KeyVerdict::Unreadable);
}

#[test]
fn header_text_and_values() {
    assert!(is_header_text(b"visible text\twith tab"));
    assert!(!is_header_text(&[0x7f]));
    assert!(!is_header_text(&[0x80]));
    assert!(is_header_value(&[0x80, 0xff, b' ']));
    assert!(!is_header_value(b"a\nb"));
    assert!(!is_header_value(&[0x7f]));
}

#[test]
fn base_url_comes_from_the_host_header() {
    assert_eq!(obtain_upstream_base_url(&Some(b"example.com".to_vec())), Ok("https://example.com".to_string()));
    assert_eq!(obtain_upstream_base_url(&None), Err(ProxyError::MissingHost));
    assert_eq!(obtain_upstream_base_url(&Some(vec![0x01])), Err(ProxyError::UnreadableHeader));
    assert_eq!(upstream_url(&Some(b"api.test".to_vec()), "/v1/x?y=1"), Ok("https://api.test/v1/x?y=1".to_string()));
    assert_eq!(ProxyError::MissingHost.message(), "Missing Host: header");
}

#[test]
fn first_and_last_values() {
    let hs = vec![h("x-principal", "a"), h("host", "h"), h("x-principal", "b")];
    assert_eq!(first_header_value(&hs, b"x-principal"), Some(b"a".to_vec()));
    assert_eq!(last_header_value(&hs, b"x-principal"), Some(b"b".to_vec()));
    assert_eq!(first_header_value(&hs, b"x-config"), None);
    assert_eq!(last_header_value(&hs, b"x-config"), None);
}

#[test]
fn plain_requests_forward_only_host() {
    let hs = vec![h("host", "example.com"), h("authorization", "secret"), h("x-config", "00")];
    assert_eq!(request_headers_plain(&hs), Ok(vec![h("host", "example.com")]));
    assert_eq!(request_headers_plain(&vec![h("host", "\u{7f}")]), Err(ProxyError::UnreadableHeader));
    assert_eq!(request_headers_plain(&vec![h("x", "\u{7f}")]), Ok(vec![]));
}

#[test]
fn setup_requests_keep_host_and_apply_edits() {
    let hs = vec![h("host", "example.com"), h("cookie", "c"), h("accept", "*/*")];
    let remove = names(&["cookie", "host"]);
    let add = vec![h("authorization", "Bearer k")];
    assert_eq!(
        request_headers_for_setup(&hs, &remove, &add),
        Ok(vec![h("host", "example.com"), h("accept", "*/*"), h("authorization", "Bearer k")])
    );
    let bad_add = vec![h("authorization", "\u{e9}")];
    assert_eq!(request_headers_for_setup(&hs, &remove, &bad_add), Err(ProxyError::UnreadableHeader));
    // Removal names are compared as they are stored.
    assert_eq!(
        request_headers_for_setup(&hs, &names(&["Cookie"]), &vec![]),
        Ok(vec![h("host", "example.com"), h("cookie", "c"), h("accept", "*/*")])
    );
}

#[test]
fn plain_responses_keep_upstream_headers() {
    let up = vec![h("connection", "keep-alive"), h("content-type", "text/plain")];
    assert_eq!(response_headers_plain(&up), Ok(up.clone()));
    assert_eq!(response_headers_plain(&vec![h("x", "\u{1}")]), Err(ProxyError::UnreadableHeader));
}

#[test]
fn setup_responses_are_edited() {
    let up = vec![
        h("connection", "keep-alive"),
        h("content-type", "text/plain"),
        h("server", "upstream"),
        h("transfer-encoding", "chunked"),
    ];
    let out = response_headers_for_setup(&up, true, Some(b"10.0.0.1".to_vec()), &names(&["Server"]), &vec![h("X-Extra", "1")]);
    assert_eq!(
        out,
        Ok(vec![
            h("content-type", "text/plain"),
            h("x-joinproxy-response", "Miss"),
            h("x-forwarded-for", "10.0.0.1"),
            h("x-extra", "1"),
        ])
    );
    let out = response_headers_for_setup(&up, false, None, &names(&[]), &vec![h("connection", "close")]);
    assert_eq!(
        out,
        Ok(vec![h("content-type", "text/plain"), h("server", "upstream"), h("connection", "close")])
    );
}

#[test]
fn setup_response_errors() {
    let up = vec![h("content-type", "text/plain")];
    assert_eq!(
        response_headers_for_setup(&up, false, None, &names(&["bad name"]), &vec![]),
        Err(ProxyError::InvalidHeaderName)
    );
    assert_eq!(
        response_headers_for_setup(&up, false, None, &names(&[]), &vec![h("bad name", "v")]),
        Err(ProxyError::InvalidHeaderName)
    );
    assert_eq!(
        response_headers_for_setup(&up, false, None, &names(&[]), &vec![h("x-ok", "a\nb")]),
        Err(ProxyError::InvalidHeaderValue)
    );
    assert_eq!(
        response_headers_for_setup(&vec![h("x", "\u{1}")], false, None, &names(&["bad name"]), &vec![]),
        Err(ProxyError::UnreadableHeader)
    );
}

#[test]
fn serve_config_choice() {
    assert_eq!(choose_serve_config(true, &None, &None), Err(ProxyError::MissingPrincipal));
    assert_eq!(choose_serve_config(false, &None, &None), Ok(None));
    assert_eq!(choose_serve_config(false, &Some(b"00ff".to_vec()), &None), Ok(None));
    assert_eq!(choose_serve_config(true, &None, &Some(b"aaaaa-aa".to_vec())), Ok(None));
    assert_eq!(
        choose_serve_config(false, &Some(b"00ff".to_vec()), &Some(b"aaaaa-aa".to_vec())),
        Ok(Some((b"00ff".to_vec(), Vec::new())))
    );
    assert_eq!(
        choose_serve_config(false, &Some(b"00ff".to_vec()), &Some(b"not-a-principal".to_vec())),
        Err(ProxyError::BadPrincipal)
    );
}

#[test]
fn config_ids_are_hexadecimal() {
    assert_eq!(decode_config_uid(b"00ff"), Ok(vec![0x00, 0xff]));
    assert_eq!(decode_config_uid(b"0g"), Err(ProxyError::BrokenHexId));
    assert_eq!(decode_config_uid(&[0x01]), Err(ProxyError::UnreadableHeader));
}

#[test]
fn only_the_owner_may_use_a_setup() {
    assert_eq!(check_setup_owner(&[1, 2], &[1, 2]), Ok(()));
    assert_eq!(check_setup_owner(&[1, 2], &[1, 3]), Err(ProxyError::AccessDenied));
    assert_eq!(check_setup_owner(&[0u8; 30], &[0u8; 30]), Err(ProxyError::WrongPrincipalFormat));
    assert_eq!(ProxyError::AccessDenied.message(), "access denied");
}

#[test]
fn cache_key_ignores_header_interleaving() {
    let a = vec![h("b", "1"), h("a", "x"), h("b", "2")];
    let b = vec![h("a", "x"), h("b", "1"), h("b", "2")];
    let c = vec![h("a", "x"), h("b", "2"), h("b", "1")];
    let ka = request_cache_key(b"GET", b"/p", &a, b"body");
    assert_eq!(ka, request_cache_key(b"GET", b"/p", &b, b"body"));
    assert_ne!(ka, request_cache_key(b"GET", b"/p", &c, b"body"));
    assert_ne!(ka, request_cache_key(b"POST", b"/p", &a, b"body"));
    assert!(ka.is_ok());
    let bad = vec![h("a", "x"), (b"b".to_vec(), vec![0xff])];
    assert_eq!(request_cache_key(b"GET", b"/p", &bad, b"body"), Err(ProxyError::UnreadableHeader));
}

#[test]
fn header_names_are_normalized_by_the_name_table() {
    let mut out = Vec::new();
    assert!(join_proxy::forwarding::parse_names_into(&mut out, &vec![b"X-Custom".to_vec(), b"a\"b".to_vec()]));
    assert_eq!(out, vec![b"x-custom".to_vec(), b"a\"b".to_vec()]);
    let mut bad = Vec::new();
    assert!(!join_proxy::forwarding::parse_names_into(&mut bad, &vec![b"bad name".to_vec()]));
    let mut empty = Vec::new();
    assert!(!join_proxy::forwarding::parse_names_into(&mut empty, &vec![Vec::new()]));
}
