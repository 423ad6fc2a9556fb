use join_proxy::flow::{ProxyAction, ProxyMachine, ProxyRequest, ProxyStage, SetupRecord};
use join_proxy::forwarding::request_cache_key;
use join_proxy::framing::serialize_http_response;

fn h(name: &str, value: &str) -> (Vec<u8>, Vec<u8>) {
    (name.as_bytes().to_vec(), value.as_bytes().to_vec())
}

fn request(headers: Vec<(Vec<u8>, Vec<u8>)>) -> ProxyRequest {
    ProxyRequest {
        method: b"GET".to_vec(),
        path: "/v1/items?x=1".to_string(),
        uri: "https://api.test/v1/items?x=1".to_string(),
        headers,
        body: b"payload".to_vec(),
        peer_ip: Some(b"192.0.2.7".to_vec()),
    }
}

fn fail_text(act: ProxyAction) -> String {
    match act {
        ProxyAction::Fail(m) => m,
        _ => panic!("expected a failure"),
    }
}

#[test]
fn wrong_key_is_answered_511() {
    let mut m = ProxyMachine::new(request(vec![h("host", "api.test")]), Some("k".to_string()), false, false, None, Vec::new());
    assert!(matches!(m.start(), ProxyAction::AnswerUnauthenticated));
    assert_eq!(m.stage, ProxyStage::Finished);
}

#[test]
fn unreadable_key_fails() {
    let hs = vec![h("host", "api.test"), (b"x-joinproxy-key".to_vec(), vec![0xff])];
    let mut m = ProxyMachine::new(request(hs), Some("k".to_string()), false, false, None, Vec::new());
    assert_eq!(fail_text(m.start()), "Cannot read header X-JoinProxy-Key");
}

#[test]
fn cache_hit_is_answered_from_the_cache() {
    let hs = vec![h("host", "api.test"), h("x-joinproxy-key", "Bearer k")];
    let mut m = ProxyMachine::new(request(hs.clone()), Some("k".to_string()), false, true, None, Vec::new());
    let key = match m.start() {
        ProxyAction::LookUpCache(k) => k,
        _ => panic!("expected a cache lookup"),
    };
    assert_eq!(key, request_cache_key(b"GET", b"/v1/items?x=1", &hs, b"payload").unwrap().to_vec());
    let (frame, _) = serialize_http_response(200, &vec![h("content-type", "text/plain")], b"cached");
    match m.on_cache(Some(frame)) {
        ProxyAction::Reply(parts) => {
            assert_eq!(parts.status, 200);
            assert_eq!(parts.headers, vec![h("content-type", "text/plain")]);
            assert_eq!(parts.body, b"cached".to_vec());
        }
        _ => panic!("expected a reply"),
    }
}

#[test]
fn corrupted_cache_entry_fails() {
    let mut m = ProxyMachine::new(request(vec![h("host", "api.test")]), None, false, false, None, Vec::new());
    assert!(matches!(m.start(), ProxyAction::LookUpCache(_)));
    assert_eq!(fail_text(m.on_cache(Some(b"garbage".to_vec()))), "corrupted cache entry");
}

#[test]
fn miss_without_setup_goes_to_the_host() {
    let hs = vec![h("host", "api.test"), h("authorization", "x")];
    let mut m = ProxyMachine::new(request(hs), None, false, false, None, Vec::new());
    assert!(matches!(m.start(), ProxyAction::LookUpCache(_)));
    match m.on_cache(None) {
        ProxyAction::SendUpstream(url, headers) => {
            assert_eq!(url, "https://api.test/v1/items?x=1");
            assert_eq!(headers, vec![h("host", "api.test")]);
        }
        _ => panic!("expected an upstream request"),
    }
    let up = vec![h("content-type", "application/json"), h("connection", "close")];
    match m.on_upstream(201, up.clone(), b"{}".to_vec()) {
        ProxyAction::StoreAndReply(frame, status, headers, body) => {
            assert_eq!(frame, serialize_http_response(201, &up, b"{}").0);
            assert_eq!(status, 201);
            assert_eq!(headers, up);
            assert_eq!(body, b"{}".to_vec());
        }
        _ => panic!("expected store and reply"),
    }
    assert_eq!(m.stage, ProxyStage::Finished);
}

#[test]
fn callback_comes_before_routing() {
    let mut m = ProxyMachine::new(request(vec![h("host", "api.test")]), None, false, true, None, Vec::new());
    let key = match m.start() {
        ProxyAction::LookUpCache(k) => k,
        _ => panic!("expected a cache lookup"),
    };
    match m.on_cache(None) {
        ProxyAction::CallBack(arg) => assert_eq!(arg, candid::encode_one(key.as_slice()).unwrap()),
        _ => panic!("expected a callback"),
    }
    assert_eq!(fail_text(m.on_callback(Err("rejected by canister".to_string()))), "rejected by canister");
}

#[test]
fn callback_reply_must_be_candid() {
    let mut m = ProxyMachine::new(request(vec![h("host", "api.test")]), None, false, true, None, Vec::new());
    let _ = m.start();
    assert!(matches!(m.on_cache(None), ProxyAction::CallBack(_)));
    assert_eq!(fail_text(m.on_callback(Ok(b"not candid".to_vec()))), "Callback decode");

    let mut m = ProxyMachine::new(request(vec![h("host", "api.test")]), None, false, true, None, Vec::new());
    let _ = m.start();
    let _ = m.on_cache(None);
    match m.on_callback(Ok(candid::encode_args(()).unwrap())) {
        ProxyAction::SendUpstream(url, _) => assert_eq!(url, "https://api.test/v1/items?x=1"),
        _ => panic!("expected an upstream request"),
    }
}

#[test]
fn missing_host_fails_after_a_miss() {
    let mut m = ProxyMachine::new(request(vec![]), None, false, false, None, Vec::new());
    assert!(matches!(m.start(), ProxyAction::LookUpCache(_)));
    assert_eq!(fail_text(m.on_cache(None)), "Missing Host: header");
}

#[test]
fn required_principal_is_enforced() {
    let mut m = ProxyMachine::new(request(vec![h("host", "api.test")]), None, true, false, None, Vec::new());
    assert!(matches!(m.start(), ProxyAction::LookUpCache(_)));
    assert_eq!(fail_text(m.on_cache(None)), "missing X-Principal header");
}

fn setup_request() -> ProxyMachine {
    let hs = vec![
        h("host", "api.test"),
        h("x-config", "0a0b"),
        h("x-principal", "aaaaa-aa"),
        h("cookie", "c"),
    ];
    ProxyMachine::new(request(hs), None, false, false, None, Vec::new())
}

#[test]
fn setup_route_runs_to_the_end() {
    let mut m = setup_request();
    assert!(matches!(m.start(), ProxyAction::LookUpCache(_)));
    match m.on_cache(None) {
        ProxyAction::LoadSetup(uid) => assert_eq!(uid, vec![0x0a, 0x0b]),
        _ => panic!("expected a setup lookup"),
    }
    let record = SetupRecord { id: 7, user_id: 3, show_hit_miss: true, add_forwarded_from_header: true };
    assert!(matches!(m.on_setup(Some(record)), ProxyAction::LoadOwner(3)));
    assert!(matches!(m.on_owner(Some(Vec::new())), ProxyAction::LoadRequestEdits(7)));
    match m.on_request_edits(vec![h("authorization", "Bearer k")], vec![b"cookie".to_vec()]) {
        ProxyAction::SendUpstream(url, headers) => {
            assert_eq!(url, "https://api.test/v1/items?x=1");
            assert_eq!(
                headers,
                vec![h("host", "api.test"), h("x-config", "0a0b"), h("x-principal", "aaaaa-aa"), h("authorization", "Bearer k")]
            );
        }
        _ => panic!("expected an upstream request"),
    }
    let up = vec![h("content-type", "text/plain"), h("keep-alive", "timeout=5"), h("server", "up")];
    assert!(matches!(m.on_upstream(200, up.clone(), b"ok".to_vec()), ProxyAction::LoadResponseRemovals(7)));
    assert!(matches!(m.on_response_removals(vec![b"Server".to_vec()]), ProxyAction::LoadResponseAdditions(7)));
    match m.on_response_additions(vec![h("X-Added", "yes")]) {
        ProxyAction::StoreAndReply(frame, status, headers, body) => {
            assert_eq!(frame, serialize_http_response(200, &up, b"ok").0);
            assert_eq!(status, 200);
            assert_eq!(
                headers,
                vec![
                    h("content-type", "text/plain"),
                    h("x-joinproxy-response", "Miss"),
                    h("x-forwarded-for", "192.0.2.7"),
                    h("x-added", "yes"),
                ]
            );
            assert_eq!(body, b"ok".to_vec());
        }
        _ => panic!("expected store and reply"),
    }
}

#[test]
fn unknown_setup_and_user_fail() {
    let mut m = setup_request();
    let _ = m.start();
    let _ = m.on_cache(None);
    assert_eq!(fail_text(m.on_setup(None)), "no serve config with uid 0a0b");

    let mut m = setup_request();
    let _ = m.start();
    let _ = m.on_cache(None);
    let record = SetupRecord { id: 1, user_id: -4, show_hit_miss: false, add_forwarded_from_header: false };
    let _ = m.on_setup(Some(record));
    assert_eq!(fail_text(m.on_owner(None)), "no user with id -4");
}

#[test]
fn foreign_setup_is_denied() {
    let mut m = setup_request();
    let _ = m.start();
    let _ = m.on_cache(None);
    let record = SetupRecord { id: 1, user_id: 1, show_hit_miss: false, add_forwarded_from_header: false };
    let _ = m.on_setup(Some(record));
    assert_eq!(fail_text(m.on_owner(Some(vec![1, 2, 3]))), "access denied");
}

#[test]
fn invalid_removal_name_fails() {
    let mut m = setup_request();
    let _ = m.start();
    let _ = m.on_cache(None);
    let record = SetupRecord { id: 1, user_id: 1, show_hit_miss: false, add_forwarded_from_header: false };
    let _ = m.on_setup(Some(record));
    let _ = m.on_owner(Some(Vec::new()));
    let _ = m.on_request_edits(vec![], vec![]);
    let _ = m.on_upstream(200, vec![h("a", "b")], vec![]);
    assert_eq!(fail_text(m.on_response_removals(vec![b"bad name".to_vec()])), "invalid header name");
}

#[test]
fn unreadable_header_value_is_refused_before_the_cache() {
    let hs = vec![h("host", "api.test"), (b"x-bin".to_vec(), vec![0x80])];
    let mut m = ProxyMachine::new(request(hs), None, false, false, None, Vec::new());
    assert_eq!(fail_text(m.start()), "failed to convert header to a str");
    assert_eq!(m.stage, ProxyStage::Finished);
}

#[test]
fn upstream_prefix_and_headers_apply_to_plain_requests() {
    let hs = vec![h("host", "api.test"), h("accept", "x")];
    let extra = vec![h("authorization", "Bearer up")];
    let mut m = ProxyMachine::new(request(hs), None, false, false, Some("https://upstream.test/".to_string()), extra);
    assert!(matches!(m.start(), ProxyAction::LookUpCache(_)));
    match m.on_cache(None) {
        ProxyAction::SendUpstream(url, headers) => {
            assert_eq!(url, "https://upstream.test/v1/items?x=1");
            assert_eq!(headers, vec![h("host", "api.test"), h("authorization", "Bearer up")]);
        }
        _ => panic!("expected an upstream request"),
    }
}

#[test]
fn upstream_prefix_stands_in_for_a_missing_host() {
    let mut m = ProxyMachine::new(request(vec![]), None, false, false, Some("http://u.test".to_string()), Vec::new());
    assert!(matches!(m.start(), ProxyAction::LookUpCache(_)));
    match m.on_cache(None) {
        ProxyAction::SendUpstream(url, headers) => {
            assert_eq!(url, "http://u.test/v1/items?x=1");
            assert!(headers.is_empty());
        }
        _ => panic!("expected an upstream request"),
    }
}

#[test]
fn invalid_upstream_header_is_refused() {
    let extra = vec![h("bad name", "v")];
    let mut m = ProxyMachine::new(request(vec![h("host", "api.test")]), None, false, false, None, extra);
    assert!(matches!(m.start(), ProxyAction::LookUpCache(_)));
    assert_eq!(fail_text(m.on_cache(None)), "invalid header name");
}

#[test]
fn owner_refusal_names_the_lowest_user_id() {
    let mut m = setup_request();
    let _ = m.start();
    let _ = m.on_cache(None);
    let record = SetupRecord { id: 1, user_id: i32::MIN, show_hit_miss: false, add_forwarded_from_header: false };
    let _ = m.on_setup(Some(record));
    assert_eq!(fail_text(m.on_owner(None)), "no user with id -2147483648");
}

#[test]
fn callback_argument_is_the_candid_frame_of_the_key() {
    let hs = vec![h("host", "api.test")];
    let mut m = ProxyMachine::new(request(hs), None, false, true, None, Vec::new());
    let key = match m.start() {
        ProxyAction::LookUpCache(k) => k,
        _ => panic!("expected a cache lookup"),
    };
    let arg = match m.on_cache(None) {
        ProxyAction::CallBack(a) => a,
        _ => panic!("expected a callback"),
    };
    let mut expected = b"DIDL\x01\x6d\x7b\x01\x00\x20".to_vec();
    expected.extend_from_slice(&key);
    assert_eq!(arg, expected);
    let mut builder = candid::ser::IDLBuilder::new();
    let slice: &[u8] = &key;
    let by_crate = builder.arg(&slice).unwrap().serialize_to_vec().unwrap();
    assert_eq!(arg, by_crate);
}
