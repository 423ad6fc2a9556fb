use join_proxy::cache::ResponseCache;
use join_proxy::config::Duration;
use join_proxy::framing::{deserialize_http_response, serialize_http_response};

const SECOND: u128 = 1_000_000_000;

#[test]
fn stored_response_is_served_within_the_timeout() {
    let mut c = ResponseCache::new(Duration::from_secs(10));
    c.set_at(b"k".to_vec(), b"frame".to_vec(), 5 * SECOND);
    assert_eq!(c.get_at(b"k", 5 * SECOND), Some(b"frame".to_vec()));
    assert_eq!(c.get_at(b"k", 15 * SECOND - 1), Some(b"frame".to_vec()));
    assert_eq!(c.get_at(b"other", 6 * SECOND), None);
}

#[test]
fn stored_response_expires_after_the_timeout() {
    let mut c = ResponseCache::new(Duration::from_secs(10));
    c.set_at(b"k".to_vec(), b"frame".to_vec(), 5 * SECOND);
    assert_eq!(c.get_at(b"k", 15 * SECOND), None);
    assert_eq!(c.get_at(b"k", 6 * SECOND), None);
}

#[test]
fn a_new_store_replaces_the_old_one() {
    let mut c = ResponseCache::new(Duration::from_millis(10_000));
    c.set_at(b"k".to_vec(), b"old".to_vec(), 0);
    c.set_at(b"k".to_vec(), b"new".to_vec(), 8 * SECOND);
    assert_eq!(c.get_at(b"k", 12 * SECOND), Some(b"new".to_vec()));
}

#[test]
fn zero_timeout_serves_nothing() {
    let mut c = ResponseCache::new(Duration::zero());
    c.set_at(b"k".to_vec(), b"frame".to_vec(), 0);
    assert_eq!(c.get_at(b"k", 0), None);
}

#[test]
fn cached_response_is_replayed_unchanged() {
    let headers = vec![(b"content-type".to_vec(), b"text/plain".to_vec())];
    let (frame, _) = serialize_http_response(200, &headers, b"outdated");
    let mut c = ResponseCache::new(Duration::from_secs(60));
    c.set(b"key".to_vec(), frame);
    let back = c.get(b"key").expect("served within the timeout");
    let parts = deserialize_http_response(&back).unwrap();
    assert_eq!(parts.status, 200);
    assert_eq!(parts.headers, headers);
    assert_eq!(parts.body, b"outdated".to_vec());
}
