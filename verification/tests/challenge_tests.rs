use join_proxy::challenge::{ChallengeStore, CHALLENGE_LEN, CHALLENGE_TTL_NANOS, CHALLENGE_TTL_SECS};
use base64::Engine;
use join_proxy::oauth::issue_challenge;

#[test]
fn issued_challenge_is_accepted_once() {
    let mut store = ChallengeStore::new();
    let c = store.generate().expect("a challenge");
    assert_eq!(c.len(), CHALLENGE_LEN);
    assert!(store.contains(&c));
    assert!(store.consume(&c));
    assert!(!store.consume(&c));
    assert_eq!(store.len(), 0);
}

#[test]
fn unknown_challenge_is_refused() {
    let mut store = ChallengeStore::new();
    let _ = store.generate().expect("a challenge");
    assert!(!store.consume(&[0u8; 32]));
    assert_eq!(store.len(), 1);
}

#[test]
fn challenges_expire_after_five_minutes() {
    assert_eq!(CHALLENGE_TTL_SECS, 300);
    assert_eq!(CHALLENGE_TTL_NANOS, 300_000_000_000);
    let mut store = ChallengeStore::new();
    let c = store.generate_at(1_000).expect("a challenge");
    assert!(store.consume_at(&c, 1_000 + CHALLENGE_TTL_NANOS - 1));
    let d = store.generate_at(1_000).expect("a challenge");
    assert!(!store.consume_at(&d, 1_000 + CHALLENGE_TTL_NANOS));
    assert!(!store.contains(&d));
}

#[test]
fn cleanup_drops_expired_challenges_only() {
    let mut store = ChallengeStore::new();
    let old = store.generate_at(0).expect("a challenge");
    let fresh = store.generate_at(CHALLENGE_TTL_NANOS).expect("a challenge");
    store.cleanup_at(CHALLENGE_TTL_NANOS + 1);
    assert!(!store.contains(&old));
    assert!(store.contains(&fresh));
    assert_eq!(store.len(), 1);
}

#[test]
fn distinct_challenges_are_issued() {
    let mut store = ChallengeStore::new();
    let a = store.generate().expect("a challenge");
    let b = store.generate().expect("a challenge");
    assert_ne!(a, b);
    assert_eq!(store.len(), 2);
    assert!(store.consume(&b));
    assert!(store.consume(&a));
}

#[test]
fn challenge_reply_is_url_safe_base64() {
    let mut store = ChallengeStore::new();
    let reply = issue_challenge(&mut store).expect("a challenge");
    assert_eq!(reply.expires_in, 300);
    assert_eq!(reply.challenge.len(), 43);
    let bytes = base64::engine::general_purpose::URL_SAFE_NO_PAD.decode(&reply.challenge).unwrap();
    assert_eq!(bytes.len(), 32);
    assert!(store.consume(&bytes));
}

#[test]
fn a_free_candidate_is_admitted_and_a_taken_one_is_not() {
    let mut store = ChallengeStore::new();
    let c = [5u8; 32];
    assert_eq!(store.admit_candidate(c, 1_000), Some(c));
    assert!(store.contains(&c));
    assert_eq!(store.len(), 1);
    assert_eq!(store.admit_candidate(c, 2_000), None);
    assert_eq!(store.len(), 1);
    assert!(store.consume_at(&c, 999));
    assert!(!store.contains(&c));
}

#[test]
fn challenge_reply_encodes_the_bytes() {
    let reply = join_proxy::oauth::challenge_reply(&[0u8; 32]);
    assert_eq!(reply.challenge, "A".repeat(43));
    assert_eq!(reply.expires_in, 300);
    let reply = join_proxy::oauth::challenge_reply(&[0xffu8; 32]);
    assert_eq!(reply.challenge, format!("{}8", "_".repeat(42)));
}
