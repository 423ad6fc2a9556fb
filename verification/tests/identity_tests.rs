use ic_ed25519::PrivateKey;
use join_proxy::auth_error::{IiAuthError, ParamName};
use join_proxy::challenge::ChallengeStore;
use base64::Engine;
use join_proxy::crypto::Spki;
use join_proxy::hash_tree::{hash_tree, HashTree};
use sha2::Digest;
use serde_cbor::Value;
use join_proxy::identity::{
    consent_for, decode_delegation_chain, ensure_not_expired, ensure_not_expired_at, proof_decodes,
    verify_delegation_chain, get_param, identity_params, owner_consent_from_error, parse_delegation_chain,
    parse_internet_identity_proof, verify_delegation_chain_at, verify_internet_identity, ConsentDecision,
    DelegationChainInput, DelegationInput, ParamSource, SignedDelegation, Delegation, SignedDelegationInput,
};
use join_proxy::signature::{
    certificate_parts, determine_signature_algorithm, verify_signature, verify_state_root_signature, SignatureAlgorithm,
};

fn key(seed: u8) -> PrivateKey {
    PrivateKey::deserialize_raw_32(&[seed; 32])
}

fn der(k: &PrivateKey) -> Vec<u8> {
    k.public_key().serialize_rfc8410_der()
}

const FAR_FUTURE: &str = "ffffffffffffffff";

fn signable(session: &[u8], expiration: u64) -> Vec<u8> {
    ic_transport_types::Delegation { pubkey: session.to_vec(), expiration, targets: None, permissions: None }.signable()
}

fn sha256(data: &[u8]) -> [u8; 32] {
    sha2::Sha256::digest(data).into()
}

fn chain(declared: &[u8], session: &[u8], root: &PrivateKey) -> DelegationChainInput {
    let message = signable(session, u64::MAX);
    DelegationChainInput {
        public_key: hex::encode(declared),
        delegations: vec![SignedDelegationInput {
            delegation: DelegationInput { pubkey: hex::encode(session), expiration: FAR_FUTURE.to_string(), targets: None },
            signature: hex::encode(root.sign_message(&message)),
        }],
    }
}

fn params_for(challenge: &[u8], signature: &[u8], public_key: &[u8], delegations: DelegationChainInput) -> join_proxy::identity::IdentityParams {
    let src = ParamSource {
        body: Some(vec![
            ("ii_challenge".to_string(), base64::engine::general_purpose::URL_SAFE_NO_PAD.encode(challenge)),
            ("ii_signature".to_string(), hex::encode(signature)),
            ("ii_public_key".to_string(), hex::encode(public_key)),
            ("ii_delegations".to_string(), "{}".to_string()),
        ]),
        query: None,
    };
    identity_params(&src, Some(delegations))
}

#[test]
fn parameters_come_from_the_body_then_the_query() {
    let src = ParamSource {
        body: Some(vec![("a".to_string(), "body".to_string())]),
        query: Some(vec![("a".to_string(), "query".to_string()), ("b".to_string(), "q".to_string())]),
    };
    assert_eq!(get_param(&src, "a"), Some("body".to_string()));
    assert_eq!(get_param(&src, "b"), Some("q".to_string()));
    assert_eq!(get_param(&src, "c"), None);
}

#[test]
fn signature_algorithms() {
    let root = key(1);
    let raw = root.public_key().serialize_raw().to_vec();
    let ed = Spki { algorithm_oid: vec![0x2b, 0x65, 0x70], parameters: None, subject_public_key: raw.clone() };
    assert_eq!(determine_signature_algorithm(&ed), Ok(SignatureAlgorithm::Ed25519));
    let ec = vec![0x2a, 0x86, 0x48, 0xce, 0x3d, 0x02, 0x01];
    let p256_params = vec![0x06, 0x08, 0x2a, 0x86, 0x48, 0xce, 0x3d, 0x03, 0x01, 0x07];
    let k256_params = vec![0x06, 0x05, 0x2b, 0x81, 0x04, 0x00, 0x0a];
    let p256 = Spki { algorithm_oid: ec.clone(), parameters: Some(p256_params), subject_public_key: raw.clone() };
    assert_eq!(determine_signature_algorithm(&p256), Ok(SignatureAlgorithm::EcdsaP256));
    let k256 = Spki { algorithm_oid: ec.clone(), parameters: Some(k256_params), subject_public_key: raw.clone() };
    assert_eq!(determine_signature_algorithm(&k256), Ok(SignatureAlgorithm::EcdsaSecp256k1));
    let bare = Spki { algorithm_oid: ec.clone(), parameters: None, subject_public_key: raw.clone() };
    assert_eq!(determine_signature_algorithm(&bare), Err(IiAuthError::UnsupportedKeyAlgorithm));
    let bad_params = Spki { algorithm_oid: ec, parameters: Some(vec![0xff]), subject_public_key: raw.clone() };
    assert_eq!(determine_signature_algorithm(&bad_params), Err(IiAuthError::InvalidPublicKey));
    // 1.3.6.1.4.1.44668.5.3.1.2.1, the Internet Computer's BLS key.
    let bls_oid = vec![0x2b, 0x06, 0x01, 0x04, 0x01, 0x82, 0xdc, 0x7c, 0x05, 0x03, 0x01, 0x02, 0x01];
    let bls = Spki { algorithm_oid: bls_oid, parameters: None, subject_public_key: raw.clone() };
    assert_eq!(determine_signature_algorithm(&bls), Ok(SignatureAlgorithm::Bls));
    let other = Spki { algorithm_oid: vec![0x2a, 0x03], parameters: None, subject_public_key: raw };
    assert_eq!(determine_signature_algorithm(&other), Err(IiAuthError::UnsupportedKeyAlgorithm));
}

#[test]
fn ed25519_signatures_are_checked() {
    let root = key(1);
    let sig = root.sign_message(b"hello");
    assert_eq!(verify_signature(&der(&root), &sig, b"hello"), Ok(()));
    assert_eq!(verify_signature(&der(&root), &sig, b"hellO"), Err(IiAuthError::InvalidSignature));
    assert_eq!(verify_signature(b"garbage", &sig, b"hello"), Err(IiAuthError::InvalidPublicKey));
}

#[test]
fn delegation_chains_are_decoded() {
    let root = key(1);
    let session = der(&key(2));
    let input = chain(&der(&root), &session, &root);
    let (delegations, declared) = parse_delegation_chain(&input).unwrap();
    assert_eq!(declared, der(&root));
    assert_eq!(delegations.len(), 1);
    assert_eq!(delegations[0].delegation.pubkey, session);
    assert_eq!(delegations[0].delegation.expiration, u64::MAX);

    let mut bad = chain(&der(&root), &session, &root);
    bad.delegations[0].delegation.expiration = "xyz".to_string();
    assert_eq!(
        parse_delegation_chain(&bad).err(),
        Some(IiAuthError::InvalidEncoding(ParamName::DelegationExpiration))
    );
    let mut bad = chain(&der(&root), &session, &root);
    bad.delegations[0].signature = "0".to_string();
    assert_eq!(parse_delegation_chain(&bad).err(), Some(IiAuthError::InvalidHex(ParamName::DelegationsSignature)));
}

#[test]
fn delegation_chain_verification() {
    let root = key(1);
    let session_key = key(2);
    let session = der(&session_key);
    let (delegations, _) = parse_delegation_chain(&chain(&der(&root), &session, &root)).unwrap();
    assert_eq!(verify_delegation_chain_at(&der(&root), &delegations, Some(0)), Ok(session.clone()));
    assert_eq!(verify_delegation_chain_at(&der(&root), &Vec::new(), Some(0)), Ok(der(&root)));
    // Signed by the wrong key.
    let (forged, _) = parse_delegation_chain(&chain(&der(&root), &session, &key(3))).unwrap();
    assert_eq!(verify_delegation_chain_at(&der(&root), &forged, Some(0)), Err(IiAuthError::InvalidSignature));
    // Expired.
    let expired = vec![SignedDelegation {
        delegation: Delegation { pubkey: session.clone(), expiration: 10, targets: None },
        signature: vec![0; 64],
    }];
    assert_eq!(verify_delegation_chain_at(&der(&root), &expired, Some(10)), Err(IiAuthError::DelegationExpired));
}

#[test]
fn expiry() {
    assert_eq!(ensure_not_expired_at(10, Some(9)), Ok(()));
    assert_eq!(ensure_not_expired_at(10, Some(10)), Err(IiAuthError::DelegationExpired));
}

#[test]
fn internet_identity_login_end_to_end() {
    let root = key(1);
    let session_key = key(2);
    let session = der(&session_key);
    let declared = der(&key(4));
    let mut store = ChallengeStore::new();
    let challenge = store.generate().expect("a challenge");
    let signature = session_key.sign_message(&challenge);
    let params = params_for(&challenge, &signature, &declared, chain(&declared, &session, &root));
    let expected = candid::Principal::self_authenticating(&declared).to_text();
    assert_eq!(verify_internet_identity(&params, &mut store, &der(&root)), Ok(expected));
    // The proof is used up.
    assert_eq!(verify_internet_identity(&params, &mut store, &der(&root)), Err(IiAuthError::UnknownChallenge));
}

#[test]
fn login_refusals() {
    let root = key(1);
    let session_key = key(2);
    let session = der(&session_key);
    let declared = der(&key(4));
    let mut store = ChallengeStore::new();
    let challenge = store.generate().expect("a challenge");
    // The session key did not sign this challenge.
    let wrong = session_key.sign_message(b"something else");
    let params = params_for(&challenge, &wrong, &declared, chain(&declared, &session, &root));
    assert_eq!(verify_internet_identity(&params, &mut store, &der(&root)), Err(IiAuthError::InvalidSignature));
    // The declared key differs from the proof's public key.
    let challenge = store.generate().expect("a challenge");
    let signature = session_key.sign_message(&challenge);
    let params = params_for(&challenge, &signature, &session, chain(&declared, &session, &root));
    assert_eq!(parse_internet_identity_proof(&params).err(), Some(IiAuthError::PublicKeyMismatch));
    // A challenge that was never issued.
    let params = params_for(&[9u8; 32], &signature, &declared, chain(&declared, &session, &root));
    assert_eq!(verify_internet_identity(&params, &mut store, &der(&root)), Err(IiAuthError::UnknownChallenge));
}

#[test]
fn missing_parameters_are_named() {
    let params = identity_params(&ParamSource { body: None, query: None }, None);
    assert_eq!(parse_internet_identity_proof(&params).err(), Some(IiAuthError::MissingParam(ParamName::Challenge)));
    assert_eq!(
        IiAuthError::MissingParam(ParamName::Delegations).message(),
        "missing Internet Identity parameter `ii_delegations`"
    );
    assert_eq!(IiAuthError::KeyLength(31).message(), "invalid public key length: 31");
}

#[test]
fn consent_answers() {
    assert!(matches!(consent_for(Ok("p".to_string())), ConsentDecision::Authorized(p) if p == "p"));
    assert!(matches!(consent_for(Err(IiAuthError::UnknownChallenge)), ConsentDecision::Denied));
    assert!(matches!(
        owner_consent_from_error(IiAuthError::ChallengeStorePoisoned),
        ConsentDecision::Error(m) if m == "challenge store unavailable"
    ));
    assert!(IiAuthError::DelegationExpired.is_client_error());
    assert!(!IiAuthError::InvalidKey.is_client_error());
}

#[test]
fn empty_hash_tree_digest() {
    let d = hash_tree(&HashTree::Empty);
    assert_eq!(d, sha256(b"ic-hashtree-empty"));
    let leaf = hash_tree(&HashTree::Leaf(b"x".to_vec()));
    assert_eq!(leaf, sha256(b"ic-hashtree-leafx"));
}

#[test]
fn overlong_targets_cannot_be_decoded() {
    let root = key(1);
    let session = der(&key(2));
    let mut input = chain(&der(&root), &session, &root);
    input.delegations[0].delegation.targets = Some(vec![hex::encode([7u8; 29])]);
    let (ds, _) = parse_delegation_chain(&input).unwrap();
    assert_eq!(ds[0].delegation.targets, Some(vec![vec![7u8; 29]]));
    input.delegations[0].delegation.targets = Some(vec![hex::encode([7u8; 30])]);
    assert!(decode_delegation_chain(&input).is_none());
    let params = params_for(&[1u8; 32], &[0u8; 64], &der(&root), input.clone());
    assert!(!proof_decodes(&params));
    input.delegations[0].delegation.targets = Some(vec!["zz".to_string(), hex::encode([7u8; 30])]);
    assert_eq!(
        decode_delegation_chain(&input).map(|r| r.err()),
        Some(Some(IiAuthError::InvalidHex(ParamName::DelegationTargets)))
    );
}

#[test]
fn expiry_on_the_clock() {
    assert_eq!(ensure_not_expired(u64::MAX), Ok(()));
    assert_eq!(ensure_not_expired(0), Err(IiAuthError::DelegationExpired));
    let root = key(1);
    let session = der(&key(2));
    let (delegations, _) = parse_delegation_chain(&chain(&der(&root), &session, &root)).unwrap();
    assert_eq!(verify_delegation_chain(&der(&root), &delegations), Ok(session));
}

fn cbor_map(entries: Vec<(&str, serde_cbor::Value)>) -> serde_cbor::Value {
    serde_cbor::Value::Map(entries.into_iter().map(|(k, v)| (serde_cbor::Value::Text(k.to_string()), v)).collect())
}

fn bls_signature(cert: serde_cbor::Value) -> Vec<u8> {
    let cert_bytes = serde_cbor::to_vec(&cert).unwrap();
    let outer = cbor_map(vec![("certificate", serde_cbor::Value::Bytes(cert_bytes))]);
    let mut sig = vec![0xd9, 0xd9, 0xf7];
    sig.extend(serde_cbor::to_vec(&outer).unwrap());
    sig
}

#[test]
fn certificates_are_read_from_bls_signatures() {
    let tree = Value::Array(vec![
        Value::Integer(1),
        Value::Array(vec![Value::Integer(3), Value::Bytes(b"x".to_vec())]),
        Value::Array(vec![Value::Integer(2), Value::Bytes(b"label".to_vec()), Value::Integer(0)]),
    ]);
    let cert = cbor_map(vec![("signature", Value::Bytes(vec![5; 48])), ("tree", tree)]);
    let (cert_sig, parsed) = certificate_parts(&bls_signature(cert)).unwrap();
    assert_eq!(cert_sig, vec![5; 48]);
    match &parsed {
        HashTree::Fork(l, r) => {
            assert!(matches!(&**l, HashTree::Leaf(d) if d == b"x"));
            assert!(matches!(&**r, HashTree::Labeled(label, sub) if label == b"label" && matches!(&**sub, HashTree::Empty)));
        }
        _ => panic!("expected a fork"),
    }
    let leaf = sha256(b"ic-hashtree-leafx");
    let mut labeled_msg = b"ic-hashtree-labeledlabel".to_vec();
    labeled_msg.extend_from_slice(&sha256(b"ic-hashtree-empty"));
    let labeled = sha256(&labeled_msg);
    let mut fork_msg = b"ic-hashtree-fork".to_vec();
    fork_msg.extend_from_slice(&leaf);
    fork_msg.extend_from_slice(&labeled);
    assert_eq!(hash_tree(&parsed), sha256(&fork_msg));
    // Not a BLS key: refused before the signature is looked at.
    assert_eq!(verify_state_root_signature(&[1, 2, 3], &cert_sig, &parsed), Err(IiAuthError::InvalidKey));
}

#[test]
fn malformed_certificates_are_invalid_signatures() {
    let no_tree = cbor_map(vec![("signature", Value::Bytes(vec![5; 48]))]);
    assert_eq!(certificate_parts(&bls_signature(no_tree)).err(), Some(IiAuthError::InvalidSignature));
    let bad_pruned = cbor_map(vec![
        ("signature", Value::Bytes(vec![5; 48])),
        ("tree", Value::Array(vec![Value::Integer(4), Value::Bytes(vec![0; 31])])),
    ]);
    assert_eq!(certificate_parts(&bls_signature(bad_pruned)).err(), Some(IiAuthError::InvalidSignature));
    let no_signature = cbor_map(vec![("tree", Value::Integer(0))]);
    assert_eq!(certificate_parts(&bls_signature(no_signature)).err(), Some(IiAuthError::InvalidSignature));
    assert_eq!(certificate_parts(&[1, 2]).err(), Some(IiAuthError::InvalidSignature));
    assert_eq!(certificate_parts(&[1, 2, 3, 0xff]).err(), Some(IiAuthError::InvalidSignature));
}

#[test]
fn pruning_a_subtree_keeps_the_root_hash() {
    let sub = HashTree::Labeled(b"time".to_vec(), Box::new(HashTree::Leaf(b"\x01\x02".to_vec())));
    let full = HashTree::Fork(Box::new(HashTree::Leaf(b"a".to_vec())), Box::new(sub));
    let sub_again = HashTree::Labeled(b"time".to_vec(), Box::new(HashTree::Leaf(b"\x01\x02".to_vec())));
    let pruned = HashTree::Fork(
        Box::new(HashTree::Leaf(b"a".to_vec())),
        Box::new(HashTree::Pruned(hash_tree(&sub_again).to_vec())),
    );
    assert_eq!(hash_tree(&full), hash_tree(&pruned));
}

#[test]
fn login_entry_point_checks_decoding_first() {
    let root = key(1);
    let session_key = key(2);
    let session = der(&session_key);
    let declared = der(&key(4));
    let mut store = ChallengeStore::new();
    let challenge = store.generate().expect("a challenge");
    let signature = session_key.sign_message(&challenge);
    let params = params_for(&challenge, &signature, &declared, chain(&declared, &session, &root));
    let expected = candid::Principal::self_authenticating(&declared).to_text();
    assert_eq!(join_proxy::identity::verify_login(&params, &mut store, &der(&root)), Some(Ok(expected)));
    assert_eq!(
        join_proxy::identity::verify_login(&params, &mut store, &der(&root)),
        Some(Err(IiAuthError::UnknownChallenge))
    );
    assert_eq!(
        join_proxy::identity::login_error_without_store(&params),
        Some(IiAuthError::ChallengeStorePoisoned)
    );
    let missing = identity_params(&ParamSource { body: None, query: None }, None);
    assert_eq!(
        join_proxy::identity::login_error_without_store(&missing),
        Some(IiAuthError::MissingParam(ParamName::Challenge))
    );
    let mut input = chain(&der(&root), &session, &root);
    input.delegations[0].delegation.targets = Some(vec![hex::encode([7u8; 30])]);
    let overlong = params_for(&[1u8; 32], &[0u8; 64], &der(&root), input);
    assert_eq!(join_proxy::identity::verify_login(&overlong, &mut store, &der(&root)), None);
    assert_eq!(join_proxy::identity::login_error_without_store(&overlong), None);
}
