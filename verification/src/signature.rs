//! Checking a signature against a DER-encoded SubjectPublicKeyInfo: Ed25519,
//! ECDSA over P-256 or secp256k1 (with recovery of vendor key encodings), and
//! BLS signatures carried by an Internet Computer certificate.
use vstd::prelude::*;
use crate::auth_error::IiAuthError;
use crate::bytes::{append_bytes, ascii, ascii_bytes, bytes_equal, copy_range};
use crate::crypto::{
    bls_key_encoding_valid, bls_key_from_bytes, bls_signature_encoding_valid, bls_signature_from_bytes,
    bls_signature_valid, bls_verify, dotted_oid_encoding, ec_parameters_decoding, ec_parameters_named_curve,
    ec_public_key_oid, ec_public_key_oid_spec, ed25519_key_from_raw, ed25519_raw_key_valid,
    ed25519_signature_valid, ed25519_verify, k256_key_from_sec1, k256_prehash_valid, k256_sec1_key_valid,
    k256_signature_encoding_valid, k256_signature_from_slice, k256_verify_prehash, nist_p256_oid,
    nist_p256_oid_spec, oid_from_dotted, p256_key_from_sec1, p256_prehash_valid, p256_sec1_key_valid,
    p256_signature_encoding_valid, p256_signature_from_slice, p256_verify_prehash, secp256k1_oid,
    secp256k1_oid_spec, sha256, sha256_spec, spki_decoding, spki_from_der, Spki,
};
use crate::hash_tree::{
    cbor_bytes, cbor_bytes_of, cbor_lookup, hash_tree, map_lookup, tree_decoding, tree_digest, tree_from_cbor,
    tree_view, tree_wf, HashTree, TreeView,
};
use crate::ic::{cbor_item, cbor_item_decoding, CborItem, CborView};
use crate::sec1::{generate_sec1_candidates, sec1_candidates, views, CurveKind};

verus! {

/// The signature schemes a key can belong to.
#[derive(Clone, Copy, PartialEq, Eq, Structural, Debug)]
pub enum SignatureAlgorithm {
    Ed25519,
    EcdsaP256,
    EcdsaSecp256k1,
    Bls,
}

/// `oid` is the OID written in dotted form as `text`.
pub open spec fn oid_is(oid: Seq<u8>, text: Seq<char>) -> bool {
    dotted_oid_encoding(text) == Some(oid)
}

/// The algorithm named by a SubjectPublicKeyInfo's algorithm OID and, for
/// `id-ecPublicKey`, by the named curve in its parameters.
pub open spec fn algorithm_of(oid: Seq<u8>, params: Option<Seq<u8>>) -> Result<SignatureAlgorithm, IiAuthError> {
    if oid_is(oid, "1.3.101.112"@) {
        Ok(SignatureAlgorithm::Ed25519)
    } else if oid_is(oid, "1.3.6.1.4.1.44668.5.3.1.2.1"@) {
        Ok(SignatureAlgorithm::Bls)
    } else if oid == ec_public_key_oid_spec() {
        match params {
            None => Err(IiAuthError::UnsupportedKeyAlgorithm),
            Some(p) => match ec_parameters_decoding(p) {
                Err(_) => Err(IiAuthError::InvalidPublicKey),
                Ok(None) => Err(IiAuthError::UnsupportedKeyAlgorithm),
                Ok(Some(curve)) => if curve == nist_p256_oid_spec() {
                    Ok(SignatureAlgorithm::EcdsaP256)
                } else if curve == secp256k1_oid_spec() {
                    Ok(SignatureAlgorithm::EcdsaSecp256k1)
                } else {
                    Err(IiAuthError::UnsupportedKeyAlgorithm)
                },
            },
        }
    } else if oid == nist_p256_oid_spec() || oid_is(oid, "1.3.6.1.4.1.56387.1.1"@) || oid_is(oid, "1.3.6.1.4.1.56387.1.2"@) {
        Ok(SignatureAlgorithm::EcdsaP256)
    } else if oid == secp256k1_oid_spec() {
        Ok(SignatureAlgorithm::EcdsaSecp256k1)
    } else {
        Err(IiAuthError::UnsupportedKeyAlgorithm)
    }
}

/// Whether `oid` equals the OID written as `text`.
fn oid_matches(oid: &[u8], text: &str) -> (res: bool)
    ensures
        res == oid_is(oid@, text@),
{
    match oid_from_dotted(text) {
        Some(expected) => bytes_equal(oid, expected.as_slice()),
        None => false,
    }
}

/// Determines the signature algorithm of a key from its SubjectPublicKeyInfo.
pub fn determine_signature_algorithm(spki: &Spki) -> (res: Result<SignatureAlgorithm, IiAuthError>)
    ensures
        res == algorithm_of(spki.algorithm_oid@, spki.parts().1),
{
    let oid = spki.algorithm_oid.as_slice();
    if oid_matches(oid, "1.3.101.112") {
        return Ok(SignatureAlgorithm::Ed25519);
    } else if oid_matches(oid, "1.3.6.1.4.1.44668.5.3.1.2.1") {
        return Ok(SignatureAlgorithm::Bls);
    }
    let ec_oid = ec_public_key_oid();
    if bytes_equal(oid, ec_oid.as_slice()) {
        let params = match &spki.parameters {
            Some(p) => p,
            None => return Err(IiAuthError::UnsupportedKeyAlgorithm),
        };
        let curve_oid = match ec_parameters_named_curve(params.as_slice()) {
            Err(_) => return Err(IiAuthError::InvalidPublicKey),
            Ok(None) => return Err(IiAuthError::UnsupportedKeyAlgorithm),
            Ok(Some(c)) => c,
        };
        let p256_oid = nist_p256_oid();
        let k256_oid = secp256k1_oid();
        return if bytes_equal(curve_oid.as_slice(), p256_oid.as_slice()) {
            Ok(SignatureAlgorithm::EcdsaP256)
        } else if bytes_equal(curve_oid.as_slice(), k256_oid.as_slice()) {
            Ok(SignatureAlgorithm::EcdsaSecp256k1)
        } else {
            Err(IiAuthError::UnsupportedKeyAlgorithm)
        };
    }
    let p256_oid = nist_p256_oid();
    if bytes_equal(oid, p256_oid.as_slice()) || oid_matches(oid, "1.3.6.1.4.1.56387.1.1")
        || oid_matches(oid, "1.3.6.1.4.1.56387.1.2") {
        return Ok(SignatureAlgorithm::EcdsaP256);
    }
    let k256_oid = secp256k1_oid();
    if bytes_equal(oid, k256_oid.as_slice()) {
        return Ok(SignatureAlgorithm::EcdsaSecp256k1);
    }
    Err(IiAuthError::UnsupportedKeyAlgorithm)
}

/// The outcome of checking a P-256 ECDSA signature over a prehashed message:
/// the signature must be well-formed, and some SEC1 interpretation of the
/// key must be a valid point under which the signature verifies.
pub open spec fn p256_check(key: Seq<u8>, sig: Seq<u8>, hash: Seq<u8>) -> Result<(), IiAuthError> {
    let cands = sec1_candidates(key, CurveKind::P256);
    if !p256_signature_encoding_valid(sig) {
        Err(IiAuthError::InvalidSignature)
    } else if exists|i: int| 0 <= i < cands.len() && p256_sec1_key_valid(#[trigger] cands[i]) && p256_prehash_valid(cands[i], hash, sig) {
        Ok(())
    } else {
        Err(IiAuthError::VerificationFailed)
    }
}

/// The same check for secp256k1.
pub open spec fn k256_check(key: Seq<u8>, sig: Seq<u8>, hash: Seq<u8>) -> Result<(), IiAuthError> {
    let cands = sec1_candidates(key, CurveKind::Secp256k1);
    if !k256_signature_encoding_valid(sig) {
        Err(IiAuthError::InvalidSignature)
    } else if exists|i: int| 0 <= i < cands.len() && k256_sec1_key_valid(#[trigger] cands[i]) && k256_prehash_valid(cands[i], hash, sig) {
        Ok(())
    } else {
        Err(IiAuthError::VerificationFailed)
    }
}

/// Checks a P-256 ECDSA signature over a prehashed message, trying each SEC1
/// interpretation of the key in turn.
pub fn verify_p256_signature(subject_public_key: &[u8], signature: &[u8], message_hash: [u8; 32]) -> (res: Result<(), IiAuthError>)
    ensures
        res == p256_check(subject_public_key@, signature@, message_hash@),
{
    let candidates = generate_sec1_candidates(subject_public_key, CurveKind::P256);
    let ghost cands = sec1_candidates(subject_public_key@, CurveKind::P256);
    let sig = match p256_signature_from_slice(signature) {
        Some(s) => s,
        None => return Err(IiAuthError::InvalidSignature),
    };
    let mut idx: usize = 0;
    while idx < candidates.len()
        invariant
            views(candidates@) == cands,
            sig.raw() == signature@,
            p256_signature_encoding_valid(signature@),
            cands == sec1_candidates(subject_public_key@, CurveKind::P256),
            idx <= candidates@.len(),
            forall|j: int| 0 <= j < idx ==> !(p256_sec1_key_valid(#[trigger] cands[j]) && p256_prehash_valid(cands[j], message_hash@, signature@)),
        decreases candidates@.len() - idx,
    {
        assert(cands[idx as int] == candidates@[idx as int]@);
        match p256_key_from_sec1(candidates[idx].as_slice()) {
            Some(vk) => {
                if p256_verify_prehash(&vk, &message_hash, &sig) {
                    assert(p256_sec1_key_valid(cands[idx as int]) && p256_prehash_valid(cands[idx as int], message_hash@, signature@));
                    return Ok(());
                }
            },
            None => {},
        }
        idx = idx + 1;
    }
    Err(IiAuthError::VerificationFailed)
}

/// Checks a secp256k1 ECDSA signature over a prehashed message, trying each
/// SEC1 interpretation of the key in turn.
pub fn verify_k256_signature(subject_public_key: &[u8], signature: &[u8], message_hash: [u8; 32]) -> (res: Result<(), IiAuthError>)
    ensures
        res == k256_check(subject_public_key@, signature@, message_hash@),
{
    let candidates = generate_sec1_candidates(subject_public_key, CurveKind::Secp256k1);
    let ghost cands = sec1_candidates(subject_public_key@, CurveKind::Secp256k1);
    let sig = match k256_signature_from_slice(signature) {
        Some(s) => s,
        None => return Err(IiAuthError::InvalidSignature),
    };
    let mut idx: usize = 0;
    while idx < candidates.len()
        invariant
            views(candidates@) == cands,
            sig.raw() == signature@,
            k256_signature_encoding_valid(signature@),
            cands == sec1_candidates(subject_public_key@, CurveKind::Secp256k1),
            idx <= candidates@.len(),
            forall|j: int| 0 <= j < idx ==> !(k256_sec1_key_valid(#[trigger] cands[j]) && k256_prehash_valid(cands[j], message_hash@, signature@)),
        decreases candidates@.len() - idx,
    {
        assert(cands[idx as int] == candidates@[idx as int]@);
        match k256_key_from_sec1(candidates[idx].as_slice()) {
            Some(vk) => {
                if k256_verify_prehash(&vk, &message_hash, &sig) {
                    assert(k256_sec1_key_valid(cands[idx as int]) && k256_prehash_valid(cands[idx as int], message_hash@, signature@));
                    return Ok(());
                }
            },
            None => {},
        }
        idx = idx + 1;
    }
    Err(IiAuthError::VerificationFailed)
}

/// The domain separation tag of the BLS signatures checked here.
pub open spec fn bls_dst() -> Seq<u8> {
    ascii("BLS_SIG_BLS12381G1_XMD:SHA-256_SSWU_RO_NUL_"@)
}

/// The message a state-root signature covers: a domain prefix and the root
/// hash of the certificate's tree.
pub open spec fn state_root_message(tree: TreeView) -> Seq<u8> {
    ascii("\x0dic-state-root"@) + tree_digest(tree)
}

/// The outcome of checking a certificate's BLS signature over its tree's
/// root hash under a BLS public key.
pub open spec fn state_root_check(key: Seq<u8>, cert_sig: Seq<u8>, tree: TreeView) -> Result<(), IiAuthError> {
    if !bls_key_encoding_valid(key) {
        Err(IiAuthError::InvalidKey)
    } else if !bls_signature_encoding_valid(cert_sig) {
        Err(IiAuthError::InvalidSignature)
    } else if bls_signature_valid(key, state_root_message(tree), bls_dst(), Seq::empty(), cert_sig) {
        Ok(())
    } else {
        Err(IiAuthError::VerificationFailed)
    }
}

/// Checks a certificate's BLS signature over its tree's root hash.
pub fn verify_state_root_signature(key: &[u8], cert_sig: &[u8], tree: &HashTree) -> (res: Result<(), IiAuthError>)
    requires
        tree_wf(*tree),
    ensures
        res == state_root_check(key@, cert_sig@, tree_view(*tree)),
{
    let root_hash = hash_tree(tree);
    let mut message = ascii_bytes("\x0dic-state-root");
    append_bytes(&mut message, root_hash.as_slice());
    let pk = match bls_key_from_bytes(key) {
        Some(k) => k,
        None => return Err(IiAuthError::InvalidKey),
    };
    let sig = match bls_signature_from_bytes(cert_sig) {
        Some(s) => s,
        None => return Err(IiAuthError::InvalidSignature),
    };
    let dst = ascii_bytes("BLS_SIG_BLS12381G1_XMD:SHA-256_SSWU_RO_NUL_");
    let aug: Vec<u8> = Vec::new();
    if bls_verify(&sig, message.as_slice(), dst.as_slice(), aug.as_slice(), &pk) {
        Ok(())
    } else {
        assert(aug@ =~= Seq::<u8>::empty());
        Err(IiAuthError::VerificationFailed)
    }
}

/// The byte string stored under the text key `key` in the CBOR map that
/// `item` encodes.
pub open spec fn map_bytes(item: Seq<u8>, key: Seq<u8>) -> Option<Seq<u8>> {
    match cbor_item_decoding(item) {
        Some(CborView::Entries(es)) => match map_lookup(es, key) {
            Some(v) => cbor_bytes_of(v),
            None => None,
        },
        _ => None,
    }
}

/// The certificate a BLS-keyed signature carries: after the signature's
/// three-byte prefix, a CBOR map holds the certificate's bytes under
/// `certificate`; they encode a map holding the BLS signature under
/// `signature` and the hash tree under `tree` (read following at most as
/// many levels as the certificate has bytes). `None` if a part is missing
/// or malformed.
pub open spec fn certificate_decoding(signature: Seq<u8>) -> Option<(Seq<u8>, TreeView)> {
    if signature.len() < 3 {
        None
    } else {
        match map_bytes(signature.skip(3), ascii("certificate"@)) {
            None => None,
            Some(cert) => match map_bytes(cert, ascii("signature"@)) {
                None => None,
                Some(sig) => match cbor_item_decoding(cert) {
                    Some(CborView::Entries(es)) => match map_lookup(es, ascii("tree"@)) {
                        Some(t) => match tree_decoding(t, cert.len()) {
                            Some(tree) => Some((sig, tree)),
                            None => None,
                        },
                        None => None,
                    },
                    _ => None,
                },
            },
        }
    }
}

/// The byte string stored under the text key `key` in the CBOR map that
/// `item` encodes.
fn cbor_map_bytes(item: &[u8], key: &str) -> (res: Option<Vec<u8>>)
    ensures
        match res {
            Some(b) => map_bytes(item@, ascii(key@)) == Some(b@),
            None => map_bytes(item@, ascii(key@)) is None,
        },
{
    match cbor_item(item) {
        Some(CborItem::Entries(entries)) => {
            let k = ascii_bytes(key);
            match cbor_lookup(&entries, k.as_slice()) {
                Some(v) => cbor_bytes(v.as_slice()),
                None => None,
            }
        },
        _ => None,
    }
}

/// Reads the certificate a BLS-keyed signature carries (see
/// `certificate_decoding`); any missing or malformed part is an
/// `InvalidSignature`.
pub fn certificate_parts(signature: &[u8]) -> (res: Result<(Vec<u8>, HashTree), IiAuthError>)
    ensures
        match res {
            Ok((cert_sig, tree)) => certificate_decoding(signature@) == Some((cert_sig@, tree_view(tree))) && tree_wf(tree),
            Err(e) => e == IiAuthError::InvalidSignature && certificate_decoding(signature@) is None,
        },
{
    if signature.len() < 3 {
        return Err(IiAuthError::InvalidSignature);
    }
    let body = copy_range(signature, 3, signature.len());
    assert(body@ =~= signature@.skip(3));
    let certificate = match cbor_map_bytes(body.as_slice(), "certificate") {
        Some(c) => c,
        None => return Err(IiAuthError::InvalidSignature),
    };
    let cert_sig = match cbor_map_bytes(certificate.as_slice(), "signature") {
        Some(s) => s,
        None => return Err(IiAuthError::InvalidSignature),
    };
    let tree = match cbor_item(certificate.as_slice()) {
        Some(CborItem::Entries(entries)) => {
            let k = ascii_bytes("tree");
            match cbor_lookup(&entries, k.as_slice()) {
                Some(t) => tree_from_cbor(t.as_slice(), certificate.len()),
                None => None,
            }
        },
        _ => None,
    };
    match tree {
        Some(t) => Ok((cert_sig, t)),
        None => Err(IiAuthError::InvalidSignature),
    }
}

/// The outcome of checking a signature under a DER-encoded public key:
/// Ed25519 over the message, ECDSA over its SHA-256 digest, and for a BLS
/// key the certificate the signature carries, whose BLS signature must
/// cover the root hash of its tree. The BLS check does not look at the
/// message: an accepted BLS signature vouches for its certificate, not for
/// the message it was presented with.
pub open spec fn signature_check(public_key_der: Seq<u8>, signature: Seq<u8>, message: Seq<u8>) -> Result<(), IiAuthError> {
    match spki_decoding(public_key_der) {
        None => Err(IiAuthError::InvalidPublicKey),
        Some(parts) => match algorithm_of(parts.0, parts.1) {
            Err(e) => Err(e),
            Ok(SignatureAlgorithm::Ed25519) => if !ed25519_raw_key_valid(parts.2) {
                Err(IiAuthError::InvalidPublicKey)
            } else if ed25519_signature_valid(parts.2, message, signature) {
                Ok(())
            } else {
                Err(IiAuthError::InvalidSignature)
            },
            Ok(SignatureAlgorithm::EcdsaP256) => p256_check(parts.2, signature, sha256_spec(message)),
            Ok(SignatureAlgorithm::EcdsaSecp256k1) => k256_check(parts.2, signature, sha256_spec(message)),
            Ok(SignatureAlgorithm::Bls) => match certificate_decoding(signature) {
                None => Err(IiAuthError::InvalidSignature),
                Some((cert_sig, tree)) => state_root_check(parts.2, cert_sig, tree),
            },
        },
    }
}

/// Checks `signature` over `message` under the DER-encoded public key (for
/// a BLS key, only the certificate inside the signature is checked; the
/// message is not bound, see `signature_check`).
pub fn verify_signature(public_key_der: &[u8], signature: &[u8], message: &[u8]) -> (res: Result<(), IiAuthError>)
    ensures
        res == signature_check(public_key_der@, signature@, message@),
{
    let spki = match spki_from_der(public_key_der) {
        Some(s) => s,
        None => return Err(IiAuthError::InvalidPublicKey),
    };
    let algorithm = match determine_signature_algorithm(&spki) {
        Ok(a) => a,
        Err(e) => return Err(e),
    };
    let key_bytes = spki.subject_public_key.as_slice();
    match algorithm {
        SignatureAlgorithm::Ed25519 => {
            let vk = match ed25519_key_from_raw(key_bytes) {
                Some(k) => k,
                None => return Err(IiAuthError::InvalidPublicKey),
            };
            if ed25519_verify(&vk, message, signature) {
                Ok(())
            } else {
                Err(IiAuthError::InvalidSignature)
            }
        },
        SignatureAlgorithm::EcdsaP256 => {
            let hash = sha256(message);
            verify_p256_signature(key_bytes, signature, hash)
        },
        SignatureAlgorithm::EcdsaSecp256k1 => {
            let hash = sha256(message);
            verify_k256_signature(key_bytes, signature, hash)
        },
        SignatureAlgorithm::Bls => {
            let (cert_sig, tree) = match certificate_parts(signature) {
                Ok(p) => p,
                Err(e) => return Err(e),
            };
            verify_state_root_signature(key_bytes, cert_sig.as_slice(), &tree)
        },
    }
}

/// The DER content octets of `id-ecPublicKey` (1.2.840.10045.2.1),
/// `prime256v1` (1.2.840.10045.3.1.7), `secp256k1` (1.3.132.0.10), Ed25519
/// (1.3.101.112) and the IC's BLS key OID (1.3.6.1.4.1.44668.5.3.1.2.1), as
/// X.690 writes them.
pub open spec fn x690_ec_public_key() -> Seq<u8> { seq![0x2au8, 0x86u8, 0x48u8, 0xceu8, 0x3du8, 0x02u8, 0x01u8] }
pub open spec fn x690_prime256v1() -> Seq<u8> { seq![0x2au8, 0x86u8, 0x48u8, 0xceu8, 0x3du8, 0x03u8, 0x01u8, 0x07u8] }
pub open spec fn x690_secp256k1() -> Seq<u8> { seq![0x2bu8, 0x81u8, 0x04u8, 0x00u8, 0x0au8] }
pub open spec fn x690_ed25519() -> Seq<u8> { seq![0x2bu8, 0x65u8, 0x70u8] }
pub open spec fn x690_ic_bls() -> Seq<u8> {
    seq![0x2bu8, 0x06u8, 0x01u8, 0x04u8, 0x01u8, 0x82u8, 0xdcu8, 0x7cu8, 0x05u8, 0x03u8, 0x01u8, 0x02u8, 0x01u8]
}

/// The OID encoder writes the Ed25519 and IC BLS OIDs as X.690 says.
pub open spec fn standard_oid_texts() -> bool {
    &&& dotted_oid_encoding("1.3.101.112"@) == Some(x690_ed25519())
    &&& dotted_oid_encoding("1.3.6.1.4.1.44668.5.3.1.2.1"@) == Some(x690_ic_bls())
}

proof fn lemma_ec_oid_is_neither_ed25519_nor_bls()
    requires
        standard_oid_texts(),
    ensures
        !oid_is(x690_ec_public_key(), "1.3.101.112"@),
        !oid_is(x690_ec_public_key(), "1.3.6.1.4.1.44668.5.3.1.2.1"@),
{
    assert(x690_ec_public_key().len() != x690_ed25519().len());
    assert(x690_ec_public_key().len() != x690_ic_bls().len());
}

/// A key whose SubjectPublicKeyInfo names `id-ecPublicKey` with the curve
/// `prime256v1` is a P-256 key, and only P-256 decides: the signature is
/// accepted exactly when it is a well-formed P-256 signature and some SEC1
/// reading of the key is a valid P-256 point under which it verifies as a
/// P-256 ECDSA signature of SHA-256 of the message.
pub proof fn lemma_p256_keys_are_checked_on_p256(der: Seq<u8>, params: Seq<u8>, key: Seq<u8>, signature: Seq<u8>, message: Seq<u8>)
    requires
        standard_oid_texts(),
        spki_decoding(der) == Some((x690_ec_public_key(), Some(params), key)),
        ec_parameters_decoding(params) == Ok::<Option<Seq<u8>>, ()>(Some(x690_prime256v1())),
    ensures
        signature_check(der, signature, message) is Ok <==> {
            &&& p256_signature_encoding_valid(signature)
            &&& exists|reading: Seq<u8>| {
                &&& #[trigger] sec1_candidates(key, CurveKind::P256).contains(reading)
                &&& p256_sec1_key_valid(reading)
                &&& p256_prehash_valid(reading, sha256_spec(message), signature)
            }
        },
{
    lemma_ec_oid_is_neither_ed25519_nor_bls();
    assert(x690_ec_public_key() =~= ec_public_key_oid_spec());
    assert(x690_prime256v1() =~= nist_p256_oid_spec());
    let cands = sec1_candidates(key, CurveKind::P256);
    let hash = sha256_spec(message);
    if signature_check(der, signature, message) is Ok {
        let i = choose|i: int| 0 <= i < cands.len() && p256_sec1_key_valid(#[trigger] cands[i]) && p256_prehash_valid(cands[i], hash, signature);
        assert(cands.contains(cands[i]));
    }
    if p256_signature_encoding_valid(signature) && exists|reading: Seq<u8>| {
        &&& #[trigger] cands.contains(reading)
        &&& p256_sec1_key_valid(reading)
        &&& p256_prehash_valid(reading, hash, signature)
    } {
        let r = choose|reading: Seq<u8>| {
            &&& #[trigger] cands.contains(reading)
            &&& p256_sec1_key_valid(reading)
            &&& p256_prehash_valid(reading, hash, signature)
        };
        let i = choose|i: int| 0 <= i < cands.len() && cands[i] == r;
        assert(p256_sec1_key_valid(cands[i]) && p256_prehash_valid(cands[i], hash, signature));
    }
}

/// Likewise a key whose SubjectPublicKeyInfo names `id-ecPublicKey` with
/// the curve `secp256k1` is checked on secp256k1 alone.
pub proof fn lemma_k256_keys_are_checked_on_k256(der: Seq<u8>, params: Seq<u8>, key: Seq<u8>, signature: Seq<u8>, message: Seq<u8>)
    requires
        standard_oid_texts(),
        spki_decoding(der) == Some((x690_ec_public_key(), Some(params), key)),
        ec_parameters_decoding(params) == Ok::<Option<Seq<u8>>, ()>(Some(x690_secp256k1())),
    ensures
        signature_check(der, signature, message) is Ok <==> {
            &&& k256_signature_encoding_valid(signature)
            &&& exists|reading: Seq<u8>| {
                &&& #[trigger] sec1_candidates(key, CurveKind::Secp256k1).contains(reading)
                &&& k256_sec1_key_valid(reading)
                &&& k256_prehash_valid(reading, sha256_spec(message), signature)
            }
        },
{
    lemma_ec_oid_is_neither_ed25519_nor_bls();
    assert(x690_ec_public_key() =~= ec_public_key_oid_spec());
    assert(x690_secp256k1() =~= secp256k1_oid_spec());
    assert(x690_secp256k1() != nist_p256_oid_spec()) by {
        assert(x690_secp256k1().len() != nist_p256_oid_spec().len());
    }
    let cands = sec1_candidates(key, CurveKind::Secp256k1);
    let hash = sha256_spec(message);
    if signature_check(der, signature, message) is Ok {
        let i = choose|i: int| 0 <= i < cands.len() && k256_sec1_key_valid(#[trigger] cands[i]) && k256_prehash_valid(cands[i], hash, signature);
        assert(cands.contains(cands[i]));
    }
    if k256_signature_encoding_valid(signature) && exists|reading: Seq<u8>| {
        &&& #[trigger] cands.contains(reading)
        &&& k256_sec1_key_valid(reading)
        &&& k256_prehash_valid(reading, hash, signature)
    } {
        let r = choose|reading: Seq<u8>| {
            &&& #[trigger] cands.contains(reading)
            &&& k256_sec1_key_valid(reading)
            &&& k256_prehash_valid(reading, hash, signature)
        };
        let i = choose|i: int| 0 <= i < cands.len() && cands[i] == r;
        assert(k256_sec1_key_valid(cands[i]) && k256_prehash_valid(cands[i], hash, signature));
    }
}

/// The IC's state-root domain separator: the length byte 13 followed by
/// `ic-state-root`.
pub open spec fn ic_state_root_separator() -> Seq<u8> {
    seq![0x0du8, 0x69u8, 0x63u8, 0x2du8, 0x73u8, 0x74u8, 0x61u8, 0x74u8, 0x65u8, 0x2du8, 0x72u8, 0x6fu8, 0x6fu8, 0x74u8]
}

/// A certificate's BLS signature is accepted exactly when the key and the
/// signature are well-formed BLS encodings and the signature verifies, under
/// the `BLS_SIG_BLS12381G1_XMD:SHA-256_SSWU_RO_NUL_` tag, over the IC's
/// domain separator followed by the root hash of the certificate's tree.
pub proof fn lemma_state_root_signature_covers_separator_and_root(key: Seq<u8>, cert_sig: Seq<u8>, tree: TreeView)
    ensures
        state_root_check(key, cert_sig, tree) is Ok <==> {
            &&& bls_key_encoding_valid(key)
            &&& bls_signature_encoding_valid(cert_sig)
            &&& bls_signature_valid(
                key,
                ic_state_root_separator() + tree_digest(tree),
                ascii("BLS_SIG_BLS12381G1_XMD:SHA-256_SSWU_RO_NUL_"@),
                Seq::empty(),
                cert_sig,
            )
        },
{
    reveal_strlit("\x0dic-state-root");
    assert(ascii("\x0dic-state-root"@) =~= ic_state_root_separator());
}

} // verus!
