//! Calls into the outside cryptography, key-encoding and principal crates.
//! Each result that is a fixed function of the arguments is given a name;
//! the names are not defined here, so what is proved on top of them holds
//! whatever the outside algorithms compute.
use vstd::prelude::*;
use der::{Decode, Encode};
use k256::ecdsa::signature::hazmat::PrehashVerifier;
use sha2::Digest;

verus! {

#[verifier::external_type_specification]
#[verifier::external_body]
pub struct ExEd25519PublicKey(ic_ed25519::PublicKey);

#[verifier::external_type_specification]
#[verifier::external_body]
pub struct ExBlsPublicKey(blst::min_sig::PublicKey);

#[verifier::external_type_specification]
#[verifier::external_body]
pub struct ExBlsSignature(blst::min_sig::Signature);

// ---------------------------------------------------------------- SHA-256

/// The SHA-256 digest of `data`.
pub uninterp spec fn sha256_spec(data: Seq<u8>) -> Seq<u8>;

/// `sha2::Sha256::digest`: the contract names the 32-byte digest.
#[verifier::external_body]
pub(crate) fn sha256(data: &[u8]) -> (res: [u8; 32])
    ensures
        res@ == sha256_spec(data@),
{
    sha2::Sha256::digest(data).into()
}

// ---------------------------------------------------------------- Ed25519

/// Whether `raw` is a valid 32-byte Ed25519 public key for
/// `ic_ed25519::PublicKey::deserialize_raw`.
pub uninterp spec fn ed25519_raw_key_valid(raw: Seq<u8>) -> bool;

/// Whether `sig` is a valid Ed25519 signature of `msg` under the key whose
/// raw encoding is `raw` (ZIP-215 rules, as `ic_ed25519` checks them).
pub uninterp spec fn ed25519_signature_valid(raw: Seq<u8>, msg: Seq<u8>, sig: Seq<u8>) -> bool;

/// An Ed25519 public key together with the raw bytes it was read from.
pub struct Ed25519Key {
    key: ic_ed25519::PublicKey,
    raw: Vec<u8>,
}

impl Ed25519Key {
    pub closed spec fn raw(&self) -> Seq<u8> {
        self.raw@
    }
}

/// `ic_ed25519::PublicKey::deserialize_raw`: succeeds exactly on the valid
/// keys (named), keeping the bytes it read.
#[verifier::external_body]
pub(crate) fn ed25519_key_from_raw(raw: &[u8]) -> (res: Option<Ed25519Key>)
    ensures
        res is Some == ed25519_raw_key_valid(raw@),
        res matches Some(k) ==> k.raw() == raw@,
{
    ic_ed25519::PublicKey::deserialize_raw(raw).ok().map(|key| Ed25519Key { key, raw: raw.to_vec() })
}

/// `ic_ed25519::PublicKey::verify_signature`: accepts exactly the valid
/// signatures (named).
#[verifier::external_body]
pub(crate) fn ed25519_verify(key: &Ed25519Key, msg: &[u8], sig: &[u8]) -> (res: bool)
    ensures
        res == ed25519_signature_valid(key.raw(), msg@, sig@),
{
    key.key.verify_signature(msg, sig).is_ok()
}

// ---------------------------------------------------------------- ECDSA P-256

/// Whether `sec1` is a valid SEC1 encoding of a P-256 point.
pub uninterp spec fn p256_sec1_key_valid(sec1: Seq<u8>) -> bool;

/// Whether `sig` is a valid fixed-size (r || s) P-256 ECDSA signature encoding.
pub uninterp spec fn p256_signature_encoding_valid(sig: Seq<u8>) -> bool;

/// Whether the P-256 signature `sig` is valid for the prehashed message
/// `hash` under the key encoded as `sec1`.
pub uninterp spec fn p256_prehash_valid(sec1: Seq<u8>, hash: Seq<u8>, sig: Seq<u8>) -> bool;

/// The SEC1 bytes of a valid P-256 verifying key.
pub struct P256Key {
    sec1: Vec<u8>,
}

/// The bytes of a valid P-256 signature.
pub struct P256Signature {
    raw: Vec<u8>,
}

impl P256Key {
    pub closed spec fn sec1(&self) -> Seq<u8> {
        self.sec1@
    }
}

impl P256Signature {
    pub closed spec fn raw(&self) -> Seq<u8> {
        self.raw@
    }
}

/// `p256::ecdsa::VerifyingKey::from_sec1_bytes`: succeeds exactly on valid
/// encodings (named).
#[verifier::external_body]
pub(crate) fn p256_key_from_sec1(sec1: &[u8]) -> (res: Option<P256Key>)
    ensures
        res is Some == p256_sec1_key_valid(sec1@),
        res matches Some(k) ==> k.sec1() == sec1@,
{
    p256::ecdsa::VerifyingKey::from_sec1_bytes(sec1).ok().map(|_| P256Key { sec1: sec1.to_vec() })
}

/// `p256::ecdsa::Signature::try_from(&[u8])`: succeeds exactly on valid
/// encodings (named).
#[verifier::external_body]
pub(crate) fn p256_signature_from_slice(raw: &[u8]) -> (res: Option<P256Signature>)
    ensures
        res is Some == p256_signature_encoding_valid(raw@),
        res matches Some(s) ==> s.raw() == raw@,
{
    p256::ecdsa::Signature::try_from(raw).ok().map(|_| P256Signature { raw: raw.to_vec() })
}

/// `PrehashVerifier::verify_prehash` for P-256: accepts exactly the valid
/// signatures (named). The key and signature are held as the bytes that
/// `p256_key_from_sec1` and `p256_signature_from_slice` accepted (the
/// generic `ecdsa` types stay outside the contracts), so the body reads them again
/// with the same two calls before verifying; those reads cannot fail.
#[verifier::external_body]
pub(crate) fn p256_verify_prehash(key: &P256Key, hash: &[u8; 32], sig: &P256Signature) -> (res: bool)
    ensures
        res == p256_prehash_valid(key.sec1(), hash@, sig.raw()),
{
    match (p256::ecdsa::VerifyingKey::from_sec1_bytes(&key.sec1), p256::ecdsa::Signature::try_from(sig.raw.as_slice())) {
        (Ok(vk), Ok(s)) => vk.verify_prehash(hash, &s).is_ok(),
        _ => false,
    }
}

// ---------------------------------------------------------------- ECDSA secp256k1

/// Whether `sec1` is a valid SEC1 encoding of a secp256k1 point.
pub uninterp spec fn k256_sec1_key_valid(sec1: Seq<u8>) -> bool;

/// Whether `sig` is a valid fixed-size (r || s) secp256k1 ECDSA signature encoding.
pub uninterp spec fn k256_signature_encoding_valid(sig: Seq<u8>) -> bool;

/// Whether the secp256k1 signature `sig` is valid for the prehashed message
/// `hash` under the key encoded as `sec1`.
pub uninterp spec fn k256_prehash_valid(sec1: Seq<u8>, hash: Seq<u8>, sig: Seq<u8>) -> bool;

/// The SEC1 bytes of a valid secp256k1 verifying key.
pub struct K256Key {
    sec1: Vec<u8>,
}

/// The bytes of a valid secp256k1 signature.
pub struct K256Signature {
    raw: Vec<u8>,
}

impl K256Key {
    pub closed spec fn sec1(&self) -> Seq<u8> {
        self.sec1@
    }
}

impl K256Signature {
    pub closed spec fn raw(&self) -> Seq<u8> {
        self.raw@
    }
}

/// `k256::ecdsa::VerifyingKey::from_sec1_bytes`: succeeds exactly on valid
/// encodings (named).
#[verifier::external_body]
pub(crate) fn k256_key_from_sec1(sec1: &[u8]) -> (res: Option<K256Key>)
    ensures
        res is Some == k256_sec1_key_valid(sec1@),
        res matches Some(k) ==> k.sec1() == sec1@,
{
    k256::ecdsa::VerifyingKey::from_sec1_bytes(sec1).ok().map(|_| K256Key { sec1: sec1.to_vec() })
}

/// `k256::ecdsa::Signature::try_from(&[u8])`: succeeds exactly on valid
/// encodings (named).
#[verifier::external_body]
pub(crate) fn k256_signature_from_slice(raw: &[u8]) -> (res: Option<K256Signature>)
    ensures
        res is Some == k256_signature_encoding_valid(raw@),
        res matches Some(s) ==> s.raw() == raw@,
{
    k256::ecdsa::Signature::try_from(raw).ok().map(|_| K256Signature { raw: raw.to_vec() })
}

/// `PrehashVerifier::verify_prehash` for secp256k1: accepts exactly the
/// valid signatures (named). The key and signature are held as the bytes that
/// `k256_key_from_sec1` and `k256_signature_from_slice` accepted (the
/// generic `ecdsa` types stay outside the contracts), so the body reads them again
/// with the same two calls before verifying; those reads cannot fail.
#[verifier::external_body]
pub(crate) fn k256_verify_prehash(key: &K256Key, hash: &[u8; 32], sig: &K256Signature) -> (res: bool)
    ensures
        res == k256_prehash_valid(key.sec1(), hash@, sig.raw()),
{
    match (k256::ecdsa::VerifyingKey::from_sec1_bytes(&key.sec1), k256::ecdsa::Signature::try_from(sig.raw.as_slice())) {
        (Ok(vk), Ok(s)) => vk.verify_prehash(hash, &s).is_ok(),
        _ => false,
    }
}

// ---------------------------------------------------------------- BLS (min-sig)

/// Whether `raw` is a public key that `blst::min_sig::PublicKey::from_bytes` accepts.
pub uninterp spec fn bls_key_encoding_valid(raw: Seq<u8>) -> bool;

/// Whether `raw` is a signature that `blst::min_sig::Signature::from_bytes` accepts.
pub uninterp spec fn bls_signature_encoding_valid(raw: Seq<u8>) -> bool;

/// Whether `blst`'s min-sig verification (with signature group check and key
/// validation) accepts `sig` for `msg` under the domain separation tag `dst`
/// and augmentation `aug`, for the key `key`.
pub uninterp spec fn bls_signature_valid(key: Seq<u8>, msg: Seq<u8>, dst: Seq<u8>, aug: Seq<u8>, sig: Seq<u8>) -> bool;

/// A BLS public key with the bytes it was read from.
pub struct BlsKey {
    key: blst::min_sig::PublicKey,
    raw: Vec<u8>,
}

/// A BLS signature with the bytes it was read from.
pub struct BlsSignature {
    sig: blst::min_sig::Signature,
    raw: Vec<u8>,
}

impl BlsKey {
    pub closed spec fn raw(&self) -> Seq<u8> {
        self.raw@
    }
}

impl BlsSignature {
    pub closed spec fn raw(&self) -> Seq<u8> {
        self.raw@
    }
}

/// `blst::min_sig::PublicKey::from_bytes` (named).
#[verifier::external_body]
pub(crate) fn bls_key_from_bytes(raw: &[u8]) -> (res: Option<BlsKey>)
    ensures
        res is Some == bls_key_encoding_valid(raw@),
        res matches Some(k) ==> k.raw() == raw@,
{
    blst::min_sig::PublicKey::from_bytes(raw).ok().map(|key| BlsKey { key, raw: raw.to_vec() })
}

/// `blst::min_sig::Signature::from_bytes` (named).
#[verifier::external_body]
pub(crate) fn bls_signature_from_bytes(raw: &[u8]) -> (res: Option<BlsSignature>)
    ensures
        res is Some == bls_signature_encoding_valid(raw@),
        res matches Some(s) ==> s.raw() == raw@,
{
    blst::min_sig::Signature::from_bytes(raw).ok().map(|sig| BlsSignature { sig, raw: raw.to_vec() })
}

/// `blst::min_sig::Signature::verify(true, msg, dst, aug, key, true)`, read
/// as whether it returned `BLST_SUCCESS` (named).
#[verifier::external_body]
pub(crate) fn bls_verify(sig: &BlsSignature, msg: &[u8], dst: &[u8], aug: &[u8], key: &BlsKey) -> (res: bool)
    ensures
        res == bls_signature_valid(key.raw(), msg@, dst@, aug@, sig.raw()),
{
    sig.sig.verify(true, msg, dst, aug, &key.key, true) == blst::BLST_ERROR::BLST_SUCCESS
}

// ---------------------------------------------------------------- SubjectPublicKeyInfo

/// The parts of a DER-encoded SubjectPublicKeyInfo that the signature check
/// reads.
pub struct Spki {
    /// Content octets of the algorithm OID.
    pub algorithm_oid: Vec<u8>,
    /// DER encoding of the algorithm parameters, when present.
    pub parameters: Option<Vec<u8>>,
    /// The bytes of the subject public key bit string.
    pub subject_public_key: Vec<u8>,
}

impl Spki {
    pub open spec fn parts(&self) -> (Seq<u8>, Option<Seq<u8>>, Seq<u8>) {
        (
            self.algorithm_oid@,
            match self.parameters {
                Some(p) => Some(p@),
                None => None,
            },
            self.subject_public_key@,
        )
    }
}

/// What `spki::SubjectPublicKeyInfoRef::from_der` reads from `der`: the
/// algorithm OID's content octets, the re-encoded parameters, the key bytes.
pub uninterp spec fn spki_decoding(der: Seq<u8>) -> Option<(Seq<u8>, Option<Seq<u8>>, Seq<u8>)>;

/// `SubjectPublicKeyInfoRef::from_der` (named).
#[verifier::external_body]
pub(crate) fn spki_from_der(der: &[u8]) -> (res: Option<Spki>)
    ensures
        match res {
            Some(s) => spki_decoding(der@) == Some(s.parts()),
            None => spki_decoding(der@) is None,
        },
{
    pkcs8::spki::SubjectPublicKeyInfoRef::from_der(der).ok().map(|s| Spki {
        algorithm_oid: s.algorithm.oid.as_bytes().to_vec(),
        parameters: s.algorithm.parameters.and_then(|p| p.to_der().ok()),
        subject_public_key: s.subject_public_key.raw_bytes().to_vec(),
    })
}

/// What `sec1::EcParameters::from_der` followed by `named_curve` gives for
/// the encoded parameters: `Err` when they do not decode, else the content
/// octets of the named curve's OID, if any.
pub uninterp spec fn ec_parameters_decoding(der: Seq<u8>) -> Result<Option<Seq<u8>>, ()>;

/// `sec1::EcParameters::from_der` and `named_curve` (named).
#[verifier::external_body]
pub(crate) fn ec_parameters_named_curve(der: &[u8]) -> (res: Result<Option<Vec<u8>>, ()>)
    ensures
        match res {
            Ok(Some(c)) => ec_parameters_decoding(der@) == Ok::<Option<Seq<u8>>, ()>(Some(c@)),
            Ok(None) => ec_parameters_decoding(der@) == Ok::<Option<Seq<u8>>, ()>(None),
            Err(_) => ec_parameters_decoding(der@) is Err,
        },
{
    sec1::EcParameters::from_der(der).map(|p| p.named_curve().map(|o| o.as_bytes().to_vec())).map_err(|_| ())
}

/// The content octets of the OID written in dotted form as `text`, as
/// `der::asn1::ObjectIdentifier::new` computes them (`None` if it rejects
/// the text).
pub uninterp spec fn dotted_oid_encoding(text: Seq<char>) -> Option<Seq<u8>>;

/// `der::asn1::ObjectIdentifier::new` (named).
#[verifier::external_body]
pub(crate) fn oid_from_dotted(text: &str) -> (res: Option<Vec<u8>>)
    ensures
        match res {
            Some(v) => dotted_oid_encoding(text@) == Some(v@),
            None => dotted_oid_encoding(text@) is None,
        },
{
    der::asn1::ObjectIdentifier::new(text).ok().map(|o| o.as_bytes().to_vec())
}

/// Content octets of `id-ecPublicKey` (1.2.840.10045.2.1).
pub open spec fn ec_public_key_oid_spec() -> Seq<u8> {
    seq![0x2au8, 0x86u8, 0x48u8, 0xceu8, 0x3du8, 0x02u8, 0x01u8]
}

/// Content octets of the P-256 curve OID (1.2.840.10045.3.1.7).
pub open spec fn nist_p256_oid_spec() -> Seq<u8> {
    seq![0x2au8, 0x86u8, 0x48u8, 0xceu8, 0x3du8, 0x03u8, 0x01u8, 0x07u8]
}

/// Content octets of the secp256k1 curve OID (1.3.132.0.10).
pub open spec fn secp256k1_oid_spec() -> Seq<u8> {
    seq![0x2bu8, 0x81u8, 0x04u8, 0x00u8, 0x0au8]
}

/// `elliptic_curve::ALGORITHM_OID` (1.2.840.10045.2.1, per the crate's source).
#[verifier::external_body]
pub(crate) fn ec_public_key_oid() -> (res: Vec<u8>)
    ensures
        res@ == ec_public_key_oid_spec(),
{
    elliptic_curve::ALGORITHM_OID.as_bytes().to_vec()
}

/// `<p256::NistP256 as AssociatedOid>::OID` (1.2.840.10045.3.1.7, per the crate's source).
#[verifier::external_body]
pub(crate) fn nist_p256_oid() -> (res: Vec<u8>)
    ensures
        res@ == nist_p256_oid_spec(),
{
    <p256::NistP256 as pkcs8::AssociatedOid>::OID.as_bytes().to_vec()
}

/// `<k256::Secp256k1 as AssociatedOid>::OID` (1.3.132.0.10, per the crate's source).
#[verifier::external_body]
pub(crate) fn secp256k1_oid() -> (res: Vec<u8>)
    ensures
        res@ == secp256k1_oid_spec(),
{
    <k256::Secp256k1 as pkcs8::AssociatedOid>::OID.as_bytes().to_vec()
}

} // verus!
