//! Calls into the Internet Computer crates: principals, the signable form of
//! a delegation, and CBOR decoding of certificates.
use vstd::prelude::*;
use serde_cbor::to_vec;
use serde_cbor::Value;

verus! {

/// The byte length limit of a principal.
pub open spec fn max_principal_len() -> nat {
    29
}

/// The principal that `candid::Principal::self_authenticating` derives from
/// a public key, as raw bytes.
pub uninterp spec fn self_authenticating_id(public_key: Seq<u8>) -> Seq<u8>;

/// The textual form (`to_text`) of the principal with the given raw bytes.
pub uninterp spec fn principal_text_of(bytes: Seq<u8>) -> Seq<char>;

/// What `candid::Principal::from_text` gives: the raw bytes, or the text of
/// the error it reports.
pub uninterp spec fn principal_from_text_result(text: Seq<char>) -> Result<Seq<u8>, Seq<char>>;

/// `candid::Principal::self_authenticating` (named); the source fills all
/// 29 bytes (a SHA-224 digest and a tag byte).
#[verifier::external_body]
pub(crate) fn self_authenticating_principal(public_key: &[u8]) -> (res: Vec<u8>)
    ensures
        res@ == self_authenticating_id(public_key@),
        res@.len() == max_principal_len(),
{
    candid::Principal::self_authenticating(public_key).as_slice().to_vec()
}

/// `candid::Principal::to_text` of the principal with these bytes (named).
/// `Principal::from_slice` panics beyond 29 bytes, hence the precondition.
#[verifier::external_body]
pub(crate) fn principal_text(bytes: &[u8]) -> (res: String)
    requires
        bytes@.len() <= max_principal_len(),
    ensures
        res@ == principal_text_of(bytes@),
{
    candid::Principal::from_slice(bytes).to_text()
}

/// `candid::Principal::from_text` (named): the raw bytes, or the error's
/// text.
#[verifier::external_body]
pub(crate) fn principal_from_text(text: &str) -> (res: Result<Vec<u8>, String>)
    ensures
        match res {
            Ok(b) => principal_from_text_result(text@) == Ok::<Seq<u8>, Seq<char>>(b@),
            Err(e) => principal_from_text_result(text@) == Err::<Seq<u8>, Seq<char>>(e@),
        },
{
    match candid::Principal::from_text(text) {
        Ok(p) => Ok(p.as_slice().to_vec()),
        Err(e) => Err(e.to_string()),
    }
}

/// The byte contents of an optional list of principals.
pub open spec fn targets_view(targets: Option<Vec<Vec<u8>>>) -> Option<Seq<Seq<u8>>> {
    match targets {
        Some(ts) => Some(ts@.map_values(|t: Vec<u8>| t@)),
        None => None,
    }
}

/// Every target principal fits in 29 bytes.
pub open spec fn targets_fit(targets: Option<Vec<Vec<u8>>>) -> bool {
    match targets {
        Some(ts) => forall|i: int| 0 <= i < ts@.len() ==> (#[trigger] ts@[i])@.len() <= max_principal_len(),
        None => true,
    }
}

/// The bytes a delegation's issuer signs (`ic_transport_types::Delegation::
/// signable`: a domain separator and the representation-independent hash of
/// the delegation), for the delegated key, expiry and target canisters.
pub uninterp spec fn delegation_signable_bytes(pubkey: Seq<u8>, expiration: u64, targets: Option<Seq<Seq<u8>>>) -> Seq<u8>;

/// `ic_transport_types::Delegation::signable` for a delegation without
/// permissions (named). `Principal::from_slice` panics on targets longer than
/// 29 bytes, hence the precondition.
#[verifier::external_body]
pub(crate) fn delegation_signable(pubkey: &[u8], expiration: u64, targets: &Option<Vec<Vec<u8>>>) -> (res: Vec<u8>)
    requires
        targets_fit(*targets),
    ensures
        res@ == delegation_signable_bytes(pubkey@, expiration, targets_view(*targets)),
{
    ic_transport_types::Delegation {
        pubkey: pubkey.to_vec(),
        expiration,
        targets: targets.as_ref().map(|ts| ts.iter().map(|t| candid::Principal::from_slice(t)).collect()),
        permissions: None,
    }.signable()
}

/// One level of a CBOR item: the items nested in an array or a map are
/// kept as their own CBOR encodings, text as its UTF-8 bytes.
pub enum CborItem {
    Integer(i128),
    Bytes(Vec<u8>),
    Text(Vec<u8>),
    Array(Vec<Vec<u8>>),
    Entries(Vec<(Vec<u8>, Vec<u8>)>),
    Other,
}

/// The plain contents of a `CborItem`.
pub enum CborView {
    Integer(int),
    Bytes(Seq<u8>),
    Text(Seq<u8>),
    Array(Seq<Seq<u8>>),
    Entries(Seq<(Seq<u8>, Seq<u8>)>),
    Other,
}

/// The plain contents of a CBOR item.
pub open spec fn cbor_item_view(c: CborItem) -> CborView {
    match c {
        CborItem::Integer(i) => CborView::Integer(i as int),
        CborItem::Bytes(b) => CborView::Bytes(b@),
        CborItem::Text(t) => CborView::Text(t@),
        CborItem::Array(a) => CborView::Array(a@.map_values(|x: Vec<u8>| x@)),
        CborItem::Entries(m) => CborView::Entries(m@.map_values(|e: (Vec<u8>, Vec<u8>)| (e.0@, e.1@))),
        CborItem::Other => CborView::Other,
    }
}

/// The top level of the item that CBOR bytes encode, as `serde_cbor`
/// decodes them into a `Value`, the nested items as `serde_cbor` encodes
/// them again (`None` when it rejects the bytes).
pub uninterp spec fn cbor_item_decoding(bytes: Seq<u8>) -> Option<CborView>;

/// `serde_cbor::from_slice::<Value>` and, for nested items,
/// `serde_cbor::to_vec` (named).
#[verifier::external_body]
pub(crate) fn cbor_item(bytes: &[u8]) -> (res: Option<CborItem>)
    ensures
        match res {
            Some(c) => cbor_item_decoding(bytes@) == Some(cbor_item_view(c)),
            None => cbor_item_decoding(bytes@) is None,
        },
{
    match serde_cbor::from_slice::<Value>(bytes) {
        Ok(Value::Integer(i)) => Some(CborItem::Integer(i)),
        Ok(Value::Bytes(b)) => Some(CborItem::Bytes(b)),
        Ok(Value::Text(t)) => Some(CborItem::Text(t.into_bytes())),
        Ok(Value::Array(a)) => Some(CborItem::Array(a.iter().map(|x| to_vec(x).unwrap_or_default()).collect())),
        Ok(Value::Map(m)) => Some(CborItem::Entries(m.iter().map(|(k, x)| (to_vec(k).unwrap_or_default(), to_vec(x).unwrap_or_default())).collect())),
        Ok(_) => Some(CborItem::Other),
        Err(_) => None,
    }
}

/// Unsigned LEB128: seven bits per byte, least significant group first,
/// the high bit set on every byte but the last.
pub open spec fn leb128(n: nat) -> Seq<u8>
    decreases n,
{
    if n < 128 {
        seq![n as u8]
    } else {
        seq![((n % 128) + 128) as u8] + leb128(n / 128)
    }
}

/// The Candid message with one byte-string argument: the magic `DIDL`, a
/// type table with the single entry `vec nat8` (opcodes -19 and -5), one
/// argument of table type 0, then the length in LEB128 and the bytes.
pub open spec fn candid_bytes_argument(data: Seq<u8>) -> Seq<u8> {
    seq![0x44u8, 0x49u8, 0x44u8, 0x4cu8, 0x01u8, 0x6du8, 0x7bu8, 0x01u8, 0x00u8] + leb128(data.len()) + data
}

/// Whether `candid::Decode!` with no types accepts a message.
pub uninterp spec fn candid_message_valid(message: Seq<u8>) -> bool;

/// `candid::Encode!(&data)` for a byte string: `IDLBuilder::arg` records
/// the type `vec nat8` and writes the length and the bytes, and
/// `serialize_to_vec` puts the magic and the type table in front; for this
/// type no step reports an error (candid 0.10, `ser.rs`).
#[verifier::external_body]
pub(crate) fn encode_bytes_argument(data: &[u8]) -> (res: Result<Vec<u8>, String>)
    ensures
        res is Ok,
        match res {
            Ok(v) => v@ == candid_bytes_argument(data@),
            Err(_) => true,
        },
{
    let mut builder = candid::ser::IDLBuilder::new();
    builder.arg(&data).and_then(|b| b.serialize_to_vec()).map_err(|e| e.to_string())
}

/// `candid::Decode!(message)` with no types succeeds (named).
#[verifier::external_body]
pub(crate) fn decodes_as_candid(message: &[u8]) -> (res: bool)
    ensures
        res == candid_message_valid(message@),
{
    candid::de::IDLDeserialize::new_with_config(message, &candid::de::DecoderConfig::new()).and_then(|mut de| de.done()).is_ok()
}

} // verus!
