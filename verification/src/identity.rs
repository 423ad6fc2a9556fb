//! Internet Identity login: reading the proof out of the request, checking
//! the delegation chain from the root key down to the session key, checking
//! the session key's signature over a one-time challenge, and deriving the
//! caller's principal.
use vstd::prelude::*;
use crate::auth_error::{IiAuthError, ParamName};
use crate::bytes::bytes_equal;
use crate::challenge::{live, ChallengeStore};
use crate::encoding::{base64url_decode, base64url_decoding, hex_decode, hex_number, hex_text_decoding, parse_hex_u64};
use crate::ic::{
    delegation_signable, delegation_signable_bytes, max_principal_len, principal_text, principal_text_of,
    self_authenticating_id, self_authenticating_principal, targets_fit, targets_view,
};
use crate::platform::{duration_as_nanos, max_duration_nanos, since_unix_epoch, system_time_now};
use crate::signature::{signature_check, verify_signature};

verus! {

// ------------------------------------------------------------ request parameters

/// The request's parameters: those of the form body and those of the query
/// string, each as the keys that occur exactly once with their values.
pub struct ParamSource {
    pub body: Option<Vec<(String, String)>>,
    pub query: Option<Vec<(String, String)>>,
}

/// The value of the first pair whose key is `key`.
pub open spec fn lookup(pairs: Seq<(String, String)>, key: Seq<char>) -> Option<String>
    decreases pairs.len(),
{
    if pairs.len() == 0 {
        None
    } else if pairs[0].0@ == key {
        Some(pairs[0].1)
    } else {
        lookup(pairs.drop_first(), key)
    }
}

/// The value of `key` in an optional parameter list.
pub open spec fn lookup_in(pairs: Option<Vec<(String, String)>>, key: Seq<char>) -> Option<String> {
    match pairs {
        Some(ps) => lookup(ps@, key),
        None => None,
    }
}

/// A parameter's value: the body's if it has one, else the query's.
pub open spec fn param_value(src: ParamSource, key: Seq<char>) -> Option<String> {
    match lookup_in(src.body, key) {
        Some(v) => Some(v),
        None => lookup_in(src.query, key),
    }
}

fn lookup_exec(pairs: &Vec<(String, String)>, key: &str) -> (res: Option<String>)
    ensures
        res == lookup(pairs@, key@),
{
    let mut i: usize = 0;
    let k = key.to_owned();
    assert(pairs@.skip(0) =~= pairs@);
    while i < pairs.len()
        invariant
            i <= pairs@.len(),
            k@ == key@,
            lookup(pairs@, key@) == lookup(pairs@.skip(i as int), key@),
        decreases pairs@.len() - i,
    {
        assert(pairs@.skip(i as int)[0] == pairs@[i as int]);
        assert(pairs@.skip(i as int).drop_first() =~= pairs@.skip(i + 1));
        if pairs[i].0 == k {
            return Some(pairs[i].1.clone());
        }
        i = i + 1;
    }
    None
}

/// The value of parameter `key`: the form body's, or else the query's.
pub fn get_param(src: &ParamSource, key: &str) -> (res: Option<String>)
    ensures
        res == param_value(*src, key@),
{
    let from_body = match &src.body {
        Some(b) => lookup_exec(b, key),
        None => None,
    };
    match from_body {
        Some(v) => Some(v),
        None => match &src.query {
            Some(q) => lookup_exec(q, key),
            None => None,
        },
    }
}

// ------------------------------------------------------------ delegation chain

/// A delegation as the client sends it: hexadecimal key, expiry (a
/// hexadecimal nanosecond timestamp) and optional target canisters (hex).
#[derive(Clone, Debug)]
pub struct DelegationInput {
    pub pubkey: String,
    pub expiration: String,
    pub targets: Option<Vec<String>>,
}

/// A signed delegation as the client sends it (signature in hex).
#[derive(Clone, Debug)]
pub struct SignedDelegationInput {
    pub delegation: DelegationInput,
    pub signature: String,
}

/// A delegation chain as the client sends it: the session's public key and
/// the delegations, outermost first.
#[derive(Clone, Debug)]
pub struct DelegationChainInput {
    pub public_key: String,
    pub delegations: Vec<SignedDelegationInput>,
}

/// A decoded delegation.
#[derive(Clone, Debug)]
pub struct Delegation {
    pub pubkey: Vec<u8>,
    pub expiration: u64,
    pub targets: Option<Vec<Vec<u8>>>,
}

/// A decoded signed delegation.
#[derive(Clone, Debug)]
pub struct SignedDelegation {
    pub delegation: Delegation,
    pub signature: Vec<u8>,
}

/// The plain contents of a decoded signed delegation: key, expiry, targets,
/// signature.
pub open spec fn signed_view(d: SignedDelegation) -> (Seq<u8>, u64, Option<Seq<Seq<u8>>>, Seq<u8>) {
    (d.delegation.pubkey@, d.delegation.expiration, targets_view(d.delegation.targets), d.signature@)
}

/// The plain contents of a list of decoded signed delegations.
pub open spec fn signed_views(ds: Seq<SignedDelegation>) -> Seq<(Seq<u8>, u64, Option<Seq<Seq<u8>>>, Seq<u8>)> {
    ds.map_values(|d: SignedDelegation| signed_view(d))
}

/// Decoding a list of hexadecimal principals, in order: the first bad hex
/// text is an error; `None` where a principal longer than 29 bytes comes
/// first (`Principal::from_slice` panics on it).
pub open spec fn targets_decoding(ts: Seq<String>) -> Option<Result<Seq<Seq<u8>>, IiAuthError>>
    decreases ts.len(),
{
    if ts.len() == 0 {
        Some(Ok(Seq::empty()))
    } else {
        match targets_decoding(ts.drop_last()) {
            Some(Ok(acc)) => match hex_text_decoding(ts.last()@) {
                None => Some(Err(IiAuthError::InvalidHex(ParamName::DelegationTargets))),
                Some(b) => if b.len() > max_principal_len() { None } else { Some(Ok(acc.push(b))) },
            },
            other => other,
        }
    }
}

/// Decoding one signed delegation: signature, key, expiry, then targets.
pub open spec fn signed_decoding(d: SignedDelegationInput) -> Option<Result<(Seq<u8>, u64, Option<Seq<Seq<u8>>>, Seq<u8>), IiAuthError>> {
    match hex_text_decoding(d.signature@) {
        None => Some(Err(IiAuthError::InvalidHex(ParamName::DelegationsSignature))),
        Some(sig) => match hex_text_decoding(d.delegation.pubkey@) {
            None => Some(Err(IiAuthError::InvalidHex(ParamName::DelegationPubkey))),
            Some(pk) => match hex_number(d.delegation.expiration@) {
                None => Some(Err(IiAuthError::InvalidEncoding(ParamName::DelegationExpiration))),
                Some(exp) => match d.delegation.targets {
                    None => Some(Ok((pk, exp, None, sig))),
                    Some(ts) => match targets_decoding(ts@) {
                        None => None,
                        Some(Err(e)) => Some(Err(e)),
                        Some(Ok(t)) => Some(Ok((pk, exp, Some(t), sig))),
                    },
                },
            },
        },
    }
}

/// Decoding a list of signed delegations in order; the first error wins.
pub open spec fn delegations_decoding(ds: Seq<SignedDelegationInput>) -> Option<Result<Seq<(Seq<u8>, u64, Option<Seq<Seq<u8>>>, Seq<u8>)>, IiAuthError>>
    decreases ds.len(),
{
    if ds.len() == 0 {
        Some(Ok(Seq::empty()))
    } else {
        match delegations_decoding(ds.drop_last()) {
            Some(Ok(acc)) => match signed_decoding(ds.last()) {
                None => None,
                Some(Err(e)) => Some(Err(e)),
                Some(Ok(v)) => Some(Ok(acc.push(v))),
            },
            other => other,
        }
    }
}

/// Decoding a whole chain: the session key first, then the delegations.
/// `None` exactly where the decoding panics.
pub open spec fn chain_decoding(input: DelegationChainInput) -> Option<Result<(Seq<(Seq<u8>, u64, Option<Seq<Seq<u8>>>, Seq<u8>)>, Seq<u8>), IiAuthError>> {
    match hex_text_decoding(input.public_key@) {
        None => Some(Err(IiAuthError::InvalidHex(ParamName::DelegationsPublicKey))),
        Some(pk) => match delegations_decoding(input.delegations@) {
            None => None,
            Some(Err(e)) => Some(Err(e)),
            Some(Ok(ds)) => Some(Ok((ds, pk))),
        },
    }
}

/// Decoded targets fit in principals.
pub open spec fn delegations_fit(ds: Seq<SignedDelegation>) -> bool {
    forall|i: int| 0 <= i < ds.len() ==> targets_fit(#[trigger] ds[i].delegation.targets)
}

fn decode_targets(values: &Vec<String>) -> (res: Option<Result<Vec<Vec<u8>>, IiAuthError>>)
    ensures
        match res {
            None => targets_decoding(values@) is None,
            Some(Ok(ts)) => targets_decoding(values@) == Some(Ok::<Seq<Seq<u8>>, IiAuthError>(ts@.map_values(|t: Vec<u8>| t@)))
                && targets_fit(Some(ts)),
            Some(Err(e)) => targets_decoding(values@) == Some(Err::<Seq<Seq<u8>>, IiAuthError>(e)),
        },
{
    let mut principals: Vec<Vec<u8>> = Vec::new();
    let mut i: usize = 0;
    assert(values@.take(0) =~= Seq::<String>::empty());
    assert(principals@.map_values(|t: Vec<u8>| t@) =~= Seq::<Seq<u8>>::empty());
    while i < values.len()
        invariant
            i <= values@.len(),
            targets_decoding(values@.take(i as int)) == Some(Ok::<Seq<Seq<u8>>, IiAuthError>(principals@.map_values(|t: Vec<u8>| t@))),
            forall|j: int| 0 <= j < principals@.len() ==> (#[trigger] principals@[j])@.len() <= max_principal_len(),
        decreases values@.len() - i,
    {
        proof {
            assert(values@.take(i + 1).drop_last() =~= values@.take(i as int));
            lemma_targets_prefix(values@, i as int);
        }
        let bytes = match hex_decode(values[i].as_str()) {
            Some(b) => b,
            None => {
                proof { lemma_targets_error_propagates(values@, i + 1); }
                return Some(Err(IiAuthError::InvalidHex(ParamName::DelegationTargets)));
            },
        };
        if bytes.len() > 29 {
            proof { lemma_targets_none_propagates(values@, i + 1); }
            return None;
        }
        let ghost before = principals@;
        principals.push(bytes);
        proof {
            assert(principals@.map_values(|t: Vec<u8>| t@) =~= before.map_values(|t: Vec<u8>| t@).push(bytes@));
        }
        i = i + 1;
    }
    assert(values@.take(values@.len() as int) =~= values@);
    Some(Ok(principals))
}

proof fn lemma_targets_prefix(ts: Seq<String>, i: int)
    requires
        0 <= i < ts.len(),
    ensures
        ts.take(i + 1).drop_last() == ts.take(i),
        ts.take(i + 1).last() == ts[i],
{
    assert(ts.take(i + 1).drop_last() =~= ts.take(i));
}

proof fn lemma_targets_error_propagates(ts: Seq<String>, i: int)
    requires
        0 < i <= ts.len(),
        targets_decoding(ts.take(i)) matches Some(Err(_)),
    ensures
        targets_decoding(ts) == targets_decoding(ts.take(i)),
    decreases ts.len() - i,
{
    if i < ts.len() {
        assert(ts.take(i + 1).drop_last() =~= ts.take(i));
        lemma_targets_error_propagates(ts, i + 1);
    } else {
        assert(ts.take(i) =~= ts);
    }
}

proof fn lemma_targets_none_propagates(ts: Seq<String>, i: int)
    requires
        0 < i <= ts.len(),
        targets_decoding(ts.take(i)) is None,
    ensures
        targets_decoding(ts) is None,
    decreases ts.len() - i,
{
    if i < ts.len() {
        assert(ts.take(i + 1).drop_last() =~= ts.take(i));
        lemma_targets_none_propagates(ts, i + 1);
    } else {
        assert(ts.take(i) =~= ts);
    }
}

proof fn lemma_delegations_error_propagates(ds: Seq<SignedDelegationInput>, i: int)
    requires
        0 < i <= ds.len(),
        delegations_decoding(ds.take(i)) matches Some(Err(_)),
    ensures
        delegations_decoding(ds) == delegations_decoding(ds.take(i)),
    decreases ds.len() - i,
{
    if i < ds.len() {
        assert(ds.take(i + 1).drop_last() =~= ds.take(i));
        lemma_delegations_error_propagates(ds, i + 1);
    } else {
        assert(ds.take(i) =~= ds);
    }
}

proof fn lemma_delegations_none_propagates(ds: Seq<SignedDelegationInput>, i: int)
    requires
        0 < i <= ds.len(),
        delegations_decoding(ds.take(i)) is None,
    ensures
        delegations_decoding(ds) is None,
    decreases ds.len() - i,
{
    if i < ds.len() {
        assert(ds.take(i + 1).drop_last() =~= ds.take(i));
        lemma_delegations_none_propagates(ds, i + 1);
    } else {
        assert(ds.take(i) =~= ds);
    }
}

/// Decodes one signed delegation.
fn decode_signed(signed: &SignedDelegationInput) -> (res: Option<Result<SignedDelegation, IiAuthError>>)
    ensures
        match res {
            None => signed_decoding(*signed) is None,
            Some(Ok(d)) => signed_decoding(*signed) == Some(Ok::<(Seq<u8>, u64, Option<Seq<Seq<u8>>>, Seq<u8>), IiAuthError>(signed_view(d)))
                && targets_fit(d.delegation.targets),
            Some(Err(e)) => signed_decoding(*signed) == Some(Err::<(Seq<u8>, u64, Option<Seq<Seq<u8>>>, Seq<u8>), IiAuthError>(e)),
        },
{
    let signature = match hex_decode(signed.signature.as_str()) {
        Some(s) => s,
        None => return Some(Err(IiAuthError::InvalidHex(ParamName::DelegationsSignature))),
    };
    let delegation_pubkey = match hex_decode(signed.delegation.pubkey.as_str()) {
        Some(p) => p,
        None => return Some(Err(IiAuthError::InvalidHex(ParamName::DelegationPubkey))),
    };
    let expiration = match parse_hex_u64(signed.delegation.expiration.as_str()) {
        Some(e) => e,
        None => return Some(Err(IiAuthError::InvalidEncoding(ParamName::DelegationExpiration))),
    };
    let targets = match &signed.delegation.targets {
        Some(values) => match decode_targets(values) {
            Some(Ok(ts)) => Some(ts),
            Some(Err(e)) => return Some(Err(e)),
            None => return None,
        },
        None => None,
    };
    Some(Ok(SignedDelegation {
        delegation: Delegation { pubkey: delegation_pubkey, expiration, targets },
        signature,
    }))
}

/// Decodes a delegation chain; `None` where a target is longer than a
/// principal (where decoding it would panic).
pub fn decode_delegation_chain(parsed: &DelegationChainInput) -> (res: Option<Result<(Vec<SignedDelegation>, Vec<u8>), IiAuthError>>)
    ensures
        match res {
            None => chain_decoding(*parsed) is None,
            Some(Ok((ds, pk))) => chain_decoding(*parsed) == Some(Ok::<(Seq<(Seq<u8>, u64, Option<Seq<Seq<u8>>>, Seq<u8>)>, Seq<u8>), IiAuthError>((signed_views(ds@), pk@)))
                && delegations_fit(ds@),
            Some(Err(e)) => chain_decoding(*parsed) == Some(Err::<(Seq<(Seq<u8>, u64, Option<Seq<Seq<u8>>>, Seq<u8>)>, Seq<u8>), IiAuthError>(e)),
        },
{
    let public_key = match hex_decode(parsed.public_key.as_str()) {
        Some(p) => p,
        None => return Some(Err(IiAuthError::InvalidHex(ParamName::DelegationsPublicKey))),
    };
    let ghost inputs = parsed.delegations@;
    let mut delegations: Vec<SignedDelegation> = Vec::new();
    let mut i: usize = 0;
    assert(inputs.take(0) =~= Seq::<SignedDelegationInput>::empty());
    assert(signed_views(delegations@) =~= Seq::empty());
    while i < parsed.delegations.len()
        invariant
            inputs == parsed.delegations@,
            hex_text_decoding(parsed.public_key@) == Some(public_key@),
            i <= inputs.len(),
            delegations_decoding(inputs.take(i as int)) == Some(Ok::<Seq<(Seq<u8>, u64, Option<Seq<Seq<u8>>>, Seq<u8>)>, IiAuthError>(signed_views(delegations@))),
            delegations_fit(delegations@),
        decreases inputs.len() - i,
    {
        proof {
            assert(inputs.take(i + 1).drop_last() =~= inputs.take(i as int));
            assert(inputs.take(i + 1).last() == inputs[i as int]);
        }
        let d = match decode_signed(&parsed.delegations[i]) {
            Some(Ok(d)) => d,
            None => {
                proof { lemma_delegations_none_propagates(inputs, i + 1); }
                return None;
            },
            Some(Err(e)) => {
                proof {
                    assert(signed_decoding(inputs[i as int]) == Some(Err::<(Seq<u8>, u64, Option<Seq<Seq<u8>>>, Seq<u8>), IiAuthError>(e)));
                    assert(delegations_decoding(inputs.take(i + 1)) == Some(Err::<Seq<(Seq<u8>, u64, Option<Seq<Seq<u8>>>, Seq<u8>)>, IiAuthError>(e)));
                    lemma_delegations_error_propagates(inputs, i + 1);
                }
                return Some(Err(e));
            },
        };
        let ghost before = delegations@;
        delegations.push(d);
        proof {
            assert(signed_views(delegations@) =~= signed_views(before).push(signed_view(d)));
            assert(delegations@[before.len() as int] == d);
            assert forall|j: int| 0 <= j < delegations@.len() implies targets_fit(#[trigger] delegations@[j].delegation.targets) by {
                if j < before.len() {
                    assert(delegations@[j] == before[j]);
                    assert(targets_fit(before[j].delegation.targets));
                }
            }
        }
        i = i + 1;
    }
    assert(inputs.take(inputs.len() as int) =~= inputs);
    Some(Ok((delegations, public_key)))
}

/// Decodes a delegation chain: the session public key and each signed
/// delegation, in order. The first undecodable field is reported.
pub fn parse_delegation_chain(parsed: &DelegationChainInput) -> (res: Result<(Vec<SignedDelegation>, Vec<u8>), IiAuthError>)
    requires
        chain_decoding(*parsed) is Some,
    ensures
        match res {
            Ok((ds, pk)) => chain_decoding(*parsed) == Some(Ok::<(Seq<(Seq<u8>, u64, Option<Seq<Seq<u8>>>, Seq<u8>)>, Seq<u8>), IiAuthError>((signed_views(ds@), pk@)))
                && delegations_fit(ds@),
            Err(e) => chain_decoding(*parsed) == Some(Err::<(Seq<(Seq<u8>, u64, Option<Seq<Seq<u8>>>, Seq<u8>)>, Seq<u8>), IiAuthError>(e)),
        },
{
    match decode_delegation_chain(parsed) {
        Some(r) => r,
        None => Err(IiAuthError::InvalidDelegation),
    }
}

// ------------------------------------------------------------ the proof

/// The request fields of an Internet Identity proof. `delegations` is `None`
/// when the field is absent, `Some(None)` when it is not a valid delegation
/// chain document.
pub struct IdentityParams {
    pub challenge: Option<String>,
    pub signature: Option<String>,
    pub public_key: Option<String>,
    pub delegations: Option<Option<DelegationChainInput>>,
}

/// Reads the proof fields from the request's parameters; `parsed_delegations`
/// is the delegation chain document that the `ii_delegations` value holds,
/// if it holds one.
pub fn identity_params(src: &ParamSource, parsed_delegations: Option<DelegationChainInput>) -> (res: IdentityParams)
    ensures
        res.challenge == param_value(*src, "ii_challenge"@),
        res.signature == param_value(*src, "ii_signature"@),
        res.public_key == param_value(*src, "ii_public_key"@),
        res.delegations == match param_value(*src, "ii_delegations"@) {
            Some(_) => Some(parsed_delegations),
            None => None,
        },
{
    let challenge = get_param(src, "ii_challenge");
    let signature = get_param(src, "ii_signature");
    let public_key = get_param(src, "ii_public_key");
    let delegations = match get_param(src, "ii_delegations") {
        Some(_) => Some(parsed_delegations),
        None => None,
    };
    IdentityParams { challenge, signature, public_key, delegations }
}

/// A decoded Internet Identity proof.
pub struct InternetIdentityProof {
    pub challenge: Vec<u8>,
    pub signature: Vec<u8>,
    pub public_key: Vec<u8>,
    pub delegations: Vec<SignedDelegation>,
}

/// The plain contents of a decoded proof: challenge, signature, session key
/// and delegations.
pub open spec fn proof_view(p: InternetIdentityProof) -> (Seq<u8>, Seq<u8>, Seq<u8>, Seq<(Seq<u8>, u64, Option<Seq<Seq<u8>>>, Seq<u8>)>) {
    (p.challenge@, p.signature@, p.public_key@, signed_views(p.delegations@))
}

/// Decoding a proof: all four fields must be present; the challenge is
/// unpadded URL-safe Base64, signature and key are hexadecimal, and the
/// delegation chain must name the same session key. `None` exactly where the
/// decoding panics.
pub open spec fn proof_decoding(p: IdentityParams) -> Option<Result<(Seq<u8>, Seq<u8>, Seq<u8>, Seq<(Seq<u8>, u64, Option<Seq<Seq<u8>>>, Seq<u8>)>), IiAuthError>> {
    if p.challenge is None {
        Some(Err(IiAuthError::MissingParam(ParamName::Challenge)))
    } else if p.signature is None {
        Some(Err(IiAuthError::MissingParam(ParamName::Signature)))
    } else if p.public_key is None {
        Some(Err(IiAuthError::MissingParam(ParamName::PublicKey)))
    } else if p.delegations is None {
        Some(Err(IiAuthError::MissingParam(ParamName::Delegations)))
    } else {
        match base64url_decoding(p.challenge.unwrap()@) {
            None => Some(Err(IiAuthError::InvalidEncoding(ParamName::Challenge))),
            Some(challenge) => match hex_text_decoding(p.signature.unwrap()@) {
                None => Some(Err(IiAuthError::InvalidHex(ParamName::Signature))),
                Some(signature) => match hex_text_decoding(p.public_key.unwrap()@) {
                    None => Some(Err(IiAuthError::InvalidHex(ParamName::PublicKey))),
                    Some(public_key) => match p.delegations.unwrap() {
                        None => Some(Err(IiAuthError::InvalidDelegation)),
                        Some(chain) => match chain_decoding(chain) {
                            None => None,
                            Some(Err(e)) => Some(Err(e)),
                            Some(Ok((ds, declared))) => if declared != public_key {
                                Some(Err(IiAuthError::PublicKeyMismatch))
                            } else {
                                Some(Ok((challenge, signature, public_key, ds)))
                            },
                        },
                    },
                },
            },
        }
    }
}

/// Decodes an Internet Identity proof from its request fields; `None` where
/// a delegation target is longer than a principal (where decoding it would
/// panic).
pub fn decode_internet_identity_proof(params: &IdentityParams) -> (res: Option<Result<InternetIdentityProof, IiAuthError>>)
    ensures
        match res {
            None => proof_decoding(*params) is None,
            Some(Ok(p)) => proof_decoding(*params) == Some(Ok::<(Seq<u8>, Seq<u8>, Seq<u8>, Seq<(Seq<u8>, u64, Option<Seq<Seq<u8>>>, Seq<u8>)>), IiAuthError>(proof_view(p)))
                && delegations_fit(p.delegations@),
            Some(Err(e)) => proof_decoding(*params) == Some(Err::<(Seq<u8>, Seq<u8>, Seq<u8>, Seq<(Seq<u8>, u64, Option<Seq<Seq<u8>>>, Seq<u8>)>), IiAuthError>(e)),
        },
{
    let challenge_b64 = match &params.challenge {
        Some(c) => c,
        None => return Some(Err(IiAuthError::MissingParam(ParamName::Challenge))),
    };
    let signature_hex = match &params.signature {
        Some(s) => s,
        None => return Some(Err(IiAuthError::MissingParam(ParamName::Signature))),
    };
    let public_key_hex = match &params.public_key {
        Some(p) => p,
        None => return Some(Err(IiAuthError::MissingParam(ParamName::PublicKey))),
    };
    let delegations_json = match &params.delegations {
        Some(d) => d,
        None => return Some(Err(IiAuthError::MissingParam(ParamName::Delegations))),
    };
    let challenge = match base64url_decode(challenge_b64.as_str()) {
        Some(c) => c,
        None => return Some(Err(IiAuthError::InvalidEncoding(ParamName::Challenge))),
    };
    let signature = match hex_decode(signature_hex.as_str()) {
        Some(s) => s,
        None => return Some(Err(IiAuthError::InvalidHex(ParamName::Signature))),
    };
    let public_key = match hex_decode(public_key_hex.as_str()) {
        Some(p) => p,
        None => return Some(Err(IiAuthError::InvalidHex(ParamName::PublicKey))),
    };
    let chain = match delegations_json {
        Some(c) => c,
        None => return Some(Err(IiAuthError::InvalidDelegation)),
    };
    let (delegations, declared_public_key) = match decode_delegation_chain(chain) {
        Some(Ok(r)) => r,
        Some(Err(e)) => return Some(Err(e)),
        None => return None,
    };
    if !bytes_equal(declared_public_key.as_slice(), public_key.as_slice()) {
        return Some(Err(IiAuthError::PublicKeyMismatch));
    }
    Some(Ok(InternetIdentityProof { challenge, signature, public_key, delegations }))
}

/// Whether the proof fields can be decoded without a delegation target
/// longer than a principal (the condition of the login functions).
pub fn proof_decodes(params: &IdentityParams) -> (res: bool)
    ensures
        res == (proof_decoding(*params) is Some),
{
    decode_internet_identity_proof(params).is_some()
}

/// Decodes an Internet Identity proof from its request fields.
pub fn parse_internet_identity_proof(params: &IdentityParams) -> (res: Result<InternetIdentityProof, IiAuthError>)
    requires
        proof_decoding(*params) is Some,
    ensures
        match res {
            Ok(p) => proof_decoding(*params) == Some(Ok::<(Seq<u8>, Seq<u8>, Seq<u8>, Seq<(Seq<u8>, u64, Option<Seq<Seq<u8>>>, Seq<u8>)>), IiAuthError>(proof_view(p)))
                && delegations_fit(p.delegations@),
            Err(e) => proof_decoding(*params) == Some(Err::<(Seq<u8>, Seq<u8>, Seq<u8>, Seq<(Seq<u8>, u64, Option<Seq<Seq<u8>>>, Seq<u8>)>), IiAuthError>(e)),
        },
{
    match decode_internet_identity_proof(params) {
        Some(r) => r,
        None => Err(IiAuthError::InvalidDelegation),
    }
}

// ------------------------------------------------------------ expiry

/// A delegation expiring at `expiration` (nanoseconds since the Unix epoch)
/// has expired at wall-clock reading `now` (nanoseconds since the epoch;
/// `None` before the epoch).
pub open spec fn delegation_expired(expiration: u64, now: Option<u128>) -> bool {
    match now {
        Some(t) => t >= expiration,
        None => false,
    }
}

/// Refuses a delegation that has expired at the given wall-clock reading.
pub fn ensure_not_expired_at(expiration_ns: u64, now: Option<u128>) -> (res: Result<(), IiAuthError>)
    ensures
        res == if delegation_expired(expiration_ns, now) {
            Err::<(), IiAuthError>(IiAuthError::DelegationExpired)
        } else {
            Ok(())
        },
{
    match now {
        Some(t) => {
            if t >= expiration_ns as u128 {
                Err(IiAuthError::DelegationExpired)
            } else {
                Ok(())
            }
        },
        None => Ok(()),
    }
}

/// The wall clock in nanoseconds since the Unix epoch (`None` before it).
/// The reading depends on the clock; what holds of every reading is that it
/// fits in a `Duration`.
pub fn unix_time_nanos() -> (res: Option<u128>)
    ensures
        match res {
            Some(n) => n <= max_duration_nanos(),
            None => true,
        },
{
    let now = system_time_now();
    match since_unix_epoch(&now) {
        Some(d) => Some(duration_as_nanos(&d)),
        None => None,
    }
}

/// Refuses a delegation that has expired now.
pub fn ensure_not_expired(expiration_ns: u64) -> (res: Result<(), IiAuthError>)
    ensures
        exists|now: Option<u128>| res == if delegation_expired(expiration_ns, now) {
            Err::<(), IiAuthError>(IiAuthError::DelegationExpired)
        } else {
            Ok(())
        },
{
    let now = unix_time_nanos();
    ensure_not_expired_at(expiration_ns, now)
}

// ------------------------------------------------------------ the chain

/// Checking a delegation chain at wall-clock reading `now`, from the root key
/// down: each delegation must not have expired and must be signed by the
/// key before it (the root key for the first) over its signable form. The
/// outcome is the last delegated key (the root key when there are no
/// delegations).
pub open spec fn chain_outcome(root: Seq<u8>, ds: Seq<(Seq<u8>, u64, Option<Seq<Seq<u8>>>, Seq<u8>)>, now: Option<u128>) -> Result<Seq<u8>, IiAuthError>
    decreases ds.len(),
{
    if ds.len() == 0 {
        Ok(root)
    } else {
        match chain_outcome(root, ds.drop_last(), now) {
            Ok(issuer) => {
                let d = ds.last();
                if delegation_expired(d.1, now) {
                    Err(IiAuthError::DelegationExpired)
                } else {
                    match signature_check(issuer, d.3, delegation_signable_bytes(d.0, d.1, d.2)) {
                        Ok(()) => Ok(d.0),
                        Err(e) => Err(e),
                    }
                }
            },
            Err(e) => Err(e),
        }
    }
}

proof fn lemma_chain_error_propagates(root: Seq<u8>, ds: Seq<(Seq<u8>, u64, Option<Seq<Seq<u8>>>, Seq<u8>)>, now: Option<u128>, i: int)
    requires
        0 <= i <= ds.len(),
        chain_outcome(root, ds.take(i), now) is Err,
    ensures
        chain_outcome(root, ds, now) == chain_outcome(root, ds.take(i), now),
    decreases ds.len() - i,
{
    if i < ds.len() {
        assert(ds.take(i + 1).drop_last() =~= ds.take(i));
        lemma_chain_error_propagates(root, ds, now, i + 1);
    } else {
        assert(ds.take(i) =~= ds);
    }
}

/// Checks a delegation chain at the given wall-clock reading and returns
/// the key the chain delegates to.
pub fn verify_delegation_chain_at(root_public_key: &[u8], delegations: &Vec<SignedDelegation>, now: Option<u128>) -> (res: Result<Vec<u8>, IiAuthError>)
    requires
        delegations_fit(delegations@),
    ensures
        match chain_outcome(root_public_key@, signed_views(delegations@), now) {
            Ok(k) => res matches Ok(v) && v@ == k,
            Err(e) => res == Err::<Vec<u8>, IiAuthError>(e),
        },
{
    let ghost views = signed_views(delegations@);
    let mut issuer_key: Vec<u8> = crate::bytes::copy_all(root_public_key);
    let mut i: usize = 0;
    assert(views.take(0) =~= Seq::empty());
    while i < delegations.len()
        invariant
            views == signed_views(delegations@),
            delegations_fit(delegations@),
            i <= delegations@.len(),
            chain_outcome(root_public_key@, views.take(i as int), now) == Ok::<Seq<u8>, IiAuthError>(issuer_key@),
        decreases delegations@.len() - i,
    {
        let signed = &delegations[i];
        proof {
            assert(views.take(i + 1).drop_last() =~= views.take(i as int));
            assert(views.take(i + 1).last() == signed_view(*signed));
            assert(targets_fit(signed.delegation.targets));
        }
        match ensure_not_expired_at(signed.delegation.expiration, now) {
            Ok(()) => {},
            Err(e) => {
                proof { lemma_chain_error_propagates(root_public_key@, views, now, i + 1); }
                return Err(e);
            },
        }
        let message = delegation_signable(
            signed.delegation.pubkey.as_slice(),
            signed.delegation.expiration,
            &signed.delegation.targets,
        );
        match verify_signature(issuer_key.as_slice(), signed.signature.as_slice(), message.as_slice()) {
            Ok(()) => {},
            Err(e) => {
                proof { lemma_chain_error_propagates(root_public_key@, views, now, i + 1); }
                return Err(e);
            },
        }
        issuer_key = crate::bytes::copy_all(signed.delegation.pubkey.as_slice());
        i = i + 1;
    }
    proof {
        assert(views.take(delegations@.len() as int) =~= views);
    }
    Ok(issuer_key)
}

/// Checks a delegation chain now and returns the key it delegates to.
pub fn verify_delegation_chain(root_public_key: &[u8], delegations: &Vec<SignedDelegation>) -> (res: Result<Vec<u8>, IiAuthError>)
    requires
        delegations_fit(delegations@),
    ensures
        exists|now: Option<u128>| match #[trigger] chain_outcome(root_public_key@, signed_views(delegations@), now) {
            Ok(k) => res matches Ok(v) && v@ == k,
            Err(e) => res == Err::<Vec<u8>, IiAuthError>(e),
        },
{
    let now = unix_time_nanos();
    verify_delegation_chain_at(root_public_key, delegations, now)
}

// ------------------------------------------------------------ login

/// The principal of a session key: the self-authenticating principal
/// derived from it, in textual form.
pub open spec fn session_principal(public_key: Seq<u8>) -> Seq<char> {
    principal_text_of(self_authenticating_id(public_key))
}

/// The principal a proof names (meaningful when the proof decodes).
pub open spec fn proof_principal(params: IdentityParams) -> Seq<char> {
    match proof_decoding(params) {
        Some(Ok(p)) => session_principal(p.2),
        _ => Seq::empty(),
    }
}

/// The verdict on a login attempt: the proof must decode; its challenge
/// must be outstanding and unexpired at store-clock reading `store_now`;
/// the delegation chain from `root` must hold at wall-clock reading
/// `wall_now`; and the delegated key must have signed the challenge.
/// (A proof that cannot be decoded at all is not judged.)
pub open spec fn identity_verdict(
    params: IdentityParams,
    store: Map<Seq<u8>, u128>,
    store_now: u128,
    root: Seq<u8>,
    wall_now: Option<u128>,
) -> Result<(), IiAuthError> {
    match proof_decoding(params) {
        Some(Ok((challenge, signature, _public_key, ds))) => {
            if !live(store, store_now).contains_key(challenge) {
                Err(IiAuthError::UnknownChallenge)
            } else {
                match chain_outcome(root, ds, wall_now) {
                    Err(e) => Err(e),
                    Ok(k) => signature_check(k, signature, challenge),
                }
            }
        },
        Some(Err(e)) => Err(e),
        None => Err(IiAuthError::InvalidDelegation),
    }
}

/// The challenge store after a login attempt: when the proof decodes, its
/// challenge has been used up (and expired challenges dropped), whatever the
/// verdict; otherwise the store is untouched.
pub open spec fn identity_store_after(params: IdentityParams, store: Map<Seq<u8>, u128>, store_now: u128) -> Map<Seq<u8>, u128> {
    match proof_decoding(params) {
        Some(Ok(p)) => live(store, store_now).remove(p.0),
        _ => store,
    }
}

/// The result of a login attempt as its verdict determines it.
pub open spec fn login_result_matches(res: Result<String, IiAuthError>, verdict: Result<(), IiAuthError>, principal: Seq<char>) -> bool {
    match verdict {
        Ok(()) => res matches Ok(p) && p@ == principal,
        Err(e) => res == Err::<String, IiAuthError>(e),
    }
}

/// Verifies an Internet Identity login at the given clock readings: decodes
/// the proof, uses up its challenge, checks the delegation chain from the
/// root key and the session signature over the challenge, and returns the
/// caller's principal.
pub fn verify_internet_identity_at(
    params: &IdentityParams,
    store: &mut ChallengeStore,
    root_key: &[u8],
    store_now: u128,
    wall_now: Option<u128>,
) -> (res: Result<String, IiAuthError>)
    requires
        proof_decoding(*params) is Some,
    ensures
        final(store)@ == identity_store_after(*params, old(store)@, store_now),
        final(store).last_reading() == old(store).last_reading(),
        login_result_matches(
            res,
            identity_verdict(*params, old(store)@, store_now, root_key@, wall_now),
            proof_principal(*params),
        ),
{
    let proof = match parse_internet_identity_proof(params) {
        Ok(p) => p,
        Err(e) => return Err(e),
    };
    if !store.consume_at(proof.challenge.as_slice(), store_now) {
        return Err(IiAuthError::UnknownChallenge);
    }
    let signing_key = match verify_delegation_chain_at(root_key, &proof.delegations, wall_now) {
        Ok(k) => k,
        Err(e) => return Err(e),
    };
    let signed_message = crate::bytes::copy_range(proof.challenge.as_slice(), 0, proof.challenge.len());
    assert(proof.challenge@.subrange(0, proof.challenge@.len() as int) =~= proof.challenge@);
    match verify_signature(signing_key.as_slice(), proof.signature.as_slice(), signed_message.as_slice()) {
        Ok(()) => {},
        Err(e) => return Err(e),
    }
    let principal = self_authenticating_principal(proof.public_key.as_slice());
    Ok(principal_text(principal.as_slice()))
}

/// Verifies an Internet Identity login on the current clocks (see
/// `verify_internet_identity_at`): the store's clock reading used becomes
/// its last reading; the wall clock is read once.
pub fn verify_internet_identity(params: &IdentityParams, store: &mut ChallengeStore, root_key: &[u8]) -> (res: Result<String, IiAuthError>)
    requires
        proof_decoding(*params) is Some,
    ensures
        old(store).last_reading() <= final(store).last_reading() <= max_duration_nanos(),
        final(store)@ == identity_store_after(*params, old(store)@, final(store).last_reading()),
        exists|wall_now: Option<u128>|
            login_result_matches(
                res,
                #[trigger] identity_verdict(*params, old(store)@, final(store).last_reading(), root_key@, wall_now),
                proof_principal(*params),
            ),
{
    let store_now = store.next_reading();
    let wall_now = unix_time_nanos();
    let res = verify_internet_identity_at(params, store, root_key, store_now, wall_now);
    store.advance_to(store_now);
    res
}

/// Verifies an Internet Identity login on the current clocks, checking
/// first that the proof can be decoded at all: `None` when a delegation
/// target is longer than a principal (the one input the decoding cannot
/// take), otherwise the outcome of `verify_internet_identity`.
pub fn verify_login(params: &IdentityParams, store: &mut ChallengeStore, root_key: &[u8]) -> (res: Option<Result<String, IiAuthError>>)
    ensures
        res is None <==> proof_decoding(*params) is None,
        res is None ==> *final(store) == *old(store),
        res matches Some(r) ==> {
            &&& old(store).last_reading() <= final(store).last_reading() <= max_duration_nanos()
            &&& final(store)@ == identity_store_after(*params, old(store)@, final(store).last_reading())
            &&& exists|wall_now: Option<u128>|
                login_result_matches(
                    r,
                    #[trigger] identity_verdict(*params, old(store)@, final(store).last_reading(), root_key@, wall_now),
                    proof_principal(*params),
                )
        },
{
    if !proof_decodes(params) {
        return None;
    }
    Some(verify_internet_identity(params, store, root_key))
}

/// The error of a login attempt when the challenge store cannot be reached,
/// checking first that the proof can be decoded at all: `None` when a
/// delegation target is longer than a principal, otherwise
/// `unavailable_store_error`.
pub fn login_error_without_store(params: &IdentityParams) -> (res: Option<IiAuthError>)
    ensures
        res is None <==> proof_decoding(*params) is None,
        res matches Some(e) ==> e == match proof_decoding(*params) {
            Some(Err(d)) => d,
            _ => IiAuthError::ChallengeStorePoisoned,
        },
{
    if !proof_decodes(params) {
        return None;
    }
    Some(unavailable_store_error(params))
}

/// A proof can be used once: after a login attempt with a proof that
/// decodes, whatever its verdict, the same proof is refused as an unknown
/// challenge at any later store-clock reading.
pub proof fn lemma_login_proof_single_use(
    params: IdentityParams,
    store: Map<Seq<u8>, u128>,
    first_now: u128,
    later_now: u128,
    root: Seq<u8>,
    wall_now: Option<u128>,
)
    requires
        proof_decoding(params) matches Some(Ok(_)),
    ensures
        identity_verdict(params, identity_store_after(params, store, first_now), later_now, root, wall_now)
            == Err::<(), IiAuthError>(IiAuthError::UnknownChallenge),
{
    let c = proof_decoding(params)->0->Ok_0.0;
    let after = identity_store_after(params, store, first_now);
    assert(after == live(store, first_now).remove(c));
    assert(!after.contains_key(c));
    assert(!live(after, later_now).contains_key(c));
}

/// A proof whose challenge the store does not hold (never issued, already
/// used, or expired) is refused as an unknown challenge.
pub proof fn lemma_unknown_challenge_refused(
    params: IdentityParams,
    store: Map<Seq<u8>, u128>,
    now: u128,
    root: Seq<u8>,
    wall_now: Option<u128>,
)
    requires
        proof_decoding(params) matches Some(Ok(p)) && !live(store, now).contains_key(p.0),
    ensures
        identity_verdict(params, store, now, root, wall_now) == Err::<(), IiAuthError>(IiAuthError::UnknownChallenge),
{
}

/// A delegation that has expired at the wall-clock reading ends the chain:
/// whatever the keys and signatures, a chain whose first delegation's
/// expiration (nanoseconds since the epoch) is not after the reading `t` is
/// refused with `DelegationExpired` at `t`.
pub proof fn lemma_expired_first_delegation_refused(root: Seq<u8>, ds: Seq<(Seq<u8>, u64, Option<Seq<Seq<u8>>>, Seq<u8>)>, t: u128)
    requires
        ds.len() > 0,
        ds[0].1 <= t,
    ensures
        chain_outcome(root, ds, Some(t)) == Err::<Seq<u8>, IiAuthError>(IiAuthError::DelegationExpired),
{
    let one = ds.take(1);
    assert(one.drop_last() =~= Seq::<(Seq<u8>, u64, Option<Seq<Seq<u8>>>, Seq<u8>)>::empty());
    assert(one.last() == ds[0]);
    assert(chain_outcome(root, one.drop_last(), Some(t)) == Ok::<Seq<u8>, IiAuthError>(root));
    assert(delegation_expired(one.last().1, Some(t)));
    assert(chain_outcome(root, one, Some(t)) == Err::<Seq<u8>, IiAuthError>(IiAuthError::DelegationExpired));
    lemma_chain_error_propagates(root, ds, Some(t), 1);
}

/// Time only moves a chain towards expiry: at a later wall-clock reading a
/// chain's outcome is either the same as at an earlier one or
/// `DelegationExpired`; in particular a chain refused as expired stays
/// refused as expired.
pub proof fn lemma_expiry_is_monotone(root: Seq<u8>, ds: Seq<(Seq<u8>, u64, Option<Seq<Seq<u8>>>, Seq<u8>)>, t1: u128, t2: u128)
    requires
        t1 <= t2,
    ensures
        chain_outcome(root, ds, Some(t2)) == chain_outcome(root, ds, Some(t1))
            || chain_outcome(root, ds, Some(t2)) == Err::<Seq<u8>, IiAuthError>(IiAuthError::DelegationExpired),
        chain_outcome(root, ds, Some(t1)) == Err::<Seq<u8>, IiAuthError>(IiAuthError::DelegationExpired)
            ==> chain_outcome(root, ds, Some(t2)) == Err::<Seq<u8>, IiAuthError>(IiAuthError::DelegationExpired),
    decreases ds.len(),
{
    if ds.len() > 0 {
        lemma_expiry_is_monotone(root, ds.drop_last(), t1, t2);
    }
}

/// A login whose proof decodes and whose challenge is live is refused with
/// `DelegationExpired` when the first delegation of its chain has expired
/// at the wall-clock reading.
pub proof fn lemma_login_with_expired_delegation_refused(
    params: IdentityParams,
    store: Map<Seq<u8>, u128>,
    store_now: u128,
    root: Seq<u8>,
    t: u128,
)
    requires
        proof_decoding(params) matches Some(Ok(p)) && live(store, store_now).contains_key(p.0) && p.3.len() > 0 && p.3[0].1 <= t,
    ensures
        identity_verdict(params, store, store_now, root, Some(t)) == Err::<(), IiAuthError>(IiAuthError::DelegationExpired),
{
    let p = proof_decoding(params)->0->Ok_0;
    lemma_expired_first_delegation_refused(root, p.3, t);
}

/// Without delegations the session signature is checked against the root
/// key itself.
pub proof fn lemma_empty_chain_is_root(root: Seq<u8>, now: Option<u128>)
    ensures
        chain_outcome(root, Seq::empty(), now) == Ok::<Seq<u8>, IiAuthError>(root),
{
}

/// The error a login attempt ends with when the challenge store cannot be
/// reached: the proof's own decoding error if it has one, else
/// `ChallengeStorePoisoned`.
pub fn unavailable_store_error(params: &IdentityParams) -> (res: IiAuthError)
    requires
        proof_decoding(*params) is Some,
    ensures
        res == match proof_decoding(*params) {
            Some(Err(e)) => e,
            _ => IiAuthError::ChallengeStorePoisoned,
        },
{
    match parse_internet_identity_proof(params) {
        Ok(_) => IiAuthError::ChallengeStorePoisoned,
        Err(e) => e,
    }
}

// ------------------------------------------------------------ consent

/// What the authorization endpoint answers for a login attempt.
#[derive(Clone, Debug)]
pub enum ConsentDecision {
    /// The owner is the given principal.
    Authorized(String),
    /// The client's proof was refused.
    Denied,
    /// The server failed; the text says why.
    Error(String),
}

/// A refused proof is denied when it is the client's fault, and an internal
/// error otherwise.
pub fn owner_consent_from_error(err: IiAuthError) -> (res: ConsentDecision)
    ensures
        if crate::auth_error::client_error(err) {
            res is Denied
        } else {
            res matches ConsentDecision::Error(m) && m@ == crate::auth_error::error_message(err)
        },
{
    if err.is_client_error() {
        ConsentDecision::Denied
    } else {
        ConsentDecision::Error(err.message())
    }
}

/// The consent answer for a login attempt's result.
pub fn consent_for(result: Result<String, IiAuthError>) -> (res: ConsentDecision)
    ensures
        match result {
            Ok(p) => res == ConsentDecision::Authorized(p),
            Err(err) => if crate::auth_error::client_error(err) {
                res is Denied
            } else {
                res matches ConsentDecision::Error(m) && m@ == crate::auth_error::error_message(err)
            },
        },
{
    match result {
        Ok(principal) => ConsentDecision::Authorized(principal),
        Err(err) => owner_consent_from_error(err),
    }
}

} // verus!
