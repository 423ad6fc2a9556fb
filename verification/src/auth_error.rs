//! Why an Internet Identity proof was refused.
use vstd::prelude::*;
use crate::text::{concat2, concat3, decimal_string, decimal_text};

verus! {

/// The request fields that an Internet Identity proof is read from.
#[derive(Clone, Copy, PartialEq, Eq, Structural, Debug)]
pub enum ParamName {
    Challenge,
    Signature,
    PublicKey,
    Delegations,
    DelegationsPublicKey,
    DelegationsSignature,
    DelegationPubkey,
    DelegationExpiration,
    DelegationTargets,
}

/// The name of a request field as the client writes it.
pub open spec fn param_text(p: ParamName) -> Seq<char> {
    match p {
        ParamName::Challenge => "ii_challenge"@,
        ParamName::Signature => "ii_signature"@,
        ParamName::PublicKey => "ii_public_key"@,
        ParamName::Delegations => "ii_delegations"@,
        ParamName::DelegationsPublicKey => "delegations.publicKey"@,
        ParamName::DelegationsSignature => "delegations.signature"@,
        ParamName::DelegationPubkey => "delegations.delegation.pubkey"@,
        ParamName::DelegationExpiration => "delegations.delegation.expiration"@,
        ParamName::DelegationTargets => "delegations.delegation.targets"@,
    }
}

impl ParamName {
    /// The field's name as the client writes it.
    pub fn text(&self) -> (res: &'static str)
        ensures
            res@ == param_text(*self),
    {
        match self {
            ParamName::Challenge => "ii_challenge",
            ParamName::Signature => "ii_signature",
            ParamName::PublicKey => "ii_public_key",
            ParamName::Delegations => "ii_delegations",
            ParamName::DelegationsPublicKey => "delegations.publicKey",
            ParamName::DelegationsSignature => "delegations.signature",
            ParamName::DelegationPubkey => "delegations.delegation.pubkey",
            ParamName::DelegationExpiration => "delegations.delegation.expiration",
            ParamName::DelegationTargets => "delegations.delegation.targets",
        }
    }
}

/// The reasons an Internet Identity proof is refused. Some variants name the
/// request field at fault.
#[derive(Clone, Copy, PartialEq, Eq, Structural, Debug)]
pub enum IiAuthError {
    MissingParam(ParamName),
    InvalidEncoding(ParamName),
    InvalidHex(ParamName),
    InvalidDelegation,
    DelegationExpired,
    InvalidPublicKey,
    UnsupportedKeyAlgorithm,
    InvalidKey,
    InvalidSignature,
    UnknownChallenge,
    ChallengeStorePoisoned,
    MissingSigningKey,
    PublicKeyMismatch,
    KeyLength(usize),
    SignatureLength(usize),
    VerificationFailed,
}

/// Errors caused by what the client sent (as opposed to the server's state).
pub open spec fn client_error(e: IiAuthError) -> bool {
    match e {
        IiAuthError::MissingParam(_) | IiAuthError::InvalidEncoding(_) | IiAuthError::InvalidHex(_)
        | IiAuthError::InvalidDelegation | IiAuthError::DelegationExpired
        | IiAuthError::UnsupportedKeyAlgorithm | IiAuthError::InvalidSignature
        | IiAuthError::UnknownChallenge | IiAuthError::MissingSigningKey
        | IiAuthError::PublicKeyMismatch | IiAuthError::InvalidPublicKey
        | IiAuthError::VerificationFailed => true,
        IiAuthError::InvalidKey | IiAuthError::ChallengeStorePoisoned
        | IiAuthError::KeyLength(_) | IiAuthError::SignatureLength(_) => false,
    }
}

/// The human-readable text of an error.
pub open spec fn error_message(e: IiAuthError) -> Seq<char> {
    match e {
        IiAuthError::MissingParam(p) => "missing Internet Identity parameter `"@ + param_text(p) + "`"@,
        IiAuthError::InvalidEncoding(p) => "invalid encoding for `"@ + param_text(p) + "`"@,
        IiAuthError::InvalidHex(p) => "invalid hex data for `"@ + param_text(p) + "`"@,
        IiAuthError::InvalidDelegation => "failed to parse delegation payload"@,
        IiAuthError::DelegationExpired => "delegation expired"@,
        IiAuthError::InvalidPublicKey => "invalid public key encoding"@,
        IiAuthError::UnsupportedKeyAlgorithm => "unsupported public key algorithm"@,
        IiAuthError::InvalidKey => "invalid public key"@,
        IiAuthError::InvalidSignature => "invalid signature"@,
        IiAuthError::UnknownChallenge => "Internet Identity challenge expired or unknown"@,
        IiAuthError::ChallengeStorePoisoned => "challenge store unavailable"@,
        IiAuthError::MissingSigningKey => "missing signing key in delegation chain"@,
        IiAuthError::PublicKeyMismatch => "delegation public key mismatch"@,
        IiAuthError::KeyLength(n) => "invalid public key length: "@ + decimal_text(n as nat),
        IiAuthError::SignatureLength(n) => "invalid signature length: "@ + decimal_text(n as nat),
        IiAuthError::VerificationFailed => "signature verification failed"@,
    }
}

impl IiAuthError {
    /// Whether the error is the client's fault.
    pub fn is_client_error(&self) -> (res: bool)
        ensures
            res == client_error(*self),
    {
        match self {
            IiAuthError::MissingParam(_) | IiAuthError::InvalidEncoding(_) | IiAuthError::InvalidHex(_)
            | IiAuthError::InvalidDelegation | IiAuthError::DelegationExpired
            | IiAuthError::UnsupportedKeyAlgorithm | IiAuthError::InvalidSignature
            | IiAuthError::UnknownChallenge | IiAuthError::MissingSigningKey
            | IiAuthError::PublicKeyMismatch | IiAuthError::InvalidPublicKey
            | IiAuthError::VerificationFailed => true,
            _ => false,
        }
    }

    /// The error's text.
    pub fn message(&self) -> (res: String)
        ensures
            res@ == error_message(*self),
    {
        match self {
            IiAuthError::MissingParam(p) => concat3("missing Internet Identity parameter `", p.text(), "`"),
            IiAuthError::InvalidEncoding(p) => concat3("invalid encoding for `", p.text(), "`"),
            IiAuthError::InvalidHex(p) => concat3("invalid hex data for `", p.text(), "`"),
            IiAuthError::InvalidDelegation => "failed to parse delegation payload".to_owned(),
            IiAuthError::DelegationExpired => "delegation expired".to_owned(),
            IiAuthError::InvalidPublicKey => "invalid public key encoding".to_owned(),
            IiAuthError::UnsupportedKeyAlgorithm => "unsupported public key algorithm".to_owned(),
            IiAuthError::InvalidKey => "invalid public key".to_owned(),
            IiAuthError::InvalidSignature => "invalid signature".to_owned(),
            IiAuthError::UnknownChallenge => "Internet Identity challenge expired or unknown".to_owned(),
            IiAuthError::ChallengeStorePoisoned => "challenge store unavailable".to_owned(),
            IiAuthError::MissingSigningKey => "missing signing key in delegation chain".to_owned(),
            IiAuthError::PublicKeyMismatch => "delegation public key mismatch".to_owned(),
            IiAuthError::KeyLength(n) => {
                let digits = decimal_string(*n as u64);
                concat2("invalid public key length: ", digits.as_str())
            },
            IiAuthError::SignatureLength(n) => {
                let digits = decimal_string(*n as u64);
                concat2("invalid signature length: ", digits.as_str())
            },
            IiAuthError::VerificationFailed => "signature verification failed".to_owned(),
        }
    }
}

} // verus!
