//! The decisions of the OAuth endpoints: the challenge reply, how a token
//! request is routed, which refresh token is stored and under which key, and
//! what a client-credentials request asks for.
use vstd::prelude::*;
use vstd::string::StringSliceAdditionalSpecFns;
use crate::auth_error::{IiAuthError, error_message};
use crate::bytes::copy_all;
use crate::challenge::{ChallengeStore, expiry_from, live};
use crate::platform::max_duration_nanos;
use crate::crypto::{sha256, sha256_spec};
use crate::encoding::{base64url_encode, base64url_encoding};
use crate::identity::{ParamSource, get_param, param_value};
use oxide_auth::primitives::registrar::{ClientMap, ClientUrl, RegisteredUrl, Registrar};

verus! {

/// How long an issued challenge stays valid, in seconds.
pub const CHALLENGE_REPLY_TTL_SECS: u64 = 300;

/// The answer of the challenge endpoint.
pub struct ChallengeReply {
    /// The challenge, URL-safe base64 without padding.
    pub challenge: String,
    /// Seconds until the challenge expires.
    pub expires_in: u64,
}

/// The answer that hands out challenge `c`: its URL-safe base64 text (43
/// characters) and its lifetime in seconds.
pub fn challenge_reply(c: &[u8; 32]) -> (res: ChallengeReply)
    ensures
        res.challenge@ == base64url_encoding(c@),
        res.challenge@.len() == 43,
        res.expires_in == 300,
{
    let challenge = base64url_encode(c);
    ChallengeReply { challenge, expires_in: CHALLENGE_REPLY_TTL_SECS }
}

/// Issues a challenge: a fresh entry in the store, handed out in URL-safe
/// base64 with its lifetime; `None` when the store could not draw one (the
/// store is then only cleaned up).
pub fn issue_challenge(store: &mut ChallengeStore) -> (res: Option<ChallengeReply>)
    ensures
        old(store).last_reading() <= final(store).last_reading() <= max_duration_nanos(),
        match res {
            Some(reply) => {
                &&& reply.expires_in == 300
                &&& reply.challenge@.len() == 43
                &&& exists|c: Seq<u8>| {
                    &&& c.len() == 32
                    &&& reply.challenge@ == base64url_encoding(c)
                    &&& !live(old(store)@, final(store).last_reading()).contains_key(c)
                    &&& final(store)@ == live(old(store)@, final(store).last_reading()).insert(c, expiry_from(final(store).last_reading()))
                }
            },
            None => final(store)@ == live(old(store)@, final(store).last_reading()),
        },
{
    match store.generate() {
        Some(bytes) => Some(challenge_reply(&bytes)),
        None => None,
    }
}

#[verifier::external_type_specification]
#[verifier::external_body]
pub struct ExClientMap(ClientMap);

#[verifier::external_type_specification]
#[verifier::external_body]
pub struct ExRegisteredUrl(RegisteredUrl);

/// The identifiers of the clients a registrar holds.
pub uninterp spec fn registered_client_ids(map: ClientMap) -> Set<Seq<char>>;

/// `Registrar::bound_redirect` of oxide-auth's `ClientMap` with no redirect
/// URI asked for: the client's registered redirect URL when the map holds a
/// client with this identifier, an error otherwise (a plain lookup in the
/// map by identifier). Which URL is registered is not stated.
#[verifier::external_body]
fn bound_redirect_of(map: &ClientMap, client_id: &str) -> (res: Option<RegisteredUrl>)
    ensures
        res is Some <==> registered_client_ids(*map).contains(client_id@),
{
    match map.bound_redirect(ClientUrl { client_id: std::borrow::Cow::Borrowed(client_id), redirect_uri: None }) {
        Ok(bound) => Some(bound.redirect_uri.into_owned()),
        Err(_) => None,
    }
}

/// The error for a client the registrar does not know.
pub open spec fn unknown_client_text() -> Seq<char> {
    "unknown client"@
}

/// Binds a client-credentials request to its registered client: the
/// client's registered redirect URL, or `InvalidRequest("unknown client")`
/// when the registrar holds no client with this identifier.
pub fn bind_client(map: &ClientMap, client_id: &str) -> (res: Result<RegisteredUrl, ClientCredentialsIssueError>)
    ensures
        res is Ok <==> registered_client_ids(*map).contains(client_id@),
        match res {
            Ok(_) => true,
            Err(ClientCredentialsIssueError::InvalidRequest(m)) => m@ == unknown_client_text(),
            Err(ClientCredentialsIssueError::Internal(_)) => false,
        },
{
    match bound_redirect_of(map, client_id) {
        Some(url) => Ok(url),
        None => Err(ClientCredentialsIssueError::InvalidRequest("unknown client".to_owned())),
    }
}

/// How long a token issued for client credentials is valid, in seconds
/// (one hour).
pub const GRANT_LIFETIME_SECS: i64 = 3600;

/// The `expires_in` of a token response: the whole seconds left until the
/// token expires, or 0 once it has.
pub fn expires_in_secs(remaining_secs: i64) -> (res: i64)
    ensures
        res == if remaining_secs < 0 { 0 } else { remaining_secs },
{
    if remaining_secs < 0 { 0 } else { remaining_secs }
}

/// The key a refresh token is stored under: the SHA-256 digest of its UTF-8
/// bytes.
pub fn hash_refresh_token(token: &str) -> (res: Vec<u8>)
    ensures
        res@ == sha256_spec(token.spec_bytes()),
{
    let digest = sha256(token.as_bytes());
    copy_all(&digest)
}

/// Where the token endpoint sends a request.
#[derive(Clone, Copy, PartialEq, Eq, Structural, Debug)]
pub enum GrantRoute {
    /// `grant_type=client_credentials`: a token for a proven identity.
    ClientCredentials,
    /// `grant_type=refresh_token`: the issuer's refresh flow.
    RefreshToken,
    /// Anything else: the issuer's token flow.
    Standard,
}

/// The route of a request with the given `grant_type`.
pub open spec fn grant_route_of(grant_type: Option<Seq<char>>) -> GrantRoute {
    match grant_type {
        Some(g) => if g == "client_credentials"@ {
            GrantRoute::ClientCredentials
        } else if g == "refresh_token"@ {
            GrantRoute::RefreshToken
        } else {
            GrantRoute::Standard
        },
        None => GrantRoute::Standard,
    }
}

/// What the token endpoint does with a request.
pub struct TokenPlan {
    /// Where the request goes.
    pub route: GrantRoute,
    /// The refresh token to forget once the request is answered.
    pub retire: Option<String>,
}

/// Plans a token request from its `grant_type` and `refresh_token` body
/// values: a refresh retires the token it was made with.
pub fn plan_token_request(grant_type: &Option<String>, refresh_token: Option<String>) -> (res: TokenPlan)
    ensures
        res.route == grant_route_of(match grant_type { Some(g) => Some(g@), None => None }),
        res.retire == if res.route == GrantRoute::RefreshToken { refresh_token } else { None },
{
    let route = match grant_type {
        Some(g) => {
            let cc = "client_credentials".to_owned();
            let rt = "refresh_token".to_owned();
            if *g == cc {
                GrantRoute::ClientCredentials
            } else if *g == rt {
                GrantRoute::RefreshToken
            } else {
                GrantRoute::Standard
            }
        },
        None => GrantRoute::Standard,
    };
    let retire = match route {
        GrantRoute::RefreshToken => refresh_token,
        _ => None,
    };
    TokenPlan { route, retire }
}

/// The `refresh_token` string field of a JSON text (`None` if the text is
/// no JSON or has no such string field).
pub uninterp spec fn json_refresh_token(body: Seq<char>) -> Option<Seq<char>>;

/// `serde_json::from_str::<Value>`, then the `refresh_token` field as a
/// string: the contract names the result.
#[verifier::external_body]
fn refresh_token_in_json(body: &str) -> (res: Option<String>)
    ensures
        match res {
            Some(t) => json_refresh_token(body@) == Some(t@),
            None => json_refresh_token(body@) is None,
        },
{
    serde_json::from_str::<serde_json::Value>(body).ok().and_then(|v| v.get("refresh_token").and_then(|t| t.as_str()).map(str::to_owned))
}

/// Which refresh token is stored after a token request.
#[derive(Clone, Debug)]
pub enum RefreshToStore {
    /// The one a client-credentials grant issued, with its grant known.
    Issued(String),
    /// One found in the response body; its grant is looked up first.
    Recovered(String),
    /// None.
    Nothing,
}

/// The refresh token issued by a client-credentials grant wins; otherwise
/// the one the response body carries, if any.
pub open spec fn refresh_choice(issued: Option<Seq<char>>, body: Option<Seq<char>>) -> Option<(bool, Seq<char>)> {
    match issued {
        Some(t) => Some((true, t)),
        None => match body {
            Some(b) => match json_refresh_token(b) {
                Some(t) => Some((false, t)),
                None => None,
            },
            None => None,
        },
    }
}

/// Chooses the refresh token to store from the one a client-credentials
/// grant issued and the response body.
pub fn choose_refresh_to_store(issued: Option<String>, response_body: Option<String>) -> (res: RefreshToStore)
    ensures
        match refresh_choice(
            match issued { Some(t) => Some(t@), None => None },
            match response_body { Some(b) => Some(b@), None => None },
        ) {
            Some((true, t)) => res matches RefreshToStore::Issued(s) && s@ == t,
            Some((false, t)) => res matches RefreshToStore::Recovered(s) && s@ == t,
            None => res is Nothing,
        },
{
    match issued {
        Some(t) => RefreshToStore::Issued(t),
        None => match response_body {
            Some(b) => match refresh_token_in_json(b.as_str()) {
                Some(t) => RefreshToStore::Recovered(t),
                None => RefreshToStore::Nothing,
            },
            None => RefreshToStore::Nothing,
        },
    }
}

/// A character that a scope may hold (RFC 6749 scope-token characters and
/// the space that separates tokens).
pub open spec fn scope_char_ok(c: char) -> bool {
    c == '\x21' || ('\x23' <= c && c <= '\x5b') || ('\x5d' <= c && c <= '\x7e') || c == ' '
}

/// A scope text that parses.
pub open spec fn scope_text_ok(s: Seq<char>) -> bool {
    forall|i: int| 0 <= i < s.len() ==> scope_char_ok(#[trigger] s[i])
}

/// `oxide_auth::primitives::scope::Scope::from_str` succeeds exactly when
/// no character is outside the scope-token set (its source rejects the
/// first such character and accepts anything else).
#[verifier::external_body]
fn scope_parses(text: &str) -> (res: bool)
    ensures
        res == scope_text_ok(text@),
{
    text.parse::<oxide_auth::primitives::scope::Scope>().is_ok()
}

/// The client a client-credentials request names when it names none.
pub open spec fn default_client_id() -> Seq<char> {
    "LocalClient"@
}

/// The scope a client-credentials request asks for when it names none.
pub open spec fn default_scope() -> Seq<char> {
    "default offline_access"@
}

/// What a client-credentials request asks for.
pub struct CredentialsRequest {
    /// The proven owner's principal.
    pub owner: String,
    /// The client the token is for.
    pub client_id: String,
    /// The scope text, valid.
    pub scope: String,
}

/// What a client-credentials request asks for, from its parameters and the
/// outcome of proving its identity: the owner, the `client_id` and `scope`
/// parameters (with their defaults); refused with the identity error's text,
/// or `invalid scope`.
pub open spec fn credentials_outcome(src: ParamSource, identity: Result<String, IiAuthError>) -> Result<(Seq<char>, Seq<char>, Seq<char>), Seq<char>> {
    match identity {
        Err(e) => Err(error_message(e)),
        Ok(owner) => {
            let client = match param_value(src, "client_id"@) { Some(c) => c@, None => default_client_id() };
            let scope = match param_value(src, "scope"@) { Some(s) => s@, None => default_scope() };
            if scope_text_ok(scope) { Ok((owner@, client, scope)) } else { Err("invalid scope"@) }
        },
    }
}

/// Why a client-credentials token is not issued.
pub enum ClientCredentialsIssueError {
    /// The request is refused; the text says why.
    InvalidRequest(String),
    /// The issuer failed; the text says why.
    Internal(String),
}

/// Reads a client-credentials request.
pub fn client_credentials_request(src: &ParamSource, identity: Result<String, IiAuthError>) -> (res: Result<CredentialsRequest, ClientCredentialsIssueError>)
    ensures
        match res {
            Ok(r) => credentials_outcome(*src, identity)
                == Ok::<(Seq<char>, Seq<char>, Seq<char>), Seq<char>>((r.owner@, r.client_id@, r.scope@)),
            Err(ClientCredentialsIssueError::InvalidRequest(m)) => credentials_outcome(*src, identity)
                == Err::<(Seq<char>, Seq<char>, Seq<char>), Seq<char>>(m@),
            Err(ClientCredentialsIssueError::Internal(_)) => false,
        },
{
    let owner = match identity {
        Err(e) => return Err(ClientCredentialsIssueError::InvalidRequest(e.message())),
        Ok(o) => o,
    };
    let client_id = match get_param(src, "client_id") {
        Some(c) => c,
        None => "LocalClient".to_owned(),
    };
    let scope = match get_param(src, "scope") {
        Some(s) => s,
        None => "default offline_access".to_owned(),
    };
    if !scope_parses(scope.as_str()) {
        return Err(ClientCredentialsIssueError::InvalidRequest("invalid scope".to_owned()));
    }
    Ok(CredentialsRequest { owner, client_id, scope })
}

/// A refresh token as it is stored: under the digest of the token, with
/// the grant's owner, client and scope, its expiry and when it was stored
/// (seconds since the Unix epoch).
pub struct NewRefreshToken {
    pub token_hash: Vec<u8>,
    pub owner_principal: String,
    pub client_id: String,
    pub scope: String,
    pub expires_at: i64,
    pub created_at: i64,
}

/// The record that stores a refresh token for a grant.
pub fn new_refresh_token_record(
    refresh_token: &str,
    owner_principal: String,
    client_id: String,
    scope: String,
    expires_at: i64,
    created_at: i64,
) -> (res: NewRefreshToken)
    ensures
        res.token_hash@ == sha256_spec(refresh_token.spec_bytes()),
        res.owner_principal == owner_principal,
        res.client_id == client_id,
        res.scope == scope,
        res.expires_at == expires_at,
        res.created_at == created_at,
{
    NewRefreshToken {
        token_hash: hash_refresh_token(refresh_token),
        owner_principal,
        client_id,
        scope,
        expires_at,
        created_at,
    }
}

} // verus!
