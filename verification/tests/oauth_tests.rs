use join_proxy::oauth::bind_client;
use oxide_auth::primitives::registrar::{Client, ClientMap};
use join_proxy::auth_error::{IiAuthError, ParamName};
use join_proxy::identity::ParamSource;
use join_proxy::oauth::{
    choose_refresh_to_store, client_credentials_request, hash_refresh_token, new_refresh_token_record,
    plan_token_request, ClientCredentialsIssueError, GrantRoute, RefreshToStore,
};

fn body(pairs: &[(&str, &str)]) -> ParamSource {
    ParamSource {
        body: Some(pairs.iter().map(|(k, v)| (k.to_string(), v.to_string())).collect()),
        query: None,
    }
}

#[test]
fn refresh_tokens_are_stored_under_their_sha256() {
    let h = hash_refresh_token("abc");
    assert_eq!(
        h,
        vec![
            0xba, 0x78, 0x16, 0xbf, 0x8f, 0x01, 0xcf, 0xea, 0x41, 0x41, 0x40, 0xde, 0x5d, 0xae, 0x22, 0x23, 0xb0, 0x03,
            0x61, 0xa3, 0x96, 0x17, 0x7a, 0x9c, 0xb4, 0x10, 0xff, 0x61, 0xf2, 0x00, 0x15, 0xad
        ]
    );
    let record = new_refresh_token_record("abc", "owner".into(), "LocalClient".into(), "default".into(), 10, 5);
    assert_eq!(record.token_hash, h);
    assert_eq!(record.owner_principal, "owner");
    assert_eq!(record.expires_at, 10);
    assert_eq!(record.created_at, 5);
}

#[test]
fn token_requests_are_routed_by_grant_type() {
    let p = plan_token_request(&Some("client_credentials".to_string()), Some("r".to_string()));
    assert_eq!(p.route, GrantRoute::ClientCredentials);
    assert_eq!(p.retire, None);
    let p = plan_token_request(&Some("refresh_token".to_string()), Some("old".to_string()));
    assert_eq!(p.route, GrantRoute::RefreshToken);
    assert_eq!(p.retire, Some("old".to_string()));
    let p = plan_token_request(&Some("authorization_code".to_string()), Some("r".to_string()));
    assert_eq!(p.route, GrantRoute::Standard);
    assert_eq!(p.retire, None);
    let p = plan_token_request(&None, None);
    assert_eq!(p.route, GrantRoute::Standard);
}

#[test]
fn issued_refresh_token_wins() {
    match choose_refresh_to_store(Some("issued".to_string()), Some("{\"refresh_token\":\"other\"}".to_string())) {
        RefreshToStore::Issued(t) => assert_eq!(t, "issued"),
        _ => panic!("expected the issued token"),
    }
}

#[test]
fn refresh_token_is_found_in_the_response_body() {
    match choose_refresh_to_store(None, Some("{\"access_token\":\"a\",\"refresh_token\":\"r1\"}".to_string())) {
        RefreshToStore::Recovered(t) => assert_eq!(t, "r1"),
        _ => panic!("expected a recovered token"),
    }
    assert!(matches!(choose_refresh_to_store(None, Some("{\"refresh_token\":7}".to_string())), RefreshToStore::Nothing));
    assert!(matches!(choose_refresh_to_store(None, Some("not json".to_string())), RefreshToStore::Nothing));
    assert!(matches!(choose_refresh_to_store(None, None), RefreshToStore::Nothing));
}

#[test]
fn client_credentials_defaults() {
    let r = match client_credentials_request(&body(&[]), Ok("caller-principal".to_string())) {
        Ok(r) => r,
        Err(_) => panic!("expected a request"),
    };
    assert_eq!(r.owner, "caller-principal");
    assert_eq!(r.client_id, "LocalClient");
    assert_eq!(r.scope, "default offline_access");
}

#[test]
fn client_credentials_parameters() {
    let src = body(&[("client_id", "Other"), ("scope", "default")]);
    let r = match client_credentials_request(&src, Ok("p".to_string())) {
        Ok(r) => r,
        Err(_) => panic!("expected a request"),
    };
    assert_eq!(r.client_id, "Other");
    assert_eq!(r.scope, "default");
}

#[test]
fn client_credentials_refusals() {
    match client_credentials_request(&body(&[("scope", "bad\"scope")]), Ok("p".to_string())) {
        Err(ClientCredentialsIssueError::InvalidRequest(m)) => assert_eq!(m, "invalid scope"),
        _ => panic!("expected an invalid scope"),
    }
    match client_credentials_request(&body(&[]), Err(IiAuthError::MissingParam(ParamName::Challenge))) {
        Err(ClientCredentialsIssueError::InvalidRequest(m)) => {
            assert_eq!(m, "missing Internet Identity parameter `ii_challenge`")
        }
        _ => panic!("expected the identity error"),
    }
}

#[test]
fn expires_in_never_goes_below_zero() {
    assert_eq!(join_proxy::oauth::expires_in_secs(3599), 3599);
    assert_eq!(join_proxy::oauth::expires_in_secs(0), 0);
    assert_eq!(join_proxy::oauth::expires_in_secs(-5), 0);
    assert_eq!(join_proxy::oauth::GRANT_LIFETIME_SECS, 3600);
}

#[test]
fn client_credentials_bind_to_registered_clients_only() {
    let map: ClientMap = vec![Client::public(
        "LocalClient",
        "http://localhost:8000/redirect".parse::<url::Url>().unwrap().into(),
        "default".parse().unwrap(),
    )]
    .into_iter()
    .collect();
    let url: url::Url = match bind_client(&map, "LocalClient") {
        Ok(registered) => registered.into(),
        Err(_) => panic!("expected a registered client"),
    };
    assert_eq!(url.as_str(), "http://localhost:8000/redirect");
    match bind_client(&map, "Stranger") {
        Err(ClientCredentialsIssueError::InvalidRequest(m)) => assert_eq!(m, "unknown client"),
        _ => panic!("expected an unknown client"),
    }
}
