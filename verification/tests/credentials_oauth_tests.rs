use playlist_sync::credentials::{CredentialError, CredentialStore, RefreshDecision};
use playlist_sync::oauth::{
    generate_code_challenge, generate_code_verifier, OAuthError, SpotifyAuthService,
};

#[test]
fn store_and_read_back_a_token() {
    let mut store = CredentialStore::new(vec![7u8; 32]);
    store.store(1, "spotify", "token-abc", Some("refresh-xyz"), Some(10_000), None, 500).unwrap();
    let token = store.access_token(1, "spotify", 600).unwrap();
    assert_eq!(token, "token-abc");
    // At rest the token is sealed, not plain.
    let row = store.load(1, "spotify").unwrap();
    assert_ne!(row.access_token, "token-abc");
}

#[test]
fn one_row_per_user_and_service() {
    let mut store = CredentialStore::new(vec![7u8; 32]);
    store.store(1, "spotify", "first", None, None, None, 10).unwrap();
    store.store(1, "spotify", "second", None, None, None, 20).unwrap();
    store.store(1, "youtube_music", "other", None, None, None, 30).unwrap();
    store.store(2, "spotify", "else", None, None, None, 40).unwrap();
    assert_eq!(store.rows.len(), 3);
    assert_eq!(store.access_token(1, "spotify", 50).unwrap(), "second");
}

#[test]
fn expired_token_is_invalid_and_refused() {
    let mut store = CredentialStore::new(vec![7u8; 32]);
    store.store(1, "spotify", "tok", Some("r"), Some(1000), None, 10).unwrap();
    assert!(store.has_valid_credentials(1, "spotify", 999));
    assert!(!store.has_valid_credentials(1, "spotify", 1000));
    assert!(!store.has_valid_credentials(1, "spotify", 2000));
    assert_eq!(
        store.access_token(1, "spotify", 1000),
        Err(CredentialError::TokenExpired)
    );
    assert_eq!(
        store.access_token(5, "spotify", 1000),
        Err(CredentialError::NotLinked)
    );
}

#[test]
fn delete_is_idempotent() {
    let mut store = CredentialStore::new(vec![7u8; 32]);
    store.store(1, "spotify", "tok", None, None, None, 10).unwrap();
    assert!(store.delete(1, "spotify"));
    assert!(!store.delete(1, "spotify"));
    assert_eq!(store.access_token(1, "spotify", 20), Err(CredentialError::NotLinked));
}

#[test]
fn concurrent_refreshes_coalesce() {
    // Two sync tasks see the same expired token: the first begins the one
    // upstream exchange, the second awaits it, and both then read the same
    // new token.
    let mut store = CredentialStore::new(vec![7u8; 32]);
    store.store(1, "spotify", "old-token", Some("refresh"), Some(1000), None, 10).unwrap();
    let first = store.begin_refresh(1, "spotify", 2000);
    assert_eq!(first, RefreshDecision::Begin);
    let second = store.begin_refresh(1, "spotify", 2000);
    assert_eq!(second, RefreshDecision::AwaitExisting);
    store.complete_refresh(1, "spotify", "new-token", Some("refresh2"), Some(9000), 2001).unwrap();
    assert_eq!(store.access_token(1, "spotify", 2002).unwrap(), "new-token");
    assert_eq!(store.access_token(1, "spotify", 2002).unwrap(), "new-token");
    // The latch is free again.
    assert_eq!(store.begin_refresh(1, "spotify", 2003), RefreshDecision::UseCurrent);
}

#[test]
fn refresh_without_refresh_token_is_terminal() {
    let mut store = CredentialStore::new(vec![7u8; 32]);
    store.store(1, "spotify", "tok", None, Some(100), None, 10).unwrap();
    assert_eq!(store.begin_refresh(1, "spotify", 500), RefreshDecision::NoRefreshToken);
    assert_eq!(store.begin_refresh(9, "spotify", 500), RefreshDecision::NotLinked);
}

#[test]
fn aborted_refresh_releases_the_latch() {
    let mut store = CredentialStore::new(vec![7u8; 32]);
    store.store(1, "spotify", "tok", Some("r"), Some(100), None, 10).unwrap();
    assert_eq!(store.begin_refresh(1, "spotify", 500), RefreshDecision::Begin);
    store.abort_refresh(1, "spotify");
    assert_eq!(store.begin_refresh(1, "spotify", 500), RefreshDecision::Begin);
}

#[test]
fn code_verifier_is_long_and_within_alphabet() {
    let v = generate_code_verifier();
    assert_eq!(v.chars().count(), 128);
    for c in v.chars() {
        assert!(c.is_ascii_alphanumeric() || c == '-' || c == '.' || c == '_' || c == '~');
    }
}

#[test]
fn code_challenge_matches_the_pkce_test_vector() {
    // The verifier and challenge of RFC 7636's example.
    let challenge = generate_code_challenge("dBjftJeZ4CVP-mB92K27uhbUJU1p1r_wW1gFWFOEjXk");
    assert_eq!(challenge, "E9Melhoa2OwvFrEMTJguCHaoeK1t8URWbuGJSstw-cM");
}

#[test]
fn auth_flow_builds_url_and_consumes_state_once() {
    let mut svc = SpotifyAuthService::new(
        "client123".to_string(),
        "http://localhost:3000/callback".to_string(),
    );
    let (url, state) = svc.start_auth_flow(42, 1000);
    assert!(url.starts_with("https://accounts.spotify.com/authorize?response_type=code&client_id=client123"));
    assert!(url.contains("code_challenge_method=S256"));
    assert!(url.contains("playlist-read-private"));
    assert!(url.contains(&format!("&state={}", state)));

    let flow = svc.complete_auth_flow(&state, 1300).unwrap();
    assert_eq!(flow.user_id, 42);
    assert_eq!(flow.expires_at, 1600);
    assert_eq!(flow.code_verifier.chars().count(), 128);

    // The same state a second time is a replay and fails.
    assert!(matches!(
        svc.complete_auth_flow(&state, 1301),
        Err(OAuthError::InvalidOAuthState)
    ));
}

#[test]
fn expired_flow_is_rejected() {
    let mut svc = SpotifyAuthService::new("c".to_string(), "http://cb".to_string());
    let (_url, state) = svc.start_auth_flow(1, 1000);
    // The TTL is 600 seconds; at 1601 the flow has lapsed.
    assert!(svc.complete_auth_flow(&state, 1601).is_err());
    // And it was consumed by the attempt.
    assert!(svc.complete_auth_flow(&state, 1000).is_err());
}

#[test]
fn unknown_state_is_rejected() {
    let mut svc = SpotifyAuthService::new("c".to_string(), "http://cb".to_string());
    assert!(svc.complete_auth_flow("never-issued", 10).is_err());
}
