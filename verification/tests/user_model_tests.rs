use playlist_sync::api::TokenResponse;
use playlist_sync::user_model::{CreatableModel, DatabaseModel, UpdatableModel, User};

#[test]
fn test_user_creation() {
    let user = User::with_credentials(1, "test_user".to_string(), "password123".to_string());

    assert_eq!(user.id(), &1);
    assert_eq!(user.username(), "test_user");
    assert_eq!(user.password_hash(), "password123");
}

#[test]
fn test_user_creatable() {
    let user = User::new(1);

    assert_eq!(user.id(), &1);
    assert_eq!(user.username(), "");
    assert_eq!(user.password_hash(), "");
}

#[test]
fn test_user_update() {
    let mut user = User::new(1);
    let other = User::with_credentials(1, "test_user".to_string(), "password123".to_string());

    user.update(&other);

    assert_eq!(user.id(), &1);
    assert_eq!(user.username(), "test_user");
    assert_eq!(user.password_hash(), "password123");
}

#[test]
fn test_user_debug_implementation() {
    let user = User::with_credentials(1, "test_user".to_string(), "password123".to_string());
    let debug_output = user.debug_string();

    assert!(debug_output.contains("id: 1"));
    assert!(debug_output.contains("username: \"test_user\""));
    assert!(debug_output.contains("password: \"[redacted]\""));
    assert!(!debug_output.contains("password123"));
}

#[test]
fn test_token_response_serialization() {
    let token_json = r#"{
        "access_token": "BQDYPfKKX5sYI123example",
        "token_type": "Bearer",
        "scope": "playlist-read-private",
        "expires_in": 3600,
        "refresh_token": "AQBuBOdZ9example"
    }"#;

    let v: serde_json::Value = serde_json::from_str(token_json).expect("Should deserialize");
    let token = TokenResponse {
        access_token: v["access_token"].as_str().unwrap().to_string(),
        token_type: v["token_type"].as_str().unwrap().to_string(),
        scope: v["scope"].as_str().unwrap().to_string(),
        expires_in: v["expires_in"].as_i64().unwrap() as i32,
        refresh_token: v["refresh_token"].as_str().map(|s| s.to_string()),
    };

    assert_eq!(token.access_token, "BQDYPfKKX5sYI123example");
    assert_eq!(token.token_type, "Bearer");
    assert_eq!(token.scope, "playlist-read-private");
    assert_eq!(token.expires_in, 3600);
    assert_eq!(token.refresh_token, Some("AQBuBOdZ9example".to_string()));
}

#[test]
fn test_verify_password_against_generated_hash() {
    let hash = playlist_sync::crypto::hash_password("correct horse battery").unwrap();
    let user = User::with_credentials(7, "rider".to_string(), hash);
    assert!(user.verify_password("correct horse battery").unwrap());
    assert!(!user.verify_password("wrong password").unwrap());
}

#[test]
fn test_user_repository_operations() {
    let mut repo = playlist_sync::user_model::UserRepository::new();

    // Create a user.
    let user = repo
        .create_user("test_user".to_string(), "password123".to_string())
        .unwrap();
    assert_eq!(user.id(), &1);
    assert_eq!(user.username(), "test_user");

    // Look it up by username.
    let retrieved = repo.get_by_username("test_user").unwrap();
    assert_eq!(retrieved.id(), &1);
    assert_eq!(retrieved.username(), "test_user");

    // A duplicate username is refused.
    let result = repo.create_user("test_user".to_string(), "password456".to_string());
    assert!(result.is_err());
    assert!(matches!(
        result,
        Err(playlist_sync::user_model::ModelError::InvalidData(_))
    ));

    // Look it up by id.
    let retrieved = repo.get(1).unwrap();
    assert_eq!(retrieved.id(), &1);
    assert_eq!(retrieved.username(), "test_user");

    // Replace its fields.
    let mut updated = retrieved.duplicate();
    updated.update(&User::with_credentials(
        1,
        "new_username".to_string(),
        "new_password".to_string(),
    ));
    repo.update(&updated).unwrap();
    let retrieved = repo.get(1).unwrap();
    assert_eq!(retrieved.username(), "new_username");

    // Drop it.
    repo.delete(1).unwrap();
    assert!(repo.get(1).is_none());
    assert!(repo.get_by_username("new_username").is_none());

    // List what is stored.
    let user1 = repo.create_user("user1".to_string(), "pass1".to_string()).unwrap();
    let user2 = repo.create_user("user2".to_string(), "pass2".to_string()).unwrap();
    let users = repo.list();
    assert_eq!(users.len(), 2);
    assert!(users.iter().any(|u| u.id() == user1.id() && u.username() == "user1"));
    assert!(users.iter().any(|u| u.id() == user2.id() && u.username() == "user2"));
}

#[test]
fn test_oauth_state_creation() {
    let state = playlist_sync::oauth::OAuthState {
        state: "random_state_string".to_string(),
        code_verifier: "code_verifier_123".to_string(),
        user_id: 42,
        expires_at: 600,
    };

    assert_eq!(state.user_id, 42);
    assert!(!state.state.is_empty());
    assert!(!state.code_verifier.is_empty());
}
