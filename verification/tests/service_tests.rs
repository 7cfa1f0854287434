use playlist_sync::config::AppConfig;
use playlist_sync::credentials::CredentialStore;
use playlist_sync::engine::{ApplyState, BatchOutcome, SyncStatus};
use playlist_sync::journal::{OperationKind, SyncJournal};
use playlist_sync::session::{SessionStore, StoredSession};
use playlist_sync::sync_service::{complete_sync_run, plan_to_preview, preview_sync};
use playlist_sync::track::TrackIdentity;
use playlist_sync::user_model::DatabaseModel;
use playlist_sync::users::{AuthService, ServiceError, UserService};
use playlist_sync::watchers::CreateWatcherRequest;

fn request(name: &str) -> CreateWatcherRequest {
    CreateWatcherRequest {
        name: name.to_string(),
        source_service: "spotify".to_string(),
        source_playlist_id: "pl1".to_string(),
        target_service: "youtube_music".to_string(),
        target_playlist_id: None,
        sync_frequency: Some(30),
    }
}

#[test]
fn registration_validates_and_hashes() {
    let mut auth = AuthService::new();
    assert!(matches!(
        auth.register_user("   ".to_string(), "longenough".to_string()),
        Err(ServiceError::ValidationError(_))
    ));
    assert!(matches!(
        auth.register_user("alice".to_string(), "short".to_string()),
        Err(ServiceError::ValidationError(_))
    ));
    let alice = auth.register_user("alice".to_string(), "password123".to_string()).unwrap();
    assert_eq!(alice.id, 1);
    assert_eq!(alice.username, "alice");
    assert!(matches!(
        auth.register_user("alice".to_string(), "password456".to_string()),
        Err(ServiceError::UserAlreadyExists)
    ));
    // The stored hash is not the password.
    let stored = auth.users.get_by_username("alice").unwrap();
    assert_ne!(stored.password_hash(), "password123");
}

#[test]
fn login_checks_the_password() {
    let mut auth = AuthService::new();
    auth.register_user("bob".to_string(), "password123".to_string()).unwrap();
    let user = auth.login_user("bob", "password123").unwrap();
    assert_eq!(user.username, "bob");
    assert!(matches!(
        auth.login_user("bob", "wrong-password"),
        Err(ServiceError::InvalidCredentials)
    ));
    assert!(matches!(
        auth.login_user("nobody", "password123"),
        Err(ServiceError::InvalidCredentials)
    ));
    assert!(matches!(auth.login_user("", ""), Err(ServiceError::ValidationError(_))));
}

#[test]
fn profile_update_respects_uniqueness() {
    let mut auth = AuthService::new();
    auth.register_user("carol".to_string(), "password123".to_string()).unwrap();
    auth.register_user("dave".to_string(), "password123".to_string()).unwrap();
    let svc = UserService::new();
    assert!(svc.update_profile(&mut auth.users, 1, "carol2").is_ok());
    assert_eq!(auth.users.get_by_username("carol2").unwrap().id(), &1);
    assert!(matches!(
        svc.update_profile(&mut auth.users, 1, "dave"),
        Err(ServiceError::UserAlreadyExists)
    ));
    assert!(matches!(
        svc.update_profile(&mut auth.users, 1, "  "),
        Err(ServiceError::ValidationError(_))
    ));
    assert!(matches!(
        svc.update_profile(&mut auth.users, 99, "ghost"),
        Err(ServiceError::UserNotFound)
    ));
}

#[test]
fn watcher_creation_validates_and_clamps() {
    let mut svc = UserService::new();
    let w = svc.create_watcher(1, &request("mine"), 1000).unwrap();
    assert_eq!(w.sync_frequency, 300);
    assert!(w.is_active);
    assert_eq!(w.last_sync_at, None);

    assert!(matches!(
        svc.create_watcher(1, &request("mine"), 1001),
        Err(ServiceError::WatcherNameExists)
    ));
    // Another user may reuse the name.
    assert!(svc.create_watcher(2, &request("mine"), 1002).is_ok());

    let mut same = request("same-service");
    same.target_service = "spotify".to_string();
    assert!(matches!(
        svc.create_watcher(1, &same, 1003),
        Err(ServiceError::ValidationError(_))
    ));
    let blank = request(" ");
    assert!(matches!(
        svc.create_watcher(1, &blank, 1004),
        Err(ServiceError::ValidationError(_))
    ));
}

#[test]
fn watcher_status_needs_ownership() {
    let mut svc = UserService::new();
    let w = svc.create_watcher(1, &request("mine"), 1000).unwrap();
    assert!(matches!(
        svc.update_watcher_status(w.id, 2, false, 1100),
        Err(ServiceError::WatcherNotFound)
    ));
    svc.update_watcher_status(w.id, 1, false, 1200).unwrap();
    let again = svc.get_watcher_by_id_and_user(w.id, 1).unwrap();
    assert!(!again.is_active);
}

#[test]
fn history_limit_is_capped() {
    let mut svc = UserService::new();
    let w = svc.create_watcher(1, &request("mine"), 1000).unwrap();
    let mut journal = SyncJournal::new();
    let counts = playlist_sync::engine::SyncCounts {
        songs_added: 0,
        songs_removed: 0,
        songs_failed: 0,
    };
    for n in 0..5 {
        let id = journal.begin(w.id, OperationKind::AutoSync, 100 + n).unwrap();
        journal.finish(id, SyncStatus::Completed, counts, None, 101 + n).unwrap();
    }
    let page = svc
        .get_watcher_sync_history(&journal, w.id, 1, Some(2), None)
        .unwrap();
    assert_eq!(page.len(), 2);
    let all = svc.get_watcher_sync_history(&journal, w.id, 1, None, None).unwrap();
    assert_eq!(all.len(), 5);
    assert!(matches!(
        svc.get_watcher_sync_history(&journal, w.id, 2, None, None),
        Err(ServiceError::WatcherNotFound)
    ));
}

#[test]
fn dashboard_counts_watchers_connections_and_recent_syncs() {
    let mut svc = UserService::new();
    let w1 = svc.create_watcher(1, &request("one"), 1000).unwrap();
    let _w2 = svc.create_watcher(1, &request("two"), 1001).unwrap();
    let _other = svc.create_watcher(2, &request("other"), 1002).unwrap();
    svc.update_watcher_status(w1.id, 1, false, 1010).unwrap();

    let mut journal = SyncJournal::new();
    let counts = playlist_sync::engine::SyncCounts {
        songs_added: 1,
        songs_removed: 0,
        songs_failed: 0,
    };
    let recent = journal.begin(w1.id, OperationKind::AutoSync, 100_000).unwrap();
    journal.finish(recent, SyncStatus::Completed, counts, None, 100_010).unwrap();
    let stale = journal.begin(w1.id, OperationKind::AutoSync, 1_000).unwrap();
    journal.finish(stale, SyncStatus::Completed, counts, None, 1_010).unwrap();

    let mut creds = CredentialStore::new(vec![7u8; 32]);
    creds.store(1, "spotify", "tok", None, None, None, 10).unwrap();
    creds.store(2, "spotify", "tok", None, None, None, 10).unwrap();

    let stats = svc.get_dashboard_stats(&journal, &creds, 1, 100_500);
    assert_eq!(stats.total_watchers, 2);
    assert_eq!(stats.active_watchers, 1);
    assert_eq!(stats.recent_syncs, 1);
    assert_eq!(stats.connected_services, 1);
}

#[test]
fn service_connections_validate_the_tag() {
    let svc = UserService::new();
    let mut creds = CredentialStore::new(vec![7u8; 32]);
    creds.store(1, "spotify", "tok", None, None, None, 10).unwrap();
    assert!(matches!(
        svc.delete_service_connection(&mut creds, 1, "myspace"),
        Err(ServiceError::ValidationError(_))
    ));
    assert!(matches!(
        svc.delete_service_connection(&mut creds, 1, "youtube_music"),
        Err(ServiceError::ServiceConnectionNotFound)
    ));
    assert!(svc.delete_service_connection(&mut creds, 1, "spotify").is_ok());
    assert!(matches!(
        svc.delete_service_connection(&mut creds, 1, "spotify"),
        Err(ServiceError::ServiceConnectionNotFound)
    ));
}

#[test]
fn a_full_run_writes_the_journal_and_stamps_the_watcher() {
    let mut svc = UserService::new();
    let w = svc.create_watcher(1, &request("mine"), 1000).unwrap();
    let mut journal = SyncJournal::new();

    let source = vec![TrackIdentity {
        service: "spotify".to_string(),
        external_id: Some("a".to_string()),
        title: "A".to_string(),
        artist: None,
        album: None,
        duration_ms: None,
    }];
    let resolutions = vec![playlist_sync::engine::Resolution::Match {
        external_id: "a-t".to_string(),
        url: "https://t/a".to_string(),
    }];
    let target: Vec<TrackIdentity> = Vec::new();
    let plan = preview_sync(&source, &resolutions, &"youtube_music".to_string(), &target);
    let preview = plan_to_preview(&plan, &"youtube_music".to_string());
    assert_eq!(preview.songs_to_add.len(), 1);

    let row = journal.begin(w.id, OperationKind::ManualSync, 2000).unwrap();
    let mut state = ApplyState::start(&plan);
    state.record_batch(&plan, &BatchOutcome::Success);
    let status = complete_sync_run(
        &mut journal,
        &mut svc.watchers,
        row,
        w.id,
        &state,
        &plan,
        false,
        None,
        2050,
    )
    .unwrap();
    assert_eq!(status, SyncStatus::Completed);
    let rows = journal.query_by_watcher(w.id, 10, 0);
    assert_eq!(rows[0].songs_added, 1);
    assert_eq!(rows[0].completed_at, Some(2050));
    let stamped = svc.get_watcher_by_id_and_user(w.id, 1).unwrap();
    assert_eq!(stamped.last_sync_at, Some(2050));
}

#[test]
fn bind_address_joins_host_and_port() {
    let mut cfg = AppConfig::new_with_defaults();
    assert_eq!(cfg.bind_address(), "0.0.0.0:3000");
    assert_eq!(cfg.db_path, "./db.sled");
    cfg.host = "127.0.0.1".to_string();
    cfg.port = 8080;
    assert_eq!(cfg.bind_address(), "127.0.0.1:8080");
}

#[test]
fn sessions_expire_and_are_swept() {
    let mut store = SessionStore::new();
    store.save("sid-1", StoredSession { data: vec![1, 2, 3], expiry_date: Some(1000) });
    store.save("sid-2", StoredSession { data: vec![4], expiry_date: None });
    let s = store.load("sid-1", 900).unwrap();
    assert_eq!(s.data, vec![1, 2, 3]);
    // Lapsed: reads as absent and is dropped.
    assert!(store.load("sid-1", 1001).is_none());
    assert!(store.load("sid-1", 900).is_none());
    // A session without expiry never lapses.
    assert!(store.load("sid-2", u64::MAX).is_some());

    store.save("sid-3", StoredSession { data: vec![5], expiry_date: Some(10) });
    let removed = store.delete_expired(2000);
    assert_eq!(removed, 1);
    assert!(store.load("sid-2", 2000).is_some());
    store.delete("sid-2");
    assert!(store.load("sid-2", 2000).is_none());
}
