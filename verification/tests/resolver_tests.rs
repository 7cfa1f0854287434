use playlist_sync::catalog::{store_playlist_snapshot, PlaylistLinks, PlaylistRepository, SongRepository};
use playlist_sync::engine::Resolution;
use playlist_sync::track::TrackIdentity;
use playlist_sync::songlink::{
    classify_http_status, platform_for_service, resolve_from_response, trim_angle_brackets,
    Entity, EntityType, APIProvider, Link, LinksResponse, Platform, ResolverCache,
};

fn sample_response() -> LinksResponse {
    LinksResponse {
        entity_unique_id: "SPOTIFY::src1".to_string(),
        user_country: "US".to_string(),
        page_url: "https://song.link/x".to_string(),
        links_by_platform: vec![(
            Platform::YoutubeMusic,
            Link {
                entity_unique_id: "YOUTUBE_MUSIC::yt1".to_string(),
                url: "https://music.example/watch?v=yt1".to_string(),
                native_app_uri_mobile: None,
                native_app_uri_desktop: None,
            },
        )],
        entities_by_unique_id: vec![(
            "YOUTUBE_MUSIC::yt1".to_string(),
            Entity {
                id: "yt1".to_string(),
                entity_type: EntityType::Song,
                title: Some("Test Song".to_string()),
                artist_name: Some("Test Artist".to_string()),
                thumbnail_url: None,
                thumbnail_width: None,
                thumbnail_height: None,
                api_provider: APIProvider::Youtube,
                platforms: vec![Platform::YoutubeMusic],
            },
        )],
    }
}

#[test]
fn response_with_matching_platform_resolves() {
    let r = sample_response();
    match resolve_from_response(&r, "youtube_music") {
        Resolution::Match { external_id, url } => {
            assert_eq!(external_id, "yt1");
            assert_eq!(url, "https://music.example/watch?v=yt1");
        }
        _ => panic!("expected a match"),
    }
}

#[test]
fn response_without_the_platform_is_unmatched() {
    let r = sample_response();
    assert!(matches!(resolve_from_response(&r, "deezer"), Resolution::Unmatched));
    assert!(matches!(
        resolve_from_response(&r, "not_a_service"),
        Resolution::Unmatched
    ));
}

#[test]
fn missing_entity_falls_back_to_placeholder_id() {
    let mut r = sample_response();
    r.entities_by_unique_id.clear();
    match resolve_from_response(&r, "youtube_music") {
        Resolution::Match { external_id, .. } => {
            assert_eq!(external_id, "unknown_youtube_music");
        }
        _ => panic!("expected a fallback match"),
    }
}

#[test]
fn service_tags_map_to_platforms() {
    assert_eq!(platform_for_service("youtube_music"), Some(Platform::YoutubeMusic));
    assert_eq!(platform_for_service("apple_music"), Some(Platform::AppleMusic));
    assert_eq!(platform_for_service("deezer"), Some(Platform::Deezer));
    assert_eq!(platform_for_service("tidal"), Some(Platform::Tidal));
    assert_eq!(platform_for_service("amazon_music"), Some(Platform::AmazonMusic));
    assert_eq!(platform_for_service("spotify"), None);
}

#[test]
fn http_failures_classify_by_status() {
    assert!(matches!(
        classify_http_status(503),
        Resolution::Failure { transient: true, .. }
    ));
    assert!(matches!(classify_http_status(404), Resolution::Unmatched));
    assert!(matches!(
        classify_http_status(400),
        Resolution::Failure { transient: false, .. }
    ));
}

#[test]
fn angle_brackets_are_stripped() {
    assert_eq!(trim_angle_brackets("<https://a.example/x>"), "https://a.example/x");
    assert_eq!(trim_angle_brackets("https://a.example/x"), "https://a.example/x");
    assert_eq!(trim_angle_brackets("<<>>"), "");
    assert_eq!(trim_angle_brackets("a<b>c"), "a<b>c");
}

#[test]
fn cache_serves_fresh_answers_only() {
    let mut cache = ResolverCache::new();
    let hit = Resolution::Match {
        external_id: "yt1".to_string(),
        url: "https://music.example/yt1".to_string(),
    };
    cache.put("spotify", "src1", "youtube_music", hit, 1000);
    // Fresh within a day.
    assert!(matches!(
        cache.get("spotify", "src1", "youtube_music", 1000 + 86_399),
        Some(Resolution::Match { .. })
    ));
    // Stale after a day.
    assert!(cache.get("spotify", "src1", "youtube_music", 1000 + 86_400).is_none());
    // Another key reads as absent.
    assert!(cache.get("spotify", "src2", "youtube_music", 1001).is_none());
}

#[test]
fn unmatched_answers_expire_sooner() {
    let mut cache = ResolverCache::new();
    cache.put("spotify", "src1", "deezer", Resolution::Unmatched, 1000);
    assert!(matches!(
        cache.get("spotify", "src1", "deezer", 1000 + 3_599),
        Some(Resolution::Unmatched)
    ));
    assert!(cache.get("spotify", "src1", "deezer", 1000 + 3_600).is_none());
    // A later put refreshes the entry in place.
    cache.put("spotify", "src1", "deezer", Resolution::Unmatched, 9000);
    assert_eq!(cache.entries.len(), 1);
    assert!(cache.get("spotify", "src1", "deezer", 9001).is_some());
}

#[test]
fn songs_upsert_by_service_and_external_id() {
    let mut repo = SongRepository::new();
    let t = TrackIdentity {
        service: "spotify".to_string(),
        external_id: Some("a1".to_string()),
        title: "A".to_string(),
        artist: Some("Artist".to_string()),
        album: None,
        duration_ms: Some(1000),
    };
    let id1 = repo.upsert_song(&t, "a1", 100);
    let mut t2 = TrackIdentity {
        service: "spotify".to_string(),
        external_id: Some("a1".to_string()),
        title: "A (remaster)".to_string(),
        artist: Some("Artist".to_string()),
        album: None,
        duration_ms: Some(1000),
    };
    let id2 = repo.upsert_song(&t2, "a1", 200);
    assert_eq!(id1, id2);
    assert_eq!(repo.songs.len(), 1);
    let row = repo.get_song_by_service_id("spotify", "a1").unwrap();
    assert_eq!(row.title, "A (remaster)");
    assert_eq!(row.updated_at, 200);
    t2.service = "youtube_music".to_string();
    let id3 = repo.upsert_song(&t2, "a1", 300);
    assert_ne!(id1, id3);
    assert_eq!(repo.songs.len(), 2);
    assert!(repo.get_song_by_service_id("deezer", "a1").is_none());
}

#[test]
fn playlist_snapshot_links_are_replaced_in_order() {
    let mut links = PlaylistLinks::new();
    links.replace_playlist_songs(1, &vec![10, 20, 30]);
    links.replace_playlist_songs(2, &vec![99]);
    links.replace_playlist_songs(1, &vec![20, 40]);
    let mine: Vec<(i64, usize)> = links
        .links
        .iter()
        .filter(|l| l.playlist_id == 1)
        .map(|l| (l.song_id, l.position))
        .collect();
    assert_eq!(mine, vec![(20, 0), (40, 1)]);
    let other: Vec<i64> = links
        .links
        .iter()
        .filter(|l| l.playlist_id == 2)
        .map(|l| l.song_id)
        .collect();
    assert_eq!(other, vec![99]);
}

#[test]
fn storing_a_snapshot_links_only_tracks_with_ids() {
    let mut playlists = PlaylistRepository::new();
    let mut songs = SongRepository::new();
    let mut links = PlaylistLinks::new();
    let tracks = vec![
        TrackIdentity {
            service: "spotify".to_string(),
            external_id: Some("a".to_string()),
            title: "A".to_string(),
            artist: None,
            album: None,
            duration_ms: None,
        },
        TrackIdentity {
            service: "spotify".to_string(),
            external_id: None,
            title: "no id".to_string(),
            artist: None,
            album: None,
            duration_ms: None,
        },
        TrackIdentity {
            service: "spotify".to_string(),
            external_id: Some("b".to_string()),
            title: "B".to_string(),
            artist: None,
            album: None,
            duration_ms: None,
        },
    ];
    let stored = store_playlist_snapshot(
        &mut playlists,
        &mut songs,
        &mut links,
        "spotify",
        "pl-1",
        "My Mix",
        Some("a mix"),
        false,
        Some("owner-9"),
        &tracks,
        100,
    );
    assert_eq!(stored.len(), 2);
    assert_eq!(songs.songs.len(), 2);
    let row = playlists.get_playlist("spotify", "pl-1").unwrap();
    assert_eq!(row.name, "My Mix");
    assert_eq!(row.total_tracks, 3);
    assert_eq!(row.created_at, 100);
    let mine: Vec<(i64, usize)> = links
        .links
        .iter()
        .filter(|l| l.playlist_id == row.id)
        .map(|l| (l.song_id, l.position))
        .collect();
    assert_eq!(mine, vec![(stored[0], 0), (stored[1], 1)]);
    // A second read of the same playlist replaces, not appends, and keeps
    // the playlist row's id and creation time.
    let stored_again = store_playlist_snapshot(
        &mut playlists,
        &mut songs,
        &mut links,
        "spotify",
        "pl-1",
        "My Mix (renamed)",
        None,
        false,
        None,
        &tracks,
        200,
    );
    assert_eq!(stored_again.len(), 2);
    assert_eq!(links.links.len(), 2);
    assert_eq!(songs.songs.len(), 2);
    assert_eq!(playlists.playlists.len(), 1);
    let row2 = playlists.get_playlist("spotify", "pl-1").unwrap();
    assert_eq!(row2.id, row.id);
    assert_eq!(row2.created_at, 100);
    assert_eq!(row2.name, "My Mix (renamed)");
}
