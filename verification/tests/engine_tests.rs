use playlist_sync::engine::{
    backoff_seconds, outcome_status, plan_sync, ApplyPhase, ApplyState, BatchOutcome, NextStep,
    Resolution, SyncStatus,
};
use playlist_sync::track::{canonical_key, normalize, round_to_seconds, TrackIdentity, TrackKey};

fn track(service: &str, id: &str, title: &str) -> TrackIdentity {
    TrackIdentity {
        service: service.to_string(),
        external_id: Some(id.to_string()),
        title: title.to_string(),
        artist: Some("Artist".to_string()),
        album: None,
        duration_ms: Some(200_000),
    }
}

fn matched(id: &str) -> Resolution {
    Resolution::Match {
        external_id: id.to_string(),
        url: format!("https://target/{}", id),
    }
}

fn key_id(k: &TrackKey) -> (String, String) {
    match k {
        TrackKey::ById { service, id } => (service.clone(), id.clone()),
        TrackKey::ByMeta { artist, title, .. } => (artist.clone(), title.clone()),
    }
}

#[test]
fn empty_mirror_adds_the_one_track() {
    // Source holds one track, the target playlist is absent: the resolved
    // track is added, nothing is removed, nothing fails.
    let source = vec![track("spotify", "a1", "A")];
    let resolutions = vec![matched("a1-target")];
    let target: Vec<TrackIdentity> = Vec::new();
    let plan = plan_sync(&source, &resolutions, &"youtube_music".to_string(), &target);
    assert_eq!(plan.to_add.len(), 1);
    assert_eq!(plan.to_remove.len(), 0);
    assert_eq!(plan.failed.len(), 0);
    assert_eq!(
        key_id(&plan.to_add[0]),
        ("youtube_music".to_string(), "a1-target".to_string())
    );
    let status = outcome_status(1, 0, 0, false);
    assert_eq!(status, SyncStatus::Completed);
}

#[test]
fn no_op_when_target_already_mirrors_source() {
    let source = vec![track("spotify", "a1", "A")];
    let resolutions = vec![matched("a1-target")];
    let target = vec![track("youtube_music", "a1-target", "A")];
    let plan = plan_sync(&source, &resolutions, &"youtube_music".to_string(), &target);
    assert_eq!(plan.to_add.len(), 0);
    assert_eq!(plan.to_remove.len(), 0);
    assert_eq!(outcome_status(0, 0, 0, false), SyncStatus::Completed);
}

#[test]
fn drift_adds_and_removes_one_each() {
    // Source [A, B], target [A', C']: B' is added, C' is removed.
    let source = vec![track("spotify", "a1", "A"), track("spotify", "b1", "B")];
    let resolutions = vec![matched("a-t"), matched("b-t")];
    let target = vec![
        track("youtube_music", "a-t", "A"),
        track("youtube_music", "c-t", "C"),
    ];
    let plan = plan_sync(&source, &resolutions, &"youtube_music".to_string(), &target);
    assert_eq!(plan.to_add.len(), 1);
    assert_eq!(
        key_id(&plan.to_add[0]),
        ("youtube_music".to_string(), "b-t".to_string())
    );
    assert_eq!(plan.to_remove.len(), 1);
    assert_eq!(
        key_id(&plan.to_remove[0]),
        ("youtube_music".to_string(), "c-t".to_string())
    );
    assert_eq!(outcome_status(1, 1, 0, false), SyncStatus::Completed);
}

#[test]
fn unresolvable_track_counts_failed() {
    // Resolver knows nothing of B: one failure, the rest still syncs.
    let source = vec![track("spotify", "a1", "A"), track("spotify", "b1", "B")];
    let resolutions = vec![matched("a-t"), Resolution::Unmatched];
    let target: Vec<TrackIdentity> = Vec::new();
    let plan = plan_sync(&source, &resolutions, &"youtube_music".to_string(), &target);
    assert!(plan.to_add.len() <= 1);
    assert_eq!(plan.failed.len(), 1);
    assert_eq!(plan.failed[0].title, "B");
    assert_eq!(
        outcome_status(plan.to_add.len(), 0, plan.failed.len(), false),
        SyncStatus::CompletedWithErrors
    );
}

#[test]
fn empty_source_removes_whole_target() {
    let source: Vec<TrackIdentity> = Vec::new();
    let resolutions: Vec<Resolution> = Vec::new();
    let target = vec![
        track("youtube_music", "x", "X"),
        track("youtube_music", "y", "Y"),
    ];
    let plan = plan_sync(&source, &resolutions, &"youtube_music".to_string(), &target);
    assert_eq!(plan.to_add.len(), 0);
    assert_eq!(plan.to_remove.len(), 2);
}

#[test]
fn absent_target_only_adds() {
    let source = vec![track("spotify", "a", "A"), track("spotify", "b", "B")];
    let resolutions = vec![matched("a-t"), matched("b-t")];
    let target: Vec<TrackIdentity> = Vec::new();
    let plan = plan_sync(&source, &resolutions, &"youtube_music".to_string(), &target);
    assert_eq!(plan.to_remove.len(), 0);
    assert_eq!(plan.to_add.len(), 2);
}

#[test]
fn duplicate_source_tracks_collapse() {
    // The same track twice in the source: first occurrence wins, the count
    // is not inflated.
    let source = vec![
        track("spotify", "a", "A"),
        track("spotify", "a", "A"),
        track("spotify", "b", "B"),
    ];
    let resolutions = vec![matched("a-t"), matched("a-t"), matched("b-t")];
    let target: Vec<TrackIdentity> = Vec::new();
    let plan = plan_sync(&source, &resolutions, &"youtube_music".to_string(), &target);
    assert_eq!(plan.to_add.len(), 2);
    assert_eq!(
        key_id(&plan.to_add[0]),
        ("youtube_music".to_string(), "a-t".to_string())
    );
    assert_eq!(
        key_id(&plan.to_add[1]),
        ("youtube_music".to_string(), "b-t".to_string())
    );
}

#[test]
fn counts_never_exceed_sources() {
    let source = vec![track("spotify", "a", "A"), track("spotify", "b", "B")];
    let resolutions = vec![matched("a-t"), Resolution::Unmatched];
    let target = vec![track("youtube_music", "z", "Z")];
    let plan = plan_sync(&source, &resolutions, &"youtube_music".to_string(), &target);
    let total = plan.to_add.len() + plan.to_remove.len() + plan.failed.len();
    assert!(total <= source.len() + target.len());
}

#[test]
fn second_run_is_clean() {
    // After a successful run the target mirrors the resolved keys; the
    // second run plans nothing.
    let source = vec![track("spotify", "a", "A"), track("spotify", "b", "B")];
    let resolutions = vec![matched("a-t"), matched("b-t")];
    let target_after_first = vec![
        track("youtube_music", "a-t", "A"),
        track("youtube_music", "b-t", "B"),
    ];
    let plan = plan_sync(
        &source,
        &resolutions,
        &"youtube_music".to_string(),
        &target_after_first,
    );
    assert_eq!(plan.to_add.len(), 0);
    assert_eq!(plan.to_remove.len(), 0);
    assert_eq!(outcome_status(0, 0, 0, false), SyncStatus::Completed);
}

#[test]
fn preview_and_run_agree() {
    let source = vec![track("spotify", "a", "A"), track("spotify", "b", "B")];
    let resolutions = vec![matched("a-t"), matched("b-t")];
    let target = vec![track("youtube_music", "c-t", "C")];
    let svc = "youtube_music".to_string();
    let preview = plan_sync(&source, &resolutions, &svc, &target);
    let run = plan_sync(&source, &resolutions, &svc, &target);
    let pa: Vec<_> = preview.to_add.iter().map(key_id).collect();
    let ra: Vec<_> = run.to_add.iter().map(key_id).collect();
    assert_eq!(pa, ra);
    let pr: Vec<_> = preview.to_remove.iter().map(key_id).collect();
    let rr: Vec<_> = run.to_remove.iter().map(key_id).collect();
    assert_eq!(pr, rr);
}

#[test]
fn rate_limited_batch_retries_then_succeeds() {
    // The first upstream call is rate limited for two seconds; the retry
    // succeeds and everything is added.
    let source = vec![track("spotify", "a", "A")];
    let resolutions = vec![matched("a-t")];
    let target: Vec<TrackIdentity> = Vec::new();
    let plan = plan_sync(&source, &resolutions, &"youtube_music".to_string(), &target);
    let mut state = ApplyState::start(&plan);

    match state.next_action(&plan) {
        NextStep::RunBatch { phase, start, len } => {
            assert_eq!(phase, ApplyPhase::Adding);
            assert_eq!(start, 0);
            assert_eq!(len, 1);
        }
        _ => panic!("expected a batch"),
    }
    let limited = BatchOutcome::RateLimited { retry_after_s: 2 };
    let wait = backoff_seconds(&limited, state.attempts);
    assert!(wait >= 2);
    state.record_batch(&plan, &limited);
    assert_eq!(state.attempts, 1);

    match state.next_action(&plan) {
        NextStep::RunBatch { start, len, .. } => {
            assert_eq!(start, 0);
            assert_eq!(len, 1);
        }
        _ => panic!("expected the same batch again"),
    }
    state.record_batch(&plan, &BatchOutcome::Success);
    assert_eq!(state.added, 1);
    assert_eq!(state.phase, ApplyPhase::Done);
    let counts = state.counts(&plan);
    assert_eq!(counts.songs_added, 1);
    assert_eq!(counts.songs_failed, 0);
    assert_eq!(
        outcome_status(counts.songs_added, counts.songs_removed, counts.songs_failed, false),
        SyncStatus::Completed
    );
}

#[test]
fn three_transient_failures_fail_the_batch() {
    let source = vec![track("spotify", "a", "A")];
    let resolutions = vec![matched("a-t")];
    let target: Vec<TrackIdentity> = Vec::new();
    let plan = plan_sync(&source, &resolutions, &"youtube_music".to_string(), &target);
    let mut state = ApplyState::start(&plan);
    let flaky = BatchOutcome::Upstream { status: 503 };
    state.record_batch(&plan, &flaky);
    state.record_batch(&plan, &flaky);
    state.record_batch(&plan, &flaky);
    assert_eq!(state.failed_apply, 1);
    assert_eq!(state.added, 0);
    assert_eq!(state.phase, ApplyPhase::Done);
}

#[test]
fn cancel_stops_further_batches() {
    // A stop delivered mid-apply: the current batch settles, then nothing
    // more is handed out.
    let mut source = Vec::new();
    let mut resolutions = Vec::new();
    for i in 0..150 {
        source.push(track("spotify", &format!("s{}", i), "T"));
        resolutions.push(matched(&format!("t{}", i)));
    }
    let target: Vec<TrackIdentity> = Vec::new();
    let plan = plan_sync(&source, &resolutions, &"youtube_music".to_string(), &target);
    assert_eq!(plan.to_add.len(), 150);
    let mut state = ApplyState::start(&plan);
    match state.next_action(&plan) {
        NextStep::RunBatch { len, .. } => assert_eq!(len, 100),
        _ => panic!("expected a batch"),
    }
    state.record_batch(&plan, &BatchOutcome::Success);
    state.cancel();
    match state.next_action(&plan) {
        NextStep::Finished => {}
        _ => panic!("no batch may start after a cancel"),
    }
    // The journal row still carries the counts achieved so far.
    let counts = state.counts(&plan);
    assert_eq!(counts.songs_added, 100);
}

#[test]
fn canonical_key_falls_back_to_normalized_metadata() {
    let t = TrackIdentity {
        service: "spotify".to_string(),
        external_id: None,
        title: "  Some   SONG  ".to_string(),
        artist: Some("The\tARTIST".to_string()),
        album: None,
        duration_ms: Some(200_499),
    };
    match canonical_key(&t) {
        TrackKey::ByMeta { artist, title, duration_s } => {
            assert_eq!(title, "some song");
            assert_eq!(artist, "the artist");
            assert_eq!(duration_s, 200);
        }
        _ => panic!("expected a metadata key"),
    }
}

#[test]
fn normalize_folds_case_and_collapses_space() {
    assert_eq!(normalize("  HeLLo   WoRld "), "hello world");
    assert_eq!(normalize(""), "");
    assert_eq!(normalize(" \t\n"), "");
    assert_eq!(round_to_seconds(1499), 1);
    assert_eq!(round_to_seconds(1500), 2);
}
