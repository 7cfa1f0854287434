//! One sync, end to end: open the journal row, plan against the
//! snapshots, apply batch by batch, close the row, and stamp the watcher.
//!
//! The upstream reads and writes happen outside; the decisions between
//! them are these functions.

use vstd::prelude::*;

use crate::engine::{
    outcome_status, plan_matches, plan_sync, spec_status, ApplyState, Resolution, SyncCounts,
    SyncPlan, SyncStatus,
};
use crate::track::TrackIdentity;
use crate::journal::{
    journal_wf, rows_of, spec_finish_err, spec_finish_ok, spec_has_open_row, spec_has_pending,
    spec_is_terminal, spec_new_row, JournalError, OperationKind, SyncJournal,
};
use crate::track::clone_string;
use crate::watchers::{spec_row_updated, spec_with_last_sync, watcher_store_wf, watchers_of, WatcherStore};

verus! {

/// A planned song on the target service, as shown to a user.
pub struct SongResponse {
    pub id: i64,
    pub service: String,
    pub external_id: String,
    pub title: String,
    pub artist: Option<String>,
    pub album: Option<String>,
    pub duration_ms: Option<u32>,
}

/// What a preview shows: the plan's three lists.
pub struct SyncPreviewResponse {
    pub songs_to_add: Vec<SongResponse>,
    pub songs_to_remove: Vec<SongResponse>,
    pub songs_failed: Vec<crate::engine::SongFailure>,
}

/// Compute the plan of one sync without touching anything upstream.
///
/// Preview and run plan with the same function on the same snapshots, so
/// their `to_add` and `to_remove` agree.
pub fn preview_sync(
    source: &Vec<TrackIdentity>,
    resolutions: &Vec<Resolution>,
    target_service: &String,
    target: &Vec<TrackIdentity>,
) -> (plan: SyncPlan)
    requires
        source@.len() == resolutions@.len(),
    ensures
        plan_matches(
            plan,
            source@.map_values(|t: TrackIdentity| t@),
            resolutions@.map_values(|r: Resolution| r@),
            target_service@,
            target@.map_values(|t: TrackIdentity| t@),
        ),
{
    plan_sync(source, resolutions, target_service, target)
}

/// Open the journal row of one sync run: on success the journal grew by
/// exactly the fresh pending row, on refusal it did not move.
pub fn begin_sync_run(
    journal: &mut SyncJournal,
    watcher_id: i64,
    kind: OperationKind,
    now: i64,
) -> (r: Result<i64, JournalError>)
    requires
        journal_wf(*old(journal)),
        old(journal).next_id < i64::MAX,
    ensures
        journal_wf(*final(journal)),
        r matches Err(e) ==> e == JournalError::PendingExists && spec_has_pending(
            rows_of(*old(journal)),
            watcher_id,
        ) && *final(journal) == *old(journal),
        r matches Ok(id) ==> !spec_has_pending(rows_of(*old(journal)), watcher_id) && id == old(
            journal,
        ).next_id && rows_of(*final(journal)) == rows_of(*old(journal)).push(
            spec_new_row(id, watcher_id, kind, now),
        ),
{
    journal.begin(watcher_id, kind, now)
}

/// What closing a run guarantees on success: the status derives from the
/// counts, the journal row was closed with them, and on anything but a
/// failure the stamp landed on the watcher if the watcher still exists.
pub open spec fn spec_run_closed(
    j_pre: Seq<crate::journal::SyncOperationView>,
    j_post: Seq<crate::journal::SyncOperationView>,
    w_pre: Seq<crate::watchers::WatcherView>,
    w_post: Seq<crate::watchers::WatcherView>,
    row_id: i64,
    watcher_id: i64,
    state: ApplyState,
    plan: SyncPlan,
    fatal: bool,
    error_message: Option<Seq<char>>,
    now: i64,
    status: SyncStatus,
    w_pre_whole: crate::watchers::WatcherStore,
    w_post_whole: crate::watchers::WatcherStore,
) -> bool {
    let counts = SyncCounts {
        songs_added: state.added,
        songs_removed: state.removed,
        songs_failed: (state.failed_apply + plan.failed@.len()) as usize,
    };
    &&& status == spec_status(
        state.added as int,
        state.removed as int,
        counts.songs_failed as int,
        fatal,
    )
    &&& spec_is_terminal(status)
    &&& spec_finish_ok(j_pre, j_post, row_id, status, counts, error_message, now)
    &&& (status != SyncStatus::Failed && crate::watchers::spec_watcher_id_taken(
        w_pre,
        watcher_id,
    ) ==> spec_row_updated(w_pre, w_post, watcher_id, spec_with_last_sync(now)))
    &&& (status != SyncStatus::Failed && !crate::watchers::spec_watcher_id_taken(
        w_pre,
        watcher_id,
    ) ==> w_post_whole == w_pre_whole)
    &&& (status == SyncStatus::Failed ==> w_post_whole == w_pre_whole)
}

/// Close one sync run: derive the counts and the terminal status from the
/// finished apply phase, write them to the journal row, and on anything
/// but a failure stamp the watcher's last sync time, full precision.
/// With the run's pending row still open, closing cannot fail.
pub fn complete_sync_run(
    journal: &mut SyncJournal,
    watchers: &mut WatcherStore,
    row_id: i64,
    watcher_id: i64,
    state: &ApplyState,
    plan: &SyncPlan,
    fatal: bool,
    error_message: Option<String>,
    now: i64,
) -> (r: Result<SyncStatus, JournalError>)
    requires
        journal_wf(*old(journal)),
        watcher_store_wf(*old(watchers)),
        state.failed_apply + plan.failed@.len() <= usize::MAX,
    ensures
        journal_wf(*final(journal)),
        watcher_store_wf(*final(watchers)),
        spec_has_open_row(rows_of(*old(journal)), row_id) ==> r is Ok,
        r matches Ok(status) ==> spec_run_closed(
            rows_of(*old(journal)),
            rows_of(*final(journal)),
            watchers_of(*old(watchers)),
            watchers_of(*final(watchers)),
            row_id,
            watcher_id,
            *state,
            *plan,
            fatal,
            error_message.deep_view(),
            now,
            status,
            *old(watchers),
            *final(watchers),
        ),
        r matches Err(e) ==> *final(journal) == *old(journal) && *final(watchers) == *old(
            watchers,
        ) && spec_finish_err(rows_of(*old(journal)), row_id, e),
{
    let counts = state.counts(plan);
    let status = outcome_status(counts.songs_added, counts.songs_removed, counts.songs_failed, fatal);
    match journal.finish(row_id, status, counts, error_message, now) {
        Ok(_) => {},
        Err(e) => {
            return Err(e);
        },
    }
    match status {
        SyncStatus::Failed => {},
        _ => {
            let stamped = watchers.update_last_sync(watcher_id, now);
            proof {
                if crate::watchers::spec_watcher_id_taken(
                    watchers_of(*old(watchers)),
                    watcher_id,
                ) {
                    assert(stamped is Ok);
                }
            }
        },
    }
    Ok(status)
}

/// Render a plan as a preview response: each key to add or remove becomes
/// a song entry on the target service.
pub fn plan_to_preview(plan: &SyncPlan, target_service: &String) -> (r: SyncPreviewResponse)
    ensures
        r.songs_to_add@.len() == plan.to_add@.len(),
        r.songs_to_remove@.len() == plan.to_remove@.len(),
        r.songs_failed@.len() == plan.failed@.len(),
{
    let mut songs_to_add: Vec<SongResponse> = Vec::new();
    let mut i: usize = 0;
    while i < plan.to_add.len()
        invariant
            i <= plan.to_add@.len(),
            songs_to_add@.len() == i,
        decreases plan.to_add@.len() - i,
    {
        songs_to_add.push(key_to_song(&plan.to_add[i], target_service));
        i += 1;
    }
    let mut songs_to_remove: Vec<SongResponse> = Vec::new();
    let mut k: usize = 0;
    while k < plan.to_remove.len()
        invariant
            k <= plan.to_remove@.len(),
            songs_to_remove@.len() == k,
        decreases plan.to_remove@.len() - k,
    {
        songs_to_remove.push(key_to_song(&plan.to_remove[k], target_service));
        k += 1;
    }
    let mut songs_failed: Vec<crate::engine::SongFailure> = Vec::new();
    let mut m: usize = 0;
    while m < plan.failed.len()
        invariant
            m <= plan.failed@.len(),
            songs_failed@.len() == m,
        decreases plan.failed@.len() - m,
    {
        let f = &plan.failed[m];
        songs_failed.push(
            crate::engine::SongFailure {
                title: clone_string(&f.title),
                artist: match &f.artist {
                    Some(a) => Some(clone_string(a)),
                    None => None,
                },
                error: clone_string(&f.error),
            },
        );
        m += 1;
    }
    SyncPreviewResponse { songs_to_add, songs_to_remove, songs_failed }
}

/// One planned key as a song entry.
fn key_to_song(key: &crate::track::TrackKey, target_service: &String) -> (r: SongResponse) {
    match key {
        crate::track::TrackKey::ById { service, id } => SongResponse {
            id: 0,
            service: clone_string(service),
            external_id: clone_string(id),
            title: String::new(),
            artist: None,
            album: None,
            duration_ms: None,
        },
        crate::track::TrackKey::ByMeta { artist, title, duration_s } => SongResponse {
            id: 0,
            service: clone_string(target_service),
            external_id: String::new(),
            title: clone_string(title),
            artist: Some(clone_string(artist)),
            album: None,
            duration_ms: if *duration_s <= u32::MAX / 1000 {
                Some(*duration_s * 1000)
            } else {
                None
            },
        },
    }
}

} // verus!
