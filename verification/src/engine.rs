//! The sync engine: diff a source-playlist snapshot against a
//! target-playlist snapshot and decide what to add, what to remove, and
//! what failed.
//!
//! The engine works on snapshots and resolution outcomes handed in as plain
//! values; reading playlists and calling the link-matching API happen at the
//! edges.  `plan_sync` computes the diff; the apply phase is driven one
//! batch at a time through `ApplyState`.

use vstd::prelude::*;
use vstd::string::StringExecFns;

use crate::track::{
    canonical_key, clone_string, spec_canonical_key, TrackIdentity, TrackIdentityView, TrackKey,
    TrackKeyView,
};

verus! {

/// The outcome of resolving one source track onto the target service.
pub enum Resolution {
    /// The track already lives on the target service: its own key stands.
    NotNeeded,
    /// The link-matching API found the track on the target service.
    Match { external_id: String, url: String },
    /// The link-matching API knows the track nowhere on the target service.
    Unmatched,
    /// The lookup failed; transient failures may succeed on a later run.
    Failure { transient: bool, reason: String },
}

/// Mathematical model of a `Resolution`.
pub enum ResolutionView {
    NotNeeded,
    Match { external_id: Seq<char>, url: Seq<char> },
    Unmatched,
    Failure { transient: bool, reason: Seq<char> },
}

impl View for Resolution {
    type V = ResolutionView;

    open spec fn view(&self) -> ResolutionView {
        match self {
            Resolution::NotNeeded => ResolutionView::NotNeeded,
            Resolution::Match { external_id, url } => ResolutionView::Match {
                external_id: external_id@,
                url: url@,
            },
            Resolution::Unmatched => ResolutionView::Unmatched,
            Resolution::Failure { transient, reason } => ResolutionView::Failure {
                transient: *transient,
                reason: reason@,
            },
        }
    }
}

/// The key a resolved source track will carry on the target service, or
/// `None` when resolution failed.
pub open spec fn spec_resolved_key(
    t: TrackIdentityView,
    r: ResolutionView,
    target_service: Seq<char>,
) -> Option<TrackKeyView> {
    match r {
        ResolutionView::NotNeeded => Some(spec_canonical_key(t)),
        ResolutionView::Match { external_id, .. } => Some(TrackKeyView::ById {
            service: target_service,
            id: external_id,
        }),
        ResolutionView::Unmatched => None,
        ResolutionView::Failure { .. } => None,
    }
}

/// The target-service keys of the resolved source tracks, in source order,
/// duplicates kept.
pub open spec fn spec_resolved_keys(
    source: Seq<TrackIdentityView>,
    res: Seq<ResolutionView>,
    target_service: Seq<char>,
) -> Seq<TrackKeyView>
    decreases source.len(),
{
    if source.len() == 0 || res.len() == 0 {
        Seq::empty()
    } else {
        let head = match spec_resolved_key(source.first(), res.first(), target_service) {
            Some(k) => seq![k],
            None => Seq::empty(),
        };
        head + spec_resolved_keys(source.drop_first(), res.drop_first(), target_service)
    }
}

/// The canonical keys of a snapshot, in order.
pub open spec fn spec_snapshot_keys(tracks: Seq<TrackIdentityView>) -> Seq<TrackKeyView> {
    tracks.map_values(|t: TrackIdentityView| spec_canonical_key(t))
}

/// One side of the diff: walk `keys` front to back, keep the first
/// occurrence of each key that is absent from `other`, and drop the rest.
pub open spec fn spec_diff(
    keys: Seq<TrackKeyView>,
    other: Seq<TrackKeyView>,
    seen: Set<TrackKeyView>,
) -> Seq<TrackKeyView>
    decreases keys.len(),
{
    if keys.len() == 0 {
        Seq::empty()
    } else {
        let k = keys.first();
        let rest = spec_diff(keys.drop_first(), other, seen.insert(k));
        if !seen.contains(k) && !other.contains(k) {
            seq![k] + rest
        } else {
            rest
        }
    }
}

/// One when a resolution failed, zero when it succeeded.
pub open spec fn spec_failure_cost(r: ResolutionView) -> int {
    match r {
        ResolutionView::Unmatched => 1int,
        ResolutionView::Failure { .. } => 1int,
        _ => 0int,
    }
}

/// The number of failed resolutions.
pub open spec fn spec_failed_count(res: Seq<ResolutionView>) -> int
    decreases res.len(),
{
    if res.len() == 0 {
        0int
    } else {
        spec_failure_cost(res.first()) + spec_failed_count(res.drop_first())
    }
}

/// A record of one source track that could not be carried over.
pub struct SongFailure {
    pub title: String,
    pub artist: Option<String>,
    pub error: String,
}

/// What one sync would do: the keys to add to the target, the keys to
/// remove from it, and the source tracks whose resolution failed.
pub struct SyncPlan {
    pub to_add: Vec<TrackKey>,
    pub to_remove: Vec<TrackKey>,
    pub failed: Vec<SongFailure>,
}

/// The sequence of key views a key vector stands for.
pub open spec fn key_views(v: Seq<TrackKey>) -> Seq<TrackKeyView> {
    v.map_values(|k: TrackKey| k@)
}

/// The well-formed relation between a plan and the snapshots it was
/// computed from.
pub open spec fn plan_matches(
    plan: SyncPlan,
    source: Seq<TrackIdentityView>,
    res: Seq<ResolutionView>,
    target_service: Seq<char>,
    target: Seq<TrackIdentityView>,
) -> bool {
    let rk = spec_resolved_keys(source, res, target_service);
    let tk = spec_snapshot_keys(target);
    &&& key_views(plan.to_add@) == spec_diff(rk, tk, Set::empty())
    &&& key_views(plan.to_remove@) == spec_diff(tk, rk, Set::empty())
    &&& plan.failed@.len() == spec_failed_count(res)
}

/// Decide whether any key in `keys` models the same class as `k`.
fn keys_contain(keys: &Vec<TrackKey>, k: &TrackKey) -> (r: bool)
    ensures
        r == key_views(keys@).contains(k@),
{
    let mut i: usize = 0;
    while i < keys.len()
        invariant
            i <= keys@.len(),
            forall|j: int| 0 <= j < i ==> key_views(keys@)[j] != k@,
        decreases keys@.len() - i,
    {
        if keys[i].matches(k) {
            assert(key_views(keys@)[i as int] == k@);
            return true;
        }
        i += 1;
    }
    false
}

/// Compute the diff one sync would apply.
///
/// `resolutions[i]` is the resolution outcome for `source[i]`.  The keys to
/// add are the resolved target keys absent from the target snapshot, first
/// occurrence first; the keys to remove are the target keys no resolved
/// source track accounts for; a failure is recorded for every source track
/// whose resolution came back `Unmatched` or `Failure`.
pub fn plan_sync(
    source: &Vec<TrackIdentity>,
    resolutions: &Vec<Resolution>,
    target_service: &String,
    target: &Vec<TrackIdentity>,
) -> (plan: SyncPlan)
    requires
        source@.len() == resolutions@.len(),
    ensures
        plan_matches(
            plan,
            source@.map_values(|t: TrackIdentity| t@),
            resolutions@.map_values(|r: Resolution| r@),
            target_service@,
            target@.map_values(|t: TrackIdentity| t@),
        ),
{
    let ghost source_v = source@.map_values(|t: TrackIdentity| t@);
    let ghost res_v = resolutions@.map_values(|r: Resolution| r@);
    let ghost target_v = target@.map_values(|t: TrackIdentity| t@);
    let ghost rk = spec_resolved_keys(source_v, res_v, target_service@);
    let ghost tk = spec_snapshot_keys(target_v);

    // Target snapshot keys, in order.
    let mut target_keys: Vec<TrackKey> = Vec::new();
    let mut i: usize = 0;
    proof {
        assert(key_views(target_keys@) =~= tk.take(0));
    }
    while i < target.len()
        invariant
            i <= target@.len(),
            target_v == target@.map_values(|t: TrackIdentity| t@),
            tk == spec_snapshot_keys(target_v),
            key_views(target_keys@) =~= tk.take(i as int),
        decreases target@.len() - i,
    {
        let k = canonical_key(&target[i]);
        let ghost old_tk = target_keys@;
        proof {
            assert(tk.take(i + 1) =~= tk.take(i as int).push(spec_canonical_key(target_v[i as int])));
        }
        target_keys.push(k);
        proof {
            assert(key_views(target_keys@) =~= key_views(old_tk).push(
                spec_canonical_key(target_v[i as int]),
            ));
        }
        i += 1;
    }
    proof {
        assert(tk.take(target_v.len() as int) =~= tk);
    }

    // Resolved source keys, in order, duplicates kept.
    let mut resolved_keys: Vec<TrackKey> = Vec::new();
    let mut failed: Vec<SongFailure> = Vec::new();
    let mut i: usize = 0;
    proof {
        assert(source_v.skip(0) =~= source_v);
        assert(res_v.skip(0) =~= res_v);
        assert(key_views(resolved_keys@) + rk =~= rk);
        assert(res_v.take(0) =~= Seq::<ResolutionView>::empty());
    }
    while i < source.len()
        invariant
            i <= source@.len(),
            source@.len() == resolutions@.len(),
            source_v == source@.map_values(|t: TrackIdentity| t@),
            res_v == resolutions@.map_values(|r: Resolution| r@),
            rk == spec_resolved_keys(source_v, res_v, target_service@),
            key_views(resolved_keys@) + spec_resolved_keys(
                source_v.skip(i as int),
                res_v.skip(i as int),
                target_service@,
            ) =~= rk,
            failed@.len() == spec_failed_count(res_v.take(i as int)),
        decreases source@.len() - i,
    {
        proof {
            assert(source_v.skip(i as int).first() == source_v[i as int]);
            assert(res_v.skip(i as int).first() == res_v[i as int]);
            assert(source_v.skip(i as int).drop_first() =~= source_v.skip(i + 1));
            assert(res_v.skip(i as int).drop_first() =~= res_v.skip(i + 1));
            assert(res_v.take(i + 1) =~= res_v.take(i as int).push(res_v[i as int]));
            lemma_failed_count_push(res_v.take(i as int), res_v[i as int]);
        }
        let ghost old_resolved = resolved_keys@;
        match &resolutions[i] {
            Resolution::NotNeeded => {
                let k = canonical_key(&source[i]);
                resolved_keys.push(k);
                proof {
                    assert(key_views(resolved_keys@) =~= key_views(old_resolved).push(
                        spec_canonical_key(source_v[i as int]),
                    ));
                }
            },
            Resolution::Match { external_id, url: _ } => {
                let ghost id_v = external_id@;
                let k = TrackKey::ById {
                    service: clone_string(target_service),
                    id: clone_string(external_id),
                };
                resolved_keys.push(k);
                proof {
                    assert(key_views(resolved_keys@) =~= key_views(old_resolved).push(
                        TrackKeyView::ById { service: target_service@, id: id_v },
                    ));
                }
            },
            Resolution::Unmatched => {
                failed.push(SongFailure {
                    title: clone_string(&source[i].title),
                    artist: match &source[i].artist {
                        Some(a) => Some(clone_string(a)),
                        None => None,
                    },
                    error: String::from_str("track not found on ").concat(target_service.as_str()),
                });
            },
            Resolution::Failure { transient: _, reason } => {
                failed.push(SongFailure {
                    title: clone_string(&source[i].title),
                    artist: match &source[i].artist {
                        Some(a) => Some(clone_string(a)),
                        None => None,
                    },
                    error: clone_string(reason),
                });
            },
        }
        i += 1;
    }
    proof {
        assert(spec_resolved_keys(
            source_v.skip(source_v.len() as int),
            res_v.skip(source_v.len() as int),
            target_service@,
        ) =~= Seq::<TrackKeyView>::empty());
        assert(key_views(resolved_keys@) =~= rk);
        assert(res_v.take(res_v.len() as int) =~= res_v);
    }

    let to_add = diff_keys(&resolved_keys, &target_keys);
    let to_remove = diff_keys(&target_keys, &resolved_keys);
    SyncPlan { to_add, to_remove, failed }
}

/// Walk `keys` front to back and keep the first occurrence of every key
/// that `other` does not contain.
fn diff_keys(keys: &Vec<TrackKey>, other: &Vec<TrackKey>) -> (out: Vec<TrackKey>)
    ensures
        key_views(out@) == spec_diff(key_views(keys@), key_views(other@), Set::empty()),
{
    let ghost ks = key_views(keys@);
    let ghost os = key_views(other@);
    let mut out: Vec<TrackKey> = Vec::new();
    let mut seen: Vec<TrackKey> = Vec::new();
    let mut i: usize = 0;
    proof {
        assert(ks.skip(0) =~= ks);
        assert(key_views(seen@).to_set() =~= Set::<TrackKeyView>::empty());
        assert(key_views(out@) + spec_diff(ks, os, Set::empty()) =~= spec_diff(
            ks,
            os,
            Set::empty(),
        ));
    }
    while i < keys.len()
        invariant
            i <= keys@.len(),
            ks == key_views(keys@),
            os == key_views(other@),
            key_views(out@) + spec_diff(ks.skip(i as int), os, key_views(seen@).to_set())
                =~= spec_diff(ks, os, Set::empty()),
        decreases keys@.len() - i,
    {
        proof {
            assert(ks.skip(i as int).first() == ks[i as int]);
            assert(ks.skip(i as int).drop_first() =~= ks.skip(i + 1));
        }
        let ghost old_out = out@;
        let ghost old_seen = seen@;
        let in_seen = keys_contain(&seen, &keys[i]);
        if !in_seen {
            let in_other = keys_contain(other, &keys[i]);
            if !in_other {
                out.push(keys[i].duplicate());
                proof {
                    assert(key_views(out@) =~= key_views(old_out).push(ks[i as int]));
                }
            }
            seen.push(keys[i].duplicate());
            proof {
                assert(key_views(seen@) =~= key_views(old_seen).push(ks[i as int]));
                key_views(old_seen).lemma_push_to_set_commute(ks[i as int]);
            }
        } else {
            proof {
                assert(key_views(old_seen).to_set().insert(ks[i as int]) =~= key_views(
                    old_seen,
                ).to_set());
            }
        }
        i += 1;
    }
    proof {
        assert(spec_diff(ks.skip(ks.len() as int), os, key_views(seen@).to_set())
            =~= Seq::<TrackKeyView>::empty());
        assert(key_views(out@) =~= spec_diff(ks, os, Set::empty()));
    }
    out
}

/// Terminal and non-terminal states of one sync attempt.
#[derive(Clone, Copy, PartialEq, Eq, Structural, Debug)]
pub enum SyncStatus {
    Pending,
    Completed,
    CompletedWithErrors,
    Failed,
}

/// The final counts of one sync.
#[derive(Clone, Copy, PartialEq, Eq, Structural, Debug)]
pub struct SyncCounts {
    pub songs_added: usize,
    pub songs_removed: usize,
    pub songs_failed: usize,
}

/// The terminal status of a sync, from its counts and whether a fatal
/// error (an unreadable source, every batch lost) cut it short.
pub open spec fn spec_status(added: int, removed: int, failed: int, fatal: bool) -> SyncStatus {
    if fatal && added == 0 && removed == 0 {
        SyncStatus::Failed
    } else if failed == 0 {
        SyncStatus::Completed
    } else {
        SyncStatus::CompletedWithErrors
    }
}

/// Map a finished sync onto its terminal status.
pub fn outcome_status(added: usize, removed: usize, failed: usize, fatal: bool) -> (r: SyncStatus)
    ensures
        r == spec_status(added as int, removed as int, failed as int, fatal),
{
    if fatal && added == 0 && removed == 0 {
        SyncStatus::Failed
    } else if failed == 0 {
        SyncStatus::Completed
    } else {
        SyncStatus::CompletedWithErrors
    }
}

/// The largest number of ids one upstream batch request may carry.
pub const MAX_BATCH: usize = 100;

/// How many times one batch is attempted before it is given up.
pub const MAX_ATTEMPTS: u8 = 3;

/// Which list of keys the apply phase is working through.
#[derive(Clone, Copy, PartialEq, Eq, Structural, Debug)]
pub enum ApplyPhase {
    Adding,
    Removing,
    Done,
}

/// The apply phase of one sync, driven one batch at a time.
///
/// The caller asks `next_action` what to do, performs the upstream request
/// itself, and reports what came back through `record_batch`.
pub struct ApplyState {
    pub phase: ApplyPhase,
    /// Index of the first key of the current batch within the current
    /// phase's list.
    pub next_index: usize,
    /// Failed attempts already made for the current batch.
    pub attempts: u8,
    pub added: usize,
    pub removed: usize,
    pub failed_apply: usize,
    pub cancelled: bool,
}

/// Bookkeeping that ties an `ApplyState` to the plan it is applying: every
/// consumed key was either applied or counted failed, and no index runs
/// past its list.
pub open spec fn apply_wf(s: ApplyState, plan: SyncPlan) -> bool {
    let add_len = plan.to_add@.len() as int;
    let rm_len = plan.to_remove@.len() as int;
    &&& add_len + rm_len <= usize::MAX
    &&& s.attempts < MAX_ATTEMPTS
    &&& match s.phase {
        ApplyPhase::Adding => {
            &&& s.next_index < add_len
            &&& s.removed == 0
            &&& s.added + s.failed_apply == s.next_index
        },
        ApplyPhase::Removing => {
            &&& s.next_index < rm_len
            &&& s.added + s.removed + s.failed_apply == add_len + s.next_index
        },
        ApplyPhase::Done => { s.added + s.removed + s.failed_apply == add_len + rm_len },
    }
}

/// What the engine asks its caller to do next.
pub enum NextStep {
    /// Send the keys `[start, start + len)` of the given phase's list
    /// upstream.
    RunBatch { phase: ApplyPhase, start: usize, len: usize },
    /// Wait this many seconds, then ask again.
    Backoff { seconds: u32 },
    /// The apply phase is over.
    Finished,
}

/// What one upstream batch request came back with.
pub enum BatchOutcome {
    Success,
    RateLimited { retry_after_s: u32 },
    Upstream { status: u16 },
}

/// A batch outcome worth retrying: a rate limit or a server-side failure.
pub open spec fn spec_transient(o: BatchOutcome) -> bool {
    match o {
        BatchOutcome::Success => false,
        BatchOutcome::RateLimited { .. } => true,
        BatchOutcome::Upstream { status } => status >= 500,
    }
}

/// The size of the batch starting at `next_index` in a list of `len` keys.
pub open spec fn spec_batch_len(len: int, next: int) -> int {
    if len - next < MAX_BATCH as int {
        len - next
    } else {
        MAX_BATCH as int
    }
}

/// The batch outcome was a success.
pub open spec fn spec_succeeded(o: BatchOutcome) -> bool {
    o matches BatchOutcome::Success
}

/// The engine will try the same batch again: the failure was transient and
/// attempts remain.
pub open spec fn spec_will_retry(o: BatchOutcome, attempts: int) -> bool {
    spec_transient(o) && attempts + 1 < MAX_ATTEMPTS as int
}

/// The engine gives the batch up: a terminal failure, or the last allowed
/// attempt of a transient one.
pub open spec fn spec_gives_up(o: BatchOutcome, attempts: int) -> bool {
    (!spec_transient(o) && !spec_succeeded(o)) || (spec_transient(o) && attempts + 1
        >= MAX_ATTEMPTS as int)
}

/// A retry changes nothing but the attempt counter.
pub open spec fn spec_retry_step(pre: ApplyState, post: ApplyState) -> bool {
    &&& post.attempts == pre.attempts + 1
    &&& post.phase == pre.phase
    &&& post.next_index == pre.next_index
    &&& post.added == pre.added
    &&& post.removed == pre.removed
    &&& post.failed_apply == pre.failed_apply
}

/// The length of the list the pre-state's phase was working through.
pub open spec fn spec_phase_list_len(pre: ApplyState, plan: SyncPlan) -> int {
    match pre.phase {
        ApplyPhase::Adding => plan.to_add@.len() as int,
        _ => plan.to_remove@.len() as int,
    }
}

/// The current batch is settled: on success its keys count as applied to
/// the phase's list, otherwise they all count failed; either way the
/// attempt counter resets and the engine moves past the batch.
pub open spec fn spec_batch_settled(
    pre: ApplyState,
    post: ApplyState,
    plan: SyncPlan,
    success: bool,
) -> bool {
    let len = spec_batch_len(spec_phase_list_len(pre, plan), pre.next_index as int);
    &&& post.attempts == 0
    &&& (success ==> {
        &&& post.failed_apply == pre.failed_apply
        &&& (pre.phase == ApplyPhase::Adding ==> post.added == pre.added + len && post.removed
            == pre.removed)
        &&& (pre.phase == ApplyPhase::Removing ==> post.removed == pre.removed + len && post.added
            == pre.added)
    })
    &&& (!success ==> {
        &&& post.failed_apply == pre.failed_apply + len
        &&& post.added == pre.added
        &&& post.removed == pre.removed
    })
}

impl ApplyState {
    /// Begin applying a plan.
    pub fn start(plan: &SyncPlan) -> (s: ApplyState)
        requires
            plan.to_add@.len() + plan.to_remove@.len() <= usize::MAX,
        ensures
            apply_wf(s, *plan),
            !s.cancelled,
            s.added == 0 && s.removed == 0 && s.failed_apply == 0,
            plan.to_add@.len() == 0 && plan.to_remove@.len() == 0 ==> s.phase == ApplyPhase::Done,
    {
        let phase = if plan.to_add.len() > 0 {
            ApplyPhase::Adding
        } else if plan.to_remove.len() > 0 {
            ApplyPhase::Removing
        } else {
            ApplyPhase::Done
        };
        ApplyState {
            phase,
            next_index: 0,
            attempts: 0,
            added: 0,
            removed: 0,
            failed_apply: 0,
            cancelled: false,
        }
    }

    /// Note a cancel request.  Nothing else changes; `next_action` will not
    /// hand out another batch.
    pub fn cancel(&mut self)
        ensures
            final(self).cancelled,
            final(self).phase == old(self).phase,
            final(self).next_index == old(self).next_index,
            final(self).attempts == old(self).attempts,
            final(self).added == old(self).added,
            final(self).removed == old(self).removed,
            final(self).failed_apply == old(self).failed_apply,
    {
        self.cancelled = true;
    }

    /// Decide the next step.  After a cancel, or once both lists are
    /// consumed, nothing more runs.
    pub fn next_action(&self, plan: &SyncPlan) -> (r: NextStep)
        requires
            apply_wf(*self, *plan),
        ensures
            self.cancelled || self.phase == ApplyPhase::Done ==> (r matches NextStep::Finished),
            !self.cancelled && self.phase == ApplyPhase::Adding ==> r == (NextStep::RunBatch {
                phase: ApplyPhase::Adding,
                start: self.next_index,
                len: spec_batch_len(plan.to_add@.len() as int, self.next_index as int) as usize,
            }),
            !self.cancelled && self.phase == ApplyPhase::Removing ==> r == (NextStep::RunBatch {
                phase: ApplyPhase::Removing,
                start: self.next_index,
                len: spec_batch_len(plan.to_remove@.len() as int, self.next_index as int) as usize,
            }),
    {
        if self.cancelled {
            return NextStep::Finished;
        }
        match self.phase {
            ApplyPhase::Adding => {
                let left = plan.to_add.len() - self.next_index;
                NextStep::RunBatch {
                    phase: ApplyPhase::Adding,
                    start: self.next_index,
                    len: if left < MAX_BATCH {
                        left
                    } else {
                        MAX_BATCH
                    },
                }
            },
            ApplyPhase::Removing => {
                let left = plan.to_remove.len() - self.next_index;
                NextStep::RunBatch {
                    phase: ApplyPhase::Removing,
                    start: self.next_index,
                    len: if left < MAX_BATCH {
                        left
                    } else {
                        MAX_BATCH
                    },
                }
            },
            ApplyPhase::Done => NextStep::Finished,
        }
    }

    /// Record what the current batch's upstream request came back with.
    ///
    /// A transient failure is retried until the batch has failed
    /// `MAX_ATTEMPTS` times; then, and on any other failure, the whole
    /// batch counts failed and the engine moves on.  Success counts the
    /// batch's keys as applied.
    pub fn record_batch(&mut self, plan: &SyncPlan, outcome: &BatchOutcome)
        requires
            apply_wf(*old(self), *plan),
            old(self).phase != ApplyPhase::Done,
        ensures
            apply_wf(*final(self), *plan),
            final(self).cancelled == old(self).cancelled,
            spec_will_retry(*outcome, old(self).attempts as int) ==> spec_retry_step(
                *old(self),
                *final(self),
            ),
            spec_succeeded(*outcome) ==> spec_batch_settled(*old(self), *final(self), *plan, true),
            spec_gives_up(*outcome, old(self).attempts as int) ==> spec_batch_settled(
                *old(self),
                *final(self),
                *plan,
                false,
            ),
    {
        let transient = match outcome {
            BatchOutcome::Success => false,
            BatchOutcome::RateLimited { .. } => true,
            BatchOutcome::Upstream { status } => *status >= 500,
        };
        let success = match outcome {
            BatchOutcome::Success => true,
            _ => false,
        };
        if transient && self.attempts + 1 < MAX_ATTEMPTS {
            self.attempts = self.attempts + 1;
            return ;
        }
        let list_len = match self.phase {
            ApplyPhase::Adding => plan.to_add.len(),
            _ => plan.to_remove.len(),
        };
        let left = list_len - self.next_index;
        let len = if left < MAX_BATCH {
            left
        } else {
            MAX_BATCH
        };
        if success {
            match self.phase {
                ApplyPhase::Adding => {
                    self.added = self.added + len;
                },
                _ => {
                    self.removed = self.removed + len;
                },
            }
        } else {
            self.failed_apply = self.failed_apply + len;
        }
        self.attempts = 0;
        let consumed = self.next_index + len;
        if consumed < list_len {
            self.next_index = consumed;
        } else {
            match self.phase {
                ApplyPhase::Adding => {
                    if plan.to_remove.len() > 0 {
                        self.phase = ApplyPhase::Removing;
                        self.next_index = 0;
                    } else {
                        self.phase = ApplyPhase::Done;
                        self.next_index = 0;
                    }
                },
                _ => {
                    self.phase = ApplyPhase::Done;
                    self.next_index = 0;
                },
            }
        }
    }

    /// The counts of the finished sync, resolution failures added in.
    pub fn counts(&self, plan: &SyncPlan) -> (r: SyncCounts)
        requires
            self.failed_apply + plan.failed@.len() <= usize::MAX,
        ensures
            r.songs_added == self.added,
            r.songs_removed == self.removed,
            r.songs_failed == self.failed_apply + plan.failed@.len(),
    {
        SyncCounts {
            songs_added: self.added,
            songs_removed: self.removed,
            songs_failed: self.failed_apply + plan.failed.len(),
        }
    }
}

/// The base wait before retrying a batch: doubling with every attempt
/// already made.
pub open spec fn spec_backoff_base(attempts: int) -> int {
    if attempts <= 0 {
        1int
    } else if attempts == 1 {
        2int
    } else {
        4int
    }
}

/// The wait before the next attempt of a batch: the doubling base, and
/// never less than what a rate limit asked for.
pub open spec fn spec_backoff(o: BatchOutcome, attempts: int) -> int {
    match o {
        BatchOutcome::RateLimited { retry_after_s } => if retry_after_s as int > spec_backoff_base(
            attempts,
        ) {
            retry_after_s as int
        } else {
            spec_backoff_base(attempts)
        },
        _ => spec_backoff_base(attempts),
    }
}

/// Seconds to wait before the next attempt of a batch: exponential in the
/// attempts already made, and never less than what a rate limit asked for.
pub fn backoff_seconds(outcome: &BatchOutcome, attempts: u8) -> (r: u32)
    requires
        attempts < MAX_ATTEMPTS,
    ensures
        r as int == spec_backoff(*outcome, attempts as int),
        r >= 1,
        (*outcome matches BatchOutcome::RateLimited { retry_after_s } ==> r >= retry_after_s),
{
    let base: u32 = if attempts == 0 {
        1
    } else if attempts == 1 {
        2
    } else {
        4
    };
    match outcome {
        BatchOutcome::RateLimited { retry_after_s } => {
            if *retry_after_s > base {
                *retry_after_s
            } else {
                base
            }
        },
        _ => base,
    }
}

/// A diff holds exactly the keys of `keys` that neither `other` nor `seen`
/// holds.
pub proof fn lemma_diff_contains(
    keys: Seq<TrackKeyView>,
    other: Seq<TrackKeyView>,
    seen: Set<TrackKeyView>,
)
    ensures
        forall|k: TrackKeyView| #[trigger] spec_diff(keys, other, seen).contains(k) <==> (
        keys.contains(k) && !other.contains(k) && !seen.contains(k)),
    decreases keys.len(),
{
    broadcast use vstd::seq_lib::group_seq_properties;

    if keys.len() == 0 {
    } else {
        let h = keys.first();
        let rest = spec_diff(keys.drop_first(), other, seen.insert(h));
        lemma_diff_contains(keys.drop_first(), other, seen.insert(h));
        assert forall|k: TrackKeyView| #[trigger] keys.contains(k) && !other.contains(k)
            && !seen.contains(k) implies spec_diff(keys, other, seen).contains(k) by {
            if k == h {
                assert(spec_diff(keys, other, seen) == seq![h] + rest);
                assert((seq![h] + rest)[0] == h);
            } else {
                let i = choose|i: int| 0 <= i < keys.len() && keys[i] == k;
                assert(keys.drop_first()[i - 1] == k);
                assert(keys.drop_first().contains(k));
                assert(rest.contains(k));
            }
        }
        assert forall|k: TrackKeyView| #[trigger] spec_diff(keys, other, seen).contains(
            k,
        ) implies keys.contains(k) && !other.contains(k) && !seen.contains(k) by {
            if !seen.contains(h) && !other.contains(h) {
                assert(spec_diff(keys, other, seen) == seq![h] + rest);
                if k == h {
                    assert(keys[0] == h);
                } else {
                    assert(rest.contains(k));
                    assert(keys.drop_first().contains(k));
                    let i = choose|i: int|
                        0 <= i < keys.drop_first().len() && keys.drop_first()[i] == k;
                    assert(keys[i + 1] == k);
                }
            } else {
                assert(rest.contains(k));
                assert(keys.drop_first().contains(k));
                let i = choose|i: int|
                    0 <= i < keys.drop_first().len() && keys.drop_first()[i] == k;
                assert(keys[i + 1] == k);
            }
        }
    }
}

/// A diff names each key once: duplicates in the source never inflate it.
pub proof fn lemma_diff_no_duplicates(
    keys: Seq<TrackKeyView>,
    other: Seq<TrackKeyView>,
    seen: Set<TrackKeyView>,
)
    ensures
        spec_diff(keys, other, seen).no_duplicates(),
    decreases keys.len(),
{
    broadcast use vstd::seq_lib::group_seq_properties;

    if keys.len() == 0 {
    } else {
        let h = keys.first();
        let rest = spec_diff(keys.drop_first(), other, seen.insert(h));
        lemma_diff_no_duplicates(keys.drop_first(), other, seen.insert(h));
        lemma_diff_contains(keys.drop_first(), other, seen.insert(h));
        if !seen.contains(h) && !other.contains(h) {
            assert(!rest.contains(h));
            let d = seq![h] + rest;
            assert forall|i: int, j: int| 0 <= i < j < d.len() implies d[i] != d[j] by {
                if i == 0 {
                    assert(d[j] == rest[j - 1]);
                    assert(rest.contains(rest[j - 1]));
                } else {
                    assert(d[i] == rest[i - 1] && d[j] == rest[j - 1]);
                }
            }
        }
    }
}

/// A diff is never longer than the list it walks.
pub proof fn lemma_diff_len(
    keys: Seq<TrackKeyView>,
    other: Seq<TrackKeyView>,
    seen: Set<TrackKeyView>,
)
    ensures
        spec_diff(keys, other, seen).len() <= keys.len(),
    decreases keys.len(),
{
    if keys.len() == 0 {
    } else {
        lemma_diff_len(keys.drop_first(), other, seen.insert(keys.first()));
    }
}

/// Every source track either resolves to a key or counts as one failure.
pub proof fn lemma_resolved_plus_failed(
    source: Seq<TrackIdentityView>,
    res: Seq<ResolutionView>,
    target_service: Seq<char>,
)
    requires
        source.len() == res.len(),
    ensures
        spec_resolved_keys(source, res, target_service).len() + spec_failed_count(res)
            == source.len(),
    decreases source.len(),
{
    if source.len() == 0 {
    } else {
        lemma_resolved_plus_failed(source.drop_first(), res.drop_first(), target_service);
    }
}

/// The counts of one sync never exceed what the two snapshots offered:
/// songs added plus removed plus failed is at most the source length plus
/// the target length.
pub proof fn lemma_counts_bounded(
    plan: SyncPlan,
    state: ApplyState,
    source: Seq<TrackIdentityView>,
    res: Seq<ResolutionView>,
    target_service: Seq<char>,
    target: Seq<TrackIdentityView>,
)
    requires
        source.len() == res.len(),
        plan_matches(plan, source, res, target_service, target),
        apply_wf(state, plan),
        state.phase == ApplyPhase::Done,
    ensures
        state.added + state.removed + (state.failed_apply + plan.failed@.len()) <= source.len()
            + target.len(),
        spec_failed_count(res) >= 0,
{
    let rk = spec_resolved_keys(source, res, target_service);
    let tk = spec_snapshot_keys(target);
    lemma_diff_len(rk, tk, Set::empty());
    lemma_diff_len(tk, rk, Set::empty());
    lemma_resolved_plus_failed(source, res, target_service);
    lemma_failed_count_nonneg(res);
}

/// A failure count is never negative.
pub proof fn lemma_failed_count_nonneg(res: Seq<ResolutionView>)
    ensures
        spec_failed_count(res) >= 0,
    decreases res.len(),
{
    if res.len() == 0 {
    } else {
        lemma_failed_count_nonneg(res.drop_first());
    }
}

/// Preview and run agree: two plans computed from the same snapshots and
/// resolutions carry the same keys to add and to remove.
pub proof fn lemma_preview_run_agree(
    preview_plan: SyncPlan,
    run_plan: SyncPlan,
    source: Seq<TrackIdentityView>,
    res: Seq<ResolutionView>,
    target_service: Seq<char>,
    target: Seq<TrackIdentityView>,
)
    requires
        plan_matches(preview_plan, source, res, target_service, target),
        plan_matches(run_plan, source, res, target_service, target),
    ensures
        key_views(preview_plan.to_add@) == key_views(run_plan.to_add@),
        key_views(preview_plan.to_remove@) == key_views(run_plan.to_remove@),
        preview_plan.failed@.len() == run_plan.failed@.len(),
{
}

/// With an empty source and distinct target keys, a sync removes the whole
/// target and adds nothing.
pub proof fn lemma_empty_source(
    plan: SyncPlan,
    source: Seq<TrackIdentityView>,
    res: Seq<ResolutionView>,
    target_service: Seq<char>,
    target: Seq<TrackIdentityView>,
)
    requires
        plan_matches(plan, source, res, target_service, target),
        source.len() == 0,
        spec_snapshot_keys(target).no_duplicates(),
    ensures
        plan.to_add@.len() == 0,
        plan.to_remove@.len() == target.len(),
{
    let rk = spec_resolved_keys(source, res, target_service);
    let tk = spec_snapshot_keys(target);
    assert(rk =~= Seq::<TrackKeyView>::empty());
    lemma_diff_of_distinct_all_kept(tk, rk, Set::empty());
}

/// Walking distinct keys against an empty other list keeps every one.
pub proof fn lemma_diff_of_distinct_all_kept(
    keys: Seq<TrackKeyView>,
    other: Seq<TrackKeyView>,
    seen: Set<TrackKeyView>,
)
    requires
        keys.no_duplicates(),
        other.len() == 0,
        forall|k: TrackKeyView| keys.contains(k) ==> !seen.contains(k),
    ensures
        spec_diff(keys, other, seen) == keys,
    decreases keys.len(),
{
    broadcast use vstd::seq_lib::group_seq_properties;

    if keys.len() == 0 {
        assert(spec_diff(keys, other, seen) =~= keys);
    } else {
        let h = keys.first();
        assert(keys[0] == h);
        assert(keys.contains(h));
        assert forall|k: TrackKeyView| keys.drop_first().contains(k) implies !seen.insert(
            h,
        ).contains(k) by {
            let i = choose|i: int| 0 <= i < keys.drop_first().len() && keys.drop_first()[i] == k;
            assert(keys[i + 1] == k);
            assert(keys.contains(k));
            assert(k != h);
        }
        lemma_diff_of_distinct_all_kept(keys.drop_first(), other, seen.insert(h));
        assert(spec_diff(keys, other, seen) =~= seq![h] + keys.drop_first());
        assert(seq![h] + keys.drop_first() =~= keys);
    }
}

/// With no target playlist, a sync removes nothing, and what it adds are
/// exactly the distinct resolved keys.
pub proof fn lemma_absent_target(
    plan: SyncPlan,
    source: Seq<TrackIdentityView>,
    res: Seq<ResolutionView>,
    target_service: Seq<char>,
    target: Seq<TrackIdentityView>,
)
    requires
        plan_matches(plan, source, res, target_service, target),
        target.len() == 0,
    ensures
        plan.to_remove@.len() == 0,
        forall|k: TrackKeyView| #[trigger] key_views(plan.to_add@).contains(k)
            <==> spec_resolved_keys(source, res, target_service).contains(k),
        key_views(plan.to_add@).no_duplicates(),
{
    let rk = spec_resolved_keys(source, res, target_service);
    let tk = spec_snapshot_keys(target);
    assert(tk =~= Seq::<TrackKeyView>::empty());
    lemma_diff_contains(rk, tk, Set::empty());
    lemma_diff_no_duplicates(rk, tk, Set::empty());
    broadcast use vstd::seq_lib::group_seq_properties;

}

/// Duplicates in the source do not inflate the plan: the keys to add are
/// distinct, and a duplicated source track contributes its key once.
pub proof fn lemma_duplicates_collapse(
    plan: SyncPlan,
    source: Seq<TrackIdentityView>,
    res: Seq<ResolutionView>,
    target_service: Seq<char>,
    target: Seq<TrackIdentityView>,
)
    requires
        plan_matches(plan, source, res, target_service, target),
    ensures
        key_views(plan.to_add@).no_duplicates(),
        key_views(plan.to_remove@).no_duplicates(),
{
    let rk = spec_resolved_keys(source, res, target_service);
    let tk = spec_snapshot_keys(target);
    lemma_diff_no_duplicates(rk, tk, Set::empty());
    lemma_diff_no_duplicates(tk, rk, Set::empty());
}

/// Running a second sync against a target that now carries exactly the
/// resolved keys plans no additions and no removals; with no failures its
/// status is `Completed`.
pub proof fn lemma_second_run_clean(
    plan: SyncPlan,
    source: Seq<TrackIdentityView>,
    res: Seq<ResolutionView>,
    target_service: Seq<char>,
    target: Seq<TrackIdentityView>,
)
    requires
        plan_matches(plan, source, res, target_service, target),
        forall|k: TrackKeyView| #[trigger] spec_snapshot_keys(target).contains(k)
            <==> spec_resolved_keys(source, res, target_service).contains(k),
    ensures
        plan.to_add@.len() == 0,
        plan.to_remove@.len() == 0,
        spec_failed_count(res) == 0 && plan.failed@.len() == 0 ==> spec_status(
            0,
            0,
            plan.failed@.len() as int,
            false,
        ) == SyncStatus::Completed,
{
    let rk = spec_resolved_keys(source, res, target_service);
    let tk = spec_snapshot_keys(target);
    lemma_diff_contains(rk, tk, Set::empty());
    lemma_diff_contains(tk, rk, Set::empty());
    let da = spec_diff(rk, tk, Set::empty());
    let dr = spec_diff(tk, rk, Set::empty());
    if da.len() > 0 {
        assert(da.contains(da[0]));
    }
    if dr.len() > 0 {
        assert(dr.contains(dr[0]));
    }
    assert(da.len() == 0 && dr.len() == 0);
    assert(key_views(plan.to_add@).len() == plan.to_add@.len());
    assert(key_views(plan.to_remove@).len() == plan.to_remove@.len());
}

/// Appending a resolution adds its own failure, if any.
proof fn lemma_failed_count_push(s: Seq<ResolutionView>, x: ResolutionView)
    ensures
        spec_failed_count(s.push(x)) == spec_failed_count(s) + spec_failure_cost(x),
    decreases s.len(),
{
    if s.len() == 0 {
        assert(s.push(x).first() == x);
        assert(s.push(x).drop_first() =~= Seq::<ResolutionView>::empty());
        assert(spec_failed_count(s.push(x).drop_first()) == 0);
    } else {
        assert(s.push(x).first() == s.first());
        assert(s.push(x).drop_first() =~= s.drop_first().push(x));
        lemma_failed_count_push(s.drop_first(), x);
    }
}

} // verus!
