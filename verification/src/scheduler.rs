//! Watcher scheduler: one cooperative task per active watcher.
//!
//! The decisions the scheduler takes — how long to sleep, when to quarantine
//! a watcher, what may still run after a stop — are plain functions here;
//! the runtime that spawns tasks and sleeps lives outside the crate.

use vstd::prelude::*;

use crate::engine::SyncStatus;

verus! {

/// The least period, in seconds, a watcher may run at.  Stored values below
/// this are silently clamped.
pub const MIN_PERIOD_SECONDS: u32 = 300;

/// The period the scheduler actually runs a watcher at: the stored value,
/// clamped from below to `MIN_PERIOD_SECONDS`.
pub open spec fn spec_effective_period(stored: int) -> int {
    if stored < MIN_PERIOD_SECONDS as int {
        MIN_PERIOD_SECONDS as int
    } else {
        stored
    }
}

/// Clamp a stored sync period to the least admissible period.
pub fn effective_period(stored: i32) -> (r: u32)
    ensures
        r == spec_effective_period(stored as int),
        r >= MIN_PERIOD_SECONDS,
{
    if stored < MIN_PERIOD_SECONDS as i32 {
        MIN_PERIOD_SECONDS
    } else {
        stored as u32
    }
}

/// After this many consecutive failed syncs a watcher is quarantined:
/// deactivated until its owner starts it again.
pub const QUARANTINE_THRESHOLD: u32 = 5;

/// The scheduler's view of one watcher's recurring task.
#[derive(Clone, Copy, PartialEq, Eq, Structural, Debug)]
pub struct WatcherTask {
    pub watcher_id: i64,
    pub consecutive_failures: u32,
    /// The watcher's active flag; cleared by quarantine.
    pub active: bool,
    /// A stop request was delivered.
    pub cancelled: bool,
}

/// Task invariant: the failure counter never passes the threshold, and a
/// task at the threshold is quarantined.
pub open spec fn task_wf(t: WatcherTask) -> bool {
    &&& t.consecutive_failures <= QUARANTINE_THRESHOLD
    &&& t.consecutive_failures == QUARANTINE_THRESHOLD ==> !t.active
}

/// What a task does when its tick fires.
#[derive(Clone, Copy, PartialEq, Eq, Structural, Debug)]
pub enum TaskStep {
    RunSync,
    Exit,
}

/// How one finished sync moves the task: success resets the failure
/// counter; a failure raises it, and the run that reaches the threshold
/// quarantines the watcher.
pub open spec fn spec_record_run(t: WatcherTask, status: SyncStatus) -> WatcherTask {
    if status == SyncStatus::Failed {
        let n = (t.consecutive_failures + 1) as u32;
        if n >= QUARANTINE_THRESHOLD {
            WatcherTask {
                consecutive_failures: QUARANTINE_THRESHOLD,
                active: false,
                ..t
            }
        } else {
            WatcherTask { consecutive_failures: n, ..t }
        }
    } else {
        WatcherTask { consecutive_failures: 0, ..t }
    }
}

impl WatcherTask {
    /// A freshly started task: active, nothing failed yet.
    pub fn start(watcher_id: i64) -> (t: WatcherTask)
        ensures
            task_wf(t),
            t.watcher_id == watcher_id,
            t.active,
            !t.cancelled,
            t.consecutive_failures == 0,
    {
        WatcherTask { watcher_id, consecutive_failures: 0, active: true, cancelled: false }
    }

    /// Decide whether the task runs a sync at this tick or exits.  A
    /// cancelled or quarantined task never syncs again.
    pub fn next_tick(&self) -> (r: TaskStep)
        ensures
            r == TaskStep::RunSync <==> (self.active && !self.cancelled),
    {
        if self.active && !self.cancelled {
            TaskStep::RunSync
        } else {
            TaskStep::Exit
        }
    }

    /// Record the outcome of one sync run.
    pub fn record_run(&mut self, status: SyncStatus)
        requires
            task_wf(*old(self)),
        ensures
            task_wf(*final(self)),
            *final(self) == spec_record_run(*old(self), status),
    {
        match status {
            SyncStatus::Failed => {
                let n = self.consecutive_failures + 1;
                if n >= QUARANTINE_THRESHOLD {
                    self.consecutive_failures = QUARANTINE_THRESHOLD;
                    self.active = false;
                } else {
                    self.consecutive_failures = n;
                }
            },
            _ => {
                self.consecutive_failures = 0;
            },
        }
    }

    /// Note a stop request.  The counters stay; `next_tick` will exit.
    pub fn cancel(&mut self)
        ensures
            *final(self) == (WatcherTask { cancelled: true, ..*old(self) }),
    {
        self.cancelled = true;
    }
}

/// A run of consecutive failed syncs, applied to a task.
pub open spec fn spec_failed_runs(t: WatcherTask, n: nat) -> WatcherTask
    decreases n,
{
    if n == 0 {
        t
    } else {
        spec_record_run(spec_failed_runs(t, (n - 1) as nat), SyncStatus::Failed)
    }
}

/// Quarantine: from a fresh task, the threshold's worth of consecutive
/// failed runs deactivates the watcher, and the task syncs no more.
pub proof fn lemma_quarantine_after_failures(t: WatcherTask, n: nat)
    requires
        task_wf(t),
        t.consecutive_failures == 0,
        n >= QUARANTINE_THRESHOLD,
    ensures
        !spec_failed_runs(t, n).active,
        task_wf(spec_failed_runs(t, n)),
    decreases n,
{
    lemma_failed_runs_count(t, n);
}

/// After `n` failed runs the counter reads `n`, capped at the threshold,
/// and a task that reached the threshold is inactive.
pub proof fn lemma_failed_runs_count(t: WatcherTask, n: nat)
    requires
        task_wf(t),
        t.consecutive_failures == 0,
    ensures
        task_wf(spec_failed_runs(t, n)),
        spec_failed_runs(t, n).consecutive_failures == if n < QUARANTINE_THRESHOLD {
            n as int
        } else {
            QUARANTINE_THRESHOLD as int
        },
        n >= QUARANTINE_THRESHOLD ==> !spec_failed_runs(t, n).active,
        n < QUARANTINE_THRESHOLD ==> spec_failed_runs(t, n).active == t.active,
    decreases n,
{
    if n > 0 {
        lemma_failed_runs_count(t, (n - 1) as nat);
    }
}

/// One success resets the failure counter and leaves the watcher running.
pub proof fn lemma_success_resets(t: WatcherTask, status: SyncStatus)
    requires
        task_wf(t),
        status == SyncStatus::Completed || status == SyncStatus::CompletedWithErrors,
    ensures
        spec_record_run(t, status).consecutive_failures == 0,
        spec_record_run(t, status).active == t.active,
{
}

/// The scheduler: the set of running watcher tasks, one per watcher.
pub struct Scheduler {
    pub tasks: Vec<WatcherTask>,
}

/// Scheduler invariant: every task is well formed and no watcher has two.
pub open spec fn scheduler_wf(s: Scheduler) -> bool {
    &&& forall|i: int| 0 <= i < s.tasks@.len() ==> task_wf(#[trigger] s.tasks@[i])
    &&& forall|i: int, k: int|
        0 <= i < k < s.tasks@.len() ==> (#[trigger] s.tasks@[i]).watcher_id != (
        #[trigger] s.tasks@[k]).watcher_id
}

/// Whether some task belongs to a watcher.
pub open spec fn spec_has_task(s: Scheduler, watcher_id: i64) -> bool {
    exists|i: int| 0 <= i < s.tasks@.len() && (#[trigger] s.tasks@[i]).watcher_id == watcher_id
}

impl Scheduler {
    /// A scheduler with nothing running.
    pub fn new() -> (s: Scheduler)
        ensures
            scheduler_wf(s),
            s.tasks@.len() == 0,
    {
        Scheduler { tasks: Vec::new() }
    }

    /// The index of a watcher's task.
    pub fn find_task(&self, watcher_id: i64) -> (r: Option<usize>)
        ensures
            r matches Some(i) ==> i < self.tasks@.len() && self.tasks@[i as int].watcher_id
                == watcher_id,
            r is None ==> !spec_has_task(*self, watcher_id),
    {
        let mut i: usize = 0;
        while i < self.tasks.len()
            invariant
                i <= self.tasks@.len(),
                forall|k: int| 0 <= k < i ==> (#[trigger] self.tasks@[k]).watcher_id != watcher_id,
            decreases self.tasks@.len() - i,
        {
            if self.tasks[i].watcher_id == watcher_id {
                return Some(i);
            }
            i += 1;
        }
        None
    }

    /// Spawn a task for a watcher unless one is already running.  Returns
    /// whether a task was spawned.
    pub fn start(&mut self, watcher_id: i64) -> (started: bool)
        requires
            scheduler_wf(*old(self)),
        ensures
            scheduler_wf(*final(self)),
            spec_has_task(*final(self), watcher_id),
            started ==> !spec_has_task(*old(self), watcher_id) && final(self).tasks@ == old(
                self,
            ).tasks@.push(WatcherTask::spec_fresh(watcher_id)),
            !started ==> spec_has_task(*old(self), watcher_id) && *final(self) == *old(self),
    {
        match self.find_task(watcher_id) {
            Some(i) => {
                proof {
                    assert(self.tasks@[i as int].watcher_id == watcher_id);
                }
                false
            },
            None => {
                let ghost old_tasks = self.tasks@;
                let t = WatcherTask::start(watcher_id);
                self.tasks.push(t);
                proof {
                    assert forall|i: int, k: int|
                        0 <= i < k < self.tasks@.len() implies (
                    #[trigger] self.tasks@[i]).watcher_id != (
                    #[trigger] self.tasks@[k]).watcher_id by {
                        if k == self.tasks@.len() - 1 {
                            assert(self.tasks@[i] == old_tasks[i]);
                        }
                    }
                    assert(self.tasks@[self.tasks@.len() - 1].watcher_id == watcher_id);
                }
                true
            },
        }
    }

    /// Deliver a stop request to a watcher's task, if one runs.  `stop`
    /// only marks the task; the task drains and exits at its next
    /// decision point.
    pub fn stop(&mut self, watcher_id: i64) -> (stopped: bool)
        requires
            scheduler_wf(*old(self)),
        ensures
            scheduler_wf(*final(self)),
            !stopped ==> !spec_has_task(*old(self), watcher_id) && *final(self) == *old(self),
            stopped ==> spec_stop_ok(*old(self), *final(self), watcher_id),
    {
        match self.find_task(watcher_id) {
            Some(i) => {
                let ghost old_tasks = self.tasks@;
                let mut t = self.tasks[i];
                t.cancel();
                self.tasks[i] = t;
                proof {
                    assert(old_tasks[i as int].watcher_id == watcher_id);
                    assert(self.tasks@ =~= old_tasks.update(
                        i as int,
                        WatcherTask { cancelled: true, ..old_tasks[i as int] },
                    ));
                    assert forall|j: int| 0 <= j < self.tasks@.len() implies task_wf(
                        #[trigger] self.tasks@[j],
                    ) by {
                        if j != i as int {
                            assert(self.tasks@[j] == old_tasks[j]);
                        }
                    }
                    assert forall|j: int, k: int|
                        0 <= j < k < self.tasks@.len() implies (
                    #[trigger] self.tasks@[j]).watcher_id != (
                    #[trigger] self.tasks@[k]).watcher_id by {
                        assert(self.tasks@[j].watcher_id == old_tasks[j].watcher_id);
                        assert(self.tasks@[k].watcher_id == old_tasks[k].watcher_id);
                    }
                }
                true
            },
            None => false,
        }
    }

    /// Drop the task of a watcher once it has exited.
    pub fn remove_task(&mut self, watcher_id: i64) -> (removed: bool)
        requires
            scheduler_wf(*old(self)),
        ensures
            scheduler_wf(*final(self)),
            !spec_has_task(*final(self), watcher_id),
    {
        match self.find_task(watcher_id) {
            Some(i) => {
                let ghost old_tasks = self.tasks@;
                self.tasks.remove(i);
                proof {
                    lemma_remove_keeps_wf(old_tasks, self.tasks@, i as int, watcher_id);
                }
                true
            },
            None => false,
        }
    }
}

impl WatcherTask {
    /// The task `start` spawns.
    pub open spec fn spec_fresh(watcher_id: i64) -> WatcherTask {
        WatcherTask { watcher_id, consecutive_failures: 0, active: true, cancelled: false }
    }
}

/// What `stop` guarantees: the watcher's task is marked cancelled and no
/// other task moved.
pub open spec fn spec_stop_ok(pre: Scheduler, post: Scheduler, watcher_id: i64) -> bool {
    exists|i: int|
        {
            &&& 0 <= i < pre.tasks@.len()
            &&& (#[trigger] pre.tasks@[i]).watcher_id == watcher_id
            &&& post.tasks@ == pre.tasks@.update(
                i,
                WatcherTask { cancelled: true, ..pre.tasks@[i] },
            )
        }
}

/// Removing one task keeps the scheduler invariant and drops the watcher.
proof fn lemma_remove_keeps_wf(
    pre: Seq<WatcherTask>,
    post: Seq<WatcherTask>,
    i: int,
    watcher_id: i64,
)
    requires
        0 <= i < pre.len(),
        pre[i].watcher_id == watcher_id,
        post == pre.remove(i),
        forall|j: int| 0 <= j < pre.len() ==> task_wf(#[trigger] pre[j]),
        forall|j: int, k: int|
            0 <= j < k < pre.len() ==> (#[trigger] pre[j]).watcher_id != (
            #[trigger] pre[k]).watcher_id,
    ensures
        forall|j: int| 0 <= j < post.len() ==> task_wf(#[trigger] post[j]),
        forall|j: int, k: int|
            0 <= j < k < post.len() ==> (#[trigger] post[j]).watcher_id != (
            #[trigger] post[k]).watcher_id,
        !(exists|j: int| 0 <= j < post.len() && (#[trigger] post[j]).watcher_id == watcher_id),
{
    assert forall|j: int| 0 <= j < post.len() implies task_wf(#[trigger] post[j]) by {
        if j < i {
            assert(post[j] == pre[j]);
        } else {
            assert(post[j] == pre[j + 1]);
        }
    }
    assert forall|j: int, k: int| 0 <= j < k < post.len() implies (
    #[trigger] post[j]).watcher_id != (#[trigger] post[k]).watcher_id by {
        let pj = if j < i {
            j
        } else {
            j + 1
        };
        let pk = if k < i {
            k
        } else {
            k + 1
        };
        assert(post[j] == pre[pj] && post[k] == pre[pk]);
    }
    assert forall|j: int| 0 <= j < post.len() implies (#[trigger] post[j]).watcher_id
        != watcher_id by {
        if j < i {
            assert(post[j] == pre[j]);
        } else {
            assert(post[j] == pre[j + 1]);
        }
    }
}

} // verus!
