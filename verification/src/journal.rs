//! The sync journal: one row per sync attempt, append-only, the basis for
//! history and dashboards.
//!
//! A row starts `pending` and is finished exactly once into a terminal
//! status; terminal rows never change again.  A watcher never has two
//! pending rows at the same time: `begin` refuses a second one.

use vstd::prelude::*;

use crate::engine::{SyncCounts, SyncStatus};
use crate::track::clone_string;

verus! {

/// What kind of sync a row records.
#[derive(Clone, Copy, PartialEq, Eq, Structural, Debug)]
pub enum OperationKind {
    AutoSync,
    ManualSync,
    Preview,
}

/// One sync attempt.
pub struct SyncOperation {
    pub id: i64,
    pub watcher_id: i64,
    pub kind: OperationKind,
    pub status: SyncStatus,
    pub songs_added: usize,
    pub songs_removed: usize,
    pub songs_failed: usize,
    pub error_message: Option<String>,
    pub started_at: i64,
    pub completed_at: Option<i64>,
}

/// Mathematical model of a journal row.
pub struct SyncOperationView {
    pub id: i64,
    pub watcher_id: i64,
    pub kind: OperationKind,
    pub status: SyncStatus,
    pub songs_added: usize,
    pub songs_removed: usize,
    pub songs_failed: usize,
    pub error_message: Option<Seq<char>>,
    pub started_at: i64,
    pub completed_at: Option<i64>,
}

impl View for SyncOperation {
    type V = SyncOperationView;

    open spec fn view(&self) -> SyncOperationView {
        SyncOperationView {
            id: self.id,
            watcher_id: self.watcher_id,
            kind: self.kind,
            status: self.status,
            songs_added: self.songs_added,
            songs_removed: self.songs_removed,
            songs_failed: self.songs_failed,
            error_message: match self.error_message {
                Some(ref e) => Some(e@),
                None => None,
            },
            started_at: self.started_at,
            completed_at: self.completed_at,
        }
    }
}

impl SyncOperation {
    /// Copy a row; the copy models the same row.
    pub fn duplicate(&self) -> (r: SyncOperation)
        ensures
            r@ == self@,
    {
        SyncOperation {
            id: self.id,
            watcher_id: self.watcher_id,
            kind: self.kind,
            status: self.status,
            songs_added: self.songs_added,
            songs_removed: self.songs_removed,
            songs_failed: self.songs_failed,
            error_message: match &self.error_message {
                Some(e) => Some(clone_string(e)),
                None => None,
            },
            started_at: self.started_at,
            completed_at: self.completed_at,
        }
    }
}

/// A status a row may rest in.
pub open spec fn spec_is_terminal(s: SyncStatus) -> bool {
    s != SyncStatus::Pending
}

/// A row is finished exactly when it is terminal.
pub open spec fn row_wf(r: SyncOperationView) -> bool {
    (r.completed_at is Some) <==> spec_is_terminal(r.status)
}

/// The rows a journal holds, as models.
pub open spec fn rows_of(j: SyncJournal) -> Seq<SyncOperationView> {
    j.rows@.map_values(|r: SyncOperation| r@)
}

/// Whether some row of `rows` is a pending row of `watcher_id`.
pub open spec fn spec_has_pending(rows: Seq<SyncOperationView>, watcher_id: i64) -> bool {
    exists|i: int|
        0 <= i < rows.len() && rows[i].watcher_id == watcher_id && rows[i].status
            == SyncStatus::Pending
}

/// Whether some row of `rows` is the pending row carrying `row_id`.
pub open spec fn spec_has_open_row(rows: Seq<SyncOperationView>, row_id: i64) -> bool {
    exists|k: int|
        0 <= k < rows.len() && (#[trigger] rows[k]).id == row_id && rows[k].status
            == SyncStatus::Pending
}

/// Which error `finish` reports, and why: `RowNotFound` only when no row
/// carries the id, `RowImmutable` only when the id's row is terminal.
pub open spec fn spec_finish_err(rows: Seq<SyncOperationView>, row_id: i64, e: JournalError)
    -> bool {
    ||| (e == JournalError::RowNotFound && forall|k: int|
        0 <= k < rows.len() ==> (#[trigger] rows[k]).id != row_id)
    ||| (e == JournalError::RowImmutable && exists|k: int|
        0 <= k < rows.len() && (#[trigger] rows[k]).id == row_id && rows[k].status
            != SyncStatus::Pending)
}

/// Errors the journal reports.
#[derive(Clone, Copy, PartialEq, Eq, Structural, Debug)]
pub enum JournalError {
    /// The watcher already has a pending row.
    PendingExists,
    /// No row carries the given id.
    RowNotFound,
    /// The row is terminal and immutable.
    RowImmutable,
}

/// The append-only record of sync attempts.
pub struct SyncJournal {
    pub rows: Vec<SyncOperation>,
    pub next_id: i64,
}

/// Journal invariant: rows are well formed, ids are unique and below
/// `next_id`, and no watcher has two pending rows.
pub open spec fn journal_wf(j: SyncJournal) -> bool {
    let rows = rows_of(j);
    &&& forall|i: int| 0 <= i < rows.len() ==> row_wf(#[trigger] rows[i])
    &&& forall|i: int| 0 <= i < rows.len() ==> (#[trigger] rows[i]).id < j.next_id
    &&& forall|i: int, k: int|
        0 <= i < k < rows.len() ==> (#[trigger] rows[i]).id != (#[trigger] rows[k]).id
    &&& forall|i: int, k: int|
        0 <= i < k < rows.len() && (#[trigger] rows[i]).watcher_id == (
        #[trigger] rows[k]).watcher_id ==> !(rows[i].status == SyncStatus::Pending && rows[k].status
            == SyncStatus::Pending)
}

impl SyncJournal {
    /// An empty journal.
    pub fn new() -> (j: SyncJournal)
        ensures
            journal_wf(j),
            rows_of(j).len() == 0,
    {
        let j = SyncJournal { rows: Vec::new(), next_id: 1 };
        proof {
            assert(rows_of(j) =~= Seq::<SyncOperationView>::empty());
        }
        j
    }

    /// Rebuild a journal from persisted rows, checking every invariant:
    /// well-formed rows, unique ids, at most one pending row per watcher.
    /// Rows that violate one yield `None`.
    pub fn from_rows(rows: Vec<SyncOperation>) -> (r: Option<SyncJournal>)
        ensures
            r matches Some(j) ==> journal_wf(j) && rows_of(j) == rows@.map_values(
                |x: SyncOperation| x@,
            ),
    {
        let ghost rv = rows@.map_values(|x: SyncOperation| x@);
        let n = rows.len();
        let mut max_id: i64 = 0;
        let mut i: usize = 0;
        while i < n
            invariant
                n == rv.len(),
                rv == rows@.map_values(|x: SyncOperation| x@),
                i <= n,
                max_id >= 0,
                forall|a: int| 0 <= a < i ==> (#[trigger] rv[a]).id <= max_id,
                forall|a: int| 0 <= a < i ==> row_wf(#[trigger] rv[a]),
                forall|a: int, b: int|
                    0 <= a < b < i ==> (#[trigger] rv[a]).id != (#[trigger] rv[b]).id,
                forall|a: int, b: int|
                    0 <= a < b < i && (#[trigger] rv[a]).watcher_id == (
                    #[trigger] rv[b]).watcher_id ==> !(rv[a].status == SyncStatus::Pending
                        && rv[b].status == SyncStatus::Pending),
            decreases n - i,
        {
            if rows[i].id < 0 {
                return None;
            }
            let terminal = match rows[i].status {
                SyncStatus::Pending => false,
                _ => true,
            };
            let closed = rows[i].completed_at.is_some();
            if terminal != closed {
                return None;
            }
            let pending_i = !terminal;
            let mut j: usize = 0;
            while j < i
                invariant
                    j <= i < n,
                    n == rv.len(),
                    rv == rows@.map_values(|x: SyncOperation| x@),
                    pending_i == (rv[i as int].status == SyncStatus::Pending),
                    forall|a: int| 0 <= a < j ==> (#[trigger] rv[a]).id != rv[i as int].id,
                    forall|a: int|
                        0 <= a < j && (#[trigger] rv[a]).watcher_id == rv[i as int].watcher_id
                            ==> !(rv[a].status == SyncStatus::Pending && rv[i as int].status
                            == SyncStatus::Pending),
                decreases i - j,
            {
                if rows[j].id == rows[i].id {
                    return None;
                }
                let pending_j = match rows[j].status {
                    SyncStatus::Pending => true,
                    _ => false,
                };
                if pending_i && pending_j && rows[j].watcher_id == rows[i].watcher_id {
                    return None;
                }
                j += 1;
            }
            if rows[i].id > max_id {
                max_id = rows[i].id;
            }
            i += 1;
        }
        if max_id == i64::MAX {
            return None;
        }
        let j = SyncJournal { rows, next_id: max_id + 1 };
        Some(j)
    }

    /// Decide whether a watcher has a pending row.
    pub fn has_pending(&self, watcher_id: i64) -> (r: bool)
        ensures
            r == spec_has_pending(rows_of(*self), watcher_id),
    {
        let ghost rows = rows_of(*self);
        let mut i: usize = 0;
        while i < self.rows.len()
            invariant
                i <= rows.len(),
                rows == rows_of(*self),
                forall|k: int|
                    0 <= k < i ==> !((#[trigger] rows[k]).watcher_id == watcher_id && rows[k].status
                        == SyncStatus::Pending),
            decreases rows.len() - i,
        {
            let row = &self.rows[i];
            if row.watcher_id == watcher_id {
                match row.status {
                    SyncStatus::Pending => {
                        assert(rows[i as int].watcher_id == watcher_id && rows[i as int].status
                            == SyncStatus::Pending);
                        return true;
                    },
                    _ => {},
                }
            }
            i += 1;
        }
        false
    }

    /// Open a new pending row for a watcher, unless one is already open.
    ///
    /// On success the new row's id is returned; the row starts `pending`
    /// with zero counts and `started_at = now`.
    pub fn begin(&mut self, watcher_id: i64, kind: OperationKind, now: i64) -> (r: Result<
        i64,
        JournalError,
    >)
        requires
            journal_wf(*old(self)),
            old(self).next_id < i64::MAX,
        ensures
            journal_wf(*final(self)),
            r matches Err(e) ==> e == JournalError::PendingExists && spec_has_pending(
                rows_of(*old(self)),
                watcher_id,
            ) && *final(self) == *old(self),
            r matches Ok(id) ==> !spec_has_pending(rows_of(*old(self)), watcher_id) && id == old(
                self,
            ).next_id && rows_of(*final(self)) == rows_of(*old(self)).push(
                spec_new_row(old(self).next_id, watcher_id, kind, now),
            ),
    {
        if self.has_pending(watcher_id) {
            return Err(JournalError::PendingExists);
        }
        let id = self.next_id;
        let row = SyncOperation {
            id,
            watcher_id,
            kind,
            status: SyncStatus::Pending,
            songs_added: 0,
            songs_removed: 0,
            songs_failed: 0,
            error_message: None,
            started_at: now,
            completed_at: None,
        };
        let ghost old_rows = rows_of(*self);
        self.rows.push(row);
        self.next_id = id + 1;
        proof {
            assert(rows_of(*self) =~= old_rows.push(spec_new_row(id, watcher_id, kind, now)));
            assert forall|i: int, k: int|
                0 <= i < k < rows_of(*self).len() && (#[trigger] rows_of(*self)[i]).watcher_id == (
                #[trigger] rows_of(*self)[k]).watcher_id implies !(rows_of(*self)[i].status
                == SyncStatus::Pending && rows_of(*self)[k].status == SyncStatus::Pending) by {
                if k == rows_of(*self).len() - 1 {
                    assert(rows_of(*self)[i] == old_rows[i]);
                }
            }
        }
        Ok(id)
    }

    /// Close a pending row into a terminal status with its counts.
    ///
    /// Fails when no row carries the id, and when the row is already
    /// terminal: terminal rows are immutable.
    pub fn finish(
        &mut self,
        row_id: i64,
        status: SyncStatus,
        counts: SyncCounts,
        error_message: Option<String>,
        now: i64,
    ) -> (r: Result<(), JournalError>)
        requires
            journal_wf(*old(self)),
            spec_is_terminal(status),
        ensures
            journal_wf(*final(self)),
            spec_has_open_row(rows_of(*old(self)), row_id) ==> r is Ok,
            r matches Err(e) ==> *final(self) == *old(self) && spec_finish_err(
                rows_of(*old(self)),
                row_id,
                e,
            ),
            r matches Ok(u) ==> spec_finish_ok(
                rows_of(*old(self)),
                rows_of(*final(self)),
                row_id,
                status,
                counts,
                error_message.deep_view(),
                now,
            ),
    {
        let found = self.find_row(row_id);
        let idx = match found {
            Some(i) => i,
            None => {
                return Err(JournalError::RowNotFound);
            },
        };
        match self.rows[idx].status {
            SyncStatus::Pending => {},
            _ => {
                proof {
                    let rows = rows_of(*self);
                    assert(rows[idx as int].id == row_id && rows[idx as int].status
                        != SyncStatus::Pending);
                    if spec_has_open_row(rows, row_id) {
                        let k = choose|k: int|
                            0 <= k < rows.len() && (#[trigger] rows[k]).id == row_id
                                && rows[k].status == SyncStatus::Pending;
                        if k < idx as int {
                            assert(rows[k].id != rows[idx as int].id);
                        } else {
                            assert(rows[idx as int].id != rows[k].id);
                        }
                    }
                }
                return Err(JournalError::RowImmutable);
            },
        }
        let ghost pre = rows_of(*self);
        let updated = SyncOperation {
            id: row_id,
            watcher_id: self.rows[idx].watcher_id,
            kind: self.rows[idx].kind,
            status,
            songs_added: counts.songs_added,
            songs_removed: counts.songs_removed,
            songs_failed: counts.songs_failed,
            error_message,
            started_at: self.rows[idx].started_at,
            completed_at: Some(now),
        };
        self.rows[idx] = updated;
        proof {
            let i = idx as int;
            let post = rows_of(*self);
            let u = post[i];
            assert(post =~= pre.update(i, u));
            assert forall|j: int| 0 <= j < post.len() implies row_wf(#[trigger] post[j]) by {
                if j != i {
                    assert(post[j] == pre[j]);
                }
            }
            assert forall|j: int| 0 <= j < post.len() implies (#[trigger] post[j]).id
                < self.next_id by {
                if j != i {
                    assert(post[j] == pre[j]);
                } else {
                    assert(u.id == pre[i].id);
                }
            }
            assert forall|j: int, k: int| 0 <= j < k < post.len() implies (
            #[trigger] post[j]).id != (#[trigger] post[k]).id by {
                assert(post[j].id == pre[j].id && post[k].id == pre[k].id);
            }
            assert forall|j: int, k: int|
                0 <= j < k < post.len() && (#[trigger] post[j]).watcher_id == (
            #[trigger] post[k]).watcher_id implies !(post[j].status == SyncStatus::Pending
                && post[k].status == SyncStatus::Pending) by {
                if j != i && k != i {
                    assert(post[j] == pre[j] && post[k] == pre[k]);
                }
            }
            assert(post == pre.update(
                i,
                SyncOperationView {
                    status,
                    songs_added: counts.songs_added,
                    songs_removed: counts.songs_removed,
                    songs_failed: counts.songs_failed,
                    error_message: error_message.deep_view(),
                    completed_at: Some(now),
                    ..pre[i]
                },
            ));
        }
        Ok(())
    }

    /// Find the row carrying an id.
    pub fn find_row(&self, row_id: i64) -> (r: Option<usize>)
        ensures
            r matches Some(i) ==> i < rows_of(*self).len() && rows_of(*self)[i as int].id
                == row_id,
            r is None ==> forall|k: int|
                0 <= k < rows_of(*self).len() ==> (#[trigger] rows_of(*self)[k]).id != row_id,
    {
        let ghost rows = rows_of(*self);
        let mut i: usize = 0;
        while i < self.rows.len()
            invariant
                i <= rows.len(),
                rows == rows_of(*self),
                forall|k: int| 0 <= k < i ==> (#[trigger] rows[k]).id != row_id,
            decreases rows.len() - i,
        {
            if self.rows[i].id == row_id {
                return Some(i);
            }
            i += 1;
        }
        None
    }

    /// The newest-first history of one watcher: `offset` newest rows
    /// skipped, then at most `limit` rows.
    pub fn query_by_watcher(&self, watcher_id: i64, limit: usize, offset: usize) -> (out: Vec<
        SyncOperation,
    >)
        ensures
            out@.map_values(|r: SyncOperation| r@) == spec_query(
                rows_of(*self),
                watcher_id,
                limit as int,
                offset as int,
            ),
    {
        let ghost rows = rows_of(*self);
        let ghost wanted = spec_query(rows, watcher_id, limit as int, offset as int);
        let mut out: Vec<SyncOperation> = Vec::new();
        let mut skipped: usize = 0;
        let mut i: usize = self.rows.len();
        while i > 0
            invariant
                i <= rows.len(),
                rows == rows_of(*self),
                wanted == spec_query(rows, watcher_id, limit as int, offset as int),
                skipped <= offset,
                out@.len() <= limit,
                wanted == out@.map_values(|r: SyncOperation| r@) + spec_query_rec(
                    rows,
                    watcher_id,
                    limit - out@.len(),
                    offset - skipped,
                    i as int,
                ),
            decreases i,
        {
            i = i - 1;
            if self.rows[i].watcher_id == watcher_id {
                if skipped < offset {
                    skipped += 1;
                } else if out.len() < limit {
                    let ghost old_out = out@;
                    out.push(self.rows[i].duplicate());
                    proof {
                        assert(out@.map_values(|r: SyncOperation| r@) =~= old_out.map_values(
                            |r: SyncOperation| r@,
                        ).push(rows[i as int]));
                    }
                }
            }
        }
        proof {
            assert(out@.map_values(|r: SyncOperation| r@) + spec_query_rec(
                rows,
                watcher_id,
                limit - out@.len(),
                offset - skipped,
                0,
            ) =~= out@.map_values(|r: SyncOperation| r@));
        }
        out
    }

    /// On boot: every row still pending that started before the cutoff is
    /// closed as failed with reason `interrupted`.
    pub fn reap_orphans(&mut self, cutoff: i64, now: i64) -> (reaped: usize)
        requires
            journal_wf(*old(self)),
        ensures
            journal_wf(*final(self)),
            rows_of(*final(self)).len() == rows_of(*old(self)).len(),
            forall|i: int|
                0 <= i < rows_of(*old(self)).len() ==> rows_of(*final(self))[i] == spec_reap_row(
                    #[trigger] rows_of(*old(self))[i],
                    cutoff,
                    now,
                ),
    {
        let ghost old_rows = rows_of(*old(self));
        let mut reaped: usize = 0;
        let mut i: usize = 0;
        while i < self.rows.len()
            invariant
                i <= old_rows.len(),
                rows_of(*self).len() == old_rows.len(),
                self.next_id == old(self).next_id,
                journal_wf(*old(self)),
                reaped <= i,
                forall|k: int|
                    0 <= k < i ==> rows_of(*self)[k] == spec_reap_row(
                        #[trigger] old_rows[k],
                        cutoff,
                        now,
                    ),
                forall|k: int| i <= k < old_rows.len() ==> rows_of(*self)[k] == old_rows[k],
            decreases old_rows.len() - i,
        {
            let pending = match self.rows[i].status {
                SyncStatus::Pending => true,
                _ => false,
            };
            if pending && self.rows[i].started_at < cutoff {
                let ghost before = rows_of(*self);
                let updated = SyncOperation {
                    id: self.rows[i].id,
                    watcher_id: self.rows[i].watcher_id,
                    kind: self.rows[i].kind,
                    status: SyncStatus::Failed,
                    songs_added: self.rows[i].songs_added,
                    songs_removed: self.rows[i].songs_removed,
                    songs_failed: self.rows[i].songs_failed,
                    error_message: Some(interrupted_message()),
                    started_at: self.rows[i].started_at,
                    completed_at: Some(now),
                };
                self.rows[i] = updated;
                reaped += 1;
                proof {
                    assert(rows_of(*self) =~= before.update(i as int, rows_of(*self)[i as int]));
                }
            }
            i += 1;
        }
        proof {
            lemma_reap_preserves_wf(old_rows, rows_of(*self), *old(self), *self, cutoff, now);
        }
        reaped
    }
}

/// A watcher has at most one pending row at any instant: two distinct
/// rows of one watcher in a well-formed journal are never both pending.
pub proof fn lemma_one_pending_per_watcher(j: SyncJournal, i: int, k: int)
    requires
        journal_wf(j),
        0 <= i < rows_of(j).len(),
        0 <= k < rows_of(j).len(),
        i != k,
        rows_of(j)[i].watcher_id == rows_of(j)[k].watcher_id,
    ensures
        !(rows_of(j)[i].status == SyncStatus::Pending && rows_of(j)[k].status
            == SyncStatus::Pending),
{
}

/// The error text a reaped row carries.
pub fn interrupted_message() -> (r: String)
    ensures
        r@ == spec_interrupted_message(),
{
    proof {
        reveal_strlit("interrupted");
    }
    String::from_str("interrupted")
}

/// The reason text of rows reaped at boot.
pub open spec fn spec_interrupted_message() -> Seq<char> {
    "interrupted"@
}

/// A fresh pending row.
pub open spec fn spec_new_row(id: i64, watcher_id: i64, kind: OperationKind, now: i64)
    -> SyncOperationView {
    SyncOperationView {
        id,
        watcher_id,
        kind,
        status: SyncStatus::Pending,
        songs_added: 0,
        songs_removed: 0,
        songs_failed: 0,
        error_message: None,
        started_at: now,
        completed_at: None,
    }
}

/// What `finish` guarantees on success: one pending row with the given id
/// was closed with the given status, counts, error text and completion
/// time, and no other row moved.
pub open spec fn spec_finish_ok(
    pre: Seq<SyncOperationView>,
    post: Seq<SyncOperationView>,
    row_id: i64,
    status: SyncStatus,
    counts: SyncCounts,
    error_message: Option<Seq<char>>,
    now: i64,
) -> bool {
    exists|i: int|
        {
            &&& 0 <= i < pre.len()
            &&& (#[trigger] pre[i]).id == row_id
            &&& pre[i].status == SyncStatus::Pending
            &&& post == pre.update(
                i,
                SyncOperationView {
                    status,
                    songs_added: counts.songs_added,
                    songs_removed: counts.songs_removed,
                    songs_failed: counts.songs_failed,
                    error_message,
                    completed_at: Some(now),
                    ..pre[i]
                },
            )
        }
}

/// How one row leaves `reap_orphans`: a pending row older than the cutoff
/// is failed with reason `interrupted`; every other row is untouched.
pub open spec fn spec_reap_row(r: SyncOperationView, cutoff: i64, now: i64) -> SyncOperationView {
    if r.status == SyncStatus::Pending && r.started_at < cutoff {
        SyncOperationView {
            status: SyncStatus::Failed,
            error_message: Some(spec_interrupted_message()),
            completed_at: Some(now),
            ..r
        }
    } else {
        r
    }
}

/// A page of one watcher's history among the rows `[0, i)`, walked newest
/// first: while `offset` is positive a matching row is skipped, then up to
/// `limit` matching rows are taken.
pub open spec fn spec_query_rec(
    rows: Seq<SyncOperationView>,
    watcher_id: i64,
    limit: int,
    offset: int,
    i: int,
) -> Seq<SyncOperationView>
    decreases i,
{
    if i <= 0 || limit <= 0 {
        Seq::empty()
    } else if rows[i - 1].watcher_id == watcher_id {
        if offset > 0 {
            spec_query_rec(rows, watcher_id, limit, offset - 1, i - 1)
        } else {
            seq![rows[i - 1]] + spec_query_rec(rows, watcher_id, limit - 1, 0, i - 1)
        }
    } else {
        spec_query_rec(rows, watcher_id, limit, offset, i - 1)
    }
}

/// A page of one watcher's history: newest first, `offset` rows skipped,
/// at most `limit` rows long.
pub open spec fn spec_query(
    rows: Seq<SyncOperationView>,
    watcher_id: i64,
    limit: int,
    offset: int,
) -> Seq<SyncOperationView> {
    spec_query_rec(rows, watcher_id, limit, offset, rows.len() as int)
}

/// Reaping preserves the journal invariant.
proof fn lemma_reap_preserves_wf(
    pre: Seq<SyncOperationView>,
    post: Seq<SyncOperationView>,
    j_pre: SyncJournal,
    j_post: SyncJournal,
    cutoff: i64,
    now: i64,
)
    requires
        journal_wf(j_pre),
        pre == rows_of(j_pre),
        post == rows_of(j_post),
        j_post.next_id == j_pre.next_id,
        post.len() == pre.len(),
        forall|i: int| 0 <= i < pre.len() ==> post[i] == spec_reap_row(#[trigger] pre[i], cutoff, now),
    ensures
        journal_wf(j_post),
{
    assert forall|i: int| 0 <= i < post.len() implies row_wf(#[trigger] post[i]) by {
        assert(post[i] == spec_reap_row(pre[i], cutoff, now));
        assert(row_wf(pre[i]));
    }
    assert forall|i: int| 0 <= i < post.len() implies (#[trigger] post[i]).id < j_post.next_id by {
        assert(post[i] == spec_reap_row(pre[i], cutoff, now));
    }
    assert forall|i: int, k: int| 0 <= i < k < post.len() implies (#[trigger] post[i]).id != (
    #[trigger] post[k]).id by {
        assert(post[i] == spec_reap_row(pre[i], cutoff, now));
        assert(post[k] == spec_reap_row(pre[k], cutoff, now));
    }
    assert forall|i: int, k: int|
        0 <= i < k < post.len() && (#[trigger] post[i]).watcher_id == (
    #[trigger] post[k]).watcher_id implies !(post[i].status == SyncStatus::Pending
        && post[k].status == SyncStatus::Pending) by {
        assert(post[i] == spec_reap_row(pre[i], cutoff, now));
        assert(post[k] == spec_reap_row(pre[k], cutoff, now));
    }
}

} // verus!
