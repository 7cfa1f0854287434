//! Watchers: the user-owned rules that mirror a source playlist into a
//! target playlist, and the store that owns them.
//!
//! A watcher's name is unique within its owner, and its source and target
//! services always differ.  A sync period below the scheduler's minimum
//! is clamped on the way in.

use vstd::prelude::*;

use crate::scheduler::{spec_effective_period, MIN_PERIOD_SECONDS};
use crate::strutil::str_eq;
use crate::track::{clone_string, spec_is_space};

verus! {

/// One sync rule.
pub struct Watcher {
    pub id: i64,
    pub user_id: i64,
    pub name: String,
    pub source_service: String,
    pub source_playlist_id: String,
    pub target_service: String,
    pub target_playlist_id: Option<String>,
    pub is_active: bool,
    pub sync_frequency: i32,
    pub last_sync_at: Option<i64>,
    pub created_at: i64,
    pub updated_at: i64,
}

/// Mathematical model of a watcher.
pub struct WatcherView {
    pub id: i64,
    pub user_id: i64,
    pub name: Seq<char>,
    pub source_service: Seq<char>,
    pub source_playlist_id: Seq<char>,
    pub target_service: Seq<char>,
    pub target_playlist_id: Option<Seq<char>>,
    pub is_active: bool,
    pub sync_frequency: i32,
    pub last_sync_at: Option<i64>,
    pub created_at: i64,
    pub updated_at: i64,
}

impl View for Watcher {
    type V = WatcherView;

    open spec fn view(&self) -> WatcherView {
        WatcherView {
            id: self.id,
            user_id: self.user_id,
            name: self.name@,
            source_service: self.source_service@,
            source_playlist_id: self.source_playlist_id@,
            target_service: self.target_service@,
            target_playlist_id: match self.target_playlist_id {
                Some(ref t) => Some(t@),
                None => None,
            },
            is_active: self.is_active,
            sync_frequency: self.sync_frequency,
            last_sync_at: self.last_sync_at,
            created_at: self.created_at,
            updated_at: self.updated_at,
        }
    }
}

impl Watcher {
    /// Copy a watcher; the copy models the same rule.
    pub fn duplicate(&self) -> (r: Watcher)
        ensures
            r@ == self@,
    {
        Watcher {
            id: self.id,
            user_id: self.user_id,
            name: clone_string(&self.name),
            source_service: clone_string(&self.source_service),
            source_playlist_id: clone_string(&self.source_playlist_id),
            target_service: clone_string(&self.target_service),
            target_playlist_id: match &self.target_playlist_id {
                Some(t) => Some(clone_string(t)),
                None => None,
            },
            is_active: self.is_active,
            sync_frequency: self.sync_frequency,
            last_sync_at: self.last_sync_at,
            created_at: self.created_at,
            updated_at: self.updated_at,
        }
    }
}

/// What a caller asks a new watcher to be.
pub struct CreateWatcherRequest {
    pub name: String,
    pub source_service: String,
    pub source_playlist_id: String,
    pub target_service: String,
    pub target_playlist_id: Option<String>,
    pub sync_frequency: Option<i32>,
}

/// Errors the watcher store reports.
#[derive(Clone, Copy, PartialEq, Eq, Structural, Debug)]
pub enum WatcherStoreError {
    /// The requested name is empty or all blank space.
    EmptyName,
    /// Source and target service are the same.
    SameService,
    /// The owner already has a watcher of that name.
    NameExists,
    /// No watcher carries the given id.
    WatcherNotFound,
}

/// A text that is empty or all blank space.
pub open spec fn spec_is_blank(s: Seq<char>) -> bool {
    forall|i: int| 0 <= i < s.len() ==> spec_is_space(#[trigger] s[i])
}

/// Decide whether a text is empty or all blank space.
pub fn is_blank(s: &str) -> (r: bool)
    ensures
        r == spec_is_blank(s@),
{
    let n = s.unicode_len();
    let mut i: usize = 0;
    while i < n
        invariant
            n == s@.len(),
            i <= n,
            forall|k: int| 0 <= k < i ==> spec_is_space(#[trigger] s@[k]),
        decreases n - i,
    {
        let c = s.get_char(i);
        if !(c == ' ' || c == '\t' || c == '\n' || c == '\r') {
            return false;
        }
        i += 1;
    }
    true
}

/// The watchers a store holds, as models.
pub open spec fn watchers_of(s: WatcherStore) -> Seq<WatcherView> {
    s.watchers@.map_values(|w: Watcher| w@)
}

/// The stored sync period, clamped to the scheduler's minimum.
pub open spec fn spec_requested_period(req_frequency: Option<i32>) -> int {
    match req_frequency {
        Some(f) => spec_effective_period(f as int),
        None => MIN_PERIOD_SECONDS as int,
    }
}

/// Store invariant: ids unique and below `next_id`; names unique within
/// an owner; source and target service differ on every watcher.
pub open spec fn watcher_store_wf(s: WatcherStore) -> bool {
    let rows = watchers_of(s);
    &&& forall|i: int| 0 <= i < rows.len() ==> (#[trigger] rows[i]).id < s.next_id
    &&& forall|i: int, k: int|
        0 <= i < k < rows.len() ==> (#[trigger] rows[i]).id != (#[trigger] rows[k]).id
    &&& forall|i: int, k: int|
        0 <= i < k < rows.len() ==> !((#[trigger] rows[i]).user_id == (
        #[trigger] rows[k]).user_id && rows[i].name == rows[k].name)
    &&& forall|i: int|
        0 <= i < rows.len() ==> (#[trigger] rows[i]).source_service != rows[i].target_service
}

/// The store of sync rules.
pub struct WatcherStore {
    pub watchers: Vec<Watcher>,
    pub next_id: i64,
}

impl WatcherStore {
    /// An empty store.
    pub fn new() -> (s: WatcherStore)
        ensures
            watcher_store_wf(s),
            watchers_of(s).len() == 0,
    {
        let s = WatcherStore { watchers: Vec::new(), next_id: 1 };
        proof {
            assert(watchers_of(s) =~= Seq::<WatcherView>::empty());
        }
        s
    }

    /// Rebuild a store from persisted rows, checking every invariant:
    /// unique ids, unique (owner, name) pairs, distinct services on each
    /// row.  Rows that violate one yield `None`.
    pub fn from_rows(rows: Vec<Watcher>) -> (r: Option<WatcherStore>)
        ensures
            r matches Some(s) ==> watcher_store_wf(s) && watchers_of(s) == rows@.map_values(
                |w: Watcher| w@,
            ),
    {
        let ghost rv = rows@.map_values(|w: Watcher| w@);
        let n = rows.len();
        let mut max_id: i64 = 0;
        let mut i: usize = 0;
        while i < n
            invariant
                n == rv.len(),
                rv == rows@.map_values(|w: Watcher| w@),
                i <= n,
                max_id >= 0,
                forall|a: int| 0 <= a < i ==> (#[trigger] rv[a]).id <= max_id,
                forall|a: int|
                    0 <= a < i ==> (#[trigger] rv[a]).source_service != rv[a].target_service,
                forall|a: int, b: int|
                    0 <= a < b < i ==> (#[trigger] rv[a]).id != (#[trigger] rv[b]).id,
                forall|a: int, b: int|
                    0 <= a < b < i ==> !((#[trigger] rv[a]).user_id == (
                    #[trigger] rv[b]).user_id && rv[a].name == rv[b].name),
            decreases n - i,
        {
            if str_eq(rows[i].source_service.as_str(), rows[i].target_service.as_str()) {
                return None;
            }
            if rows[i].id < 0 {
                return None;
            }
            let mut j: usize = 0;
            while j < i
                invariant
                    j <= i < n,
                    n == rv.len(),
                    rv == rows@.map_values(|w: Watcher| w@),
                    forall|a: int| 0 <= a < j ==> (#[trigger] rv[a]).id != rv[i as int].id,
                    forall|a: int|
                        0 <= a < j ==> !((#[trigger] rv[a]).user_id == rv[i as int].user_id
                            && rv[a].name == rv[i as int].name),
                decreases i - j,
            {
                if rows[j].id == rows[i].id {
                    return None;
                }
                if rows[j].user_id == rows[i].user_id && str_eq(
                    rows[j].name.as_str(),
                    rows[i].name.as_str(),
                ) {
                    return None;
                }
                j += 1;
            }
            if rows[i].id > max_id {
                max_id = rows[i].id;
            }
            i += 1;
        }
        if max_id == i64::MAX {
            return None;
        }
        let s = WatcherStore { watchers: rows, next_id: max_id + 1 };
        Some(s)
    }

    /// The index of the watcher carrying an id.
    fn find_by_id(&self, watcher_id: i64) -> (r: Option<usize>)
        ensures
            r matches Some(i) ==> i < watchers_of(*self).len() && watchers_of(*self)[i as int].id
                == watcher_id,
            r is None ==> forall|k: int|
                0 <= k < watchers_of(*self).len() ==> (#[trigger] watchers_of(*self)[k]).id
                    != watcher_id,
    {
        let ghost rows = watchers_of(*self);
        let mut i: usize = 0;
        while i < self.watchers.len()
            invariant
                i <= rows.len(),
                rows == watchers_of(*self),
                forall|k: int| 0 <= k < i ==> (#[trigger] rows[k]).id != watcher_id,
            decreases rows.len() - i,
        {
            if self.watchers[i].id == watcher_id {
                return Some(i);
            }
            i += 1;
        }
        None
    }

    /// The watcher carrying an id, if any.
    pub fn get_watcher_by_id(&self, watcher_id: i64) -> (r: Option<Watcher>)
        ensures
            r matches Some(w) ==> watchers_of(*self).contains(w@) && w@.id == watcher_id,
            r is None ==> forall|k: int|
                0 <= k < watchers_of(*self).len() ==> (#[trigger] watchers_of(*self)[k]).id
                    != watcher_id,
    {
        match self.find_by_id(watcher_id) {
            Some(i) => {
                proof {
                    assert(watchers_of(*self).contains(watchers_of(*self)[i as int]));
                }
                Some(self.watchers[i].duplicate())
            },
            None => None,
        }
    }

    /// An owner's watcher of a name, if any.
    pub fn get_watcher_by_name(&self, user_id: i64, name: &str) -> (r: Option<Watcher>)
        ensures
            r matches Some(w) ==> watchers_of(*self).contains(w@) && w@.user_id == user_id
                && w@.name == name@,
            r is None ==> !spec_name_taken(watchers_of(*self), user_id, name@),
    {
        let ghost rows = watchers_of(*self);
        let mut i: usize = 0;
        while i < self.watchers.len()
            invariant
                i <= rows.len(),
                rows == watchers_of(*self),
                forall|k: int|
                    0 <= k < i ==> !((#[trigger] rows[k]).user_id == user_id && rows[k].name
                        == name@),
            decreases rows.len() - i,
        {
            if self.watchers[i].user_id == user_id && str_eq(self.watchers[i].name.as_str(), name) {
                proof {
                    assert(rows.contains(rows[i as int]));
                }
                return Some(self.watchers[i].duplicate());
            }
            i += 1;
        }
        None
    }

    /// Validate a request and create the watcher it asks for.
    ///
    /// The name must not be blank, the services must differ, and the
    /// owner must not already use the name; the stored period is the
    /// requested one clamped to the minimum.
    pub fn create_watcher(&mut self, user_id: i64, request: &CreateWatcherRequest, now: i64) -> (r:
        Result<Watcher, WatcherStoreError>)
        requires
            watcher_store_wf(*old(self)),
            old(self).next_id < i64::MAX,
        ensures
            watcher_store_wf(*final(self)),
            r matches Err(e) ==> *final(self) == *old(self) && spec_create_err(
                watchers_of(*old(self)),
                *request,
                user_id,
                e,
            ),
            r matches Ok(w) ==> spec_create_ok(
                watchers_of(*old(self)),
                watchers_of(*final(self)),
                *request,
                user_id,
                now,
                old(self).next_id,
                w@,
            ),
    {
        if is_blank(request.name.as_str()) {
            return Err(WatcherStoreError::EmptyName);
        }
        if str_eq(request.source_service.as_str(), request.target_service.as_str()) {
            return Err(WatcherStoreError::SameService);
        }
        match self.get_watcher_by_name(user_id, request.name.as_str()) {
            Some(_) => {
                return Err(WatcherStoreError::NameExists);
            },
            None => {},
        }
        let frequency: i32 = match request.sync_frequency {
            Some(f) => {
                if f < MIN_PERIOD_SECONDS as i32 {
                    MIN_PERIOD_SECONDS as i32
                } else {
                    f
                }
            },
            None => MIN_PERIOD_SECONDS as i32,
        };
        let id = self.next_id;
        let w = Watcher {
            id,
            user_id,
            name: clone_string(&request.name),
            source_service: clone_string(&request.source_service),
            source_playlist_id: clone_string(&request.source_playlist_id),
            target_service: clone_string(&request.target_service),
            target_playlist_id: match &request.target_playlist_id {
                Some(t) => Some(clone_string(t)),
                None => None,
            },
            is_active: true,
            sync_frequency: frequency,
            last_sync_at: None,
            created_at: now,
            updated_at: now,
        };
        let out = w.duplicate();
        let ghost pre = watchers_of(*self);
        self.watchers.push(w);
        self.next_id = id + 1;
        proof {
            let post = watchers_of(*self);
            assert(post =~= pre.push(post[post.len() - 1]));
            assert forall|a: int, b: int| 0 <= a < b < post.len() implies (
            #[trigger] post[a]).id != (#[trigger] post[b]).id by {
                if b == post.len() - 1 {
                    assert(post[a] == pre[a]);
                } else {
                    assert(post[a] == pre[a] && post[b] == pre[b]);
                }
            }
            assert forall|a: int, b: int|
                0 <= a < b < post.len() implies !((#[trigger] post[a]).user_id == (
            #[trigger] post[b]).user_id && post[a].name == post[b].name) by {
                if b == post.len() - 1 {
                    assert(post[a] == pre[a]);
                    if post[a].user_id == user_id && post[a].name == request.name@ {
                        assert(spec_name_taken(pre, user_id, request.name@));
                    }
                } else {
                    assert(post[a] == pre[a] && post[b] == pre[b]);
                }
            }
            assert forall|a: int| 0 <= a < post.len() implies (
            #[trigger] post[a]).source_service != post[a].target_service by {
                if a < post.len() - 1 {
                    assert(post[a] == pre[a]);
                }
            }
            assert forall|a: int| 0 <= a < post.len() implies (#[trigger] post[a]).id
                < self.next_id by {
                if a < post.len() - 1 {
                    assert(post[a] == pre[a]);
                }
            }
        }
        Ok(out)
    }

    /// An owner's watchers, newest first.
    pub fn get_watchers_by_user(&self, user_id: i64) -> (out: Vec<Watcher>)
        ensures
            out@.map_values(|w: Watcher| w@) == spec_user_watchers(watchers_of(*self), user_id),
    {
        let ghost rows = watchers_of(*self);
        let mut out: Vec<Watcher> = Vec::new();
        let mut i: usize = self.watchers.len();
        proof {
            assert(out@.map_values(|w: Watcher| w@) + spec_user_watchers_rec(
                rows,
                user_id,
                rows.len() as int,
            ) =~= spec_user_watchers_rec(rows, user_id, rows.len() as int));
        }
        while i > 0
            invariant
                i <= rows.len(),
                rows == watchers_of(*self),
                spec_user_watchers(rows, user_id) == out@.map_values(|w: Watcher| w@)
                    + spec_user_watchers_rec(rows, user_id, i as int),
            decreases i,
        {
            i = i - 1;
            if self.watchers[i].user_id == user_id {
                let ghost old_out = out@;
                out.push(self.watchers[i].duplicate());
                proof {
                    assert(out@.map_values(|w: Watcher| w@) =~= old_out.map_values(
                        |w: Watcher| w@,
                    ).push(rows[i as int]));
                }
            }
        }
        proof {
            assert(out@.map_values(|w: Watcher| w@) + spec_user_watchers_rec(rows, user_id, 0)
                =~= out@.map_values(|w: Watcher| w@));
        }
        out
    }

    /// Every active watcher, exactly once, in stored (creation) order.
    ///
    /// The scheduler treats the result as a work set and gives each
    /// watcher its own recurring task, so no further ordering is imposed
    /// here; stored order is the documented intent.
    pub fn get_active_watchers(&self) -> (out: Vec<Watcher>)
        ensures
            out@.map_values(|w: Watcher| w@) == spec_active_watchers(
                watchers_of(*self),
                watchers_of(*self).len() as int,
            ),
    {
        let ghost rows = watchers_of(*self);
        let mut out: Vec<Watcher> = Vec::new();
        let mut i: usize = 0;
        proof {
            assert(out@.map_values(|w: Watcher| w@) =~= spec_active_watchers(rows, 0));
        }
        while i < self.watchers.len()
            invariant
                i <= rows.len(),
                rows == watchers_of(*self),
                out@.map_values(|w: Watcher| w@) == spec_active_watchers(rows, i as int),
            decreases rows.len() - i,
        {
            if self.watchers[i].is_active {
                let ghost old_out = out@;
                out.push(self.watchers[i].duplicate());
                proof {
                    assert(out@.map_values(|w: Watcher| w@) =~= old_out.map_values(
                        |w: Watcher| w@,
                    ).push(rows[i as int]));
                }
            }
            i += 1;
        }
        out
    }

    /// Activate or deactivate a watcher.
    pub fn update_watcher_status(&mut self, watcher_id: i64, is_active: bool, now: i64) -> (r:
        Result<(), WatcherStoreError>)
        requires
            watcher_store_wf(*old(self)),
        ensures
            watcher_store_wf(*final(self)),
            r matches Err(e) ==> *final(self) == *old(self) && e
                == WatcherStoreError::WatcherNotFound && (forall|k: int|
                0 <= k < watchers_of(*old(self)).len() ==> (#[trigger] watchers_of(
                    *old(self),
                )[k]).id != watcher_id),
            r matches Ok(u) ==> spec_row_updated(
                watchers_of(*old(self)),
                watchers_of(*final(self)),
                watcher_id,
                spec_with_status(is_active, now),
            ),
    {
        let i = match self.find_by_id(watcher_id) {
            Some(i) => i,
            None => {
                return Err(WatcherStoreError::WatcherNotFound);
            },
        };
        let ghost pre = watchers_of(*self);
        let mut w = self.watchers[i].duplicate();
        w.is_active = is_active;
        w.updated_at = now;
        self.watchers[i] = w;
        proof {
            lemma_watcher_update(pre, watchers_of(*self), i as int, *old(self), *self);
            assert(watchers_of(*self)[i as int] == spec_with_status(is_active, now)(
                pre[i as int],
            ));
        }
        Ok(())
    }

    /// Record a successful sync's completion time, full precision.
    pub fn update_last_sync(&mut self, watcher_id: i64, now: i64) -> (r: Result<
        (),
        WatcherStoreError,
    >)
        requires
            watcher_store_wf(*old(self)),
        ensures
            watcher_store_wf(*final(self)),
            r matches Err(e) ==> *final(self) == *old(self) && e
                == WatcherStoreError::WatcherNotFound && (forall|k: int|
                0 <= k < watchers_of(*old(self)).len() ==> (#[trigger] watchers_of(
                    *old(self),
                )[k]).id != watcher_id),
            r matches Ok(u) ==> spec_row_updated(
                watchers_of(*old(self)),
                watchers_of(*final(self)),
                watcher_id,
                spec_with_last_sync(now),
            ),
    {
        let i = match self.find_by_id(watcher_id) {
            Some(i) => i,
            None => {
                return Err(WatcherStoreError::WatcherNotFound);
            },
        };
        let ghost pre = watchers_of(*self);
        let mut w = self.watchers[i].duplicate();
        w.last_sync_at = Some(now);
        w.updated_at = now;
        self.watchers[i] = w;
        proof {
            lemma_watcher_update(pre, watchers_of(*self), i as int, *old(self), *self);
            assert(watchers_of(*self)[i as int] == spec_with_last_sync(now)(pre[i as int]));
        }
        Ok(())
    }
}

/// Whether some watcher row carries an id.
pub open spec fn spec_watcher_id_taken(rows: Seq<WatcherView>, watcher_id: i64) -> bool {
    exists|i: int| 0 <= i < rows.len() && (#[trigger] rows[i]).id == watcher_id
}

/// Whether an owner already uses a name.
pub open spec fn spec_name_taken(rows: Seq<WatcherView>, user_id: i64, name: Seq<char>) -> bool {
    exists|i: int|
        0 <= i < rows.len() && (#[trigger] rows[i]).user_id == user_id && rows[i].name == name
}

/// Which error a create request draws, and when.
pub open spec fn spec_create_err(
    rows: Seq<WatcherView>,
    request: CreateWatcherRequest,
    user_id: i64,
    e: WatcherStoreError,
) -> bool {
    if spec_is_blank(request.name@) {
        e == WatcherStoreError::EmptyName
    } else if request.source_service@ == request.target_service@ {
        e == WatcherStoreError::SameService
    } else if spec_name_taken(rows, user_id, request.name@) {
        e == WatcherStoreError::NameExists
    } else {
        false
    }
}

/// What a successful create guarantees: the request was valid and one
/// watcher was appended, active, with the clamped period and no sync yet.
pub open spec fn spec_create_ok(
    pre: Seq<WatcherView>,
    post: Seq<WatcherView>,
    request: CreateWatcherRequest,
    user_id: i64,
    now: i64,
    id: i64,
    w: WatcherView,
) -> bool {
    &&& !spec_is_blank(request.name@)
    &&& request.source_service@ != request.target_service@
    &&& !spec_name_taken(pre, user_id, request.name@)
    &&& post == pre.push(w)
    &&& w.id == id
    &&& w.user_id == user_id
    &&& w.name == request.name@
    &&& w.source_service == request.source_service@
    &&& w.source_playlist_id == request.source_playlist_id@
    &&& w.target_service == request.target_service@
    &&& w.target_playlist_id == match request.target_playlist_id {
        Some(t) => Some(t@),
        None => None,
    }
    &&& w.is_active
    &&& w.sync_frequency as int == spec_requested_period(request.sync_frequency)
    &&& w.last_sync_at is None
    &&& w.created_at == now && w.updated_at == now
}

/// A watcher with its active flag and update time replaced.
pub open spec fn spec_with_status(is_active: bool, now: i64) -> spec_fn(WatcherView)
    -> WatcherView {
    |w: WatcherView| WatcherView { is_active, updated_at: now, ..w }
}

/// A watcher with its last sync time and update time replaced.
pub open spec fn spec_with_last_sync(now: i64) -> spec_fn(WatcherView) -> WatcherView {
    |w: WatcherView| WatcherView { last_sync_at: Some(now), updated_at: now, ..w }
}

/// One row changed by `f`, all others in place.
pub open spec fn spec_row_updated(
    pre: Seq<WatcherView>,
    post: Seq<WatcherView>,
    watcher_id: i64,
    f: spec_fn(WatcherView) -> WatcherView,
) -> bool {
    exists|i: int|
        {
            &&& 0 <= i < pre.len()
            &&& (#[trigger] pre[i]).id == watcher_id
            &&& post == pre.update(i, f(pre[i]))
        }
}

/// An owner's watchers among rows `[0, i)`, walked newest first.
pub open spec fn spec_user_watchers_rec(rows: Seq<WatcherView>, user_id: i64, i: int) -> Seq<
    WatcherView,
>
    decreases i,
{
    if i <= 0 {
        Seq::empty()
    } else if rows[i - 1].user_id == user_id {
        seq![rows[i - 1]] + spec_user_watchers_rec(rows, user_id, i - 1)
    } else {
        spec_user_watchers_rec(rows, user_id, i - 1)
    }
}

/// An owner's watchers, newest first.
pub open spec fn spec_user_watchers(rows: Seq<WatcherView>, user_id: i64) -> Seq<WatcherView> {
    spec_user_watchers_rec(rows, user_id, rows.len() as int)
}

/// The active watchers among rows `[0, i)`, in stored order.
pub open spec fn spec_active_watchers(rows: Seq<WatcherView>, i: int) -> Seq<WatcherView>
    decreases i,
{
    if i <= 0 {
        Seq::empty()
    } else if rows[i - 1].is_active {
        spec_active_watchers(rows, i - 1).push(rows[i - 1])
    } else {
        spec_active_watchers(rows, i - 1)
    }
}

/// An owner's list is never longer than the store.
pub proof fn lemma_user_watchers_len(rows: Seq<WatcherView>, user_id: i64, i: int)
    requires
        0 <= i <= rows.len(),
    ensures
        spec_user_watchers_rec(rows, user_id, i).len() <= i,
    decreases i,
{
    if i > 0 {
        lemma_user_watchers_len(rows, user_id, i - 1);
    }
}

/// Replacing one row without touching its id, owner, name or services
/// keeps the store invariant.
proof fn lemma_watcher_update(
    pre: Seq<WatcherView>,
    post: Seq<WatcherView>,
    i: int,
    s_pre: WatcherStore,
    s_post: WatcherStore,
)
    requires
        watcher_store_wf(s_pre),
        pre == watchers_of(s_pre),
        post == watchers_of(s_post),
        s_post.next_id == s_pre.next_id,
        0 <= i < pre.len(),
        post =~= pre.update(i, post[i]),
        post[i].id == pre[i].id,
        post[i].user_id == pre[i].user_id,
        post[i].name == pre[i].name,
        post[i].source_service == pre[i].source_service,
        post[i].target_service == pre[i].target_service,
    ensures
        watcher_store_wf(s_post),
        post == pre.update(i, post[i]),
{
    assert forall|a: int| 0 <= a < post.len() implies (#[trigger] post[a]).id
        < s_post.next_id by {
        if a != i {
            assert(post[a] == pre[a]);
        }
    }
    assert forall|a: int, b: int| 0 <= a < b < post.len() implies (#[trigger] post[a]).id != (
    #[trigger] post[b]).id by {
        assert(post[a].id == pre[a].id && post[b].id == pre[b].id);
    }
    assert forall|a: int, b: int|
        0 <= a < b < post.len() implies !((#[trigger] post[a]).user_id == (
    #[trigger] post[b]).user_id && post[a].name == post[b].name) by {
        assert(post[a].user_id == pre[a].user_id && post[a].name == pre[a].name);
        assert(post[b].user_id == pre[b].user_id && post[b].name == pre[b].name);
    }
    assert forall|a: int| 0 <= a < post.len() implies (#[trigger] post[a]).source_service
        != post[a].target_service by {
        if a != i {
            assert(post[a] == pre[a]);
        }
    }
}

} // verus!
