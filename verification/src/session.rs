//! Login sessions at rest: one opaque payload per session id, with an
//! absolute expiry, and the sweep that drops lapsed ones.
//!
//! The payload bytes are what the web layer serialized; this module only
//! decides storage, expiry and removal.

use vstd::prelude::*;

use crate::strutil::str_eq;
use crate::track::clone_string;

verus! {

/// One stored session: an opaque payload and an optional expiry, in
/// seconds since the Unix epoch.
pub struct StoredSession {
    pub data: Vec<u8>,
    pub expiry_date: Option<u64>,
}

/// Mathematical model of a stored session.
pub struct StoredSessionView {
    pub data: Seq<u8>,
    pub expiry_date: Option<u64>,
}

impl View for StoredSession {
    type V = StoredSessionView;

    open spec fn view(&self) -> StoredSessionView {
        StoredSessionView { data: self.data@, expiry_date: self.expiry_date }
    }
}

/// A session past its expiry.  One without an expiry never lapses.
pub open spec fn spec_session_expired(s: StoredSessionView, now: u64) -> bool {
    match s.expiry_date {
        Some(e) => e < now,
        None => false,
    }
}

impl StoredSession {
    /// Whether this session lapsed before `now`.
    pub fn is_expired(&self, now: u64) -> (r: bool)
        ensures
            r == spec_session_expired(self@, now),
    {
        match self.expiry_date {
            Some(e) => e < now,
            None => false,
        }
    }

    /// Copy a session; the copy models the same session.
    pub fn duplicate(&self) -> (r: StoredSession)
        ensures
            r@ == self@,
    {
        StoredSession { data: self.data.clone(), expiry_date: self.expiry_date }
    }
}

/// The rows of a session vector, as models.
pub open spec fn session_rows_of(v: Seq<(String, StoredSession)>) -> Seq<(
    Seq<char>,
    StoredSessionView,
)> {
    v.map_values(|e: (String, StoredSession)| (e.0@, e.1@))
}

/// The sessions a store holds: id and payload, as models.
pub open spec fn sessions_of(s: SessionStore) -> Seq<(Seq<char>, StoredSessionView)> {
    session_rows_of(s.sessions@)
}

/// The session stored under an id, if any.
pub open spec fn spec_session_lookup(
    rows: Seq<(Seq<char>, StoredSessionView)>,
    id: Seq<char>,
) -> Option<StoredSessionView> {
    if exists|i: int| 0 <= i < rows.len() && (#[trigger] rows[i]).0 == id {
        Some(rows[choose|i: int| 0 <= i < rows.len() && (#[trigger] rows[i]).0 == id].1)
    } else {
        None
    }
}

/// Store invariant: one session per id.
pub open spec fn session_store_wf(s: SessionStore) -> bool {
    let rows = sessions_of(s);
    forall|i: int, k: int| 0 <= i < k < rows.len() ==> (#[trigger] rows[i]).0 != (#[trigger] rows[k]).0
}

/// The session store.
pub struct SessionStore {
    pub sessions: Vec<(String, StoredSession)>,
}

impl SessionStore {
    /// An empty store.
    pub fn new() -> (s: SessionStore)
        ensures
            session_store_wf(s),
            sessions_of(s).len() == 0,
    {
        let s = SessionStore { sessions: Vec::new() };
        proof {
            assert(sessions_of(s) =~= Seq::<(Seq<char>, StoredSessionView)>::empty());
        }
        s
    }

    /// Rebuild a store from persisted rows, checking the one invariant:
    /// one session per id.  Duplicates yield `None`.
    pub fn from_rows(rows: Vec<(String, StoredSession)>) -> (r: Option<SessionStore>)
        ensures
            r matches Some(s) ==> session_store_wf(s) && sessions_of(s) == session_rows_of(rows@),
    {
        let ghost rv = session_rows_of(rows@);
        let n = rows.len();
        let mut i: usize = 0;
        while i < n
            invariant
                n == rv.len(),
                rv == session_rows_of(rows@),
                i <= n,
                forall|a: int, b: int|
                    0 <= a < b < i ==> (#[trigger] rv[a]).0 != (#[trigger] rv[b]).0,
            decreases n - i,
        {
            let mut j: usize = 0;
            while j < i
                invariant
                    j <= i < n,
                    n == rv.len(),
                    rv == session_rows_of(rows@),
                    forall|a: int| 0 <= a < j ==> (#[trigger] rv[a]).0 != rv[i as int].0,
                decreases i - j,
            {
                if str_eq(rows[j].0.as_str(), rows[i].0.as_str()) {
                    return None;
                }
                j += 1;
            }
            i += 1;
        }
        Some(SessionStore { sessions: rows })
    }

    /// The index of an id's session.
    fn find_session(&self, id: &str) -> (r: Option<usize>)
        ensures
            r matches Some(i) ==> i < sessions_of(*self).len() && sessions_of(*self)[i as int].0
                == id@,
            r is None ==> spec_session_lookup(sessions_of(*self), id@) is None,
    {
        let ghost rows = sessions_of(*self);
        let mut i: usize = 0;
        while i < self.sessions.len()
            invariant
                i <= rows.len(),
                rows == sessions_of(*self),
                forall|k: int| 0 <= k < i ==> (#[trigger] rows[k]).0 != id@,
            decreases rows.len() - i,
        {
            if str_eq(self.sessions[i].0.as_str(), id) {
                return Some(i);
            }
            i += 1;
        }
        None
    }

    /// Store a session under an id, replacing any session of that id.
    pub fn save(&mut self, id: &str, record: StoredSession)
        requires
            session_store_wf(*old(self)),
        ensures
            session_store_wf(*final(self)),
            spec_session_lookup(sessions_of(*final(self)), id@) == Some(record@),
            forall|s2: Seq<char>|
                s2 != id@ ==> #[trigger] spec_session_lookup(sessions_of(*final(self)), s2)
                    == spec_session_lookup(sessions_of(*old(self)), s2),
    {
        let ghost pre = sessions_of(*self);
        let ghost rv = record@;
        match self.find_session(id) {
            Some(i) => {
                self.sessions[i] = (id.to_owned(), record);
                proof {
                    let post = sessions_of(*self);
                    assert(post =~= pre.update(i as int, (id@, rv)));
                    assert forall|a: int, b: int| 0 <= a < b < post.len() implies (
                    #[trigger] post[a]).0 != (#[trigger] post[b]).0 by {
                        assert(post[a].0 == pre[a].0 && post[b].0 == pre[b].0);
                    }
                    lemma_session_unique(post, id@, i as int);
                    assert forall|s2: Seq<char>| s2 != id@ implies #[trigger] spec_session_lookup(
                        post,
                        s2,
                    ) == spec_session_lookup(pre, s2) by {
                        lemma_session_lookup_other_update(pre, post, i as int, s2);
                    }
                }
            },
            None => {
                self.sessions.push((id.to_owned(), record));
                proof {
                    let post = sessions_of(*self);
                    assert(post =~= pre.push((id@, rv)));
                    assert forall|a: int| 0 <= a < pre.len() implies (#[trigger] pre[a]).0
                        != id@ by {
                        if pre[a].0 == id@ {
                            assert(exists|j: int| 0 <= j < pre.len() && (#[trigger] pre[j]).0 == id@);
                        }
                    }
                    assert forall|a: int, b: int| 0 <= a < b < post.len() implies (
                    #[trigger] post[a]).0 != (#[trigger] post[b]).0 by {
                        if b == post.len() - 1 {
                            assert(post[a] == pre[a]);
                        } else {
                            assert(post[a] == pre[a] && post[b] == pre[b]);
                        }
                    }
                    lemma_session_unique(post, id@, post.len() - 1);
                    assert forall|s2: Seq<char>| s2 != id@ implies #[trigger] spec_session_lookup(
                        post,
                        s2,
                    ) == spec_session_lookup(pre, s2) by {
                        lemma_session_lookup_other_push(pre, post, s2);
                    }
                }
            },
        }
    }

    /// Load the session of an id.  A lapsed session is dropped on the way
    /// out and reads as absent.
    pub fn load(&mut self, id: &str, now: u64) -> (r: Option<StoredSession>)
        requires
            session_store_wf(*old(self)),
        ensures
            session_store_wf(*final(self)),
            r matches Some(s) ==> spec_session_lookup(sessions_of(*old(self)), id@) == Some(s@)
                && !spec_session_expired(s@, now) && *final(self) == *old(self),
            r is None ==> spec_session_lookup(sessions_of(*final(self)), id@) is None,
            (r is None && spec_session_lookup(sessions_of(*old(self)), id@) is None) ==> *final(
                self) == *old(self),
    {
        let i = match self.find_session(id) {
            Some(i) => i,
            None => {
                return None;
            },
        };
        proof {
            lemma_session_unique(sessions_of(*self), id@, i as int);
        }
        if self.sessions[i].1.is_expired(now) {
            let ghost pre = sessions_of(*self);
            self.sessions.remove(i);
            proof {
                let post = sessions_of(*self);
                assert(post =~= pre.remove(i as int));
                lemma_session_remove(pre, post, i as int, id@);
            }
            None
        } else {
            Some(self.sessions[i].1.duplicate())
        }
    }

    /// Drop the session of an id.  Idempotent.
    pub fn delete(&mut self, id: &str)
        requires
            session_store_wf(*old(self)),
        ensures
            session_store_wf(*final(self)),
            spec_session_lookup(sessions_of(*final(self)), id@) is None,
    {
        match self.find_session(id) {
            Some(i) => {
                let ghost pre = sessions_of(*self);
                proof {
                    lemma_session_unique(pre, id@, i as int);
                }
                self.sessions.remove(i);
                proof {
                    let post = sessions_of(*self);
                    assert(post =~= pre.remove(i as int));
                    lemma_session_remove(pre, post, i as int, id@);
                }
            },
            None => {},
        }
    }

    /// Sweep every lapsed session out of the store.
    pub fn delete_expired(&mut self, now: u64) -> (removed: usize)
        requires
            session_store_wf(*old(self)),
        ensures
            session_store_wf(*final(self)),
            forall|i: int|
                0 <= i < sessions_of(*final(self)).len() ==> !spec_session_expired(
                    (#[trigger] sessions_of(*final(self))[i]).1,
                    now,
                ),
    {
        let mut i: usize = 0;
        let mut removed: usize = 0;
        while i < self.sessions.len()
            invariant
                session_store_wf(*self),
                i <= sessions_of(*self).len(),
                forall|a: int|
                    0 <= a < i ==> !spec_session_expired(
                        (#[trigger] sessions_of(*self)[a]).1,
                        now,
                    ),
            decreases sessions_of(*self).len() - i,
        {
            if self.sessions[i].1.is_expired(now) {
                let ghost pre = sessions_of(*self);
                self.sessions.remove(i);
                if removed < usize::MAX {
                    removed = removed + 1;
                }
                proof {
                    let post = sessions_of(*self);
                    assert(post =~= pre.remove(i as int));
                    assert forall|a: int, b: int| 0 <= a < b < post.len() implies (
                    #[trigger] post[a]).0 != (#[trigger] post[b]).0 by {
                        let pa = if a < i as int {
                            a
                        } else {
                            a + 1
                        };
                        let pb = if b < i as int {
                            b
                        } else {
                            b + 1
                        };
                        assert(post[a] == pre[pa] && post[b] == pre[pb]);
                    }
                    assert forall|a: int| 0 <= a < i implies !spec_session_expired(
                        (#[trigger] sessions_of(*self)[a]).1,
                        now,
                    ) by {
                        assert(post[a] == pre[a]);
                    }
                }
            } else {
                i += 1;
            }
        }
        removed
    }
}

/// When row `i` is the id's one session, the lookup lands on it.
proof fn lemma_session_unique(rows: Seq<(Seq<char>, StoredSessionView)>, id: Seq<char>, i: int)
    requires
        0 <= i < rows.len(),
        rows[i].0 == id,
        forall|a: int, b: int|
            0 <= a < b < rows.len() ==> (#[trigger] rows[a]).0 != (#[trigger] rows[b]).0,
    ensures
        spec_session_lookup(rows, id) == Some(rows[i].1),
{
    let j = choose|j: int| 0 <= j < rows.len() && (#[trigger] rows[j]).0 == id;
    if i != j {
        if i < j {
            assert(rows[i].0 != rows[j].0);
        } else {
            assert(rows[j].0 != rows[i].0);
        }
    }
}

/// For other ids, an in-place replacement changes no lookup.
proof fn lemma_session_lookup_other_update(
    pre: Seq<(Seq<char>, StoredSessionView)>,
    post: Seq<(Seq<char>, StoredSessionView)>,
    i: int,
    s2: Seq<char>,
)
    requires
        0 <= i < pre.len(),
        post == pre.update(i, post[i]),
        pre[i].0 == post[i].0,
        pre[i].0 != s2,
        forall|a: int, b: int|
            0 <= a < b < pre.len() ==> (#[trigger] pre[a]).0 != (#[trigger] pre[b]).0,
    ensures
        spec_session_lookup(post, s2) == spec_session_lookup(pre, s2),
{
    assert forall|a: int, b: int| 0 <= a < b < post.len() implies (#[trigger] post[a]).0 != (
    #[trigger] post[b]).0 by {
        assert(post[a].0 == pre[a].0 && post[b].0 == pre[b].0);
    }
    if exists|j: int| 0 <= j < pre.len() && (#[trigger] pre[j]).0 == s2 {
        let j = choose|j: int| 0 <= j < pre.len() && (#[trigger] pre[j]).0 == s2;
        assert(post[j] == pre[j]);
        lemma_session_unique(pre, s2, j);
        lemma_session_unique(post, s2, j);
    } else {
        if exists|j: int| 0 <= j < post.len() && (#[trigger] post[j]).0 == s2 {
            let j = choose|j: int| 0 <= j < post.len() && (#[trigger] post[j]).0 == s2;
            assert(pre[j] == post[j]);
        }
    }
}

/// For other ids, a push changes no lookup.
proof fn lemma_session_lookup_other_push(
    pre: Seq<(Seq<char>, StoredSessionView)>,
    post: Seq<(Seq<char>, StoredSessionView)>,
    s2: Seq<char>,
)
    requires
        post.len() == pre.len() + 1,
        post == pre.push(post[post.len() - 1]),
        post[post.len() - 1].0 != s2,
        forall|a: int, b: int|
            0 <= a < b < post.len() ==> (#[trigger] post[a]).0 != (#[trigger] post[b]).0,
    ensures
        spec_session_lookup(post, s2) == spec_session_lookup(pre, s2),
{
    if exists|j: int| 0 <= j < pre.len() && (#[trigger] pre[j]).0 == s2 {
        let j = choose|j: int| 0 <= j < pre.len() && (#[trigger] pre[j]).0 == s2;
        assert(post[j] == pre[j]);
        assert forall|a: int, b: int| 0 <= a < b < pre.len() implies (#[trigger] pre[a]).0 != (
        #[trigger] pre[b]).0 by {
            assert(pre[a] == post[a] && pre[b] == post[b]);
        }
        lemma_session_unique(pre, s2, j);
        lemma_session_unique(post, s2, j);
    } else {
        if exists|j: int| 0 <= j < post.len() && (#[trigger] post[j]).0 == s2 {
            let j = choose|j: int| 0 <= j < post.len() && (#[trigger] post[j]).0 == s2;
            assert(j < pre.len());
            assert(pre[j] == post[j]);
        }
    }
}

/// After removing the id's one session, that id reads absent and the
/// store invariant holds.
proof fn lemma_session_remove(
    pre: Seq<(Seq<char>, StoredSessionView)>,
    post: Seq<(Seq<char>, StoredSessionView)>,
    i: int,
    id: Seq<char>,
)
    requires
        0 <= i < pre.len(),
        pre[i].0 == id,
        post == pre.remove(i),
        forall|a: int, b: int|
            0 <= a < b < pre.len() ==> (#[trigger] pre[a]).0 != (#[trigger] pre[b]).0,
    ensures
        spec_session_lookup(post, id) is None,
        forall|a: int, b: int|
            0 <= a < b < post.len() ==> (#[trigger] post[a]).0 != (#[trigger] post[b]).0,
{
    assert forall|a: int, b: int| 0 <= a < b < post.len() implies (#[trigger] post[a]).0 != (
    #[trigger] post[b]).0 by {
        let pa = if a < i {
            a
        } else {
            a + 1
        };
        let pb = if b < i {
            b
        } else {
            b + 1
        };
        assert(post[a] == pre[pa] && post[b] == pre[pb]);
    }
    assert forall|a: int| 0 <= a < post.len() implies (#[trigger] post[a]).0 != id by {
        let pa = if a < i {
            a
        } else {
            a + 1
        };
        assert(post[a] == pre[pa]);
        if pa != i && pre[pa].0 == id {
            if pa < i {
                assert(pre[pa].0 != pre[i].0);
            } else {
                assert(pre[i].0 != pre[pa].0);
            }
        }
    }
}

} // verus!
