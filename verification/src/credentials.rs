//! The credential store: one sealed OAuth token pair per (user, service),
//! served and refreshed under concurrent load.
//!
//! Tokens rest sealed under the store's process key (an authenticated
//! encryption envelope); the plain token leaves only through
//! `access_token`.  Refreshes are single-flight: a per-key latch admits
//! one upstream exchange at a time, and everyone else waits for its
//! outcome.

use vstd::prelude::*;

use crate::crypto::{open_token, seal_token, spec_open_token};
use crate::strutil::str_eq;
use crate::track::clone_string;

verus! {

/// Seconds before the stored expiry at which a token stops counting as
/// usable for new work, so that a sync never starts on a token about to
/// lapse.
pub const EXPIRY_SKEW_SECONDS: i64 = 30;

/// One (user, service) row: encoded tokens, expiry, granted scopes.
pub struct UserCredential {
    pub id: i64,
    pub user_id: i64,
    pub service: String,
    pub access_token: String,
    pub refresh_token: Option<String>,
    pub expires_at: Option<i64>,
    pub token_scope: Option<String>,
    pub created_at: i64,
    pub updated_at: i64,
}

/// Mathematical model of a credential row.
pub struct UserCredentialView {
    pub id: i64,
    pub user_id: i64,
    pub service: Seq<char>,
    pub access_token: Seq<char>,
    pub refresh_token: Option<Seq<char>>,
    pub expires_at: Option<i64>,
    pub token_scope: Option<Seq<char>>,
    pub created_at: i64,
    pub updated_at: i64,
}

impl View for UserCredential {
    type V = UserCredentialView;

    open spec fn view(&self) -> UserCredentialView {
        UserCredentialView {
            id: self.id,
            user_id: self.user_id,
            service: self.service@,
            access_token: self.access_token@,
            refresh_token: match self.refresh_token {
                Some(ref t) => Some(t@),
                None => None,
            },
            expires_at: self.expires_at,
            token_scope: match self.token_scope {
                Some(ref t) => Some(t@),
                None => None,
            },
            created_at: self.created_at,
            updated_at: self.updated_at,
        }
    }
}

impl UserCredential {
    /// Copy a row; the copy models the same row.
    pub fn duplicate(&self) -> (r: UserCredential)
        ensures
            r@ == self@,
    {
        UserCredential {
            id: self.id,
            user_id: self.user_id,
            service: clone_string(&self.service),
            access_token: clone_string(&self.access_token),
            refresh_token: match &self.refresh_token {
                Some(t) => Some(clone_string(t)),
                None => None,
            },
            expires_at: self.expires_at,
            token_scope: match &self.token_scope {
                Some(t) => Some(clone_string(t)),
                None => None,
            },
            created_at: self.created_at,
            updated_at: self.updated_at,
        }
    }
}

/// Errors the credential store reports.
#[derive(Clone, Copy, PartialEq, Eq, Structural, Debug)]
pub enum CredentialError {
    /// No credential is stored for the (user, service).
    NotLinked,
    /// The stored token's expiry has passed.
    TokenExpired,
    /// The stored token bytes decode to no token.
    InvalidTokenData,
    /// No refresh is possible; the user must redo the OAuth flow.
    AuthenticationFailed,
    /// The process key refused to seal the token.
    EncryptionFailed,
}

/// The rows a store holds, as models.
pub open spec fn creds_of(s: CredentialStore) -> Seq<UserCredentialView> {
    s.rows@.map_values(|c: UserCredential| c@)
}

/// The refresh latches a store holds: each entry is a (user, service tag)
/// key whose refresh is in flight.
pub open spec fn latches_of(s: CredentialStore) -> Seq<(i64, Seq<char>)> {
    s.refreshing@.map_values(|l: (i64, String)| (l.0, l.1@))
}

/// The index of the row of a (user, service), if any.
pub open spec fn spec_find(rows: Seq<UserCredentialView>, user_id: i64, service: Seq<char>)
    -> Option<int> {
    if exists|i: int|
        0 <= i < rows.len() && (#[trigger] rows[i]).user_id == user_id && rows[i].service
            == service {
        Some(
            choose|i: int|
                0 <= i < rows.len() && (#[trigger] rows[i]).user_id == user_id && rows[i].service
                    == service,
        )
    } else {
        None
    }
}

/// The row of a (user, service), if any.
pub open spec fn spec_lookup(rows: Seq<UserCredentialView>, user_id: i64, service: Seq<char>)
    -> Option<UserCredentialView> {
    match spec_find(rows, user_id, service) {
        Some(i) => Some(rows[i]),
        None => None,
    }
}

/// Whether a refresh for the key is in flight.
pub open spec fn spec_latched(latches: Seq<(i64, Seq<char>)>, user_id: i64, service: Seq<char>)
    -> bool {
    exists|i: int|
        0 <= i < latches.len() && (#[trigger] latches[i]).0 == user_id && latches[i].1 == service
}

/// A token is usable at `now`: its expiry, less the skew, lies ahead.  A
/// missing expiry counts as usable until an upstream call says otherwise.
pub open spec fn spec_usable_at(c: UserCredentialView, now: i64) -> bool {
    match c.expires_at {
        Some(e) => now < e - EXPIRY_SKEW_SECONDS,
        None => true,
    }
}

/// A token is unexpired at `now`, with no skew: the bar `access_token`
/// holds its callers to.
pub open spec fn spec_unexpired_at(c: UserCredentialView, now: i64) -> bool {
    match c.expires_at {
        Some(e) => now < e,
        None => true,
    }
}

/// Store invariant: at most one row per (user, service); at most one
/// refresh latch per (user, service); row ids unique and below `next_id`.
pub open spec fn store_wf(s: CredentialStore) -> bool {
    let rows = creds_of(s);
    let latches = latches_of(s);
    &&& s.key@.len() == 32
    &&& forall|i: int, k: int|
        0 <= i < k < rows.len() ==> !((#[trigger] rows[i]).user_id == (
        #[trigger] rows[k]).user_id && rows[i].service == rows[k].service)
    &&& forall|i: int, k: int|
        0 <= i < k < latches.len() ==> !((#[trigger] latches[i]).0 == (
        #[trigger] latches[k]).0 && latches[i].1 == latches[k].1)
    &&& forall|i: int| 0 <= i < rows.len() ==> (#[trigger] rows[i]).id < s.next_id
    &&& forall|i: int, k: int|
        0 <= i < k < rows.len() ==> (#[trigger] rows[i]).id != (#[trigger] rows[k]).id
}

/// The in-process credential store.
pub struct CredentialStore {
    pub rows: Vec<UserCredential>,
    pub next_id: i64,
    /// The (user, service) keys whose refresh is in flight.
    pub refreshing: Vec<(i64, String)>,
    /// The process secret the tokens rest sealed under.
    pub key: Vec<u8>,
}

impl CredentialStore {
    /// An empty store sealing its tokens under the given 32-byte key.
    pub fn new(key: Vec<u8>) -> (s: CredentialStore)
        requires
            key@.len() == 32,
        ensures
            store_wf(s),
            creds_of(s).len() == 0,
            latches_of(s).len() == 0,
            s.key == key,
    {
        let s = CredentialStore { rows: Vec::new(), next_id: 1, refreshing: Vec::new(), key };
        proof {
            assert(creds_of(s) =~= Seq::<UserCredentialView>::empty());
            assert(latches_of(s) =~= Seq::<(i64, Seq<char>)>::empty());
        }
        s
    }

    /// Rebuild a store from persisted rows, checking every invariant:
    /// a 32-byte key, unique ids and unique (user, service) keys.  Rows
    /// that violate one yield `None`.  No refresh is in flight after a
    /// restart.
    pub fn from_rows(key: Vec<u8>, rows: Vec<UserCredential>) -> (r: Option<CredentialStore>)
        ensures
            r matches Some(s) ==> store_wf(s) && creds_of(s) == rows@.map_values(
                |c: UserCredential| c@,
            ) && latches_of(s).len() == 0 && s.key == key,
    {
        if key.len() != 32 {
            return None;
        }
        let ghost rv = rows@.map_values(|c: UserCredential| c@);
        let n = rows.len();
        let mut max_id: i64 = 0;
        let mut i: usize = 0;
        while i < n
            invariant
                n == rv.len(),
                rv == rows@.map_values(|c: UserCredential| c@),
                i <= n,
                max_id >= 0,
                forall|a: int| 0 <= a < i ==> (#[trigger] rv[a]).id <= max_id,
                forall|a: int, b: int|
                    0 <= a < b < i ==> (#[trigger] rv[a]).id != (#[trigger] rv[b]).id,
                forall|a: int, b: int|
                    0 <= a < b < i ==> !((#[trigger] rv[a]).user_id == (
                    #[trigger] rv[b]).user_id && rv[a].service == rv[b].service),
            decreases n - i,
        {
            if rows[i].id < 0 {
                return None;
            }
            let mut j: usize = 0;
            while j < i
                invariant
                    j <= i < n,
                    n == rv.len(),
                    rv == rows@.map_values(|c: UserCredential| c@),
                    forall|a: int| 0 <= a < j ==> (#[trigger] rv[a]).id != rv[i as int].id,
                    forall|a: int|
                        0 <= a < j ==> !((#[trigger] rv[a]).user_id == rv[i as int].user_id
                            && rv[a].service == rv[i as int].service),
                decreases i - j,
            {
                if rows[j].id == rows[i].id {
                    return None;
                }
                if rows[j].user_id == rows[i].user_id && str_eq(
                    rows[j].service.as_str(),
                    rows[i].service.as_str(),
                ) {
                    return None;
                }
                j += 1;
            }
            if rows[i].id > max_id {
                max_id = rows[i].id;
            }
            i += 1;
        }
        if max_id == i64::MAX {
            return None;
        }
        let s = CredentialStore { rows, next_id: max_id + 1, refreshing: Vec::new(), key };
        proof {
            assert(latches_of(s) =~= Seq::<(i64, Seq<char>)>::empty());
        }
        Some(s)
    }

    /// The index of the row of a (user, service).
    fn find_index(&self, user_id: i64, service: &str) -> (r: Option<usize>)
        ensures
            r matches Some(i) ==> i < creds_of(*self).len() && creds_of(*self)[i as int].user_id
                == user_id && creds_of(*self)[i as int].service == service@,
            r is None ==> spec_find(creds_of(*self), user_id, service@) is None,
    {
        let ghost rows = creds_of(*self);
        let mut i: usize = 0;
        while i < self.rows.len()
            invariant
                i <= rows.len(),
                rows == creds_of(*self),
                forall|k: int|
                    0 <= k < i ==> !((#[trigger] rows[k]).user_id == user_id && rows[k].service
                        == service@),
            decreases rows.len() - i,
        {
            if self.rows[i].user_id == user_id && str_eq(self.rows[i].service.as_str(), service) {
                return Some(i);
            }
            i += 1;
        }
        None
    }

    /// Load the stored row of a (user, service).
    pub fn load(&self, user_id: i64, service: &str) -> (r: Option<UserCredential>)
        requires
            store_wf(*self),
        ensures
            r matches Some(c) ==> spec_lookup(creds_of(*self), user_id, service@) == Some(c@),
            r is None ==> spec_lookup(creds_of(*self), user_id, service@) is None,
    {
        match self.find_index(user_id, service) {
            Some(i) => {
                proof {
                    lemma_lookup_unique(creds_of(*self), user_id, service@, i as int);
                }
                Some(self.rows[i].duplicate())
            },
            None => None,
        }
    }

    /// Store plain tokens for a (user, service): seal them under the
    /// process key and upsert the one row of that key.  Fails only when
    /// the sealing primitive refuses, and then changes nothing.
    pub fn store(
        &mut self,
        user_id: i64,
        service: &str,
        access_token: &str,
        refresh_token: Option<&str>,
        expires_at: Option<i64>,
        token_scope: Option<&str>,
        now: i64,
    ) -> (r: Result<i64, CredentialError>)
        requires
            store_wf(*old(self)),
            old(self).next_id < i64::MAX,
        ensures
            store_wf(*final(self)),
            final(self).key == old(self).key,
            r matches Err(e) ==> *final(self) == *old(self) && e
                == CredentialError::EncryptionFailed,
            r matches Ok(id) ==> spec_upsert_ok(
                creds_of(*old(self)),
                creds_of(*final(self)),
                old(self).key@,
                user_id,
                service@,
                access_token@,
                match refresh_token {
                    Some(t) => Some(t@),
                    None => None,
                },
                expires_at,
                match token_scope {
                    Some(t) => Some(t@),
                    None => None,
                },
                now,
            ),
            latches_of(*final(self)) == latches_of(*old(self)),
            final(self).next_id >= old(self).next_id,
    {
        let encoded_access = match seal_token(&self.key, access_token) {
            Some(c) => c,
            None => {
                return Err(CredentialError::EncryptionFailed);
            },
        };
        let encoded_refresh = match refresh_token {
            Some(t) => {
                match seal_token(&self.key, t) {
                    Some(c) => Some(c),
                    None => {
                        return Err(CredentialError::EncryptionFailed);
                    },
                }
            },
            None => None,
        };
        let scope = match token_scope {
            Some(t) => Some(t.to_owned()),
            None => None,
        };
        let ghost pre = creds_of(*self);
        match self.find_index(user_id, service) {
            Some(i) => {
                let updated = UserCredential {
                    id: self.rows[i].id,
                    user_id,
                    service: service.to_owned(),
                    access_token: encoded_access,
                    refresh_token: encoded_refresh,
                    expires_at,
                    token_scope: scope,
                    created_at: self.rows[i].created_at,
                    updated_at: now,
                };
                let id = updated.id;
                self.rows[i] = updated;
                proof {
                    let post = creds_of(*self);
                    assert(post =~= pre.update(i as int, post[i as int]));
                    lemma_update_keeps_wf(pre, post, i as int, *old(self), *self);
                    lemma_lookup_unique(post, user_id, service@, i as int);
                    lemma_lookup_unique(pre, user_id, service@, i as int);
                    assert forall|u2: i64, s2: Seq<char>|
                        !(u2 == user_id && s2 == service@) implies #[trigger] spec_lookup(
                        post,
                        u2,
                        s2,
                    ) == spec_lookup(pre, u2, s2) by {
                        lemma_lookup_other(pre, post, i as int, u2, s2);
                    }
                }
                Ok(id)
            },
            None => {
                let id = self.next_id;
                let row = UserCredential {
                    id,
                    user_id,
                    service: service.to_owned(),
                    access_token: encoded_access,
                    refresh_token: encoded_refresh,
                    expires_at,
                    token_scope: scope,
                    created_at: now,
                    updated_at: now,
                };
                self.rows.push(row);
                self.next_id = id + 1;
                proof {
                    let post = creds_of(*self);
                    assert(post =~= pre.push(post[post.len() - 1]));
                    assert forall|a: int| 0 <= a < pre.len() implies !((
                    #[trigger] pre[a]).user_id == user_id && pre[a].service == service@) by {
                        if pre[a].user_id == user_id && pre[a].service == service@ {
                            assert(exists|j: int|
                                0 <= j < pre.len() && (#[trigger] pre[j]).user_id == user_id
                                    && pre[j].service == service@);
                        }
                    }
                    lemma_push_keeps_wf(pre, post, user_id, service@, *old(self), *self);
                    lemma_lookup_unique(post, user_id, service@, post.len() - 1);
                    assert forall|u2: i64, s2: Seq<char>|
                        !(u2 == user_id && s2 == service@) implies #[trigger] spec_lookup(
                        post,
                        u2,
                        s2,
                    ) == spec_lookup(pre, u2, s2) by {
                        lemma_lookup_after_push(pre, post, u2, s2);
                    }
                }
                Ok(id)
            },
        }
    }

    /// Drop the row of a (user, service).  Idempotent.
    pub fn delete(&mut self, user_id: i64, service: &str) -> (removed: bool)
        requires
            store_wf(*old(self)),
        ensures
            store_wf(*final(self)),
            spec_lookup(creds_of(*final(self)), user_id, service@) is None,
            removed <==> spec_lookup(creds_of(*old(self)), user_id, service@) is Some,
            forall|u2: i64, s2: Seq<char>|
                !(u2 == user_id && s2 == service@) ==> #[trigger] spec_lookup(
                    creds_of(*final(self)),
                    u2,
                    s2,
                ) == spec_lookup(creds_of(*old(self)), u2, s2),
    {
        let ghost pre = creds_of(*self);
        match self.find_index(user_id, service) {
            Some(i) => {
                self.rows.remove(i);
                proof {
                    let post = creds_of(*self);
                    assert(post =~= pre.remove(i as int));
                    lemma_lookup_unique(pre, user_id, service@, i as int);
                    lemma_remove_keeps_wf(pre, post, i as int, *old(self), *self);
                    lemma_lookup_after_remove(pre, post, i as int, user_id, service@);
                }
                true
            },
            None => false,
        }
    }

    /// Whether a (user, service) holds a token usable right at `now`,
    /// with no skew: false for a missing row and for one whose expiry
    /// has passed.
    pub fn has_valid_credentials(&self, user_id: i64, service: &str, now: i64) -> (r: bool)
        requires
            store_wf(*self),
        ensures
            r == match spec_lookup(creds_of(*self), user_id, service@) {
                Some(c) => spec_unexpired_at(c, now),
                None => false,
            },
    {
        match self.find_index(user_id, service) {
            Some(i) => {
                proof {
                    lemma_lookup_unique(creds_of(*self), user_id, service@, i as int);
                }
                match self.rows[i].expires_at {
                    Some(e) => now < e,
                    None => true,
                }
            },
            None => false,
        }
    }

    /// The plain access token of a (user, service): `NotLinked` without a
    /// row, `TokenExpired` once `now` reaches the stored expiry, and
    /// otherwise the one token the stored text opens to under the
    /// store's key.
    pub fn access_token(&self, user_id: i64, service: &str, now: i64) -> (r: Result<
        String,
        CredentialError,
    >)
        requires
            store_wf(*self),
        ensures
            spec_access_token_post(creds_of(*self), self.key@, user_id, service@, now, r),
    {
        let i = match self.find_index(user_id, service) {
            Some(i) => i,
            None => {
                return Err(CredentialError::NotLinked);
            },
        };
        proof {
            lemma_lookup_unique(creds_of(*self), user_id, service@, i as int);
        }
        match self.rows[i].expires_at {
            Some(e) => {
                if now >= e {
                    return Err(CredentialError::TokenExpired);
                }
            },
            None => {},
        }
        match open_token(&self.key, self.rows[i].access_token.as_str()) {
            Some(t) => Ok(t),
            None => Err(CredentialError::InvalidTokenData),
        }
    }
}

/// What a caller of `begin_refresh` is told to do.
#[derive(Clone, Copy, PartialEq, Eq, Structural, Debug)]
pub enum RefreshDecision {
    /// The stored token is still usable; no refresh is needed.
    UseCurrent,
    /// The caller holds the latch now and performs the one upstream
    /// exchange; it must end with `complete_refresh` or `abort_refresh`.
    Begin,
    /// Another task is already refreshing this key; wait for its outcome.
    AwaitExisting,
    /// Nothing is stored for this key.
    NotLinked,
    /// The token lapsed and no refresh token is stored; the user must
    /// redo the OAuth flow.
    NoRefreshToken,
}

/// What `begin_refresh` decides, given the stored row and the latches.
pub open spec fn spec_refresh_decision(
    rows: Seq<UserCredentialView>,
    pre_latches: Seq<(i64, Seq<char>)>,
    post_latches: Seq<(i64, Seq<char>)>,
    user_id: i64,
    service: Seq<char>,
    now: i64,
    d: RefreshDecision,
) -> bool {
    match spec_lookup(rows, user_id, service) {
        None => d == RefreshDecision::NotLinked && post_latches == pre_latches,
        Some(c) => {
            if spec_usable_at(c, now) {
                d == RefreshDecision::UseCurrent && post_latches == pre_latches
            } else if c.refresh_token is None {
                d == RefreshDecision::NoRefreshToken && post_latches == pre_latches
            } else if spec_latched(pre_latches, user_id, service) {
                d == RefreshDecision::AwaitExisting && post_latches == pre_latches
            } else {
                d == RefreshDecision::Begin && post_latches == pre_latches.push(
                    (user_id, service),
                )
            }
        },
    }
}

impl CredentialStore {
    /// The index of the key's refresh latch.
    fn find_latch(&self, user_id: i64, service: &str) -> (r: Option<usize>)
        ensures
            r matches Some(i) ==> i < latches_of(*self).len() && latches_of(*self)[i as int]
                == (user_id, service@),
            r is None ==> !spec_latched(latches_of(*self), user_id, service@),
    {
        let ghost latches = latches_of(*self);
        let mut i: usize = 0;
        while i < self.refreshing.len()
            invariant
                i <= latches.len(),
                latches == latches_of(*self),
                forall|k: int|
                    0 <= k < i ==> !((#[trigger] latches[k]).0 == user_id && latches[k].1
                        == service@),
            decreases latches.len() - i,
        {
            if self.refreshing[i].0 == user_id && str_eq(self.refreshing[i].1.as_str(), service) {
                return Some(i);
            }
            i += 1;
        }
        None
    }

    /// Decide whether this caller refreshes the key's token.
    ///
    /// At most one caller is handed `Begin` until the refresh ends:
    /// everyone after it is told to await the same outcome.  A usable
    /// token short-circuits; a missing row or missing refresh token is
    /// terminal for this path.
    pub fn begin_refresh(&mut self, user_id: i64, service: &str, now: i64) -> (d: RefreshDecision)
        requires
            store_wf(*old(self)),
        ensures
            store_wf(*final(self)),
            creds_of(*final(self)) == creds_of(*old(self)),
            final(self).next_id == old(self).next_id,
            spec_refresh_decision(
                creds_of(*old(self)),
                latches_of(*old(self)),
                latches_of(*final(self)),
                user_id,
                service@,
                now,
                d,
            ),
    {
        let i = match self.find_index(user_id, service) {
            Some(i) => i,
            None => {
                return RefreshDecision::NotLinked;
            },
        };
        proof {
            lemma_lookup_unique(creds_of(*self), user_id, service@, i as int);
        }
        let usable = match self.rows[i].expires_at {
            Some(e) => {
                if e >= i64::MIN + EXPIRY_SKEW_SECONDS {
                    now < e - EXPIRY_SKEW_SECONDS
                } else {
                    false
                }
            },
            None => true,
        };
        if usable {
            return RefreshDecision::UseCurrent;
        }
        match &self.rows[i].refresh_token {
            None => {
                return RefreshDecision::NoRefreshToken;
            },
            Some(_) => {},
        }
        match self.find_latch(user_id, service) {
            Some(j) => {
                proof {
                    assert(latches_of(*self)[j as int] == (user_id, service@));
                }
                RefreshDecision::AwaitExisting
            },
            None => {
                let ghost old_latches = latches_of(*self);
                self.refreshing.push((user_id, service.to_owned()));
                proof {
                    assert(latches_of(*self) =~= old_latches.push((user_id, service@)));
                    assert forall|a: int, b: int|
                        0 <= a < b < latches_of(*self).len() implies !((
                    #[trigger] latches_of(*self)[a]).0 == (#[trigger] latches_of(*self)[b]).0
                        && latches_of(*self)[a].1 == latches_of(*self)[b].1) by {
                        if b == latches_of(*self).len() - 1 {
                            assert(latches_of(*self)[a] == old_latches[a]);
                            if latches_of(*self)[a].0 == user_id && latches_of(*self)[a].1
                                == service@ {
                                assert(spec_latched(old_latches, user_id, service@));
                            }
                        } else {
                            assert(latches_of(*self)[a] == old_latches[a] && latches_of(*self)[b]
                                == old_latches[b]);
                        }
                    }
                }
                RefreshDecision::Begin
            },
        }
    }

    /// Release the key's refresh latch.  The rows do not move.
    fn release_latch(&mut self, user_id: i64, service: &str)
        requires
            store_wf(*old(self)),
        ensures
            store_wf(*final(self)),
            final(self).rows == old(self).rows,
            final(self).next_id == old(self).next_id,
            !spec_latched(latches_of(*final(self)), user_id, service@),
            forall|u2: i64, s2: Seq<char>|
                !(u2 == user_id && s2 == service@) ==> spec_latched(
                    latches_of(*final(self)),
                    u2,
                    s2,
                ) == spec_latched(latches_of(*old(self)), u2, s2),
    {
        let ghost pre = latches_of(*self);
        match self.find_latch(user_id, service) {
            Some(i) => {
                self.refreshing.remove(i);
                proof {
                    let post = latches_of(*self);
                    assert(post =~= pre.remove(i as int));
                    lemma_latch_remove(pre, post, i as int, user_id, service@);
                }
            },
            None => {},
        }
    }

    /// End a refresh that brought new tokens: seal and store them under
    /// the key, then release the latch whatever the sealing said, so the
    /// waiters observe the new token or the same failure.
    pub fn complete_refresh(
        &mut self,
        user_id: i64,
        service: &str,
        access_token: &str,
        refresh_token: Option<&str>,
        expires_at: Option<i64>,
        now: i64,
    ) -> (r: Result<(), CredentialError>)
        requires
            store_wf(*old(self)),
            old(self).next_id < i64::MAX,
        ensures
            store_wf(*final(self)),
            !spec_latched(latches_of(*final(self)), user_id, service@),
            r matches Err(e) ==> final(self).rows == old(self).rows && e
                == CredentialError::EncryptionFailed,
            r matches Ok(u) ==> spec_upsert_ok(
                creds_of(*old(self)),
                creds_of(*final(self)),
                old(self).key@,
                user_id,
                service@,
                access_token@,
                match refresh_token {
                    Some(t) => Some(t@),
                    None => None,
                },
                expires_at,
                None::<Seq<char>>,
                now,
            ),
    {
        let stored = self.store(
            user_id,
            service,
            access_token,
            refresh_token,
            expires_at,
            None,
            now,
        );
        self.release_latch(user_id, service);
        match stored {
            Ok(_) => Ok(()),
            Err(e) => Err(e),
        }
    }

    /// End a refresh that failed: release the latch and leave the row as
    /// it was, so every waiter observes the same failure.
    pub fn abort_refresh(&mut self, user_id: i64, service: &str)
        requires
            store_wf(*old(self)),
        ensures
            store_wf(*final(self)),
            final(self).rows == old(self).rows,
            !spec_latched(latches_of(*final(self)), user_id, service@),
    {
        self.release_latch(user_id, service);
    }
}

/// Removing the key's one latch clears it and touches no other key.
proof fn lemma_latch_remove(
    pre: Seq<(i64, Seq<char>)>,
    post: Seq<(i64, Seq<char>)>,
    i: int,
    user_id: i64,
    service: Seq<char>,
)
    requires
        0 <= i < pre.len(),
        pre[i] == (user_id, service),
        post == pre.remove(i),
        forall|a: int, b: int|
            0 <= a < b < pre.len() ==> !((#[trigger] pre[a]).0 == (#[trigger] pre[b]).0
                && pre[a].1 == pre[b].1),
    ensures
        !spec_latched(post, user_id, service),
        forall|u2: i64, s2: Seq<char>|
            !(u2 == user_id && s2 == service) ==> spec_latched(post, u2, s2) == spec_latched(
                pre,
                u2,
                s2,
            ),
        forall|a: int, b: int|
            0 <= a < b < post.len() ==> !((#[trigger] post[a]).0 == (#[trigger] post[b]).0
                && post[a].1 == post[b].1),
{
    assert forall|a: int, b: int| 0 <= a < b < post.len() implies !((#[trigger] post[a]).0 == (
    #[trigger] post[b]).0 && post[a].1 == post[b].1) by {
        let pa = if a < i {
            a
        } else {
            a + 1
        };
        let pb = if b < i {
            b
        } else {
            b + 1
        };
        assert(post[a] == pre[pa] && post[b] == pre[pb]);
    }
    assert forall|a: int| 0 <= a < post.len() implies !((#[trigger] post[a]).0 == user_id
        && post[a].1 == service) by {
        let pa = if a < i {
            a
        } else {
            a + 1
        };
        assert(post[a] == pre[pa]);
        if pa != i && pre[pa].0 == user_id && pre[pa].1 == service {
            if pa < i {
                assert(!(pre[pa].0 == pre[i].0 && pre[pa].1 == pre[i].1));
            } else {
                assert(!(pre[i].0 == pre[pa].0 && pre[i].1 == pre[pa].1));
            }
        }
    }
    assert forall|u2: i64, s2: Seq<char>| !(u2 == user_id && s2 == service) implies spec_latched(
        post,
        u2,
        s2,
    ) == spec_latched(pre, u2, s2) by {
        if spec_latched(pre, u2, s2) {
            let j = choose|j: int| 0 <= j < pre.len() && (#[trigger] pre[j]).0 == u2 && pre[j].1 == s2;
            let j2 = if j < i {
                j
            } else {
                j - 1
            };
            assert(post[j2] == pre[j]);
        }
        if spec_latched(post, u2, s2) {
            let j = choose|j: int|
                0 <= j < post.len() && (#[trigger] post[j]).0 == u2 && post[j].1 == s2;
            let pj = if j < i {
                j
            } else {
                j + 1
            };
            assert(pre[pj] == post[j]);
        }
    }
}

/// Every (user, service) has at most one stored credential row: two
/// distinct rows of a well-formed store never share the key.
pub proof fn lemma_one_credential_per_key(s: CredentialStore, i: int, k: int)
    requires
        store_wf(s),
        0 <= i < creds_of(s).len(),
        0 <= k < creds_of(s).len(),
        i != k,
    ensures
        !(creds_of(s)[i].user_id == creds_of(s)[k].user_id && creds_of(s)[i].service
            == creds_of(s)[k].service),
{
}

/// Every (user, service) has at most one refresh in flight: two distinct
/// latches of a well-formed store never share the key.
pub proof fn lemma_one_refresh_in_flight(s: CredentialStore, i: int, k: int)
    requires
        store_wf(s),
        0 <= i < latches_of(s).len(),
        0 <= k < latches_of(s).len(),
        i != k,
    ensures
        !(latches_of(s)[i].0 == latches_of(s)[k].0 && latches_of(s)[i].1 == latches_of(s)[k].1),
{
}

/// Refreshes are single-flight: while one task holds the key's latch, a
/// second asker is told to await that refresh, and acquires nothing.
pub proof fn lemma_refresh_single_flight(
    rows: Seq<UserCredentialView>,
    l0: Seq<(i64, Seq<char>)>,
    l1: Seq<(i64, Seq<char>)>,
    l2: Seq<(i64, Seq<char>)>,
    user_id: i64,
    service: Seq<char>,
    now1: i64,
    now2: i64,
    d1: RefreshDecision,
    d2: RefreshDecision,
)
    requires
        spec_refresh_decision(rows, l0, l1, user_id, service, now1, d1),
        spec_refresh_decision(rows, l1, l2, user_id, service, now2, d2),
        d1 == RefreshDecision::Begin,
        now2 >= now1,
    ensures
        d2 == RefreshDecision::AwaitExisting,
        l2 == l1,
{
    assert(l1 == l0.push((user_id, service)));
    assert(l1[l1.len() - 1] == (user_id, service));
    assert(spec_latched(l1, user_id, service));
}

/// What `access_token` guarantees: each error names its exact cause, and
/// a returned token is exactly what the stored text opens to under the
/// store's key.
pub open spec fn spec_access_token_post(
    rows: Seq<UserCredentialView>,
    key: Seq<u8>,
    user_id: i64,
    service: Seq<char>,
    now: i64,
    r: Result<String, CredentialError>,
) -> bool {
    match spec_lookup(rows, user_id, service) {
        None => r == Err::<String, CredentialError>(CredentialError::NotLinked),
        Some(c) => {
            if !spec_unexpired_at(c, now) {
                r == Err::<String, CredentialError>(CredentialError::TokenExpired)
            } else {
                &&& (r matches Ok(t) ==> spec_open_token(key, c.access_token) == Some(t@))
                &&& (r matches Err(e) ==> e == CredentialError::InvalidTokenData
                    && spec_open_token(key, c.access_token) is None)
            }
        },
    }
}

/// What an upsert guarantees: after it, the key's one row carries texts
/// that open to the given tokens under the store's key, plus the expiry
/// and the scope; an existing row keeps its id and creation time, a fresh
/// row is created now; every other key reads as before.
pub open spec fn spec_upsert_ok(
    pre: Seq<UserCredentialView>,
    post: Seq<UserCredentialView>,
    key: Seq<u8>,
    user_id: i64,
    service: Seq<char>,
    access: Seq<char>,
    refresh: Option<Seq<char>>,
    expires_at: Option<i64>,
    scope: Option<Seq<char>>,
    now: i64,
) -> bool {
    &&& match spec_lookup(post, user_id, service) {
        Some(c) => {
            &&& c.user_id == user_id
            &&& c.service == service
            &&& spec_open_token(key, c.access_token) == Some(access)
            &&& match refresh {
                Some(rf) => c.refresh_token matches Some(cr) && spec_open_token(key, cr) == Some(
                    rf,
                ),
                None => c.refresh_token is None,
            }
            &&& c.expires_at == expires_at
            &&& c.token_scope == scope
            &&& c.updated_at == now
            &&& match spec_lookup(pre, user_id, service) {
                Some(o) => c.id == o.id && c.created_at == o.created_at,
                None => c.created_at == now,
            }
        },
        None => false,
    }
    &&& post.len() == if spec_lookup(pre, user_id, service) is Some {
        pre.len()
    } else {
        pre.len() + 1
    }
    &&& forall|u2: i64, s2: Seq<char>|
        !(u2 == user_id && s2 == service) ==> #[trigger] spec_lookup(post, u2, s2) == spec_lookup(
            pre,
            u2,
            s2,
        )
}

/// When row `i` is the key's one row, the lookup lands on it.
proof fn lemma_lookup_unique(
    rows: Seq<UserCredentialView>,
    user_id: i64,
    service: Seq<char>,
    i: int,
)
    requires
        0 <= i < rows.len(),
        rows[i].user_id == user_id,
        rows[i].service == service,
        forall|a: int, b: int|
            0 <= a < b < rows.len() ==> !((#[trigger] rows[a]).user_id == (
            #[trigger] rows[b]).user_id && rows[a].service == rows[b].service),
    ensures
        spec_lookup(rows, user_id, service) == Some(rows[i]),
        spec_find(rows, user_id, service) == Some(i),
{
    let j = choose|j: int|
        0 <= j < rows.len() && (#[trigger] rows[j]).user_id == user_id && rows[j].service
            == service;
    if i != j {
        if i < j {
            assert(!(rows[i].user_id == rows[j].user_id && rows[i].service == rows[j].service));
        } else {
            assert(!(rows[j].user_id == rows[i].user_id && rows[j].service == rows[i].service));
        }
    }
}

/// Updating row `i` in place keeps the store invariant when the new row
/// keeps the key and the id.
proof fn lemma_update_keeps_wf(
    pre: Seq<UserCredentialView>,
    post: Seq<UserCredentialView>,
    i: int,
    s_pre: CredentialStore,
    s_post: CredentialStore,
)
    requires
        store_wf(s_pre),
        pre == creds_of(s_pre),
        post == creds_of(s_post),
        s_post.next_id == s_pre.next_id,
        s_post.key == s_pre.key,
        latches_of(s_post) == latches_of(s_pre),
        0 <= i < pre.len(),
        post == pre.update(i, post[i]),
        post[i].user_id == pre[i].user_id,
        post[i].service == pre[i].service,
        post[i].id == pre[i].id,
    ensures
        store_wf(s_post),
{
    assert forall|a: int, b: int| 0 <= a < b < post.len() implies !((
    #[trigger] post[a]).user_id == (#[trigger] post[b]).user_id && post[a].service
        == post[b].service) by {
        assert(post[a].user_id == pre[a].user_id && post[a].service == pre[a].service);
        assert(post[b].user_id == pre[b].user_id && post[b].service == pre[b].service);
    }
    assert forall|a: int| 0 <= a < post.len() implies (#[trigger] post[a]).id
        < s_post.next_id by {
        assert(post[a].id == pre[a].id);
    }
    assert forall|a: int, b: int| 0 <= a < b < post.len() implies (#[trigger] post[a]).id != (
    #[trigger] post[b]).id by {
        assert(post[a].id == pre[a].id && post[b].id == pre[b].id);
    }
}

/// Appending a row of a fresh key and a fresh id keeps the invariant.
proof fn lemma_push_keeps_wf(
    pre: Seq<UserCredentialView>,
    post: Seq<UserCredentialView>,
    user_id: i64,
    service: Seq<char>,
    s_pre: CredentialStore,
    s_post: CredentialStore,
)
    requires
        store_wf(s_pre),
        pre == creds_of(s_pre),
        post == creds_of(s_post),
        s_post.next_id == s_pre.next_id + 1,
        s_post.key == s_pre.key,
        latches_of(s_post) == latches_of(s_pre),
        post == pre.push(post[post.len() - 1]),
        post[post.len() - 1].user_id == user_id,
        post[post.len() - 1].service == service,
        post[post.len() - 1].id == s_pre.next_id,
        spec_find(pre, user_id, service) is None,
    ensures
        store_wf(s_post),
{
    assert forall|a: int, b: int| 0 <= a < b < post.len() implies !((
    #[trigger] post[a]).user_id == (#[trigger] post[b]).user_id && post[a].service
        == post[b].service) by {
        if b == post.len() - 1 {
            assert(post[a] == pre[a]);
            if post[a].user_id == user_id && post[a].service == service {
                assert(exists|j: int|
                    0 <= j < pre.len() && (#[trigger] pre[j]).user_id == user_id && pre[j].service
                        == service);
            }
        } else {
            assert(post[a] == pre[a] && post[b] == pre[b]);
        }
    }
    assert forall|a: int| 0 <= a < post.len() implies (#[trigger] post[a]).id
        < s_post.next_id by {
        if a < post.len() - 1 {
            assert(post[a] == pre[a]);
        }
    }
    assert forall|a: int, b: int| 0 <= a < b < post.len() implies (#[trigger] post[a]).id != (
    #[trigger] post[b]).id by {
        if b == post.len() - 1 {
            assert(post[a] == pre[a]);
        } else {
            assert(post[a] == pre[a] && post[b] == pre[b]);
        }
    }
}

/// Removing row `i` keeps the invariant.
proof fn lemma_remove_keeps_wf(
    pre: Seq<UserCredentialView>,
    post: Seq<UserCredentialView>,
    i: int,
    s_pre: CredentialStore,
    s_post: CredentialStore,
)
    requires
        store_wf(s_pre),
        pre == creds_of(s_pre),
        post == creds_of(s_post),
        s_post.next_id == s_pre.next_id,
        s_post.key == s_pre.key,
        latches_of(s_post) == latches_of(s_pre),
        0 <= i < pre.len(),
        post == pre.remove(i),
    ensures
        store_wf(s_post),
{
    assert forall|a: int, b: int| 0 <= a < b < post.len() implies !((
    #[trigger] post[a]).user_id == (#[trigger] post[b]).user_id && post[a].service
        == post[b].service) by {
        let pa = if a < i {
            a
        } else {
            a + 1
        };
        let pb = if b < i {
            b
        } else {
            b + 1
        };
        assert(post[a] == pre[pa] && post[b] == pre[pb]);
    }
    assert forall|a: int| 0 <= a < post.len() implies (#[trigger] post[a]).id
        < s_post.next_id by {
        let pa = if a < i {
            a
        } else {
            a + 1
        };
        assert(post[a] == pre[pa]);
    }
    assert forall|a: int, b: int| 0 <= a < b < post.len() implies (#[trigger] post[a]).id != (
    #[trigger] post[b]).id by {
        let pa = if a < i {
            a
        } else {
            a + 1
        };
        let pb = if b < i {
            b
        } else {
            b + 1
        };
        assert(post[a] == pre[pa] && post[b] == pre[pb]);
    }
}

/// Removing the key's one row leaves every other key as it was, and the
/// key itself absent.
proof fn lemma_lookup_after_remove(
    pre: Seq<UserCredentialView>,
    post: Seq<UserCredentialView>,
    i: int,
    user_id: i64,
    service: Seq<char>,
)
    requires
        0 <= i < pre.len(),
        pre[i].user_id == user_id,
        pre[i].service == service,
        post == pre.remove(i),
        forall|a: int, b: int|
            0 <= a < b < pre.len() ==> !((#[trigger] pre[a]).user_id == (
            #[trigger] pre[b]).user_id && pre[a].service == pre[b].service),
    ensures
        spec_lookup(post, user_id, service) is None,
        forall|u2: i64, s2: Seq<char>|
            !(u2 == user_id && s2 == service) ==> #[trigger] spec_lookup(post, u2, s2)
                == spec_lookup(pre, u2, s2),
{
    assert forall|a: int| 0 <= a < post.len() implies !((#[trigger] post[a]).user_id == user_id
        && post[a].service == service) by {
        let pa = if a < i {
            a
        } else {
            a + 1
        };
        assert(post[a] == pre[pa]);
        if pa != i && pre[pa].user_id == user_id && pre[pa].service == service {
            if pa < i {
                assert(!(pre[pa].user_id == pre[i].user_id && pre[pa].service == pre[i].service));
            } else {
                assert(!(pre[i].user_id == pre[pa].user_id && pre[i].service == pre[pa].service));
            }
        }
    }
    assert forall|u2: i64, s2: Seq<char>| !(u2 == user_id && s2 == service) implies #[trigger]
    spec_lookup(post, u2, s2) == spec_lookup(pre, u2, s2) by {
        lemma_lookup_other_remove(pre, post, i, u2, s2);
    }
}

/// For keys other than row `i`'s, a remove changes no lookup.
proof fn lemma_lookup_other_remove(
    pre: Seq<UserCredentialView>,
    post: Seq<UserCredentialView>,
    i: int,
    u2: i64,
    s2: Seq<char>,
)
    requires
        0 <= i < pre.len(),
        post == pre.remove(i),
        !(pre[i].user_id == u2 && pre[i].service == s2),
        forall|a: int, b: int|
            0 <= a < b < pre.len() ==> !((#[trigger] pre[a]).user_id == (
            #[trigger] pre[b]).user_id && pre[a].service == pre[b].service),
    ensures
        spec_lookup(post, u2, s2) == spec_lookup(pre, u2, s2),
{
    assert forall|a: int, b: int| 0 <= a < b < post.len() implies !((
    #[trigger] post[a]).user_id == (#[trigger] post[b]).user_id && post[a].service
        == post[b].service) by {
        let pa = if a < i {
            a
        } else {
            a + 1
        };
        let pb = if b < i {
            b
        } else {
            b + 1
        };
        assert(post[a] == pre[pa] && post[b] == pre[pb]);
    }
    if exists|j: int|
        0 <= j < pre.len() && (#[trigger] pre[j]).user_id == u2 && pre[j].service == s2 {
        let j = choose|j: int|
            0 <= j < pre.len() && (#[trigger] pre[j]).user_id == u2 && pre[j].service == s2;
        let j2 = if j < i {
            j
        } else {
            j - 1
        };
        assert(post[j2] == pre[j]);
        lemma_lookup_unique(pre, u2, s2, j);
        lemma_lookup_unique(post, u2, s2, j2);
    } else {
        if exists|j: int|
            0 <= j < post.len() && (#[trigger] post[j]).user_id == u2 && post[j].service == s2 {
            let j = choose|j: int|
                0 <= j < post.len() && (#[trigger] post[j]).user_id == u2 && post[j].service == s2;
            let pj = if j < i {
                j
            } else {
                j + 1
            };
            assert(pre[pj] == post[j]);
        }
    }
}

/// For keys other than row `i`'s, an in-place update changes no lookup.
proof fn lemma_lookup_other(
    pre: Seq<UserCredentialView>,
    post: Seq<UserCredentialView>,
    i: int,
    u2: i64,
    s2: Seq<char>,
)
    requires
        0 <= i < pre.len(),
        post == pre.update(i, post[i]),
        pre[i].user_id == post[i].user_id,
        pre[i].service == post[i].service,
        !(pre[i].user_id == u2 && pre[i].service == s2),
        forall|a: int, b: int|
            0 <= a < b < pre.len() ==> !((#[trigger] pre[a]).user_id == (
            #[trigger] pre[b]).user_id && pre[a].service == pre[b].service),
    ensures
        spec_lookup(post, u2, s2) == spec_lookup(pre, u2, s2),
{
    assert forall|a: int, b: int| 0 <= a < b < post.len() implies !((
    #[trigger] post[a]).user_id == (#[trigger] post[b]).user_id && post[a].service
        == post[b].service) by {
        assert(post[a].user_id == pre[a].user_id && post[a].service == pre[a].service);
        assert(post[b].user_id == pre[b].user_id && post[b].service == pre[b].service);
    }
    if exists|j: int|
        0 <= j < pre.len() && (#[trigger] pre[j]).user_id == u2 && pre[j].service == s2 {
        let j = choose|j: int|
            0 <= j < pre.len() && (#[trigger] pre[j]).user_id == u2 && pre[j].service == s2;
        assert(post[j] == pre[j]);
        lemma_lookup_unique(pre, u2, s2, j);
        lemma_lookup_unique(post, u2, s2, j);
    } else {
        if exists|j: int|
            0 <= j < post.len() && (#[trigger] post[j]).user_id == u2 && post[j].service == s2 {
            let j = choose|j: int|
                0 <= j < post.len() && (#[trigger] post[j]).user_id == u2 && post[j].service == s2;
            assert(pre[j] == post[j]);
        }
    }
}

/// After a push of another key, lookups of other keys read the old rows.
proof fn lemma_lookup_after_push(
    pre: Seq<UserCredentialView>,
    post: Seq<UserCredentialView>,
    u2: i64,
    s2: Seq<char>,
)
    requires
        post.len() == pre.len() + 1,
        post == pre.push(post[post.len() - 1]),
        !(post[post.len() - 1].user_id == u2 && post[post.len() - 1].service == s2),
        forall|a: int, b: int|
            0 <= a < b < pre.len() ==> !((#[trigger] pre[a]).user_id == (
            #[trigger] pre[b]).user_id && pre[a].service == pre[b].service),
        forall|a: int|
            0 <= a < pre.len() ==> !((#[trigger] pre[a]).user_id == post[post.len()
                - 1].user_id && pre[a].service == post[post.len() - 1].service),
    ensures
        spec_lookup(post, u2, s2) == spec_lookup(pre, u2, s2),
{
    if exists|j: int|
        0 <= j < pre.len() && (#[trigger] pre[j]).user_id == u2 && pre[j].service == s2 {
        let j = choose|j: int|
            0 <= j < pre.len() && (#[trigger] pre[j]).user_id == u2 && pre[j].service == s2;
        assert(post[j] == pre[j]);
        lemma_lookup_unique(pre, u2, s2, j);
        assert forall|a: int, b: int| 0 <= a < b < post.len() implies !((
        #[trigger] post[a]).user_id == (#[trigger] post[b]).user_id && post[a].service
            == post[b].service) by {
            if b < post.len() - 1 {
                assert(post[a] == pre[a] && post[b] == pre[b]);
            } else {
                assert(post[a] == pre[a]);
            }
        }
        lemma_lookup_unique(post, u2, s2, j);
    } else {
        if exists|j: int|
            0 <= j < post.len() && (#[trigger] post[j]).user_id == u2 && post[j].service == s2 {
            let j = choose|j: int|
                0 <= j < post.len() && (#[trigger] post[j]).user_id == u2 && post[j].service == s2;
            assert(j < pre.len());
            assert(pre[j] == post[j]);
        }
    }
}

} // verus!
