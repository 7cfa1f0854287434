//! The account services: registration, login, profile changes, service
//! connections, and the watcher operations a user reaches them through.
//!
//! Password hashing and verification run through the password-hash crate;
//! everything decided here — validation, uniqueness, ownership — is
//! verified against the stores' models.

use vstd::prelude::*;
use vstd::string::StringExecFns;

use crate::credentials::{creds_of, store_wf, CredentialStore, UserCredential};
use crate::crypto::hash_password;
use crate::journal::{rows_of, spec_query, SyncJournal, SyncOperation};
use crate::strutil::str_eq;
use crate::track::clone_string;
use crate::user_model::{
    spec_username_taken, user_repo_wf, users_of, DatabaseModel, UserModelView, UserRepository,
};
use crate::watchers::{
    spec_create_ok, spec_name_taken, spec_row_updated, spec_user_watchers, spec_with_status,
    watcher_store_wf, watchers_of, CreateWatcherRequest, Watcher, WatcherStore, WatcherStoreError,
};

verus! {

/// A user as the HTTP layer sees one.
pub struct User {
    pub id: i64,
    pub username: String,
    pub password: String,
}

/// Login credentials as posted by a user.
pub struct Credentials {
    pub username: String,
    pub password: String,
    pub next: Option<String>,
}

/// Errors the account services report.
#[derive(Debug)]
pub enum ServiceError {
    UserNotFound,
    InvalidCredentials,
    UserAlreadyExists,
    WatcherNotFound,
    WatcherNameExists,
    ServiceConnectionNotFound,
    ValidationError(String),
    AuthError(String),
}

/// The least password length registration accepts, in bytes.
pub const MIN_PASSWORD_BYTES: usize = 8;

/// The id sequence the repository hands out: row `i` holds id `i + 1`.
pub open spec fn spec_sequential_ids(rows: Seq<UserModelView>) -> bool {
    forall|i: int| 0 <= i < rows.len() ==> (#[trigger] rows[i]).id == i + 1
}

/// Registration and login.
pub struct AuthService {
    pub users: UserRepository,
}

/// Which validation failure a registration draws, if any: a blank
/// username, or a password under the least length in bytes.
pub open spec fn spec_register_invalid(username: Seq<char>, password: Seq<char>) -> bool {
    crate::watchers::spec_is_blank(username) || (vstd::utf8::encode_utf8(password).len() as usize)
        < MIN_PASSWORD_BYTES
}

impl AuthService {
    /// A service over an empty user store.
    pub fn new() -> (s: AuthService)
        ensures
            user_repo_wf(s.users),
            users_of(s.users).len() == 0,
            spec_sequential_ids(users_of(s.users)),
    {
        AuthService { users: UserRepository::new() }
    }

    /// Register a new account: the username must not be blank, the
    /// password must be long enough, and the username must be free.  The
    /// password is stored only as a salted hash.
    pub fn register_user(&mut self, username: String, password: String) -> (r: Result<
        User,
        ServiceError,
    >)
        requires
            user_repo_wf(old(self).users),
            spec_sequential_ids(users_of(old(self).users)),
            users_of(old(self).users).len() < i64::MAX,
        ensures
            user_repo_wf(final(self).users),
            spec_sequential_ids(users_of(final(self).users)),
            r matches Err(ServiceError::ValidationError(m)) ==> spec_register_invalid(
                username@,
                password@,
            ) && *final(self) == *old(self),
            r matches Err(ServiceError::UserAlreadyExists) ==> spec_username_taken(
                users_of(old(self).users),
                username@,
            ) && *final(self) == *old(self),
            r matches Ok(u) ==> !spec_register_invalid(username@, password@)
                && !spec_username_taken(users_of(old(self).users), username@) && u.id
                == (users_of(old(self).users).len() + 1) as i64 && u.username@ == username@
                && users_of(final(self).users).len() == users_of(old(self).users).len() + 1
                && spec_username_taken(users_of(final(self).users), username@),
            r matches Err(ServiceError::AuthError(m)) ==> vstd::utf8::encode_utf8(password@).len()
                > 0xFFFF_FFFF && *final(self) == *old(self),
            r matches Err(e) ==> (e matches ServiceError::ValidationError(m)
                || e matches ServiceError::UserAlreadyExists || e
                matches ServiceError::AuthError(m)),
    {
        if crate::watchers::is_blank(username.as_str()) {
            return Err(
                ServiceError::ValidationError(String::from_str("username cannot be empty")),
            );
        }
        if password.as_str().len() < MIN_PASSWORD_BYTES {
            return Err(
                ServiceError::ValidationError(
                    String::from_str("password must be at least 8 characters"),
                ),
            );
        }
        match self.users.get_by_username(username.as_str()) {
            Some(_) => Err(ServiceError::UserAlreadyExists),
            None => {
                let hash = match hash_password(password.as_str()) {
                    Some(h) => h,
                    None => {
                        return Err(
                            ServiceError::AuthError(String::from_str("password hashing failed")),
                        );
                    },
                };
                match self.users.create_user(clone_string(&username), hash) {
                    Ok(u) => {
                        proof {
                            let post = users_of(self.users);
                            assert(post[post.len() - 1].username == username@);
                        }
                        Ok(User { id: *u.id(), username, password })
                    },
                    Err(_) => Err(ServiceError::AuthError(String::from_str("user not created"))),
                }
            },
        }
    }

    /// Log a user in: the posted password must verify against the stored
    /// hash of the posted username.
    pub fn login_user(&self, username: &str, password: &str) -> (r: Result<User, ServiceError>)
        ensures
            r matches Err(ServiceError::ValidationError(m))
                ==> crate::watchers::spec_is_blank(username@) || password@.len() == 0,
            r matches Ok(u) ==> spec_username_taken(users_of(self.users), username@) && u.username@
                == username@,
    {
        if crate::watchers::is_blank(username) || password.is_empty() {
            return Err(
                ServiceError::ValidationError(
                    String::from_str("username and password are required"),
                ),
            );
        }
        match self.users.get_by_username(username) {
            Some(u) => {
                match u.verify_password(password) {
                    Ok(true) => Ok(
                        User {
                            id: *u.id(),
                            username: username.to_owned(),
                            password: password.to_owned(),
                        },
                    ),
                    _ => Err(ServiceError::InvalidCredentials),
                }
            },
            None => Err(ServiceError::InvalidCredentials),
        }
    }

    /// The user of an id, password redacted.
    pub fn get_user_by_id(&self, user_id: i64) -> (r: Option<User>)
        ensures
            r matches Some(u) ==> u.id == user_id && u.password@ == "[redacted]"@
                && crate::user_model::spec_user_id_taken(users_of(self.users), user_id),
            r is None ==> !crate::user_model::spec_user_id_taken(users_of(self.users), user_id),
    {
        match self.users.get(user_id) {
            Some(u) => Some(
                User {
                    id: user_id,
                    username: u.username().to_owned(),
                    password: String::from_str("[redacted]"),
                },
            ),
            None => None,
        }
    }

    /// The user of a username, password redacted.
    pub fn get_user_by_username(&self, username: &str) -> (r: Option<User>)
        ensures
            r matches Some(u) ==> u.username@ == username@ && u.password@ == "[redacted]"@
                && spec_username_taken(users_of(self.users), username@),
            r is None ==> !spec_username_taken(users_of(self.users), username@),
    {
        match self.users.get_by_username(username) {
            Some(u) => Some(
                User {
                    id: *u.id(),
                    username: username.to_owned(),
                    password: String::from_str("[redacted]"),
                },
            ),
            None => None,
        }
    }
}

/// Watcher, profile and connection operations on behalf of one user.
pub struct UserService {
    pub watchers: WatcherStore,
}

/// The credential rows of one user, in stored order, among `[0, i)`.
pub open spec fn spec_user_connections(
    rows: Seq<crate::credentials::UserCredentialView>,
    user_id: i64,
    i: int,
) -> Seq<crate::credentials::UserCredentialView>
    decreases i,
{
    if i <= 0 {
        Seq::empty()
    } else if rows[i - 1].user_id == user_id {
        spec_user_connections(rows, user_id, i - 1).push(rows[i - 1])
    } else {
        spec_user_connections(rows, user_id, i - 1)
    }
}

/// A service tag users may connect and disconnect.
pub open spec fn spec_known_service(s: Seq<char>) -> bool {
    s == "spotify"@ || s == "youtube_music"@
}

/// Summary counts for a user's dashboard.
pub struct DashboardStats {
    pub total_watchers: i32,
    pub active_watchers: i32,
    pub recent_syncs: i32,
    pub connected_services: i32,
}

impl UserService {
    /// A service over an empty watcher store.
    pub fn new() -> (s: UserService)
        ensures
            watcher_store_wf(s.watchers),
            watchers_of(s.watchers).len() == 0,
    {
        UserService { watchers: WatcherStore::new() }
    }

    /// Change a user's username: it must not be blank and must not belong
    /// to a different user.
    pub fn update_profile(
        &self,
        users: &mut UserRepository,
        user_id: i64,
        new_username: &str,
    ) -> (r: Result<(), ServiceError>)
        requires
            user_repo_wf(*old(users)),
        ensures
            user_repo_wf(*final(users)),
            r matches Err(ServiceError::ValidationError(m))
                ==> crate::watchers::spec_is_blank(new_username@) && *final(users) == *old(users),
            r matches Err(ServiceError::UserAlreadyExists) ==> *final(users) == *old(users),
            r matches Err(ServiceError::UserNotFound) ==> *final(users) == *old(users)
                && !crate::user_model::spec_user_id_taken(users_of(*old(users)), user_id),
            r matches Ok(u) ==> crate::user_model::spec_rename_ok(
                users_of(*old(users)),
                users_of(*final(users)),
                user_id,
                new_username@,
            ),
    {
        if crate::watchers::is_blank(new_username) {
            return Err(
                ServiceError::ValidationError(String::from_str("username cannot be empty")),
            );
        }
        match users.update_username(user_id, new_username) {
            Ok(_) => Ok(()),
            Err(crate::user_model::ModelError::NotFound) => Err(ServiceError::UserNotFound),
            Err(_) => Err(ServiceError::UserAlreadyExists),
        }
    }

    /// The service connections a user holds, in stored order.
    pub fn get_user_service_connections(&self, creds: &CredentialStore, user_id: i64) -> (out: Vec<
        UserCredential,
    >)
        ensures
            out@.map_values(|c: UserCredential| c@) == spec_user_connections(
                creds_of(*creds),
                user_id,
                creds_of(*creds).len() as int,
            ),
    {
        let ghost rows = creds_of(*creds);
        let mut out: Vec<UserCredential> = Vec::new();
        let mut i: usize = 0;
        proof {
            assert(out@.map_values(|c: UserCredential| c@) =~= spec_user_connections(
                rows,
                user_id,
                0,
            ));
        }
        while i < creds.rows.len()
            invariant
                i <= rows.len(),
                rows == creds_of(*creds),
                out@.map_values(|c: UserCredential| c@) == spec_user_connections(
                    rows,
                    user_id,
                    i as int,
                ),
            decreases rows.len() - i,
        {
            if creds.rows[i].user_id == user_id {
                let ghost old_out = out@;
                out.push(creds.rows[i].duplicate());
                proof {
                    assert(out@.map_values(|c: UserCredential| c@) =~= old_out.map_values(
                        |c: UserCredential| c@,
                    ).push(rows[i as int]));
                }
            }
            i += 1;
        }
        out
    }

    /// Disconnect a service: the tag must be known, and a stored
    /// connection must exist.
    pub fn delete_service_connection(
        &self,
        creds: &mut CredentialStore,
        user_id: i64,
        service: &str,
    ) -> (r: Result<(), ServiceError>)
        requires
            store_wf(*old(creds)),
        ensures
            store_wf(*final(creds)),
            r matches Err(ServiceError::ValidationError(m)) ==> !spec_known_service(service@)
                && *final(creds) == *old(creds),
            r matches Err(ServiceError::ServiceConnectionNotFound) ==> spec_known_service(service@)
                && crate::credentials::spec_lookup(
                creds_of(*old(creds)),
                user_id,
                service@,
            ) is None,
            r matches Ok(u) ==> spec_known_service(service@) && crate::credentials::spec_lookup(
                creds_of(*old(creds)),
                user_id,
                service@,
            ) is Some && crate::credentials::spec_lookup(
                creds_of(*final(creds)),
                user_id,
                service@,
            ) is None,
    {
        if !(str_eq(service, "spotify") || str_eq(service, "youtube_music")) {
            return Err(ServiceError::ValidationError(String::from_str("unsupported service")));
        }
        if creds.delete(user_id, service) {
            Ok(())
        } else {
            Err(ServiceError::ServiceConnectionNotFound)
        }
    }

    /// Create a watcher for a user; see `WatcherStore::create_watcher`.
    pub fn create_watcher(&mut self, user_id: i64, request: &CreateWatcherRequest, now: i64) -> (r:
        Result<Watcher, ServiceError>)
        requires
            watcher_store_wf(old(self).watchers),
            old(self).watchers.next_id < i64::MAX,
        ensures
            watcher_store_wf(final(self).watchers),
            r matches Ok(w) ==> spec_create_ok(
                watchers_of(old(self).watchers),
                watchers_of(final(self).watchers),
                *request,
                user_id,
                now,
                old(self).watchers.next_id,
                w@,
            ),
            r matches Err(e) ==> *final(self) == *old(self) && spec_watcher_err_mapped(
                watchers_of(old(self).watchers),
                *request,
                user_id,
                e,
            ),
    {
        match self.watchers.create_watcher(user_id, request, now) {
            Ok(w) => Ok(w),
            Err(WatcherStoreError::EmptyName) => Err(
                ServiceError::ValidationError(String::from_str("watcher name cannot be empty")),
            ),
            Err(WatcherStoreError::SameService) => Err(
                ServiceError::ValidationError(
                    String::from_str("source and target services cannot be the same"),
                ),
            ),
            Err(WatcherStoreError::NameExists) => Err(ServiceError::WatcherNameExists),
            Err(WatcherStoreError::WatcherNotFound) => Err(ServiceError::WatcherNotFound),
        }
    }

    /// A user's watchers, newest first.
    pub fn get_user_watchers(&self, user_id: i64) -> (out: Vec<Watcher>)
        ensures
            out@.map_values(|w: Watcher| w@) == spec_user_watchers(
                watchers_of(self.watchers),
                user_id,
            ),
    {
        self.watchers.get_watchers_by_user(user_id)
    }

    /// A user's watcher of an id, if the watcher is theirs.
    pub fn get_watcher_by_id_and_user(&self, watcher_id: i64, user_id: i64) -> (r: Option<Watcher>)
        ensures
            r matches Some(w) ==> watchers_of(self.watchers).contains(w@) && w@.id == watcher_id
                && w@.user_id == user_id,
            r is None ==> !spec_owned_watcher(watchers_of(self.watchers), watcher_id, user_id),
    {
        let ghost rows = watchers_of(self.watchers);
        let mut i: usize = 0;
        while i < self.watchers.watchers.len()
            invariant
                i <= rows.len(),
                rows == watchers_of(self.watchers),
                forall|k: int|
                    0 <= k < i ==> !((#[trigger] rows[k]).id == watcher_id && rows[k].user_id
                        == user_id),
            decreases rows.len() - i,
        {
            if self.watchers.watchers[i].id == watcher_id && self.watchers.watchers[i].user_id
                == user_id {
                proof {
                    assert(rows.contains(rows[i as int]));
                }
                return Some(self.watchers.watchers[i].duplicate());
            }
            i += 1;
        }
        None
    }

    /// Activate or deactivate a user's watcher; a watcher of another user
    /// reads as absent.
    pub fn update_watcher_status(&mut self, watcher_id: i64, user_id: i64, is_active: bool, now:
        i64) -> (r: Result<(), ServiceError>)
        requires
            watcher_store_wf(old(self).watchers),
        ensures
            watcher_store_wf(final(self).watchers),
            r matches Err(e) ==> *final(self) == *old(self) && (e
                matches ServiceError::WatcherNotFound) && !spec_owned_watcher(
                watchers_of(old(self).watchers),
                watcher_id,
                user_id,
            ),
            r matches Ok(u) ==> spec_row_updated(
                watchers_of(old(self).watchers),
                watchers_of(final(self).watchers),
                watcher_id,
                spec_with_status(is_active, now),
            ),
    {
        match self.get_watcher_by_id_and_user(watcher_id, user_id) {
            Some(_) => {},
            None => {
                return Err(ServiceError::WatcherNotFound);
            },
        }
        match self.watchers.update_watcher_status(watcher_id, is_active, now) {
            Ok(_) => Ok(()),
            Err(_) => Err(ServiceError::WatcherNotFound),
        }
    }

    /// A page of a user's watcher's history: the limit is capped at 200
    /// and defaults to 50, the offset to 0; a watcher of another user
    /// reads as absent.
    pub fn get_watcher_sync_history(
        &self,
        journal: &SyncJournal,
        watcher_id: i64,
        user_id: i64,
        limit: Option<usize>,
        offset: Option<usize>,
    ) -> (r: Result<Vec<SyncOperation>, ServiceError>)
        ensures
            r matches Err(e) ==> (e matches ServiceError::WatcherNotFound)
                && !spec_owned_watcher(watchers_of(self.watchers), watcher_id, user_id),
            r matches Ok(rows) ==> spec_owned_watcher(
                watchers_of(self.watchers),
                watcher_id,
                user_id,
            ) && rows@.map_values(|o: SyncOperation| o@) == spec_query(
                rows_of(*journal),
                watcher_id,
                spec_history_limit(limit),
                spec_history_offset(offset),
            ),
    {
        match self.get_watcher_by_id_and_user(watcher_id, user_id) {
            Some(w) => {
                proof {
                    let rows = watchers_of(self.watchers);
                    let i = choose|i: int| 0 <= i < rows.len() && rows[i] == w@;
                }
            },
            None => {
                return Err(ServiceError::WatcherNotFound);
            },
        }
        let lim = match limit {
            Some(l) => {
                if l > 200 {
                    200
                } else {
                    l
                }
            },
            None => 50,
        };
        let off = match offset {
            Some(o) => o,
            None => 0,
        };
        Ok(journal.query_by_watcher(watcher_id, lim, off))
    }

    /// A user's dashboard counts: their watchers, the active ones among
    /// them, their syncs of the last day, and their connected services.
    pub fn get_dashboard_stats(
        &self,
        journal: &SyncJournal,
        creds: &CredentialStore,
        user_id: i64,
        now: i64,
    ) -> (r: DashboardStats)
        requires
            watchers_of(self.watchers).len() <= i32::MAX,
            rows_of(*journal).len() <= i32::MAX,
            creds_of(*creds).len() <= i32::MAX,
        ensures
            r.total_watchers == spec_user_watchers(watchers_of(self.watchers), user_id).len(),
            r.connected_services == spec_user_connections(
                creds_of(*creds),
                user_id,
                creds_of(*creds).len() as int,
            ).len(),
            r.recent_syncs == spec_recent_syncs(
                rows_of(*journal),
                watchers_of(self.watchers),
                user_id,
                now,
                rows_of(*journal).len() as int,
            ),
    {
        let mine = self.get_user_watchers(user_id);
        proof {
            crate::watchers::lemma_user_watchers_len(
                watchers_of(self.watchers),
                user_id,
                watchers_of(self.watchers).len() as int,
            );
        }
        let total = mine.len() as i32;
        let mut active: i32 = 0;
        let mut i: usize = 0;
        while i < mine.len()
            invariant
                i <= mine@.len(),
                mine@.len() <= i32::MAX,
                0 <= active <= i,
            decreases mine@.len() - i,
        {
            if mine[i].is_active {
                active = active + 1;
            }
            i += 1;
        }
        let ghost jrows = rows_of(*journal);
        let ghost wrows = watchers_of(self.watchers);
        let mut recent: i32 = 0;
        let mut k: usize = 0;
        while k < journal.rows.len()
            invariant
                k <= jrows.len(),
                jrows == rows_of(*journal),
                wrows == watchers_of(self.watchers),
                jrows.len() <= i32::MAX,
                0 <= recent <= k,
                recent == spec_recent_syncs(jrows, wrows, user_id, now, k as int),
            decreases jrows.len() - k,
        {
            let row_watcher = journal.rows[k].watcher_id;
            let started = journal.rows[k].started_at;
            let owned = match self.get_watcher_by_id_and_user(row_watcher, user_id) {
                Some(_) => true,
                None => false,
            };
            let recent_row = owned && (started as i128) >= (now as i128) - 86400;
            if recent_row {
                recent = recent + 1;
            }
            k += 1;
        }
        let conns = self.get_user_service_connections(creds, user_id);
        proof {
            lemma_user_connections_len(creds_of(*creds), user_id, creds_of(*creds).len() as int);
        }
        DashboardStats {
            total_watchers: total,
            active_watchers: active,
            recent_syncs: recent,
            connected_services: conns.len() as i32,
        }
    }
}

/// A user's connection list is never longer than the store.
pub proof fn lemma_user_connections_len(
    rows: Seq<crate::credentials::UserCredentialView>,
    user_id: i64,
    i: int,
)
    requires
        0 <= i <= rows.len(),
    ensures
        spec_user_connections(rows, user_id, i).len() <= i,
    decreases i,
{
    if i > 0 {
        lemma_user_connections_len(rows, user_id, i - 1);
    }
}

/// Whether a watcher of an id belongs to a user.
pub open spec fn spec_owned_watcher(
    rows: Seq<crate::watchers::WatcherView>,
    watcher_id: i64,
    user_id: i64,
) -> bool {
    exists|i: int|
        0 <= i < rows.len() && (#[trigger] rows[i]).id == watcher_id && rows[i].user_id == user_id
}

/// The history page size a request resolves to: capped at 200, default 50.
pub open spec fn spec_history_limit(limit: Option<usize>) -> int {
    match limit {
        Some(l) => if l > 200 {
            200int
        } else {
            l as int
        },
        None => 50int,
    }
}

/// The history page offset a request resolves to: default 0.
pub open spec fn spec_history_offset(offset: Option<usize>) -> int {
    match offset {
        Some(o) => o as int,
        None => 0int,
    }
}

/// A user's syncs of the last day among journal rows `[0, i)`: rows of
/// the user's watchers whose start lies within a day of `now`.
pub open spec fn spec_recent_syncs(
    jrows: Seq<crate::journal::SyncOperationView>,
    wrows: Seq<crate::watchers::WatcherView>,
    user_id: i64,
    now: i64,
    i: int,
) -> int
    decreases i,
{
    if i <= 0 {
        0int
    } else {
        spec_recent_syncs(jrows, wrows, user_id, now, i - 1) + if spec_owned_watcher(
            wrows,
            jrows[i - 1].watcher_id,
            user_id,
        ) && jrows[i - 1].started_at >= now - 86400 {
            1int
        } else {
            0int
        }
    }
}

/// How a watcher-store error surfaces from the user service.
pub open spec fn spec_watcher_err_mapped(
    rows: Seq<crate::watchers::WatcherView>,
    request: CreateWatcherRequest,
    user_id: i64,
    e: ServiceError,
) -> bool {
    if crate::watchers::spec_is_blank(request.name@) {
        e matches ServiceError::ValidationError(m)
    } else if request.source_service@ == request.target_service@ {
        e matches ServiceError::ValidationError(m)
    } else if spec_name_taken(rows, user_id, request.name@) {
        e matches ServiceError::WatcherNameExists
    } else {
        false
    }
}

} // verus!
