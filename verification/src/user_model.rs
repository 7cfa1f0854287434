//! The persisted user model and the small model/repository traits it
//! implements.

use vstd::prelude::*;
use vstd::string::StringExecFns;

use crate::crypto::check_password;
use crate::strutil::{i64_to_string, spec_dec_str_i64, str_eq};
use crate::track::clone_string;

verus! {

/// Errors of the model layer.
#[derive(Debug)]
pub enum ModelError {
    /// The backing store failed.
    Database(String),
    /// A stored value could not be read back.
    Serialization(String),
    /// No such item.
    NotFound,
    /// The item cannot be stored as given.
    InvalidData(String),
}

/// A model that lives in the store under a primary key.
pub trait DatabaseModel {
    type Id;

    /// The model's primary key.
    fn id(&self) -> &Self::Id;
}

/// A model that can be created empty from a key.
pub trait CreatableModel: DatabaseModel where Self: core::marker::Sized {
    /// A new, empty instance under the key.
    fn new(id: Self::Id) -> Self;
}

/// A model whose fields can be overwritten from another instance.
pub trait UpdatableModel: DatabaseModel {
    /// Take every field but the key from `other`.
    fn update(&mut self, other: &Self);
}

/// An account: a unique id, a unique username, and a password hash.
pub struct User {
    id: i64,
    pub username: String,
    password: String,
}

/// Mathematical model of a user row.
pub struct UserModelView {
    pub id: i64,
    pub username: Seq<char>,
    pub password: Seq<char>,
}

impl View for User {
    type V = UserModelView;

    closed spec fn view(&self) -> UserModelView {
        UserModelView { id: self.id, username: self.username@, password: self.password@ }
    }
}

impl DatabaseModel for User {
    type Id = i64;

    fn id(&self) -> (r: &i64)
        ensures
            r == self@.id,
    {
        &self.id
    }
}

impl CreatableModel for User {
    fn new(id: i64) -> (r: User)
        ensures
            r@.id == id,
            r@.username.len() == 0,
            r@.password.len() == 0,
    {
        User { id, username: String::new(), password: String::new() }
    }
}

impl UpdatableModel for User {
    fn update(&mut self, other: &User)
        ensures
            final(self)@.id == old(self)@.id,
            final(self)@.username == other@.username,
            final(self)@.password == other@.password,
    {
        self.username = clone_string(&other.username);
        self.password = clone_string(&other.password);
    }
}

impl User {
    /// A user with the given credentials.
    pub fn with_credentials(id: i64, username: String, password: String) -> (r: User)
        ensures
            r@.id == id,
            r@.username == username@,
            r@.password == password@,
    {
        User { id, username, password }
    }

    /// The user's username.
    pub fn username(&self) -> (r: &str)
        ensures
            r@ == self@.username,
    {
        self.username.as_str()
    }

    /// The user's password hash.
    pub fn password_hash(&self) -> (r: &str)
        ensures
            r@ == self@.password,
    {
        self.password.as_str()
    }

    /// Whether a password matches the stored hash; the hash itself never
    /// leaves in readable form.  Verification itself cannot fail: a
    /// malformed stored hash reads as a mismatch.
    pub fn verify_password(&self, password: &str) -> (r: Result<bool, ModelError>)
        ensures
            r is Ok,
    {
        Ok(check_password(password, self.password.as_str()))
    }

    /// The user as a reader sees it: the password is redacted.
    pub fn debug_string(&self) -> (r: String)
        ensures
            r@ == spec_user_debug(self@),
    {
        String::from_str("User { id: ").concat(i64_to_string(self.id).as_str()).concat(
            ", username: \"",
        ).concat(self.username.as_str()).concat("\", password: \"[redacted]\" }")
    }

    /// Copy a user row; the copy models the same row.
    pub fn duplicate(&self) -> (r: User)
        ensures
            r@ == self@,
    {
        User {
            id: self.id,
            username: clone_string(&self.username),
            password: clone_string(&self.password),
        }
    }
}

/// The redacted text `debug_string` renders a user to.
pub open spec fn spec_user_debug(u: UserModelView) -> Seq<char> {
    "User { id: "@ + spec_dec_str_i64(u.id as int) + ", username: \""@ + u.username
        + "\", password: \"[redacted]\" }"@
}

/// The users a repository holds, as models.
pub open spec fn users_of(r: UserRepository) -> Seq<UserModelView> {
    r.users@.map_values(|u: User| u@)
}

/// Whether some row holds a username.
pub open spec fn spec_username_taken(rows: Seq<UserModelView>, username: Seq<char>) -> bool {
    exists|i: int| 0 <= i < rows.len() && (#[trigger] rows[i]).username == username
}

/// Whether some row holds an id.
pub open spec fn spec_user_id_taken(rows: Seq<UserModelView>, id: i64) -> bool {
    exists|i: int| 0 <= i < rows.len() && (#[trigger] rows[i]).id == id
}

/// What a rename guarantees: the one row of the id carries the new
/// username, everything else in place.
pub open spec fn spec_rename_ok(
    pre: Seq<UserModelView>,
    post: Seq<UserModelView>,
    id: i64,
    username: Seq<char>,
) -> bool {
    exists|i: int|
        {
            &&& 0 <= i < pre.len()
            &&& (#[trigger] pre[i]).id == id
            &&& post == pre.update(i, UserModelView { username, ..pre[i] })
        }
}

/// What a full replace guarantees: the one row of the model's id now
/// carries the model, everything else in place.
pub open spec fn spec_replace_ok(
    pre: Seq<UserModelView>,
    post: Seq<UserModelView>,
    model: UserModelView,
) -> bool {
    exists|i: int|
        {
            &&& 0 <= i < pre.len()
            &&& (#[trigger] pre[i]).id == model.id
            &&& post == pre.update(i, model)
        }
}

/// Repository invariant: ids unique, usernames unique.
pub open spec fn user_repo_wf(r: UserRepository) -> bool {
    let rows = users_of(r);
    &&& forall|i: int, k: int|
        0 <= i < k < rows.len() ==> (#[trigger] rows[i]).id != (#[trigger] rows[k]).id
    &&& forall|i: int, k: int|
        0 <= i < k < rows.len() ==> (#[trigger] rows[i]).username != (
        #[trigger] rows[k]).username
}

/// The user store: rows under unique ids, indexed by username.
pub struct UserRepository {
    pub users: Vec<User>,
}

impl UserRepository {
    /// An empty repository.
    pub fn new() -> (r: UserRepository)
        ensures
            user_repo_wf(r),
            users_of(r).len() == 0,
    {
        let r = UserRepository { users: Vec::new() };
        proof {
            assert(users_of(r) =~= Seq::<UserModelView>::empty());
        }
        r
    }

    /// The user under an id, if any.
    pub fn get(&self, id: i64) -> (r: Option<User>)
        ensures
            r matches Some(u) ==> users_of(*self).contains(u@) && u@.id == id,
            r is None ==> !spec_user_id_taken(users_of(*self), id),
    {
        let ghost rows = users_of(*self);
        let mut i: usize = 0;
        while i < self.users.len()
            invariant
                i <= rows.len(),
                rows == users_of(*self),
                forall|k: int| 0 <= k < i ==> (#[trigger] rows[k]).id != id,
            decreases rows.len() - i,
        {
            if *self.users[i].id() == id {
                proof {
                    assert(rows.contains(rows[i as int]));
                }
                return Some(self.users[i].duplicate());
            }
            i += 1;
        }
        None
    }

    /// The user holding a username, if any.
    pub fn get_by_username(&self, username: &str) -> (r: Option<User>)
        ensures
            r matches Some(u) ==> users_of(*self).contains(u@) && u@.username == username@,
            r is None ==> !spec_username_taken(users_of(*self), username@),
    {
        let ghost rows = users_of(*self);
        let mut i: usize = 0;
        while i < self.users.len()
            invariant
                i <= rows.len(),
                rows == users_of(*self),
                forall|k: int| 0 <= k < i ==> (#[trigger] rows[k]).username != username@,
            decreases rows.len() - i,
        {
            if str_eq(self.users[i].username(), username) {
                proof {
                    assert(rows.contains(rows[i as int]));
                }
                return Some(self.users[i].duplicate());
            }
            i += 1;
        }
        None
    }

    /// Create a user under a fresh id, one past the current count.
    ///
    /// Refuses a username already in use.
    pub fn create_user(&mut self, username: String, password: String) -> (r: Result<
        User,
        ModelError,
    >)
        requires
            user_repo_wf(*old(self)),
            users_of(*old(self)).len() < i64::MAX,
            forall|i: int|
                0 <= i < users_of(*old(self)).len() ==> (#[trigger] users_of(*old(self))[i]).id
                    == i + 1,
        ensures
            user_repo_wf(*final(self)),
            r matches Err(e) ==> *final(self) == *old(self) && spec_username_taken(
                users_of(*old(self)),
                username@,
            ) && e matches ModelError::InvalidData(msg),
            r matches Ok(u) ==> !spec_username_taken(users_of(*old(self)), username@) && u@ == (
            UserModelView {
                id: (users_of(*old(self)).len() + 1) as i64,
                username: username@,
                password: password@,
            }) && users_of(*final(self)) == users_of(*old(self)).push(u@),
            forall|i: int|
                0 <= i < users_of(*final(self)).len() ==> (#[trigger] users_of(*final(self))[i]).id
                    == i + 1,
    {
        match self.get_by_username(username.as_str()) {
            Some(_) => Err(
                ModelError::InvalidData(String::from_str("username already exists")),
            ),
            None => {
                let ghost pre = users_of(*self);
                let id = self.users.len() as i64 + 1;
                let u = User::with_credentials(id, username, password);
                let out = u.duplicate();
                self.users.push(u);
                proof {
                    let post = users_of(*self);
                    assert(post =~= pre.push(post[post.len() - 1]));
                    assert forall|a: int, b: int| 0 <= a < b < post.len() implies (
                    #[trigger] post[a]).id != (#[trigger] post[b]).id by {
                        if b == post.len() - 1 {
                            assert(post[a] == pre[a]);
                        } else {
                            assert(post[a] == pre[a] && post[b] == pre[b]);
                        }
                    }
                    assert forall|a: int, b: int| 0 <= a < b < post.len() implies (
                    #[trigger] post[a]).username != (#[trigger] post[b]).username by {
                        if b == post.len() - 1 {
                            assert(post[a] == pre[a]);
                            if post[a].username == post[b].username {
                                assert(spec_username_taken(pre, post[b].username));
                            }
                        } else {
                            assert(post[a] == pre[a] && post[b] == pre[b]);
                        }
                    }
                    assert forall|i: int| 0 <= i < post.len() implies (
                    #[trigger] post[i]).id == i + 1 by {
                        if i < post.len() - 1 {
                            assert(post[i] == pre[i]);
                        }
                    }
                }
                Ok(out)
            },
        }
    }

    /// Change the username of the user under an id.
    ///
    /// Refuses a username already held by a different user.
    pub fn update_username(&mut self, id: i64, username: &str) -> (r: Result<(), ModelError>)
        requires
            user_repo_wf(*old(self)),
        ensures
            user_repo_wf(*final(self)),
            r matches Err(ModelError::NotFound) ==> *final(self) == *old(self)
                && !spec_user_id_taken(users_of(*old(self)), id),
            r matches Err(ModelError::InvalidData(m)) ==> *final(self) == *old(self) && (
            exists|j: int|
                0 <= j < users_of(*old(self)).len() && (#[trigger] users_of(
                    *old(self),
                )[j]).username == username@ && users_of(*old(self))[j].id != id),
            r matches Err(e) ==> (e matches ModelError::NotFound || e
                matches ModelError::InvalidData(m)),
            r matches Ok(u) ==> spec_rename_ok(
                users_of(*old(self)),
                users_of(*final(self)),
                id,
                username@,
            ),
    {
        let ghost pre = users_of(*self);
        let mut k: usize = 0;
        while k < self.users.len()
            invariant
                k <= pre.len(),
                pre == users_of(*self),
                *self == *old(self),
                user_repo_wf(*old(self)),
                forall|j: int|
                    0 <= j < k ==> !((#[trigger] pre[j]).username == username@ && pre[j].id
                        != id),
            decreases pre.len() - k,
        {
            if str_eq(self.users[k].username(), username) && *self.users[k].id() != id {
                proof {
                    assert(pre[k as int].username == username@ && pre[k as int].id != id);
                }
                return Err(ModelError::InvalidData(String::from_str("username already exists")));
            }
            k += 1;
        }
        let mut i: usize = 0;
        while i < self.users.len()
            invariant
                i <= pre.len(),
                pre == users_of(*self),
                *self == *old(self),
                user_repo_wf(*old(self)),
                forall|j: int|
                    0 <= j < pre.len() ==> !((#[trigger] pre[j]).username == username@ && pre[j].id
                        != id),
                forall|j: int| 0 <= j < i ==> (#[trigger] pre[j]).id != id,
            decreases pre.len() - i,
        {
            if *self.users[i].id() == id {
                proof {
                    assert(pre[i as int].id == id);
                }
                let updated = User::with_credentials(
                    id,
                    username.to_owned(),
                    self.users[i].password_hash().to_owned(),
                );
                self.users[i] = updated;
                proof {
                    let post = users_of(*self);
                    assert(post =~= pre.update(i as int, post[i as int]));
                    assert(post[i as int] == (UserModelView {
                        username: username@,
                        ..pre[i as int]
                    }));
                    assert(post[i as int].id == id);
                    assert forall|a: int, b: int| 0 <= a < b < post.len() implies (
                    #[trigger] post[a]).id != (#[trigger] post[b]).id by {
                        if a != i as int {
                            assert(post[a] == pre[a]);
                        }
                        if b != i as int {
                            assert(post[b] == pre[b]);
                        }
                        assert(users_of(*old(self))[a] == pre[a]);
                        assert(users_of(*old(self))[b] == pre[b]);
                        assert(post[a].id == pre[a].id && post[b].id == pre[b].id);
                    }
                    assert forall|a: int, b: int| 0 <= a < b < post.len() implies (
                    #[trigger] post[a]).username != (#[trigger] post[b]).username by {
                        assert(users_of(*old(self))[a] == pre[a]);
                        assert(users_of(*old(self))[b] == pre[b]);
                        if a != i as int && b != i as int {
                            assert(post[a] == pre[a] && post[b] == pre[b]);
                        } else if a == i as int {
                            assert(post[b] == pre[b]);
                            if pre[b].username == username@ {
                                assert(pre[b].id == id);
                                assert(pre[i as int].id == id);
                            }
                        } else {
                            assert(post[a] == pre[a]);
                            if pre[a].username == username@ {
                                assert(pre[a].id == id);
                            }
                        }
                    }
                }
                return Ok(());
            }
            i += 1;
        }
        Err(ModelError::NotFound)
    }

    /// Replace the stored row of the model's id with the model.
    ///
    /// Refuses a username already held by a different user.
    pub fn update(&mut self, model: &User) -> (r: Result<(), ModelError>)
        requires
            user_repo_wf(*old(self)),
        ensures
            user_repo_wf(*final(self)),
            r matches Err(ModelError::NotFound) ==> *final(self) == *old(self)
                && !spec_user_id_taken(users_of(*old(self)), model@.id),
            r matches Err(ModelError::InvalidData(m)) ==> *final(self) == *old(self),
            r matches Err(e) ==> (e matches ModelError::NotFound || e
                matches ModelError::InvalidData(m)),
            r matches Ok(u) ==> spec_replace_ok(
                users_of(*old(self)),
                users_of(*final(self)),
                model@,
            ),
    {
        let ghost pre = users_of(*self);
        let mut k: usize = 0;
        while k < self.users.len()
            invariant
                k <= pre.len(),
                pre == users_of(*self),
                *self == *old(self),
                user_repo_wf(*old(self)),
                forall|j: int|
                    0 <= j < k ==> !((#[trigger] pre[j]).username == model@.username && pre[j].id
                        != model@.id),
            decreases pre.len() - k,
        {
            if str_eq(self.users[k].username(), model.username()) && *self.users[k].id()
                != *model.id() {
                proof {
                    assert(pre[k as int].username == model@.username && pre[k as int].id
                        != model@.id);
                }
                return Err(ModelError::InvalidData(String::from_str("username already exists")));
            }
            k += 1;
        }
        let mut i: usize = 0;
        while i < self.users.len()
            invariant
                i <= pre.len(),
                pre == users_of(*self),
                *self == *old(self),
                user_repo_wf(*old(self)),
                forall|j: int|
                    0 <= j < pre.len() ==> !((#[trigger] pre[j]).username == model@.username
                        && pre[j].id != model@.id),
                forall|j: int| 0 <= j < i ==> (#[trigger] pre[j]).id != model@.id,
            decreases pre.len() - i,
        {
            if *self.users[i].id() == *model.id() {
                proof {
                    assert(pre[i as int].id == model@.id);
                }
                self.users[i] = model.duplicate();
                proof {
                    let post = users_of(*self);
                    assert(post =~= pre.update(i as int, model@));
                    assert forall|a: int, b: int| 0 <= a < b < post.len() implies (
                    #[trigger] post[a]).id != (#[trigger] post[b]).id by {
                        if a != i as int {
                            assert(post[a] == pre[a]);
                        }
                        if b != i as int {
                            assert(post[b] == pre[b]);
                        }
                        assert(users_of(*old(self))[a] == pre[a]);
                        assert(users_of(*old(self))[b] == pre[b]);
                        assert(post[a].id == pre[a].id && post[b].id == pre[b].id);
                    }
                    assert forall|a: int, b: int| 0 <= a < b < post.len() implies (
                    #[trigger] post[a]).username != (#[trigger] post[b]).username by {
                        assert(users_of(*old(self))[a] == pre[a]);
                        assert(users_of(*old(self))[b] == pre[b]);
                        if a != i as int && b != i as int {
                            assert(post[a] == pre[a] && post[b] == pre[b]);
                        } else if a == i as int {
                            assert(post[b] == pre[b]);
                            if pre[b].username == model@.username {
                                assert(pre[b].id == model@.id);
                                assert(pre[i as int].id == model@.id);
                            }
                        } else {
                            assert(post[a] == pre[a]);
                            if pre[a].username == model@.username {
                                assert(pre[a].id == model@.id);
                            }
                        }
                    }
                }
                return Ok(());
            }
            i += 1;
        }
        Err(ModelError::NotFound)
    }

    /// Drop the row of an id, if one is stored.  Idempotent.
    pub fn delete(&mut self, id: i64) -> (r: Result<(), ModelError>)
        requires
            user_repo_wf(*old(self)),
        ensures
            user_repo_wf(*final(self)),
            r is Ok,
            !spec_user_id_taken(users_of(*final(self)), id),
    {
        let ghost pre = users_of(*self);
        let mut i: usize = 0;
        while i < self.users.len()
            invariant
                i <= pre.len(),
                pre == users_of(*self),
                *self == *old(self),
                user_repo_wf(*old(self)),
                forall|j: int| 0 <= j < i ==> (#[trigger] pre[j]).id != id,
            decreases pre.len() - i,
        {
            if *self.users[i].id() == id {
                proof {
                    assert(pre[i as int].id == id);
                }
                self.users.remove(i);
                proof {
                    let post = users_of(*self);
                    assert(post =~= pre.remove(i as int));
                    assert forall|a: int, b: int| 0 <= a < b < post.len() implies (
                    #[trigger] post[a]).id != (#[trigger] post[b]).id && (
                    #[trigger] post[a]).username != (#[trigger] post[b]).username by {
                        let pa = if a < i as int {
                            a
                        } else {
                            a + 1
                        };
                        let pb = if b < i as int {
                            b
                        } else {
                            b + 1
                        };
                        assert(post[a] == pre[pa] && post[b] == pre[pb]);
                        assert(users_of(*old(self))[pa] == pre[pa]);
                        assert(users_of(*old(self))[pb] == pre[pb]);
                    }
                    assert forall|a: int| 0 <= a < post.len() implies (#[trigger] post[a]).id
                        != id by {
                        let pa = if a < i as int {
                            a
                        } else {
                            a + 1
                        };
                        assert(post[a] == pre[pa]);
                        assert(users_of(*old(self))[pa] == pre[pa]);
                        if pa != i as int && pre[pa].id == id {
                            assert(users_of(*old(self))[i as int] == pre[i as int]);
                        }
                    }
                }
                return Ok(());
            }
            i += 1;
        }
        Ok(())
    }

    /// Every stored user, in id order.
    pub fn list(&self) -> (out: Vec<User>)
        ensures
            out@.map_values(|u: User| u@) == users_of(*self),
    {
        let ghost rows = users_of(*self);
        let mut out: Vec<User> = Vec::new();
        let mut i: usize = 0;
        proof {
            assert(out@.map_values(|u: User| u@) =~= rows.take(0));
        }
        while i < self.users.len()
            invariant
                i <= rows.len(),
                rows == users_of(*self),
                out@.map_values(|u: User| u@) == rows.take(i as int),
            decreases rows.len() - i,
        {
            let ghost old_out = out@;
            out.push(self.users[i].duplicate());
            proof {
                assert(out@.map_values(|u: User| u@) =~= old_out.map_values(|u: User| u@).push(
                    rows[i as int],
                ));
                assert(rows.take(i + 1) =~= rows.take(i as int).push(rows[i as int]));
            }
            i += 1;
        }
        proof {
            assert(rows.take(rows.len() as int) =~= rows);
        }
        out
    }
}

} // verus!
