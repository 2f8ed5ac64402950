//! User records: lookups by id and by name, creation, and partial updates.
//!
//! Names are stored normalized (trimmed, lowercased) and are unique, so a
//! login name resolves to at most one user.  Password hashes live only
//! here; reads that cross the API blank them out.

use vstd::prelude::*;

use crate::response::StorageError;
use crate::text::str_eq;

verus! {

/// One user.  `password` carries the PHC hash in storage and is `None` on
/// rows handed out by reads that must not leak it.
pub struct User {
    pub id: i64,
    pub name: String,
    pub password: Option<String>,
    pub admin: bool,
    pub created: i64,
    pub modified: i64,
}

impl Clone for User {
    fn clone(&self) -> (r: User)
        ensures
            r == *self,
    {
        User {
            id: self.id,
            name: self.name.clone(),
            password: match &self.password {
                Some(p) => Some(p.clone()),
                None => None,
            },
            admin: self.admin,
            created: self.created,
            modified: self.modified,
        }
    }
}

/// Whether some user in `rows` carries the name.
pub open spec fn has_username(rows: Seq<User>, name: Seq<char>) -> bool {
    exists|i: int| 0 <= i < rows.len() && (#[trigger] rows[i].name@) == name
}

/// Index of the user carrying the name (unique when the table is
/// well-formed).
pub open spec fn username_idx(rows: Seq<User>, name: Seq<char>) -> int {
    choose|i: int| 0 <= i < rows.len() && (#[trigger] rows[i].name@) == name
}

/// Well-formedness: ids dense, names unique, every stored row carries a
/// password hash.
pub open spec fn users_wf(rows: Seq<User>) -> bool {
    &&& rows.len() <= i64::MAX
    &&& forall|i: int| 0 <= i < rows.len() ==> (#[trigger] rows[i].id) == i + 1
    &&& forall|i: int, j: int|
        0 <= i < j < rows.len() ==> (#[trigger] rows[i].name@) != (#[trigger] rows[j].name@)
    &&& forall|i: int| 0 <= i < rows.len() ==> (#[trigger] rows[i].password) is Some
}

/// In a well-formed table, any index carrying the name is the
/// `username_idx`.
pub proof fn lemma_username_idx_is(rows: Seq<User>, name: Seq<char>, i: int)
    requires
        users_wf(rows),
        0 <= i < rows.len(),
        rows[i].name@ == name,
    ensures
        has_username(rows, name),
        username_idx(rows, name) == i,
{
    assert(has_username(rows, name));
    let j = username_idx(rows, name);
    if i < j {
        assert(rows[i].name@ != rows[j].name@);
    } else if j < i {
        assert(rows[j].name@ != rows[i].name@);
    }
}

/// The user store.
pub struct UserTable {
    pub users: Vec<User>,
}

impl UserTable {
    /// Ids dense, names unique, hashes present.
    pub open spec fn wf(self) -> bool {
        users_wf(self.users@)
    }

    /// Whether a user with this id exists.
    pub open spec fn spec_has_user(self, user_id: i64) -> bool {
        1 <= user_id <= self.users@.len()
    }

    /// The stored row, by id.
    pub open spec fn spec_user(self, user_id: i64) -> User
        recommends
            self.spec_has_user(user_id),
    {
        self.users@[user_id - 1]
    }

    /// An empty table.
    pub fn new() -> (r: UserTable)
        ensures
            r.wf(),
            r.users@.len() == 0,
    {
        UserTable { users: Vec::new() }
    }

    /// Index of the user carrying `name`, if any.
    fn find_by_name(&self, name: &str) -> (r: Option<usize>)
        ensures
            match r {
                Some(i) => i < self.users@.len() && self.users@[i as int].name@ == name@,
                None => !has_username(self.users@, name@),
            },
    {
        let n = self.users.len();
        let mut i: usize = 0;
        while i < n
            invariant
                i <= n == self.users@.len(),
                forall|k: int| 0 <= k < i ==> (#[trigger] self.users@[k].name@) != name@,
            decreases n - i,
        {
            if str_eq(self.users[i].name.as_str(), name) {
                return Some(i);
            }
            i = i + 1;
        }
        None
    }

    /// Inserts a user with a stored password hash.  Fails exactly when the
    /// name is already taken.
    pub fn create_user(&mut self, name: &str, password_hash: &str, admin: bool, now: i64) -> (r:
        Result<(), StorageError>)
        requires
            old(self).wf(),
            old(self).users@.len() + 1 <= i64::MAX,
        ensures
            final(self).wf(),
            r is Ok <==> !has_username(old(self).users@, name@),
            r is Err ==> final(self).users@ == old(self).users@,
            r is Ok ==> {
                &&& final(self).users@.len() == old(self).users@.len() + 1
                &&& final(self).users@.subrange(0, old(self).users@.len() as int) == old(
                    self,
                ).users@
                &&& final(self).users@.last().id == old(self).users@.len() + 1
                &&& final(self).users@.last().name@ == name@
                &&& final(self).users@.last().password matches Some(p) && p@ == password_hash@
                &&& final(self).users@.last().admin == admin
                &&& final(self).users@.last().created == now
                &&& final(self).users@.last().modified == now
            },
    {
        match self.find_by_name(name) {
            Some(i) => {
                proof {
                    lemma_username_idx_is(self.users@, name@, i as int);
                }
                Err(StorageError::Conflict)
            },
            None => {
                let user = User {
                    id: (self.users.len() as i64) + 1,
                    name: name.to_owned(),
                    password: Some(password_hash.to_owned()),
                    admin,
                    created: now,
                    modified: now,
                };
                self.users.push(user);
                proof {
                    let rows = self.users@;
                    let orig = old(self).users@;
                    assert(rows.subrange(0, orig.len() as int) =~= orig);
                    assert forall|i: int, j: int| 0 <= i < j < rows.len() implies (
                    #[trigger] rows[i].name@) != (#[trigger] rows[j].name@) by {
                        assert(forall|k: int|
                            0 <= k < rows.len() - 1 ==> (#[trigger] rows[k].name@)
                                == orig[k].name@);
                    }
                }
                Ok(())
            },
        }
    }

    /// Looks up a user by id, with the password hash blanked.
    pub fn get_user(&self, user_id: i64) -> (r: Option<User>)
        requires
            self.wf(),
        ensures
            r is Some <==> self.spec_has_user(user_id),
            match r {
                Some(u) => {
                    &&& u.id == user_id
                    &&& u.name == self.spec_user(user_id).name
                    &&& u.password is None
                    &&& u.admin == self.spec_user(user_id).admin
                    &&& u.created == self.spec_user(user_id).created
                    &&& u.modified == self.spec_user(user_id).modified
                },
                None => true,
            },
    {
        if user_id >= 1 && user_id <= (self.users.len() as i64) {
            let u = &self.users[(user_id - 1) as usize];
            Some(
                User {
                    id: u.id,
                    name: u.name.clone(),
                    password: None,
                    admin: u.admin,
                    created: u.created,
                    modified: u.modified,
                },
            )
        } else {
            None
        }
    }

    /// All users, in id order, with password hashes blanked.
    pub fn get_all_users(&self) -> (r: Vec<User>)
        requires
            self.wf(),
        ensures
            r@.len() == self.users@.len(),
            forall|k: int|
                0 <= k < r@.len() ==> {
                    let u = #[trigger] r@[k];
                    &&& u.id == self.users@[k].id
                    &&& u.name == self.users@[k].name
                    &&& u.password is None
                    &&& u.admin == self.users@[k].admin
                    &&& u.created == self.users@[k].created
                    &&& u.modified == self.users@[k].modified
                },
    {
        let n = self.users.len();
        let mut out: Vec<User> = Vec::new();
        let mut i: usize = 0;
        while i < n
            invariant
                i <= n == self.users@.len(),
                out@.len() == i,
                forall|k: int|
                    0 <= k < i ==> {
                        let u = #[trigger] out@[k];
                        &&& u.id == self.users@[k].id
                        &&& u.name == self.users@[k].name
                        &&& u.password is None
                        &&& u.admin == self.users@[k].admin
                        &&& u.created == self.users@[k].created
                        &&& u.modified == self.users@[k].modified
                    },
            decreases n - i,
        {
            let u = &self.users[i];
            out.push(
                User {
                    id: u.id,
                    name: u.name.clone(),
                    password: None,
                    admin: u.admin,
                    created: u.created,
                    modified: u.modified,
                },
            );
            i = i + 1;
        }
        out
    }

    /// Looks up a user by (normalized) name, password hash included — the
    /// login path.
    pub fn get_user_with_password(&self, name: &str) -> (r: Option<User>)
        requires
            self.wf(),
        ensures
            r is Some <==> has_username(self.users@, name@),
            match r {
                Some(u) => u == self.users@[username_idx(self.users@, name@)],
                None => true,
            },
    {
        match self.find_by_name(name) {
            Some(i) => {
                proof {
                    lemma_username_idx_is(self.users@, name@, i as int);
                }
                Some(self.users[i].clone())
            },
            None => None,
        }
    }

    /// Partial update: each supplied field overwrites the stored one, the
    /// others stay.  A missing id is a no-op, as a storage `UPDATE` of no
    /// rows would be; a new name already carried by another user fails.
    pub fn update_user(
        &mut self,
        user_id: i64,
        name: Option<String>,
        password: Option<String>,
        admin: Option<bool>,
    ) -> (r: Result<(), StorageError>)
        requires
            old(self).wf(),
        ensures
            final(self).wf(),
            !old(self).spec_has_user(user_id) ==> r is Ok && final(self).users@ == old(
                self,
            ).users@,
            old(self).spec_has_user(user_id) ==> {
                let i = user_id - 1;
                let e = old(self).users@[i];
                let taken = name matches Some(nm) && exists|j: int|
                    0 <= j < old(self).users@.len() && j != i && (
                    #[trigger] old(self).users@[j].name@) == nm@;
                if taken {
                    r is Err && final(self).users@ == old(self).users@
                } else {
                    r is Ok && final(self).users@ == old(self).users@.update(
                        i,
                        User {
                            name: match name {
                                Some(nm) => nm,
                                None => e.name,
                            },
                            password: match password {
                                Some(p) => Some(p),
                                None => e.password,
                            },
                            admin: match admin {
                                Some(a) => a,
                                None => e.admin,
                            },
                            ..e
                        },
                    )
                }
            },
    {
        if !(user_id >= 1 && user_id <= (self.users.len() as i64)) {
            return Ok(());
        }
        let i = (user_id - 1) as usize;
        match &name {
            Some(nm) => {
                match self.find_by_name(nm.as_str()) {
                    Some(j) => {
                        if j != i {
                            proof {
                                assert(self.users@[j as int].name@ == name->0@);
                            }
                            return Err(StorageError::Conflict);
                        }
                    },
                    None => {},
                }
            },
            None => {},
        }
        proof {
            if name is Some {
                assert forall|j: int|
                    0 <= j < self.users@.len() && j != user_id - 1 implies (
                #[trigger] self.users@[j].name@) != name->0@ by {
                    if self.users@[j].name@ == name->0@ {
                        lemma_username_idx_is(self.users@, name->0@, j);
                    }
                }
            }
        }
        match name {
            Some(nm) => {
                self.users[i].name = nm;
            },
            None => {},
        }
        match password {
            Some(p) => {
                self.users[i].password = Some(p);
            },
            None => {},
        }
        match admin {
            Some(a) => {
                self.users[i].admin = a;
            },
            None => {},
        }
        proof {
            let rows = self.users@;
            let orig = old(self).users@;
            assert(rows =~= orig.update(user_id - 1, rows[user_id - 1]));
            assert forall|a: int, b: int| 0 <= a < b < rows.len() implies (
            #[trigger] rows[a].name@) != (#[trigger] rows[b].name@) by {
                if a != user_id - 1 && b != user_id - 1 {
                    assert(rows[a] == orig[a] && rows[b] == orig[b]);
                } else if a == user_id - 1 {
                    assert(rows[b] == orig[b]);
                } else {
                    assert(rows[a] == orig[a]);
                }
            }
        }
        Ok(())
    }
}

} // verus!
