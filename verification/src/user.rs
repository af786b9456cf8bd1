//! The user entity: owner of records and items.

use crate::clock::now_seconds;
use crate::error::StorageError;
use crate::link::{links_dropping_right, Pair};
use crate::model::{Keyed, Model};
use crate::store::{
    contains_key, fetch_by_key, has_key, lemma_has_key_push, lemma_rows_dropping_key_props,
    retain_without_key, rows_dropping_key, Store, StoreModel,
};
use vstd::prelude::*;

verus! {

/// A registered user row.
#[derive(Debug, PartialEq)]
pub struct User {
    pub id: Option<i32>,
    pub username: String,
    pub email: String,
    pub created_at: i64,
}

impl Clone for User {
    fn clone(&self) -> (r: Self)
        ensures
            r == *self,
    {
        User {
            id: self.id,
            username: self.username.clone(),
            email: self.email.clone(),
            created_at: self.created_at,
        }
    }
}

impl User {
    /// A new, not yet persisted user; the timestamp is the wall clock now.
    pub fn new(username: String, email: String) -> (r: User)
        ensures
            r.id is None,
            r.username == username,
            r.email == email,
            0 <= r.created_at,
    {
        User { id: None, username, email, created_at: now_seconds() }
    }

    /// Fetch every user.
    pub fn get_all(store: &Store) -> (r: Vec<User>)
        ensures
            r@ == store@.users,
    {
        crate::store::fetch_all::<User>(store)
    }

    /// Fetch one user by primary key; `NotFound` when zero rows match.
    pub fn get_by_id(store: &Store, id: i32) -> (r: Result<User, StorageError>)
        ensures
            match crate::store::find_by_key(store@.users, id) {
                Some(u) => r == Ok::<User, StorageError>(u),
                None => r == Err::<User, StorageError>(StorageError::NotFound),
            },
    {
        fetch_by_key::<User>(store, id)
    }

    /// The first user carrying this username, or `NotFound`. Usernames are
    /// not constrained to be unique; a duplicate resolves to the earliest
    /// row.
    pub fn get_by_username(store: &Store, username: &String) -> (r: Result<User, StorageError>)
        ensures
            match find_by_username(store@.users, username@) {
                Some(u) => r == Ok::<User, StorageError>(u),
                None => r == Err::<User, StorageError>(StorageError::NotFound),
            },
    {
        let n = store.users.len();
        let mut i: usize = 0;
        while i < n
            invariant
                i <= n,
                n == store@.users.len(),
                forall|j: int| 0 <= j < i ==> (#[trigger] store@.users[j]).username@ != username@,
            decreases n - i,
        {
            if store.users[i].username == *username {
                proof {
                    lemma_find_by_username_at(store@.users, username@, i as int);
                }
                return Ok(store.users[i].clone());
            }
            i += 1;
        }
        proof {
            lemma_find_by_username_none(store@.users, username@);
        }
        Err(StorageError::NotFound)
    }

    /// Delete one user by primary key. A user still referenced by a
    /// record's owner column cannot be deleted (`ConstraintViolation`);
    /// otherwise the row goes, and every junction row pointing at it from
    /// the user side of a pair is cascaded away with it.
    pub fn delete_by_id(store: &mut Store, id: i32) -> (r: Result<i32, StorageError>)
        requires
            old(store)@.wf(),
        ensures
            final(store)@.wf(),
            !has_key(old(store)@.users, id) ==> r == Err::<i32, StorageError>(
                StorageError::NotFound,
            ) && final(store)@ == old(store)@,
            has_key(old(store)@.users, id) && user_owns_records(old(store)@, id) ==> r == Err::<
                i32,
                StorageError,
            >(StorageError::ConstraintViolation) && final(store)@ == old(store)@,
            has_key(old(store)@.users, id) && !user_owns_records(old(store)@, id) ==> r == Ok::<
                i32,
                StorageError,
            >(id) && final(store)@ == spec_user_deleted(old(store)@, id),
    {
        if !contains_key::<User>(store, id) {
            return Err(StorageError::NotFound);
        }
        let nr = store.records.len();
        let mut i: usize = 0;
        while i < nr
            invariant
                i <= nr,
                nr == store@.records.len(),
                store@ == old(store)@,
                old(store)@.wf(),
                has_key(old(store)@.users, id),
                forall|j: int| 0 <= j < i ==> (#[trigger] store@.records[j]).uid != id,
            decreases nr - i,
        {
            if store.records[i].uid == id {
                return Err(StorageError::ConstraintViolation);
            }
            i += 1;
        }
        store.users = retain_without_key(&store.users, id);
        store.links = crate::link::retain_links_dropping_right(&store.links, Pair::RecordUser, id);
        proof {
            lemma_wf_after_user_delete(old(store)@, id);
            assert(store@ =~= spec_user_deleted(old(store)@, id));
        }
        Ok(id)
    }

    /// Delete the first user carrying this username, with the same cascade
    /// and owner check as [`User::delete_by_id`].
    pub fn delete_by_username(store: &mut Store, username: &String) -> (r: Result<
        i32,
        StorageError,
    >)
        requires
            old(store)@.wf(),
        ensures
            final(store)@.wf(),
            match find_by_username(old(store)@.users, username@) {
                Some(u) => (!user_owns_records(old(store)@, u.id->0) ==> r == Ok::<
                    i32,
                    StorageError,
                >(u.id->0) && final(store)@ == spec_user_deleted(old(store)@, u.id->0))
                    && (user_owns_records(old(store)@, u.id->0) ==> r == Err::<i32, StorageError>(
                    StorageError::ConstraintViolation,
                ) && final(store)@ == old(store)@),
                None => r == Err::<i32, StorageError>(StorageError::NotFound) && final(store)@
                    == old(store)@,
            },
    {
        let found = User::get_by_username(store, username);
        match found {
            Ok(u) => {
                proof {
                    lemma_find_by_username_member(store@.users, username@);
                    let i = choose|i: int| 0 <= i < store@.users.len() && store@.users[i] == u;
                    assert((#[trigger] store@.users[i]).spec_key() matches Some(k));
                    assert(has_key(store@.users, u.id->0));
                }
                match u.primary_key() {
                    Some(id) => User::delete_by_id(store, id),
                    None => vstd::pervasive::unreached(),
                }
            },
            Err(_) => Err(StorageError::NotFound),
        }
    }
}

/// Some record names this user as its owner.
pub open spec fn user_owns_records(s: StoreModel, id: i32) -> bool {
    exists|i: int| 0 <= i < s.records.len() && (#[trigger] s.records[i]).uid == id
}

/// The store after a user row is deleted: the row goes, junction rows
/// pointing at it from the user side go with it, everything else stays.
pub open spec fn spec_user_deleted(s: StoreModel, id: i32) -> StoreModel {
    StoreModel {
        users: rows_dropping_key(s.users, id),
        links: links_dropping_right(s.links, Pair::RecordUser, id),
        ..s
    }
}

/// The first user row carrying this username.
pub open spec fn find_by_username(rows: Seq<User>, name: Seq<char>) -> Option<User>
    decreases rows.len(),
{
    if rows.len() == 0 {
        None
    } else if rows[0].username@ == name {
        Some(rows[0])
    } else {
        find_by_username(rows.drop_first(), name)
    }
}

pub proof fn lemma_find_by_username_at(rows: Seq<User>, name: Seq<char>, i: int)
    requires
        0 <= i < rows.len(),
        rows[i].username@ == name,
        forall|j: int| 0 <= j < i ==> (#[trigger] rows[j]).username@ != name,
    ensures
        find_by_username(rows, name) == Some(rows[i]),
    decreases i,
{
    if i > 0 {
        assert(forall|j: int| 0 <= j < i - 1 ==> rows.drop_first()[j] == rows[j + 1]);
        assert(rows.drop_first()[i - 1] == rows[i]);
        lemma_find_by_username_at(rows.drop_first(), name, i - 1);
    }
}

pub proof fn lemma_find_by_username_none(rows: Seq<User>, name: Seq<char>)
    requires
        forall|j: int| 0 <= j < rows.len() ==> (#[trigger] rows[j]).username@ != name,
    ensures
        find_by_username(rows, name) is None,
    decreases rows.len(),
{
    if rows.len() > 0 {
        assert(forall|j: int| 0 <= j < rows.len() - 1 ==> rows.drop_first()[j] == rows[j + 1]);
        lemma_find_by_username_none(rows.drop_first(), name);
    }
}

/// What `find_by_username` finds is a row of the table.
pub proof fn lemma_find_by_username_member(rows: Seq<User>, name: Seq<char>)
    ensures
        find_by_username(rows, name) matches Some(u) ==> exists|i: int|
            0 <= i < rows.len() && rows[i] == u,
    decreases rows.len(),
{
    if rows.len() > 0 {
        lemma_find_by_username_member(rows.drop_first(), name);
        if rows[0].username@ == name {
        } else {
            match find_by_username(rows.drop_first(), name) {
                Some(u) => {
                    let i = choose|i: int|
                        0 <= i < rows.drop_first().len() && rows.drop_first()[i] == u;
                    assert(rows[i + 1] == u);
                },
                None => {},
            }
        }
    }
}

impl Keyed for User {
    open spec fn spec_key(self) -> Option<i32> {
        self.id
    }
}

impl Model for User {
    open spec fn spec_table() -> Seq<char> {
        "Users"@
    }

    open spec fn spec_foreign_id() -> Seq<char> {
        "uid"@
    }

    open spec fn spec_fields() -> Seq<Seq<char>> {
        seq!["id"@, "username"@, "email"@, "created_at"@]
    }

    open spec fn spec_with_key(self, k: i32) -> User {
        User { id: Some(k), ..self }
    }

    open spec fn spec_rows(s: StoreModel) -> Seq<User> {
        s.users
    }

    open spec fn spec_next(s: StoreModel) -> i32 {
        s.next_user_id
    }

    open spec fn spec_fk_ok(self, s: StoreModel) -> bool {
        true
    }

    open spec fn spec_inserted(self, s: StoreModel) -> StoreModel {
        StoreModel {
            users: s.users.push(self.spec_with_key(s.next_user_id)),
            next_user_id: (s.next_user_id + 1) as i32,
            ..s
        }
    }

    proof fn lemma_with_key(self, k: i32) {
    }

    proof fn lemma_rows_wf(s: StoreModel) {
    }

    proof fn lemma_insert_shape(self, s: StoreModel) {
    }

    proof fn lemma_rows_ignore_links(s: StoreModel, t: StoreModel) {
    }

    fn table() -> (r: String) {
        "Users".to_owned()
    }

    fn foreign_id() -> (r: String) {
        "uid".to_owned()
    }

    fn fields() -> (r: Vec<String>) {
        let mut v: Vec<String> = Vec::new();
        v.push("id".to_owned());
        v.push("username".to_owned());
        v.push("email".to_owned());
        v.push("created_at".to_owned());
        proof {
            assert(v.deep_view() =~= Self::spec_fields());
        }
        v
    }

    fn primary_key(&self) -> (r: Option<i32>) {
        self.id
    }

    fn dup(&self) -> (r: User) {
        self.clone()
    }

    fn rows(store: &Store) -> (r: &Vec<User>) {
        &store.users
    }

    fn insert(self, store: &mut Store) -> (r: Result<User, StorageError>) {
        let ghost orig = self;
        let k = store.next_user_id;
        let u = User {
            id: Some(k),
            username: self.username,
            email: self.email,
            created_at: self.created_at,
        };
        store.users.push(u.clone());
        store.next_user_id = k + 1;
        proof {
            lemma_wf_after_user_insert(old(store)@, orig);
            assert(store@ =~= orig.spec_inserted(old(store)@));
        }
        Ok(u)
    }
}

/// Persisting a user preserves store well-formedness.
pub proof fn lemma_wf_after_user_insert(s: StoreModel, u: User)
    requires
        s.wf(),
        s.next_user_id < i32::MAX,
    ensures
        u.spec_inserted(s).wf(),
{
    let s2 = u.spec_inserted(s);
    let rows2 = s2.users;
    let fresh = u.spec_with_key(s.next_user_id);
    assert(rows2 == s.users.push(fresh));
    assert forall|i: int| 0 <= i < rows2.len() implies ((#[trigger] rows2[i]).spec_key()
        matches Some(k) && 1 <= k < s2.next_user_id) by {
        if i < s.users.len() {
            assert(rows2[i] == s.users[i]);
        } else {
            assert(rows2[i] == fresh);
        }
    }
    assert forall|i: int, j: int| 0 <= i < j < rows2.len() implies (
    #[trigger] rows2[i]).spec_key() != (#[trigger] rows2[j]).spec_key() by {
        if j < s.users.len() {
            assert(rows2[i] == s.users[i] && rows2[j] == s.users[j]);
        } else {
            assert(rows2[i] == s.users[i] && rows2[j] == fresh);
        }
    }
    assert forall|i: int| 0 <= i < s2.records.len() implies has_key(
        s2.users,
        (#[trigger] s2.records[i]).uid,
    ) by {
        assert(has_key(s.users, s.records[i].uid));
        lemma_has_key_push(s.users, fresh, s.records[i].uid);
    }
    assert forall|i: int| 0 <= i < s2.links.len() implies crate::link::link_row_ok(
        s2,
        #[trigger] s2.links[i],
    ) by {
        assert(crate::link::link_row_ok(s, s.links[i]));
        match s.links[i].right_id {
            Some(b) => {
                if s.links[i].pair == Pair::RecordUser {
                    lemma_has_key_push(s.users, fresh, b);
                }
            },
            None => {},
        }
    }
}

/// Deleting an unreferenced user preserves store well-formedness.
pub proof fn lemma_wf_after_user_delete(s: StoreModel, id: i32)
    requires
        s.wf(),
        !user_owns_records(s, id),
    ensures
        spec_user_deleted(s, id).wf(),
{
    let s2 = spec_user_deleted(s, id);
    lemma_rows_dropping_key_props(s.users, id, s.next_user_id);
    crate::link::lemma_links_dropping_right_props(s.links, Pair::RecordUser, id, s.next_link_id);
    assert forall|i: int| 0 <= i < s2.records.len() implies has_key(
        s2.users,
        (#[trigger] s2.records[i]).uid,
    ) by {
        assert(s2.records[i] == s.records[i]);
        assert(has_key(s.users, s.records[i].uid));
        assert(s.records[i].uid != id);
    }
    assert forall|i: int| 0 <= i < s2.links.len() implies crate::link::link_row_ok(
        s2,
        #[trigger] s2.links[i],
    ) by {
        let row = s2.links[i];
        let j = choose|j: int| 0 <= j < s.links.len() && s.links[j] == row;
        assert(crate::link::link_row_ok(s, row));
        match row.right_id {
            Some(b) => {
                if row.pair == Pair::RecordUser {
                    assert(!(row.pair == Pair::RecordUser && row.right_id == Some(id)));
                    assert(b != id);
                }
            },
            None => {},
        }
    }
}

} // verus!
