//! The group entity: a named collection records can be linked into.

use crate::clock::now_seconds;
use crate::error::StorageError;
use crate::link::link_row_ok;
use crate::model::{Keyed, Model};
use crate::store::{has_key, lemma_has_key_push, Store, StoreModel};
use vstd::prelude::*;

verus! {

/// A group row.
#[derive(Debug, PartialEq)]
pub struct Group {
    pub id: Option<i32>,
    pub name: String,
    pub created_at: i64,
}

impl Clone for Group {
    fn clone(&self) -> (r: Self)
        ensures
            r == *self,
    {
        Group { id: self.id, name: self.name.clone(), created_at: self.created_at }
    }
}

impl Group {
    /// A new, not yet persisted group, stamped now.
    pub fn new(name: String) -> (r: Group)
        ensures
            r.id is None,
            r.name == name,
            0 <= r.created_at,
    {
        Group { id: None, name, created_at: now_seconds() }
    }

    /// Delete one group by primary key. Junction rows pointing at it from
    /// the group side cascade away with it; `NotFound` when zero rows
    /// match, and then nothing changes.
    pub fn delete_by_id(store: &mut Store, id: i32) -> (r: Result<i32, StorageError>)
        requires
            old(store)@.wf(),
        ensures
            final(store)@.wf(),
            has_key(old(store)@.groups, id) ==> r == Ok::<i32, StorageError>(id) && final(store)@
                == spec_group_deleted(old(store)@, id),
            !has_key(old(store)@.groups, id) ==> r == Err::<i32, StorageError>(
                StorageError::NotFound,
            ) && final(store)@ == old(store)@,
    {
        if !crate::store::contains_key::<Group>(store, id) {
            return Err(StorageError::NotFound);
        }
        store.groups = crate::store::retain_without_key(&store.groups, id);
        store.links = crate::link::retain_links_dropping_right(
            &store.links,
            crate::link::Pair::RecordGroup,
            id,
        );
        proof {
            lemma_wf_after_group_delete(old(store)@, id);
            assert(store@ =~= spec_group_deleted(old(store)@, id));
        }
        Ok(id)
    }
}

/// The store after a group row is deleted: the row goes, junction rows
/// pointing at it from the group side go with it, everything else stays.
pub open spec fn spec_group_deleted(s: StoreModel, id: i32) -> StoreModel {
    StoreModel {
        groups: crate::store::rows_dropping_key(s.groups, id),
        links: crate::link::links_dropping_right(s.links, crate::link::Pair::RecordGroup, id),
        ..s
    }
}

/// Deleting a group preserves store well-formedness.
pub proof fn lemma_wf_after_group_delete(s: StoreModel, id: i32)
    requires
        s.wf(),
    ensures
        spec_group_deleted(s, id).wf(),
{
    let s2 = spec_group_deleted(s, id);
    crate::store::lemma_rows_dropping_key_props(s.groups, id, s.next_group_id);
    crate::link::lemma_links_dropping_right_props(
        s.links,
        crate::link::Pair::RecordGroup,
        id,
        s.next_link_id,
    );
    assert forall|i: int| 0 <= i < s2.links.len() implies link_row_ok(s2, #[trigger] s2.links[i])
        by {
        let row = s2.links[i];
        let j = choose|j: int| 0 <= j < s.links.len() && s.links[j] == row;
        assert(link_row_ok(s, row));
        match row.right_id {
            Some(b) => {
                if row.pair == crate::link::Pair::RecordGroup {
                    assert(!(row.pair == crate::link::Pair::RecordGroup && row.right_id == Some(
                        id,
                    )));
                    assert(b != id);
                }
            },
            None => {},
        }
    }
}

impl Keyed for Group {
    open spec fn spec_key(self) -> Option<i32> {
        self.id
    }
}

impl Model for Group {
    open spec fn spec_table() -> Seq<char> {
        "Groups"@
    }

    open spec fn spec_foreign_id() -> Seq<char> {
        "group_id"@
    }

    open spec fn spec_fields() -> Seq<Seq<char>> {
        seq!["id"@, "name"@, "created_at"@]
    }

    open spec fn spec_with_key(self, k: i32) -> Group {
        Group { id: Some(k), ..self }
    }

    open spec fn spec_rows(s: StoreModel) -> Seq<Group> {
        s.groups
    }

    open spec fn spec_next(s: StoreModel) -> i32 {
        s.next_group_id
    }

    open spec fn spec_fk_ok(self, s: StoreModel) -> bool {
        true
    }

    open spec fn spec_inserted(self, s: StoreModel) -> StoreModel {
        StoreModel {
            groups: s.groups.push(self.spec_with_key(s.next_group_id)),
            next_group_id: (s.next_group_id + 1) as i32,
            ..s
        }
    }

    proof fn lemma_with_key(self, k: i32) {
    }

    proof fn lemma_rows_wf(s: StoreModel) {
    }

    proof fn lemma_insert_shape(self, s: StoreModel) {
    }

    proof fn lemma_rows_ignore_links(s: StoreModel, t: StoreModel) {
    }

    fn table() -> (r: String) {
        "Groups".to_owned()
    }

    fn foreign_id() -> (r: String) {
        "group_id".to_owned()
    }

    fn fields() -> (r: Vec<String>) {
        let mut v: Vec<String> = Vec::new();
        v.push("id".to_owned());
        v.push("name".to_owned());
        v.push("created_at".to_owned());
        proof {
            assert(v.deep_view() =~= Self::spec_fields());
        }
        v
    }

    fn primary_key(&self) -> (r: Option<i32>) {
        self.id
    }

    fn dup(&self) -> (r: Group) {
        self.clone()
    }

    fn rows(store: &Store) -> (r: &Vec<Group>) {
        &store.groups
    }

    fn insert(self, store: &mut Store) -> (r: Result<Group, StorageError>) {
        let ghost orig = self;
        let k = store.next_group_id;
        let g = Group { id: Some(k), name: self.name, created_at: self.created_at };
        store.groups.push(g.clone());
        store.next_group_id = k + 1;
        proof {
            lemma_wf_after_group_insert(old(store)@, orig);
            assert(store@ =~= orig.spec_inserted(old(store)@));
        }
        Ok(g)
    }
}

/// Persisting a group preserves store well-formedness.
pub proof fn lemma_wf_after_group_insert(s: StoreModel, g: Group)
    requires
        s.wf(),
        s.next_group_id < i32::MAX,
    ensures
        g.spec_inserted(s).wf(),
{
    let s2 = g.spec_inserted(s);
    let rows2 = s2.groups;
    let fresh = g.spec_with_key(s.next_group_id);
    assert(rows2 == s.groups.push(fresh));
    assert forall|i: int| 0 <= i < rows2.len() implies ((#[trigger] rows2[i]).spec_key()
        matches Some(k) && 1 <= k < s2.next_group_id) by {
        if i < s.groups.len() {
            assert(rows2[i] == s.groups[i]);
        } else {
            assert(rows2[i] == fresh);
        }
    }
    assert forall|i: int, j: int| 0 <= i < j < rows2.len() implies (
    #[trigger] rows2[i]).spec_key() != (#[trigger] rows2[j]).spec_key() by {
        if j < s.groups.len() {
            assert(rows2[i] == s.groups[i] && rows2[j] == s.groups[j]);
        } else {
            assert(rows2[i] == s.groups[i] && rows2[j] == fresh);
        }
    }
    assert forall|i: int| 0 <= i < s2.links.len() implies link_row_ok(s2, #[trigger] s2.links[i])
        by {
        assert(link_row_ok(s, s.links[i]));
        match s.links[i].right_id {
            Some(b) => {
                if s.links[i].pair == crate::link::Pair::RecordGroup {
                    lemma_has_key_push(s.groups, fresh, b);
                }
            },
            None => {},
        }
    }
}

} // verus!
