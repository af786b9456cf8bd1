//! The item entity: a small belonging of a record or user.

use crate::clock::now_seconds;
use crate::error::StorageError;
use crate::link::link_row_ok;
use crate::model::{Keyed, Model, Status, Visibility};
use crate::store::{has_key, lemma_has_key_push, Store, StoreModel};
use vstd::prelude::*;

verus! {

/// An item row. Its owner column is filled by the callers' convention
/// (the record-item junction path stores the record key there) and is not
/// constraint-checked by the storage model.
#[derive(Debug, PartialEq)]
pub struct Item {
    pub id: Option<i32>,
    pub uid: i32,
    pub name: String,
    pub status: Status,
    pub visibility: Visibility,
    pub created_at: i64,
}

impl Clone for Item {
    fn clone(&self) -> (r: Self)
        ensures
            r == *self,
    {
        Item {
            id: self.id,
            uid: self.uid,
            name: self.name.clone(),
            status: self.status,
            visibility: self.visibility,
            created_at: self.created_at,
        }
    }
}

impl Default for Item {
    /// An unsaved item owned by nobody: the owner reference carries the
    /// sentinel `-1`.
    fn default() -> (r: Item)
        ensures
            r.id is None,
            r.uid == -1,
            r.name@ == Seq::<char>::empty(),
            r.status == Status::Active,
            r.visibility == Visibility::Private,
            0 <= r.created_at,
    {
        Item {
            id: None,
            uid: -1,
            name: String::new(),
            status: Status::Active,
            visibility: Visibility::Private,
            created_at: now_seconds(),
        }
    }
}

impl Item {
    /// A new, not yet persisted item: active, private, stamped now.
    pub fn new(uid: i32, name: String) -> (r: Item)
        ensures
            r.id is None,
            r.uid == uid,
            r.name == name,
            r.status == Status::Active,
            r.visibility == Visibility::Private,
            0 <= r.created_at,
    {
        Item {
            id: None,
            uid,
            name,
            status: Status::Active,
            visibility: Visibility::Private,
            created_at: now_seconds(),
        }
    }

    /// A copy of this value with another visibility; pure, nothing
    /// persisted.
    pub fn private(&self, visibility: Visibility) -> (r: Item)
        ensures
            r == (Item { visibility, ..*self }),
    {
        Item { visibility, ..self.clone() }
    }

    /// A copy of this value with another status; pure, nothing persisted.
    pub fn with_status(&self, status: Status) -> (r: Item)
        ensures
            r == (Item { status, ..*self }),
    {
        Item { status, ..self.clone() }
    }

    /// Delete one item by primary key. Junction rows pointing at it from
    /// the item side cascade away with it; `NotFound` when zero rows
    /// match, and then nothing changes.
    pub fn delete_by_id(store: &mut Store, id: i32) -> (r: Result<i32, StorageError>)
        requires
            old(store)@.wf(),
        ensures
            final(store)@.wf(),
            has_key(old(store)@.items, id) ==> r == Ok::<i32, StorageError>(id) && final(store)@
                == spec_item_deleted(old(store)@, id),
            !has_key(old(store)@.items, id) ==> r == Err::<i32, StorageError>(
                StorageError::NotFound,
            ) && final(store)@ == old(store)@,
    {
        if !crate::store::contains_key::<Item>(store, id) {
            return Err(StorageError::NotFound);
        }
        store.items = crate::store::retain_without_key(&store.items, id);
        store.links = crate::link::retain_links_dropping_right(
            &store.links,
            crate::link::Pair::RecordItem,
            id,
        );
        proof {
            lemma_wf_after_item_delete(old(store)@, id);
            assert(store@ =~= spec_item_deleted(old(store)@, id));
        }
        Ok(id)
    }
}

/// The store after an item row is deleted: the row goes, junction rows
/// pointing at it from the item side go with it, everything else stays.
pub open spec fn spec_item_deleted(s: StoreModel, id: i32) -> StoreModel {
    StoreModel {
        items: crate::store::rows_dropping_key(s.items, id),
        links: crate::link::links_dropping_right(s.links, crate::link::Pair::RecordItem, id),
        ..s
    }
}

/// Deleting an item preserves store well-formedness.
pub proof fn lemma_wf_after_item_delete(s: StoreModel, id: i32)
    requires
        s.wf(),
    ensures
        spec_item_deleted(s, id).wf(),
{
    let s2 = spec_item_deleted(s, id);
    crate::store::lemma_rows_dropping_key_props(s.items, id, s.next_item_id);
    crate::link::lemma_links_dropping_right_props(
        s.links,
        crate::link::Pair::RecordItem,
        id,
        s.next_link_id,
    );
    assert forall|i: int| 0 <= i < s2.links.len() implies link_row_ok(s2, #[trigger] s2.links[i])
        by {
        let row = s2.links[i];
        let j = choose|j: int| 0 <= j < s.links.len() && s.links[j] == row;
        assert(link_row_ok(s, row));
        match row.right_id {
            Some(b) => {
                if row.pair == crate::link::Pair::RecordItem {
                    assert(!(row.pair == crate::link::Pair::RecordItem && row.right_id == Some(
                        id,
                    )));
                    assert(b != id);
                }
            },
            None => {},
        }
    }
}

impl Keyed for Item {
    open spec fn spec_key(self) -> Option<i32> {
        self.id
    }
}

impl Model for Item {
    open spec fn spec_table() -> Seq<char> {
        "Items"@
    }

    open spec fn spec_foreign_id() -> Seq<char> {
        "item_id"@
    }

    open spec fn spec_fields() -> Seq<Seq<char>> {
        seq!["id"@, "uid"@, "name"@, "status"@, "visibility"@, "created_at"@]
    }

    open spec fn spec_with_key(self, k: i32) -> Item {
        Item { id: Some(k), ..self }
    }

    open spec fn spec_rows(s: StoreModel) -> Seq<Item> {
        s.items
    }

    open spec fn spec_next(s: StoreModel) -> i32 {
        s.next_item_id
    }

    open spec fn spec_fk_ok(self, s: StoreModel) -> bool {
        true
    }

    open spec fn spec_inserted(self, s: StoreModel) -> StoreModel {
        StoreModel {
            items: s.items.push(self.spec_with_key(s.next_item_id)),
            next_item_id: (s.next_item_id + 1) as i32,
            ..s
        }
    }

    proof fn lemma_with_key(self, k: i32) {
    }

    proof fn lemma_rows_wf(s: StoreModel) {
    }

    proof fn lemma_insert_shape(self, s: StoreModel) {
    }

    proof fn lemma_rows_ignore_links(s: StoreModel, t: StoreModel) {
    }

    fn table() -> (r: String) {
        "Items".to_owned()
    }

    fn foreign_id() -> (r: String) {
        "item_id".to_owned()
    }

    fn fields() -> (r: Vec<String>) {
        let mut v: Vec<String> = Vec::new();
        v.push("id".to_owned());
        v.push("uid".to_owned());
        v.push("name".to_owned());
        v.push("status".to_owned());
        v.push("visibility".to_owned());
        v.push("created_at".to_owned());
        proof {
            assert(v.deep_view() =~= Self::spec_fields());
        }
        v
    }

    fn primary_key(&self) -> (r: Option<i32>) {
        self.id
    }

    fn dup(&self) -> (r: Item) {
        self.clone()
    }

    fn rows(store: &Store) -> (r: &Vec<Item>) {
        &store.items
    }

    fn insert(self, store: &mut Store) -> (r: Result<Item, StorageError>) {
        let ghost orig = self;
        let k = store.next_item_id;
        let it = Item {
            id: Some(k),
            uid: self.uid,
            name: self.name,
            status: self.status,
            visibility: self.visibility,
            created_at: self.created_at,
        };
        store.items.push(it.clone());
        store.next_item_id = k + 1;
        proof {
            lemma_wf_after_item_insert(old(store)@, orig);
            assert(store@ =~= orig.spec_inserted(old(store)@));
        }
        Ok(it)
    }
}

/// Persisting an item preserves store well-formedness.
pub proof fn lemma_wf_after_item_insert(s: StoreModel, it: Item)
    requires
        s.wf(),
        s.next_item_id < i32::MAX,
    ensures
        it.spec_inserted(s).wf(),
{
    let s2 = it.spec_inserted(s);
    let rows2 = s2.items;
    let fresh = it.spec_with_key(s.next_item_id);
    assert(rows2 == s.items.push(fresh));
    assert forall|i: int| 0 <= i < rows2.len() implies ((#[trigger] rows2[i]).spec_key()
        matches Some(k) && 1 <= k < s2.next_item_id) by {
        if i < s.items.len() {
            assert(rows2[i] == s.items[i]);
        } else {
            assert(rows2[i] == fresh);
        }
    }
    assert forall|i: int, j: int| 0 <= i < j < rows2.len() implies (
    #[trigger] rows2[i]).spec_key() != (#[trigger] rows2[j]).spec_key() by {
        if j < s.items.len() {
            assert(rows2[i] == s.items[i] && rows2[j] == s.items[j]);
        } else {
            assert(rows2[i] == s.items[i] && rows2[j] == fresh);
        }
    }
    assert forall|i: int| 0 <= i < s2.links.len() implies link_row_ok(s2, #[trigger] s2.links[i])
        by {
        assert(link_row_ok(s, s.links[i]));
        match s.links[i].right_id {
            Some(b) => {
                if s.links[i].pair == crate::link::Pair::RecordItem {
                    lemma_has_key_push(s.items, fresh, b);
                }
            },
            None => {},
        }
    }
}

} // verus!
