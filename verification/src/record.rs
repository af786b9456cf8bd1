//! The record entity and its relation capabilities.

use crate::clock::now_seconds;
use crate::error::StorageError;
use crate::item::Item;
use crate::link::{
    lemma_linked_ids_push_match, lemma_links_dropping_left_props, link_row_ok,
    linked_ids, links_dropping_left, retain_links_dropping_left, spec_link_inserted, Link,
    LinkedTo, Pair,
};
use crate::model::{Keyed, Model};
use crate::store::{
    contains_key, fetch_by_key, find_by_key, has_key, lemma_has_key_push,
    lemma_rows_dropping_key_props, retain_without_key, rows_dropping_key, Store, StoreModel,
};
use crate::user::User;
use vstd::prelude::*;

verus! {

/// A record row: a named collection owned by a user.
#[derive(Debug, PartialEq)]
pub struct Record {
    pub id: Option<i32>,
    pub uid: i32,
    pub name: String,
    pub status: crate::model::Status,
    pub visibility: crate::model::Visibility,
    pub created_at: i64,
}

impl Clone for Record {
    fn clone(&self) -> (r: Self)
        ensures
            r == *self,
    {
        Record {
            id: self.id,
            uid: self.uid,
            name: self.name.clone(),
            status: self.status,
            visibility: self.visibility,
            created_at: self.created_at,
        }
    }
}

impl Default for Record {
    /// An unsaved record owned by nobody: the owner reference carries the
    /// sentinel `-1`, which no stored user row holds.
    fn default() -> (r: Record)
        ensures
            r.id is None,
            r.uid == -1,
            r.name@ == Seq::<char>::empty(),
            r.status == crate::model::Status::Active,
            r.visibility == crate::model::Visibility::Private,
            0 <= r.created_at,
    {
        Record {
            id: None,
            uid: -1,
            name: String::new(),
            status: crate::model::Status::Active,
            visibility: crate::model::Visibility::Private,
            created_at: now_seconds(),
        }
    }
}

impl Record {
    /// A new, not yet persisted record: active, private, stamped now.
    pub fn new(uid: i32, name: String) -> (r: Record)
        ensures
            r.id is None,
            r.uid == uid,
            r.name == name,
            r.status == crate::model::Status::Active,
            r.visibility == crate::model::Visibility::Private,
            0 <= r.created_at,
    {
        Record {
            id: None,
            uid,
            name,
            status: crate::model::Status::Active,
            visibility: crate::model::Visibility::Private,
            created_at: now_seconds(),
        }
    }

    /// A new record with every attribute chosen by the caller.
    pub fn create(
        uid: i32,
        name: String,
        status: crate::model::Status,
        visibility: crate::model::Visibility,
    ) -> (r: Record)
        ensures
            r.id is None,
            r.uid == uid,
            r.name == name,
            r.status == status,
            r.visibility == visibility,
            0 <= r.created_at,
    {
        Record { id: None, uid, name, status, visibility, created_at: now_seconds() }
    }

    /// A copy of this value with another name; pure, nothing persisted.
    pub fn set_name(self, name: String) -> (r: Record)
        ensures
            r == (Record { name, ..self }),
    {
        Record { name, ..self }
    }

    /// A copy of this value with another status; pure, nothing persisted.
    pub fn set_status(self, status: crate::model::Status) -> (r: Record)
        ensures
            r == (Record { status, ..self }),
    {
        Record { status, ..self }
    }

    /// A copy of this value with another visibility; pure, nothing
    /// persisted.
    pub fn set_visibility(self, visibility: crate::model::Visibility) -> (r: Record)
        ensures
            r == (Record { visibility, ..self }),
    {
        Record { visibility, ..self }
    }

    /// Set the visibility of the stored row under `id`, and return this
    /// in-memory value updated the same way. `NotFound` when zero rows
    /// match, and then nothing changes.
    pub fn update_visibility(
        self,
        store: &mut Store,
        visibility: crate::model::Visibility,
        id: i32,
    ) -> (r: Result<Record, StorageError>)
        requires
            old(store)@.wf(),
        ensures
            final(store)@.wf(),
            has_key(old(store)@.records, id) ==> r == Ok::<Record, StorageError>(
                Record { visibility, ..self },
            ) && final(store)@ == (StoreModel {
                records: records_with_visibility(old(store)@.records, id, visibility),
                ..old(store)@
            }),
            !has_key(old(store)@.records, id) ==> r == Err::<Record, StorageError>(
                StorageError::NotFound,
            ) && final(store)@ == old(store)@,
    {
        let n = store.records.len();
        let mut i: usize = 0;
        while i < n
            invariant
                i <= n,
                n == store@.records.len(),
                store@ == old(store)@,
                old(store)@.wf(),
                forall|j: int| 0 <= j < i ==> (#[trigger] store@.records[j]).spec_key() != Some(id),
            decreases n - i,
        {
            let hit = match store.records[i].primary_key() {
                Some(k) => k == id,
                None => false,
            };
            if hit {
                let cur = store.records[i].dup();
                store.records[i] = Record { visibility, ..cur };
                proof {
                    lemma_record_rewrite_wf(old(store)@, store@.records);
                    assert(store@.records =~= records_with_visibility(
                        old(store)@.records,
                        id,
                        visibility,
                    )) by {
                        assert forall|j: int| 0 <= j < store@.records.len() implies store@.records[j]
                            == records_with_visibility(old(store)@.records, id, visibility)[j] by {
                            if j != i as int {
                                assert(old(store)@.records[j].spec_key()
                                    != old(store)@.records[i as int].spec_key());
                            }
                        }
                    }
                    assert(store@ =~= (StoreModel {
                        records: records_with_visibility(old(store)@.records, id, visibility),
                        ..old(store)@
                    }));
                }
                return Ok(Record { visibility, ..self });
            }
            i += 1;
        }
        Err(StorageError::NotFound)
    }

    /// Set the status of the stored row under `id`, and return this
    /// in-memory value updated the same way. `NotFound` when zero rows
    /// match, and then nothing changes.
    pub fn update_status(
        self,
        store: &mut Store,
        status: crate::model::Status,
        id: i32,
    ) -> (r: Result<Record, StorageError>)
        requires
            old(store)@.wf(),
        ensures
            final(store)@.wf(),
            has_key(old(store)@.records, id) ==> r == Ok::<Record, StorageError>(
                Record { status, ..self },
            ) && final(store)@ == (StoreModel {
                records: records_with_status(old(store)@.records, id, status),
                ..old(store)@
            }),
            !has_key(old(store)@.records, id) ==> r == Err::<Record, StorageError>(
                StorageError::NotFound,
            ) && final(store)@ == old(store)@,
    {
        let n = store.records.len();
        let mut i: usize = 0;
        while i < n
            invariant
                i <= n,
                n == store@.records.len(),
                store@ == old(store)@,
                old(store)@.wf(),
                forall|j: int| 0 <= j < i ==> (#[trigger] store@.records[j]).spec_key() != Some(id),
            decreases n - i,
        {
            let hit = match store.records[i].primary_key() {
                Some(k) => k == id,
                None => false,
            };
            if hit {
                let cur = store.records[i].dup();
                store.records[i] = Record { status, ..cur };
                proof {
                    lemma_record_rewrite_wf(old(store)@, store@.records);
                    assert(store@.records =~= records_with_status(old(store)@.records, id, status))
                        by {
                        assert forall|j: int| 0 <= j < store@.records.len() implies store@.records[j]
                            == records_with_status(old(store)@.records, id, status)[j] by {
                            if j != i as int {
                                assert(old(store)@.records[j].spec_key()
                                    != old(store)@.records[i as int].spec_key());
                            }
                        }
                    }
                    assert(store@ =~= (StoreModel {
                        records: records_with_status(old(store)@.records, id, status),
                        ..old(store)@
                    }));
                }
                return Ok(Record { status, ..self });
            }
            i += 1;
        }
        Err(StorageError::NotFound)
    }

    /// The rows under this key: one when it is stored, none otherwise.
    pub fn get_by_id(store: &Store, id: i32) -> (r: Vec<Record>)
        ensures
            match find_by_key(store@.records, id) {
                Some(e) => r@ == seq![e],
                None => r@ == Seq::<Record>::empty(),
            },
    {
        match fetch_by_key::<Record>(store, id) {
            Ok(e) => {
                let mut v: Vec<Record> = Vec::new();
                v.push(e);
                proof {
                    assert(v@ =~= seq![find_by_key(store@.records, id)->0]);
                }
                v
            },
            Err(_) => Vec::new(),
        }
    }

    /// Every user linked to this record through the user/record junction.
    pub fn get_linked_users(store: &Store, rid: i32) -> (r: Vec<User>)
        requires
            store@.wf(),
        ensures
            ({
                let ids = linked_ids(store@.links, Pair::RecordUser, rid);
                &&& r@.len() == ids.len()
                &&& forall|i: int|
                    0 <= i < ids.len() ==> find_by_key(store@.users, ids[i]) == Some(r@[i])
            }),
    {
        crate::link::get_linked::<Record, User>(store, rid)
    }

    /// Insert a brand-new item and link it to this record in one logical
    /// operation. The operation is atomic: when the record is absent
    /// nothing persists and `ConstraintViolation` comes back; on success
    /// both the item row and the junction row stand. The new item's owner
    /// column carries the record key, as the callers of this junction
    /// convention do.
    pub fn add_new_item(store: &mut Store, rid: i32, item_name: String) -> (r: Result<
        Item,
        StorageError,
    >)
        requires
            old(store)@.wf(),
            old(store)@.next_item_id < i32::MAX,
            old(store)@.next_link_id < i32::MAX,
        ensures
            final(store)@.wf(),
            !has_key(old(store)@.records, rid) ==> r == Err::<Item, StorageError>(
                StorageError::ConstraintViolation,
            ) && final(store)@ == old(store)@,
            has_key(old(store)@.records, rid) ==> ({
                &&& r matches Ok(it)
                &&& it.id == Some(old(store)@.next_item_id)
                &&& it.uid == rid
                &&& it.name == item_name
                &&& it.status == crate::model::Status::Active
                &&& it.visibility == crate::model::Visibility::Private
                &&& 0 <= it.created_at
                &&& final(store)@ == spec_link_inserted(
                    (Item { id: None, ..it }).spec_inserted(old(store)@),
                    Pair::RecordItem,
                    Some(rid),
                    Some(old(store)@.next_item_id),
                )
                &&& linked_ids(final(store)@.links, Pair::RecordItem, rid) == linked_ids(
                    old(store)@.links,
                    Pair::RecordItem,
                    rid,
                ).push(old(store)@.next_item_id)
            }),
    {
        if !contains_key::<Record>(store, rid) {
            return Err(StorageError::ConstraintViolation);
        }
        let item = Item::new(rid, item_name);
        let ghost base = item;
        match item.insert(store) {
            Ok(stored) => {
                let iid = match stored.primary_key() {
                    Some(k) => k,
                    None => vstd::pervasive::unreached(),
                };
                proof {
                    assert(store@.records == old(store)@.records);
                    assert(has_key(store@.items, iid)) by {
                        assert(store@.items.last() == base.spec_with_key(iid));
                        assert(store@.items[store@.items.len() - 1].spec_key() == Some(iid));
                    }
                }
                match Link::new(Some(rid), Some(iid)).insert::<Record, Item>(store) {
                    Ok(_) => {
                        proof {
                            lemma_linked_ids_push_match(
                                base.spec_inserted(old(store)@).links,
                                Pair::RecordItem,
                                rid,
                                iid,
                                old(store)@.next_link_id,
                            );
                            assert(base.spec_inserted(old(store)@).links == old(store)@.links);
                            assert((Item { id: None, ..stored }) =~= base);
                        }
                        Ok(stored)
                    },
                    Err(_) => vstd::pervasive::unreached(),
                }
            },
            Err(_) => vstd::pervasive::unreached(),
        }
    }

    /// Link an existing item to this record; returns the junction row key.
    pub fn add_existing_item(store: &mut Store, rid: i32, iid: i32) -> (r: Result<
        i32,
        StorageError,
    >)
        requires
            old(store)@.wf(),
            old(store)@.next_link_id < i32::MAX,
        ensures
            final(store)@.wf(),
            has_key(old(store)@.records, rid) && has_key(old(store)@.items, iid) ==> r == Ok::<
                i32,
                StorageError,
            >(old(store)@.next_link_id) && final(store)@ == spec_link_inserted(
                old(store)@,
                Pair::RecordItem,
                Some(rid),
                Some(iid),
            ),
            !(has_key(old(store)@.records, rid) && has_key(old(store)@.items, iid)) ==> r
                == Err::<i32, StorageError>(StorageError::ConstraintViolation) && final(store)@
                == old(store)@,
    {
        Link::new(Some(rid), Some(iid)).insert::<Record, Item>(store)
    }

    /// Delete one record by primary key. Junction rows anchored at the
    /// deleted record cascade away with it; `NotFound` when zero rows
    /// match, and then nothing changes.
    pub fn delete_by_id(store: &mut Store, id: i32) -> (r: Result<i32, StorageError>)
        requires
            old(store)@.wf(),
        ensures
            final(store)@.wf(),
            has_key(old(store)@.records, id) ==> r == Ok::<i32, StorageError>(id)
                && final(store)@ == spec_record_deleted(old(store)@, id),
            !has_key(old(store)@.records, id) ==> r == Err::<i32, StorageError>(
                StorageError::NotFound,
            ) && final(store)@ == old(store)@,
    {
        if !contains_key::<Record>(store, id) {
            return Err(StorageError::NotFound);
        }
        store.records = retain_without_key(&store.records, id);
        store.links = retain_links_dropping_left(&store.links, id);
        proof {
            lemma_wf_after_record_delete(old(store)@, id);
            assert(store@ =~= spec_record_deleted(old(store)@, id));
        }
        Ok(id)
    }

    /// Update the caller-settable fields of the stored row under `id` from
    /// the given value, keeping the stored key and timestamp. The new
    /// owner must exist (`ConstraintViolation` otherwise); `NotFound` when
    /// zero rows match. On any failure nothing changes.
    pub fn update_by_id(store: &mut Store, id: i32, record: Record) -> (r: Result<
        i32,
        StorageError,
    >)
        requires
            old(store)@.wf(),
        ensures
            final(store)@.wf(),
            !has_key(old(store)@.records, id) ==> r == Err::<i32, StorageError>(
                StorageError::NotFound,
            ) && final(store)@ == old(store)@,
            has_key(old(store)@.records, id) && !has_key(old(store)@.users, record.uid) ==> r
                == Err::<i32, StorageError>(StorageError::ConstraintViolation) && final(store)@
                == old(store)@,
            has_key(old(store)@.records, id) && has_key(old(store)@.users, record.uid) ==> r
                == Ok::<i32, StorageError>(id) && final(store)@ == (StoreModel {
                records: records_updated(old(store)@.records, id, record),
                ..old(store)@
            }),
    {
        if !contains_key::<Record>(store, id) {
            return Err(StorageError::NotFound);
        }
        if !contains_key::<User>(store, record.uid) {
            return Err(StorageError::ConstraintViolation);
        }
        let n = store.records.len();
        let mut i: usize = 0;
        while i < n
            invariant
                i <= n,
                n == store@.records.len(),
                store@ == old(store)@,
                old(store)@.wf(),
                has_key(old(store)@.users, record.uid),
                has_key(old(store)@.records, id),
                forall|j: int| 0 <= j < i ==> (#[trigger] store@.records[j]).spec_key() != Some(id),
            decreases n - i,
        {
            let hit = match store.records[i].primary_key() {
                Some(k) => k == id,
                None => false,
            };
            if hit {
                let cur = store.records[i].dup();
                store.records[i] = Record {
                    id: cur.id,
                    uid: record.uid,
                    name: record.name,
                    status: record.status,
                    visibility: record.visibility,
                    created_at: cur.created_at,
                };
                proof {
                    lemma_record_rewrite_wf(old(store)@, store@.records);
                    assert(store@.records =~= records_updated(old(store)@.records, id, record))
                        by {
                        assert forall|j: int| 0 <= j < store@.records.len() implies store@.records[j]
                            == records_updated(old(store)@.records, id, record)[j] by {
                            if j != i as int {
                                assert(old(store)@.records[j].spec_key()
                                    != old(store)@.records[i as int].spec_key());
                            }
                        }
                    }
                    assert(store@ =~= (StoreModel {
                        records: records_updated(old(store)@.records, id, record),
                        ..old(store)@
                    }));
                }
                return Ok(id);
            }
            i += 1;
        }
        proof {
            assert(!has_key(old(store)@.records, id));
        }
        Err(StorageError::NotFound)
    }
}

/// The record table with the row under `id` carrying another visibility.
pub open spec fn records_with_visibility(
    rows: Seq<Record>,
    id: i32,
    v: crate::model::Visibility,
) -> Seq<Record> {
    rows.map_values(
        |r: Record|
            if r.spec_key() == Some(id) {
                Record { visibility: v, ..r }
            } else {
                r
            },
    )
}

/// The record table with the row under `id` carrying another status.
pub open spec fn records_with_status(
    rows: Seq<Record>,
    id: i32,
    st: crate::model::Status,
) -> Seq<Record> {
    rows.map_values(
        |r: Record|
            if r.spec_key() == Some(id) {
                Record { status: st, ..r }
            } else {
                r
            },
    )
}

/// The record table with the row under `id` updated from a caller value:
/// owner, name, status and visibility move over; key and timestamp stay.
pub open spec fn records_updated(rows: Seq<Record>, id: i32, from: Record) -> Seq<Record> {
    rows.map_values(
        |r: Record|
            if r.spec_key() == Some(id) {
                Record {
                    uid: from.uid,
                    name: from.name,
                    status: from.status,
                    visibility: from.visibility,
                    ..r
                }
            } else {
                r
            },
    )
}

/// The store after a record row is deleted: the row goes, junction rows
/// anchored at it go with it, everything else stays.
pub open spec fn spec_record_deleted(s: StoreModel, id: i32) -> StoreModel {
    StoreModel {
        records: rows_dropping_key(s.records, id),
        links: links_dropping_left(s.links, id),
        ..s
    }
}

/// Rewriting record rows in place — same keys, owners still valid — keeps
/// the store well-formed.
pub proof fn lemma_record_rewrite_wf(s: StoreModel, rows2: Seq<Record>)
    requires
        s.wf(),
        rows2.len() == s.records.len(),
        forall|i: int|
            0 <= i < rows2.len() ==> (#[trigger] rows2[i]).spec_key() == s.records[i].spec_key()
                && has_key(s.users, rows2[i].uid),
    ensures
        (StoreModel { records: rows2, ..s }).wf(),
{
    let s2 = StoreModel { records: rows2, ..s };
    assert forall|k: i32| #[trigger] has_key(s.records, k) implies has_key(rows2, k) by {
        let i = choose|i: int|
            0 <= i < s.records.len() && (#[trigger] s.records[i]).spec_key() == Some(k);
        assert(rows2[i].spec_key() == Some(k));
    }
    assert forall|i: int| 0 <= i < s2.links.len() implies link_row_ok(s2, #[trigger] s2.links[i])
        by {
        assert(link_row_ok(s, s.links[i]));
        match s.links[i].left_id {
            Some(l) => {
                assert(has_key(s.records, l));
            },
            None => {},
        }
    }
}

/// Deleting a record preserves store well-formedness.
pub proof fn lemma_wf_after_record_delete(s: StoreModel, id: i32)
    requires
        s.wf(),
    ensures
        spec_record_deleted(s, id).wf(),
{
    let s2 = spec_record_deleted(s, id);
    lemma_rows_dropping_key_props(s.records, id, s.next_record_id);
    lemma_links_dropping_left_props(s.links, id, s.next_link_id);
    assert forall|i: int| 0 <= i < s2.records.len() implies has_key(
        s2.users,
        (#[trigger] s2.records[i]).uid,
    ) by {
        let j = choose|j: int| 0 <= j < s.records.len() && s.records[j] == s2.records[i];
        assert(has_key(s.users, s.records[j].uid));
    }
    assert forall|i: int| 0 <= i < s2.links.len() implies link_row_ok(s2, #[trigger] s2.links[i])
        by {
        let row = s2.links[i];
        let j = choose|j: int| 0 <= j < s.links.len() && s.links[j] == row;
        assert(link_row_ok(s, row));
        assert(row.left_id != Some(id));
        match row.left_id {
            Some(l) => {
                assert(has_key(s.records, l));
                assert(l != id);
                assert(has_key(rows_dropping_key(s.records, id), l));
            },
            None => {},
        }
    }
}

impl Keyed for Record {
    open spec fn spec_key(self) -> Option<i32> {
        self.id
    }
}

impl Model for Record {
    open spec fn spec_table() -> Seq<char> {
        "Records"@
    }

    open spec fn spec_foreign_id() -> Seq<char> {
        "rid"@
    }

    open spec fn spec_fields() -> Seq<Seq<char>> {
        seq!["id"@, "uid"@, "name"@, "status"@, "visibility"@, "created_at"@]
    }

    open spec fn spec_with_key(self, k: i32) -> Record {
        Record { id: Some(k), ..self }
    }

    open spec fn spec_rows(s: StoreModel) -> Seq<Record> {
        s.records
    }

    open spec fn spec_next(s: StoreModel) -> i32 {
        s.next_record_id
    }

    open spec fn spec_fk_ok(self, s: StoreModel) -> bool {
        has_key(s.users, self.uid)
    }

    open spec fn spec_inserted(self, s: StoreModel) -> StoreModel {
        StoreModel {
            records: s.records.push(self.spec_with_key(s.next_record_id)),
            next_record_id: (s.next_record_id + 1) as i32,
            ..s
        }
    }

    proof fn lemma_with_key(self, k: i32) {
    }

    proof fn lemma_rows_wf(s: StoreModel) {
    }

    proof fn lemma_insert_shape(self, s: StoreModel) {
    }

    proof fn lemma_rows_ignore_links(s: StoreModel, t: StoreModel) {
    }

    fn table() -> (r: String) {
        "Records".to_owned()
    }

    fn foreign_id() -> (r: String) {
        "rid".to_owned()
    }

    fn fields() -> (r: Vec<String>) {
        let mut v: Vec<String> = Vec::new();
        v.push("id".to_owned());
        v.push("uid".to_owned());
        v.push("name".to_owned());
        v.push("status".to_owned());
        v.push("visibility".to_owned());
        v.push("created_at".to_owned());
        proof {
            assert(v.deep_view() =~= Self::spec_fields());
        }
        v
    }

    fn primary_key(&self) -> (r: Option<i32>) {
        self.id
    }

    fn dup(&self) -> (r: Record) {
        self.clone()
    }

    fn rows(store: &Store) -> (r: &Vec<Record>) {
        &store.records
    }

    fn insert(self, store: &mut Store) -> (r: Result<Record, StorageError>) {
        let ghost orig = self;
        if !contains_key::<User>(store, self.uid) {
            return Err(StorageError::ConstraintViolation);
        }
        let k = store.next_record_id;
        let rec = Record {
            id: Some(k),
            uid: self.uid,
            name: self.name,
            status: self.status,
            visibility: self.visibility,
            created_at: self.created_at,
        };
        store.records.push(rec.clone());
        store.next_record_id = k + 1;
        proof {
            lemma_wf_after_record_insert(old(store)@, rec);
            assert(store@ =~= orig.spec_inserted(old(store)@));
        }
        Ok(rec)
    }
}

/// Persisting a record whose owner exists preserves store well-formedness.
pub proof fn lemma_wf_after_record_insert(s: StoreModel, rec: Record)
    requires
        s.wf(),
        s.next_record_id < i32::MAX,
        has_key(s.users, rec.uid),
        rec.id == Some(s.next_record_id),
    ensures
        (StoreModel {
            records: s.records.push(rec),
            next_record_id: (s.next_record_id + 1) as i32,
            ..s
        }).wf(),
{
    let s2 = StoreModel {
        records: s.records.push(rec),
        next_record_id: (s.next_record_id + 1) as i32,
        ..s
    };
    let rows2 = s2.records;
    assert forall|i: int| 0 <= i < rows2.len() implies ((#[trigger] rows2[i]).spec_key()
        matches Some(k) && 1 <= k < s2.next_record_id) by {
        if i < s.records.len() {
            assert(rows2[i] == s.records[i]);
        } else {
            assert(rows2[i] == rec);
        }
    }
    assert forall|i: int, j: int| 0 <= i < j < rows2.len() implies (
    #[trigger] rows2[i]).spec_key() != (#[trigger] rows2[j]).spec_key() by {
        if j < s.records.len() {
            assert(rows2[i] == s.records[i] && rows2[j] == s.records[j]);
        } else {
            assert(rows2[i] == s.records[i] && rows2[j] == rec);
        }
    }
    assert forall|i: int| 0 <= i < rows2.len() implies has_key(
        s2.users,
        (#[trigger] rows2[i]).uid,
    ) by {
        if i < s.records.len() {
            assert(rows2[i] == s.records[i]);
        } else {
            assert(rows2[i] == rec);
        }
    }
    assert forall|i: int| 0 <= i < s2.links.len() implies link_row_ok(s2, #[trigger] s2.links[i])
        by {
        assert(link_row_ok(s, s.links[i]));
        match s.links[i].left_id {
            Some(l) => {
                lemma_has_key_push(s.records, rec, l);
            },
            None => {},
        }
    }
}

impl LinkedTo<User> for Record {
    open spec fn spec_pair() -> Pair {
        Pair::RecordUser
    }

    fn pair() -> (r: Pair) {
        Pair::RecordUser
    }

    proof fn lemma_junction_coherent() {
    }

    proof fn lemma_pair_tables(s: StoreModel) {
    }
}

impl LinkedTo<Item> for Record {
    open spec fn spec_pair() -> Pair {
        Pair::RecordItem
    }

    fn pair() -> (r: Pair) {
        Pair::RecordItem
    }

    proof fn lemma_junction_coherent() {
    }

    proof fn lemma_pair_tables(s: StoreModel) {
    }
}

impl LinkedTo<crate::group::Group> for Record {
    open spec fn spec_pair() -> Pair {
        Pair::RecordGroup
    }

    fn pair() -> (r: Pair) {
        Pair::RecordGroup
    }

    proof fn lemma_junction_coherent() {
    }

    proof fn lemma_pair_tables(s: StoreModel) {
    }
}

} // verus!
