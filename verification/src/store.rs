//! The persistence gateway, modelled: an in-memory store whose operations
//! carry the exact contracts the rest of the library is verified against.

use crate::error::StorageError;
use crate::group::Group;
use crate::item::Item;
use crate::link::{links_ok, LinkRow};
use crate::model::{Keyed, Model};
use crate::record::Record;
use crate::user::User;
use vstd::prelude::*;

verus! {

/// The mathematical state of a [`Store`]: one sequence per entity table,
/// one sequence of junction rows, and the key each table assigns next.
#[verifier::ext_equal]
pub ghost struct StoreModel {
    pub users: Seq<User>,
    pub records: Seq<Record>,
    pub items: Seq<Item>,
    pub groups: Seq<Group>,
    pub links: Seq<LinkRow>,
    pub next_user_id: i32,
    pub next_record_id: i32,
    pub next_item_id: i32,
    pub next_group_id: i32,
    pub next_link_id: i32,
}

impl StoreModel {
    /// Well-formedness: every table has set, unique keys below its counter;
    /// every record's owner exists; every junction row points at existing
    /// rows on each side it has set.
    pub open spec fn wf(self) -> bool {
        &&& keys_ok(self.users, self.next_user_id)
        &&& keys_ok(self.records, self.next_record_id)
        &&& keys_ok(self.items, self.next_item_id)
        &&& keys_ok(self.groups, self.next_group_id)
        &&& 1 <= self.next_user_id
        &&& 1 <= self.next_record_id
        &&& 1 <= self.next_item_id
        &&& 1 <= self.next_group_id
        &&& 1 <= self.next_link_id
        &&& forall|i: int|
            0 <= i < self.records.len() ==> has_key(
                self.users,
                (#[trigger] self.records[i]).uid,
            )
        &&& links_ok(self)
    }
}

/// Rows of an entity table: every key set, at least 1, below the table's
/// next key, and pairwise distinct.
pub open spec fn keys_ok<E: Keyed>(rows: Seq<E>, next: i32) -> bool {
    &&& forall|i: int|
        0 <= i < rows.len() ==> ((#[trigger] rows[i]).spec_key() matches Some(k) && 1 <= k
            < next)
    &&& forall|i: int, j: int|
        0 <= i < j < rows.len() ==> (#[trigger] rows[i]).spec_key()
            != (#[trigger] rows[j]).spec_key()
}

/// Some row of the table holds this key.
pub open spec fn has_key<E: Keyed>(rows: Seq<E>, id: i32) -> bool {
    exists|i: int| 0 <= i < rows.len() && (#[trigger] rows[i]).spec_key() == Some(id)
}

/// The first row holding this key, if any.
pub open spec fn find_by_key<E: Keyed>(rows: Seq<E>, id: i32) -> Option<E>
    decreases rows.len(),
{
    if rows.len() == 0 {
        None
    } else if rows[0].spec_key() == Some(id) {
        Some(rows[0])
    } else {
        find_by_key(rows.drop_first(), id)
    }
}

/// The table without any row holding this key.
pub open spec fn rows_dropping_key<E: Keyed>(rows: Seq<E>, id: i32) -> Seq<E>
    decreases rows.len(),
{
    if rows.len() == 0 {
        Seq::empty()
    } else {
        let pre = rows_dropping_key(rows.drop_last(), id);
        if rows.last().spec_key() == Some(id) {
            pre
        } else {
            pre.push(rows.last())
        }
    }
}

pub proof fn lemma_has_key_push<E: Keyed>(rows: Seq<E>, e: E, id: i32)
    requires
        has_key(rows, id),
    ensures
        has_key(rows.push(e), id),
{
    let i = choose|i: int| 0 <= i < rows.len() && (#[trigger] rows[i]).spec_key() == Some(id);
    assert(rows.push(e)[i] == rows[i]);
}

pub proof fn lemma_find_at<E: Keyed>(rows: Seq<E>, id: i32, i: int)
    requires
        0 <= i < rows.len(),
        rows[i].spec_key() == Some(id),
        forall|j: int| 0 <= j < i ==> (#[trigger] rows[j]).spec_key() != Some(id),
    ensures
        find_by_key(rows, id) == Some(rows[i]),
    decreases i,
{
    if i > 0 {
        assert(rows[0].spec_key() != Some(id));
        assert(rows.drop_first()[i - 1] == rows[i]);
        assert(forall|j: int|
            0 <= j < i - 1 ==> (#[trigger] rows.drop_first()[j]).spec_key() != Some(id)) by {
            assert(forall|j: int| 0 <= j < i - 1 ==> rows.drop_first()[j] == rows[j + 1]);
        }
        lemma_find_at(rows.drop_first(), id, i - 1);
    }
}

pub proof fn lemma_find_none<E: Keyed>(rows: Seq<E>, id: i32)
    requires
        forall|j: int| 0 <= j < rows.len() ==> (#[trigger] rows[j]).spec_key() != Some(id),
    ensures
        find_by_key(rows, id) is None,
    decreases rows.len(),
{
    if rows.len() > 0 {
        assert(forall|j: int| 0 <= j < rows.len() - 1 ==> rows.drop_first()[j] == rows[j + 1]);
        lemma_find_none(rows.drop_first(), id);
    }
}

/// `find_by_key` succeeds exactly on keys the table holds, and what it finds
/// is a row of the table under that key.
pub proof fn lemma_find_has_key<E: Keyed>(rows: Seq<E>, id: i32)
    ensures
        (find_by_key(rows, id) is Some) == has_key(rows, id),
        find_by_key(rows, id) matches Some(e) ==> e.spec_key() == Some(id) && exists|i: int|
            0 <= i < rows.len() && rows[i] == e,
    decreases rows.len(),
{
    if rows.len() > 0 {
        lemma_find_has_key(rows.drop_first(), id);
        assert(forall|j: int| 0 <= j < rows.len() - 1 ==> rows.drop_first()[j] == rows[j + 1]);
        if rows[0].spec_key() == Some(id) {
        } else {
            if has_key(rows, id) {
                let i = choose|i: int|
                    0 <= i < rows.len() && (#[trigger] rows[i]).spec_key() == Some(id);
                assert(rows.drop_first()[i - 1] == rows[i]);
            }
            if has_key(rows.drop_first(), id) {
                let i = choose|i: int|
                    0 <= i < rows.drop_first().len()
                        && (#[trigger] rows.drop_first()[i]).spec_key() == Some(id);
                assert(rows[i + 1] == rows.drop_first()[i]);
            }
            match find_by_key(rows.drop_first(), id) {
                Some(e) => {
                    let i = choose|i: int|
                        0 <= i < rows.drop_first().len() && rows.drop_first()[i] == e;
                    assert(rows[i + 1] == e);
                },
                None => {},
            }
        }
    }
}

pub proof fn lemma_find_push<E: Keyed>(rows: Seq<E>, e: E, id: i32)
    requires
        !has_key(rows, id),
    ensures
        find_by_key(rows.push(e), id) == if e.spec_key() == Some(id) {
            Some(e)
        } else {
            None::<E>
        },
    decreases rows.len(),
{
    if rows.len() == 0 {
        assert(rows.push(e)[0] == e);
        if e.spec_key() != Some(id) {
            assert(rows.push(e).drop_first() =~= Seq::<E>::empty());
        }
    } else {
        assert(rows.push(e)[0] == rows[0]);
        assert(rows[0].spec_key() != Some(id));
        assert(rows.push(e).drop_first() =~= rows.drop_first().push(e));
        assert(!has_key(rows.drop_first(), id)) by {
            if has_key(rows.drop_first(), id) {
                let i = choose|i: int|
                    0 <= i < rows.drop_first().len()
                        && (#[trigger] rows.drop_first()[i]).spec_key() == Some(id);
                assert(rows[i + 1] == rows.drop_first()[i]);
            }
        }
        lemma_find_push(rows.drop_first(), e, id);
    }
}

/// Dropping a key keeps the table well-keyed, removes that key completely,
/// keeps every other key, and invents no rows.
pub proof fn lemma_rows_dropping_key_props<E: Keyed>(rows: Seq<E>, id: i32, next: i32)
    requires
        keys_ok(rows, next),
    ensures
        keys_ok(rows_dropping_key(rows, id), next),
        !has_key(rows_dropping_key(rows, id), id),
        forall|k: i32| #[trigger]
            has_key(rows_dropping_key(rows, id), k) ==> has_key(rows, k),
        forall|k: i32|
            k != id && #[trigger] has_key(rows, k) ==> has_key(rows_dropping_key(rows, id), k),
        forall|i: int|
            0 <= i < rows_dropping_key(rows, id).len() ==> exists|j: int|
                0 <= j < rows.len() && rows[j] == #[trigger] rows_dropping_key(rows, id)[i],
    decreases rows.len(),
{
    let dropped = rows_dropping_key(rows, id);
    if rows.len() > 0 {
        let head = rows.drop_last();
        let last = rows.last();
        assert(forall|j: int| 0 <= j < head.len() ==> head[j] == rows[j]);
        assert(keys_ok(head, next));
        lemma_rows_dropping_key_props(head, id, next);
        let pre = rows_dropping_key(head, id);
        // every kept row is a row of `rows`
        assert forall|i: int| 0 <= i < dropped.len() implies exists|j: int|
            0 <= j < rows.len() && rows[j] == #[trigger] dropped[i] by {
            if i < pre.len() {
                let j = choose|j: int| 0 <= j < head.len() && head[j] == pre[i];
                assert(rows[j] == dropped[i]);
            } else {
                assert(dropped[i] == last);
                assert(rows[rows.len() - 1] == last);
            }
        }
        if last.spec_key() == Some(id) {
            // dropped == pre
            assert forall|k: i32|
                k != id && #[trigger] has_key(rows, k) implies has_key(dropped, k) by {
                let j = choose|j: int|
                    0 <= j < rows.len() && (#[trigger] rows[j]).spec_key() == Some(k);
                assert(j < head.len());
                assert(has_key(head, k));
            }
        } else {
            // dropped == pre.push(last)
            assert(keys_ok(dropped, next)) by {
                assert forall|i: int, j: int| 0 <= i < j < dropped.len() implies (
                #[trigger] dropped[i]).spec_key() != (#[trigger] dropped[j]).spec_key() by {
                    if j == dropped.len() - 1 {
                        assert(dropped[i] == pre[i]);
                        assert(dropped[j] == last);
                        if pre[i].spec_key() == last.spec_key() {
                            let k = last.spec_key()->0;
                            assert(has_key(pre, k));
                            assert(has_key(head, k));
                            let m = choose|m: int|
                                0 <= m < head.len() && (#[trigger] head[m]).spec_key() == Some(k);
                            assert(rows[m].spec_key() == rows[rows.len() - 1].spec_key());
                        }
                    } else {
                        assert(dropped[i] == pre[i] && dropped[j] == pre[j]);
                    }
                }
                assert forall|i: int| 0 <= i < dropped.len() implies ((
                #[trigger] dropped[i]).spec_key() matches Some(k) && 1 <= k < next) by {
                    if i < pre.len() {
                        assert(dropped[i] == pre[i]);
                    } else {
                        assert(dropped[i] == last);
                    }
                }
            }
            assert(!has_key(dropped, id)) by {
                if has_key(dropped, id) {
                    let i = choose|i: int|
                        0 <= i < dropped.len() && (#[trigger] dropped[i]).spec_key() == Some(id);
                    if i < pre.len() {
                        assert(has_key(pre, id));
                    }
                }
            }
            assert forall|k: i32| #[trigger] has_key(dropped, k) implies has_key(rows, k) by {
                let i = choose|i: int|
                    0 <= i < dropped.len() && (#[trigger] dropped[i]).spec_key() == Some(k);
                let j = choose|j: int| 0 <= j < rows.len() && rows[j] == dropped[i];
                assert(rows[j].spec_key() == Some(k));
            }
            assert forall|k: i32|
                k != id && #[trigger] has_key(rows, k) implies has_key(dropped, k) by {
                let j = choose|j: int|
                    0 <= j < rows.len() && (#[trigger] rows[j]).spec_key() == Some(k);
                if j < head.len() {
                    assert(has_key(head, k));
                    let m = choose|m: int|
                        0 <= m < pre.len() && (#[trigger] pre[m]).spec_key() == Some(k);
                    assert(dropped[m] == pre[m]);
                } else {
                    assert(rows[j] == last);
                    assert(dropped[dropped.len() - 1] == last);
                }
            }
        }
    }
}

/// The pooled storage handle of this library, modelled in memory. Entity
/// tables are vectors of rows; junction rows share one table, tagged by
/// their [`crate::link::Pair`]. The fields are open for inspection; the
/// operations ask for a well-formed model and leave one behind.
pub struct Store {
    pub users: Vec<User>,
    pub records: Vec<Record>,
    pub items: Vec<Item>,
    pub groups: Vec<Group>,
    pub links: Vec<LinkRow>,
    pub next_user_id: i32,
    pub next_record_id: i32,
    pub next_item_id: i32,
    pub next_group_id: i32,
    pub next_link_id: i32,
}

impl View for Store {
    type V = StoreModel;

    open spec fn view(&self) -> StoreModel {
        StoreModel {
            users: self.users@,
            records: self.records@,
            items: self.items@,
            groups: self.groups@,
            links: self.links@,
            next_user_id: self.next_user_id,
            next_record_id: self.next_record_id,
            next_item_id: self.next_item_id,
            next_group_id: self.next_group_id,
            next_link_id: self.next_link_id,
        }
    }
}

impl Store {
    /// A fresh store: every table empty, every key sequence at 1.
    pub fn new() -> (r: Store)
        ensures
            r@.wf(),
            r@.users == Seq::<User>::empty(),
            r@.records == Seq::<Record>::empty(),
            r@.items == Seq::<Item>::empty(),
            r@.groups == Seq::<Group>::empty(),
            r@.links == Seq::<LinkRow>::empty(),
            r@.next_user_id == 1,
            r@.next_record_id == 1,
            r@.next_item_id == 1,
            r@.next_group_id == 1,
            r@.next_link_id == 1,
    {
        Store::with_sequence_start(1, 1, 1, 1, 1)
    }

    /// An empty store whose key sequences stand at given values, as a
    /// database mid-life would after earlier traffic.
    pub fn with_sequence_start(
        next_user_id: i32,
        next_record_id: i32,
        next_item_id: i32,
        next_group_id: i32,
        next_link_id: i32,
    ) -> (r: Store)
        requires
            1 <= next_user_id,
            1 <= next_record_id,
            1 <= next_item_id,
            1 <= next_group_id,
            1 <= next_link_id,
        ensures
            r@.wf(),
            r@.users == Seq::<User>::empty(),
            r@.records == Seq::<Record>::empty(),
            r@.items == Seq::<Item>::empty(),
            r@.groups == Seq::<Group>::empty(),
            r@.links == Seq::<LinkRow>::empty(),
            r@.next_user_id == next_user_id,
            r@.next_record_id == next_record_id,
            r@.next_item_id == next_item_id,
            r@.next_group_id == next_group_id,
            r@.next_link_id == next_link_id,
    {
        Store {
            users: Vec::new(),
            records: Vec::new(),
            items: Vec::new(),
            groups: Vec::new(),
            links: Vec::new(),
            next_user_id,
            next_record_id,
            next_item_id,
            next_group_id,
            next_link_id,
        }
    }
}

/// Whether the store holds a row of entity `E` under this key.
pub fn contains_key<E: Model>(store: &Store, id: i32) -> (r: bool)
    ensures
        r == has_key(E::spec_rows(store@), id),
{
    let rows = E::rows(store);
    let n = rows.len();
    let mut i: usize = 0;
    while i < n
        invariant
            i <= n,
            n == rows@.len(),
            rows@ == E::spec_rows(store@),
            forall|j: int| 0 <= j < i ==> (#[trigger] rows@[j]).spec_key() != Some(id),
        decreases n - i,
    {
        match rows[i].primary_key() {
            Some(k) => {
                if k == id {
                    return true;
                }
            },
            None => {},
        }
        i += 1;
    }
    false
}

/// Fetch by primary key: the matching row, or `NotFound` when zero rows
/// match — never another error.
pub fn fetch_by_key<E: Model>(store: &Store, id: i32) -> (r: Result<E, StorageError>)
    ensures
        match find_by_key(E::spec_rows(store@), id) {
            Some(e) => r == Ok::<E, StorageError>(e),
            None => r == Err::<E, StorageError>(StorageError::NotFound),
        },
        (r is Ok) == has_key(E::spec_rows(store@), id),
{
    proof {
        lemma_find_has_key(E::spec_rows(store@), id);
    }
    let rows = E::rows(store);
    let n = rows.len();
    let mut i: usize = 0;
    while i < n
        invariant
            i <= n,
            n == rows@.len(),
            rows@ == E::spec_rows(store@),
            forall|j: int| 0 <= j < i ==> (#[trigger] rows@[j]).spec_key() != Some(id),
        decreases n - i,
    {
        match rows[i].primary_key() {
            Some(k) => {
                if k == id {
                    proof {
                        lemma_find_at(E::spec_rows(store@), id, i as int);
                    }
                    return Ok(rows[i].dup());
                }
            },
            None => {},
        }
        i += 1;
    }
    proof {
        lemma_find_none(E::spec_rows(store@), id);
    }
    Err(StorageError::NotFound)
}

/// Every row of entity `E`, in table order.
pub fn fetch_all<E: Model>(store: &Store) -> (r: Vec<E>)
    ensures
        r@ == E::spec_rows(store@),
{
    let rows = E::rows(store);
    let n = rows.len();
    let mut out: Vec<E> = Vec::new();
    let mut i: usize = 0;
    while i < n
        invariant
            i <= n,
            n == rows@.len(),
            rows@ == E::spec_rows(store@),
            out@ == rows@.subrange(0, i as int),
        decreases n - i,
    {
        out.push(rows[i].dup());
        proof {
            assert(out@ =~= rows@.subrange(0, i + 1 as int));
        }
        i += 1;
    }
    proof {
        assert(rows@.subrange(0, n as int) =~= rows@);
    }
    out
}

/// Fetch a row known to be present.
pub fn fetch_found<E: Model>(store: &Store, id: i32) -> (r: E)
    requires
        has_key(E::spec_rows(store@), id),
    ensures
        find_by_key(E::spec_rows(store@), id) == Some(r),
{
    match fetch_by_key::<E>(store, id) {
        Ok(e) => e,
        Err(_) => vstd::pervasive::unreached(),
    }
}

/// A table copy without any row under this key.
pub fn retain_without_key<E: Model>(rows: &Vec<E>, id: i32) -> (r: Vec<E>)
    ensures
        r@ == rows_dropping_key(rows@, id),
{
    let n = rows.len();
    let mut out: Vec<E> = Vec::new();
    let mut i: usize = 0;
    while i < n
        invariant
            i <= n,
            n == rows@.len(),
            out@ == rows_dropping_key(rows@.subrange(0, i as int), id),
        decreases n - i,
    {
        proof {
            assert(rows@.subrange(0, i + 1 as int).drop_last() =~= rows@.subrange(0, i as int));
            assert(rows@.subrange(0, i + 1 as int).last() == rows@[i as int]);
        }
        let keep = match rows[i].primary_key() {
            Some(k) => k != id,
            None => true,
        };
        if keep {
            out.push(rows[i].dup());
        }
        i += 1;
    }
    proof {
        assert(rows@.subrange(0, n as int) =~= rows@);
    }
    out
}

/// Round trip: inserting a value into a well-formed store and looking the
/// assigned key up finds exactly the inserted value, its key now set and
/// every other field as given.
pub proof fn lemma_insert_fetch_roundtrip<E: Model>(s: StoreModel, e: E)
    requires
        s.wf(),
        e.spec_fk_ok(s),
        E::spec_next(s) < i32::MAX,
    ensures
        find_by_key(E::spec_rows(e.spec_inserted(s)), E::spec_next(s)) == Some(
            e.spec_with_key(E::spec_next(s)),
        ),
{
    E::lemma_rows_wf(s);
    e.lemma_insert_shape(s);
    e.lemma_with_key(E::spec_next(s));
    let k = E::spec_next(s);
    assert(!has_key(E::spec_rows(s), k)) by {
        if has_key(E::spec_rows(s), k) {
            let i = choose|i: int|
                0 <= i < E::spec_rows(s).len() && (#[trigger] E::spec_rows(s)[i]).spec_key()
                    == Some(k);
        }
    }
    lemma_find_push(E::spec_rows(s), e.spec_with_key(k), k);
}

} // verus!
