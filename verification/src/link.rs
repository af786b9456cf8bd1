//! The generic association row, the junction-table metadata, and the
//! relation capability that turns a declared entity pair into link
//! management operations.

use crate::error::StorageError;
use crate::model::Model;
use crate::store::{
    contains_key, fetch_found, find_by_key, has_key, Store, StoreModel,
};
use vstd::prelude::*;

verus! {

/// The closed set of entity pairs that support linking. Each pair owns
/// exactly one junction table; the left side of every declared pair is the
/// record table.
#[derive(Clone, Copy, Debug, PartialEq, Eq, Structural)]
pub enum Pair {
    RecordUser,
    RecordItem,
    RecordGroup,
}

/// One association instance as persisted: which junction table it belongs
/// to, its own key, and the two optional sides.
#[derive(Clone, Copy, Debug, PartialEq)]
pub struct LinkRow {
    pub pair: Pair,
    pub id: i32,
    pub left_id: Option<i32>,
    pub right_id: Option<i32>,
}

/// An association between two entities; `id` is absent before insertion.
/// A link may be created with only one side populated (a reservation); a
/// complete link has both sides set. No uniqueness is imposed on the pair
/// of sides: several links may associate the same two entities.
#[derive(Clone, Copy, Debug, PartialEq)]
pub struct Link {
    pub id: Option<i32>,
    pub left_id: Option<i32>,
    pub right_id: Option<i32>,
}

/// The junction metadata for one pair: table name and the two foreign-key
/// column names, left side first.
pub struct Junction {
    pub table: String,
    pub left_col: String,
    pub right_col: String,
}

/// The mathematical content of a [`Junction`].
#[verifier::ext_equal]
pub ghost struct JunctionModel {
    pub table: Seq<char>,
    pub left_col: Seq<char>,
    pub right_col: Seq<char>,
}

impl View for Junction {
    type V = JunctionModel;

    open spec fn view(&self) -> JunctionModel {
        JunctionModel { table: self.table@, left_col: self.left_col@, right_col: self.right_col@ }
    }
}

/// The junction metadata of a pair: a pure function of the pair identity
/// alone, so every resolution in a process returns the same names.
pub open spec fn spec_junction(p: Pair) -> JunctionModel {
    match p {
        Pair::RecordUser => JunctionModel {
            table: "UserRecordLinks"@,
            left_col: "rid"@,
            right_col: "uid"@,
        },
        Pair::RecordItem => JunctionModel {
            table: "RecordItemLinks"@,
            left_col: "rid"@,
            right_col: "item_id"@,
        },
        Pair::RecordGroup => JunctionModel {
            table: "RecordGroupLinks"@,
            left_col: "rid"@,
            right_col: "group_id"@,
        },
    }
}

/// Resolve the junction metadata of a pair. The result is pinned to
/// [`spec_junction`], a function of the pair alone: the lookup is pure and
/// idempotent.
pub fn junction(p: Pair) -> (r: Junction)
    ensures
        r@ == spec_junction(p),
{
    match p {
        Pair::RecordUser => Junction {
            table: "UserRecordLinks".to_owned(),
            left_col: "rid".to_owned(),
            right_col: "uid".to_owned(),
        },
        Pair::RecordItem => Junction {
            table: "RecordItemLinks".to_owned(),
            left_col: "rid".to_owned(),
            right_col: "item_id".to_owned(),
        },
        Pair::RecordGroup => Junction {
            table: "RecordGroupLinks".to_owned(),
            left_col: "rid".to_owned(),
            right_col: "group_id".to_owned(),
        },
    }
}

/// Membership of an id in the table the left column of a pair references.
pub open spec fn pair_left_has(s: StoreModel, p: Pair, id: i32) -> bool {
    match p {
        Pair::RecordUser => has_key(s.records, id),
        Pair::RecordItem => has_key(s.records, id),
        Pair::RecordGroup => has_key(s.records, id),
    }
}

/// Membership of an id in the table the right column of a pair references.
pub open spec fn pair_right_has(s: StoreModel, p: Pair, id: i32) -> bool {
    match p {
        Pair::RecordUser => has_key(s.users, id),
        Pair::RecordItem => has_key(s.items, id),
        Pair::RecordGroup => has_key(s.groups, id),
    }
}

/// Each side a junction row has set references an existing row.
pub open spec fn link_row_ok(s: StoreModel, row: LinkRow) -> bool {
    &&& (row.left_id matches Some(l) ==> pair_left_has(s, row.pair, l))
    &&& (row.right_id matches Some(r) ==> pair_right_has(s, row.pair, r))
}

/// The junction table is well-formed: ids set below the counter, unique,
/// and every row's sides valid.
pub open spec fn links_ok(s: StoreModel) -> bool {
    &&& forall|i: int| 0 <= i < s.links.len() ==> 1 <= (#[trigger] s.links[i]).id < s.next_link_id
    &&& forall|i: int, j: int|
        0 <= i < j < s.links.len() ==> (#[trigger] s.links[i]).id != (#[trigger] s.links[j]).id
    &&& forall|i: int| 0 <= i < s.links.len() ==> link_row_ok(s, #[trigger] s.links[i])
}

/// The relation capability: declaring `A: LinkedTo<B>` names the junction
/// pair for (A, B) and obliges the junction metadata to agree with both
/// sides' entity contracts.
pub trait LinkedTo<B: Model>: Model {
    /// The junction pair that associates Self with B.
    spec fn spec_pair() -> Pair;

    /// The junction pair that associates Self with B.
    fn pair() -> (r: Pair)
        ensures
            r == Self::spec_pair(),
    ;

    /// The junction's left column is Self's foreign-key column, its right
    /// column is B's.
    proof fn lemma_junction_coherent()
        ensures
            spec_junction(Self::spec_pair()).left_col == Self::spec_foreign_id(),
            spec_junction(Self::spec_pair()).right_col == B::spec_foreign_id();

    /// The pair's side conditions are membership in the two entity tables.
    proof fn lemma_pair_tables(s: StoreModel)
        ensures
            forall|id: i32| pair_left_has(s, Self::spec_pair(), id) == has_key(
                Self::spec_rows(s),
                id,
            ),
            forall|id: i32| pair_right_has(s, Self::spec_pair(), id) == has_key(
                B::spec_rows(s),
                id,
            );
}

/// The store after a junction row with these sides is persisted.
pub open spec fn spec_link_inserted(
    s: StoreModel,
    p: Pair,
    left_id: Option<i32>,
    right_id: Option<i32>,
) -> StoreModel {
    StoreModel {
        links: s.links.push(LinkRow { pair: p, id: s.next_link_id, left_id, right_id }),
        next_link_id: (s.next_link_id + 1) as i32,
        ..s
    }
}

/// The referential conditions a link insert for pair (A, B) checks: each
/// side that is set must exist in its entity table.
pub open spec fn link_sides_ok<A: LinkedTo<B>, B: Model>(
    s: StoreModel,
    left_id: Option<i32>,
    right_id: Option<i32>,
) -> bool {
    &&& (left_id matches Some(a) ==> has_key(A::spec_rows(s), a))
    &&& (right_id matches Some(b) ==> has_key(B::spec_rows(s), b))
}

/// The ids linked to `a` through pair `p`, in junction order: the right
/// sides of the complete rows whose left side is `a`. Rows with a missing
/// side never appear.
pub open spec fn linked_ids(links: Seq<LinkRow>, p: Pair, a: i32) -> Seq<i32>
    decreases links.len(),
{
    if links.len() == 0 {
        Seq::empty()
    } else {
        let pre = linked_ids(links.drop_last(), p, a);
        let row = links.last();
        if row.pair == p && row.left_id == Some(a) {
            match row.right_id {
                Some(b) => pre.push(b),
                None => pre,
            }
        } else {
            pre
        }
    }
}

/// The junction table without the rows whose left side is `id`.
pub open spec fn links_dropping_left(links: Seq<LinkRow>, id: i32) -> Seq<LinkRow>
    decreases links.len(),
{
    if links.len() == 0 {
        Seq::empty()
    } else {
        let pre = links_dropping_left(links.drop_last(), id);
        if links.last().left_id == Some(id) {
            pre
        } else {
            pre.push(links.last())
        }
    }
}

/// The junction table without the rows of pair `p` whose right side is `id`.
pub open spec fn links_dropping_right(links: Seq<LinkRow>, p: Pair, id: i32) -> Seq<LinkRow>
    decreases links.len(),
{
    if links.len() == 0 {
        Seq::empty()
    } else {
        let pre = links_dropping_right(links.drop_last(), p, id);
        if links.last().pair == p && links.last().right_id == Some(id) {
            pre
        } else {
            pre.push(links.last())
        }
    }
}

impl Link {
    /// A link value with the given sides and no key; pure, no storage
    /// touched.
    pub fn new(left_id: Option<i32>, right_id: Option<i32>) -> (r: Link)
        ensures
            r == (Link { id: None, left_id, right_id }),
    {
        Link { id: None, left_id, right_id }
    }

    /// Both sides set.
    pub open spec fn spec_complete(self) -> bool {
        self.left_id is Some && self.right_id is Some
    }

    /// Both sides set.
    pub fn is_complete(&self) -> (r: bool)
        ensures
            r == self.spec_complete(),
    {
        self.left_id.is_some() && self.right_id.is_some()
    }

    /// Persist this link into the junction table of pair (A, B); each side
    /// that is set is checked against its entity table, a missing side is
    /// allowed (a reservation). Returns the assigned link key; on a failed
    /// side check the store is unchanged and `ConstraintViolation` comes
    /// back.
    pub fn insert<A: LinkedTo<B>, B: Model>(self, store: &mut Store) -> (r: Result<
        i32,
        StorageError,
    >)
        requires
            old(store)@.wf(),
            old(store)@.next_link_id < i32::MAX,
        ensures
            final(store)@.wf(),
            link_sides_ok::<A, B>(old(store)@, self.left_id, self.right_id) ==> r == Ok::<
                i32,
                StorageError,
            >(old(store)@.next_link_id) && final(store)@ == spec_link_inserted(
                old(store)@,
                A::spec_pair(),
                self.left_id,
                self.right_id,
            ),
            !link_sides_ok::<A, B>(old(store)@, self.left_id, self.right_id) ==> r == Err::<
                i32,
                StorageError,
            >(StorageError::ConstraintViolation) && final(store)@ == old(store)@,
    {
        match self.left_id {
            Some(a) => {
                if !contains_key::<A>(store, a) {
                    return Err(StorageError::ConstraintViolation);
                }
            },
            None => {},
        }
        match self.right_id {
            Some(b) => {
                if !contains_key::<B>(store, b) {
                    return Err(StorageError::ConstraintViolation);
                }
            },
            None => {},
        }
        let lid = store.next_link_id;
        store.links.push(
            LinkRow { pair: A::pair(), id: lid, left_id: self.left_id, right_id: self.right_id },
        );
        store.next_link_id = lid + 1;
        proof {
            A::lemma_pair_tables(old(store)@);
            lemma_wf_after_link_insert(
                old(store)@,
                A::spec_pair(),
                self.left_id,
                self.right_id,
            );
            assert(store@ =~= spec_link_inserted(
                old(store)@,
                A::spec_pair(),
                self.left_id,
                self.right_id,
            ));
        }
        Ok(lid)
    }
}

/// Persisting a valid junction row preserves store well-formedness.
pub proof fn lemma_wf_after_link_insert(
    s: StoreModel,
    p: Pair,
    left_id: Option<i32>,
    right_id: Option<i32>,
)
    requires
        s.wf(),
        s.next_link_id < i32::MAX,
        left_id matches Some(a) ==> pair_left_has(s, p, a),
        right_id matches Some(b) ==> pair_right_has(s, p, b),
    ensures
        spec_link_inserted(s, p, left_id, right_id).wf(),
{
    let s2 = spec_link_inserted(s, p, left_id, right_id);
    let row = LinkRow { pair: p, id: s.next_link_id, left_id, right_id };
    assert(s2.links == s.links.push(row));
    assert forall|i: int| 0 <= i < s2.links.len() implies 1 <= (#[trigger] s2.links[i]).id
        < s2.next_link_id by {
        if i < s.links.len() {
            assert(s2.links[i] == s.links[i]);
        } else {
            assert(s2.links[i] == row);
        }
    }
    assert forall|i: int, j: int| 0 <= i < j < s2.links.len() implies (
    #[trigger] s2.links[i]).id != (#[trigger] s2.links[j]).id by {
        if j < s.links.len() {
            assert(s2.links[i] == s.links[i] && s2.links[j] == s.links[j]);
        } else {
            assert(s2.links[i] == s.links[i] && s2.links[j] == row);
        }
    }
    assert forall|i: int| 0 <= i < s2.links.len() implies link_row_ok(s2, #[trigger] s2.links[i])
        by {
        if i < s.links.len() {
            assert(s2.links[i] == s.links[i]);
            assert(link_row_ok(s, s.links[i]));
        } else {
            assert(s2.links[i] == row);
        }
    }
}

/// Create a complete link between two persisted entities; a convenience
/// wrapper over [`Link::insert`].
pub fn add_link<A: LinkedTo<B>, B: Model>(store: &mut Store, a_id: i32, b_id: i32) -> (r: Result<
    Link,
    StorageError,
>)
    requires
        old(store)@.wf(),
        old(store)@.next_link_id < i32::MAX,
    ensures
        final(store)@.wf(),
        has_key(A::spec_rows(old(store)@), a_id) && has_key(B::spec_rows(old(store)@), b_id)
            ==> r == Ok::<Link, StorageError>(
            Link {
                id: Some(old(store)@.next_link_id),
                left_id: Some(a_id),
                right_id: Some(b_id),
            },
        ) && final(store)@ == spec_link_inserted(
            old(store)@,
            A::spec_pair(),
            Some(a_id),
            Some(b_id),
        ),
        !(has_key(A::spec_rows(old(store)@), a_id) && has_key(B::spec_rows(old(store)@), b_id))
            ==> r == Err::<Link, StorageError>(StorageError::ConstraintViolation)
            && final(store)@ == old(store)@,
{
    match Link::new(Some(a_id), Some(b_id)).insert::<A, B>(store) {
        Ok(lid) => Ok(Link { id: Some(lid), left_id: Some(a_id), right_id: Some(b_id) }),
        Err(e) => Err(e),
    }
}

/// Every entity of B linked to `a_id` through the pair (A, B), in junction
/// order; only complete rows count.
pub fn get_linked<A: LinkedTo<B>, B: Model>(store: &Store, a_id: i32) -> (r: Vec<B>)
    requires
        store@.wf(),
    ensures
        ({
            let ids = linked_ids(store@.links, A::spec_pair(), a_id);
            &&& r@.len() == ids.len()
            &&& forall|i: int|
                0 <= i < ids.len() ==> find_by_key(B::spec_rows(store@), ids[i]) == Some(r@[i])
        }),
{
    let p = A::pair();
    let n = store.links.len();
    let mut out: Vec<B> = Vec::new();
    let mut i: usize = 0;
    while i < n
        invariant
            store@.wf(),
            i <= n,
            n == store@.links.len(),
            p == A::spec_pair(),
            out@.len() == linked_ids(store@.links.subrange(0, i as int), p, a_id).len(),
            forall|j: int|
                0 <= j < out@.len() ==> find_by_key(
                    B::spec_rows(store@),
                    linked_ids(store@.links.subrange(0, i as int), p, a_id)[j],
                ) == Some(out@[j]),
        decreases n - i,
    {
        proof {
            assert(store@.links.subrange(0, i + 1 as int).drop_last() =~= store@.links.subrange(
                0,
                i as int,
            ));
            assert(store@.links.subrange(0, i + 1 as int).last() == store@.links[i as int]);
        }
        let row = store.links[i];
        if row.pair == p {
            match (row.left_id, row.right_id) {
                (Some(l), Some(b)) => {
                    if l == a_id {
                        proof {
                            assert(link_row_ok(store@, store@.links[i as int]));
                            A::lemma_pair_tables(store@);
                        }
                        let bval = fetch_found::<B>(store, b);
                        out.push(bval);
                    }
                },
                _ => {},
            }
        }
        i += 1;
    }
    proof {
        assert(store@.links.subrange(0, n as int) =~= store@.links);
    }
    out
}

/// A junction table copy without the rows whose left side is `id`.
pub fn retain_links_dropping_left(links: &Vec<LinkRow>, id: i32) -> (r: Vec<LinkRow>)
    ensures
        r@ == links_dropping_left(links@, id),
{
    let n = links.len();
    let mut out: Vec<LinkRow> = Vec::new();
    let mut i: usize = 0;
    while i < n
        invariant
            i <= n,
            n == links@.len(),
            out@ == links_dropping_left(links@.subrange(0, i as int), id),
        decreases n - i,
    {
        proof {
            assert(links@.subrange(0, i + 1 as int).drop_last() =~= links@.subrange(0, i as int));
            assert(links@.subrange(0, i + 1 as int).last() == links@[i as int]);
        }
        let row = links[i];
        let keep = match row.left_id {
            Some(l) => l != id,
            None => true,
        };
        if keep {
            out.push(row);
        }
        i += 1;
    }
    proof {
        assert(links@.subrange(0, n as int) =~= links@);
    }
    out
}

/// A junction table copy without the rows of pair `p` whose right side is
/// `id`.
pub fn retain_links_dropping_right(links: &Vec<LinkRow>, p: Pair, id: i32) -> (r: Vec<LinkRow>)
    ensures
        r@ == links_dropping_right(links@, p, id),
{
    let n = links.len();
    let mut out: Vec<LinkRow> = Vec::new();
    let mut i: usize = 0;
    while i < n
        invariant
            i <= n,
            n == links@.len(),
            out@ == links_dropping_right(links@.subrange(0, i as int), p, id),
        decreases n - i,
    {
        proof {
            assert(links@.subrange(0, i + 1 as int).drop_last() =~= links@.subrange(0, i as int));
            assert(links@.subrange(0, i + 1 as int).last() == links@[i as int]);
        }
        let row = links[i];
        let drop = row.pair == p && match row.right_id {
            Some(b) => b == id,
            None => false,
        };
        if !drop {
            out.push(row);
        }
        i += 1;
    }
    proof {
        assert(links@.subrange(0, n as int) =~= links@);
    }
    out
}

/// Dropping the rows anchored at a left id keeps the junction table
/// well-keyed, removes every such row, and invents no rows.
pub proof fn lemma_links_dropping_left_props(links: Seq<LinkRow>, id: i32, next: i32)
    requires
        forall|i: int| 0 <= i < links.len() ==> 1 <= (#[trigger] links[i]).id < next,
        forall|i: int, j: int|
            0 <= i < j < links.len() ==> (#[trigger] links[i]).id != (#[trigger] links[j]).id,
    ensures
        forall|i: int|
            0 <= i < links_dropping_left(links, id).len() ==> 1 <= (#[trigger] links_dropping_left(
                links,
                id,
            )[i]).id < next,
        forall|i: int, j: int|
            0 <= i < j < links_dropping_left(links, id).len() ==> (#[trigger] links_dropping_left(
                links,
                id,
            )[i]).id != (#[trigger] links_dropping_left(links, id)[j]).id,
        forall|i: int|
            0 <= i < links_dropping_left(links, id).len() ==> (#[trigger] links_dropping_left(
                links,
                id,
            )[i]).left_id != Some(id),
        forall|i: int|
            0 <= i < links_dropping_left(links, id).len() ==> exists|j: int|
                0 <= j < links.len() && links[j] == #[trigger] links_dropping_left(links, id)[i],
    decreases links.len(),
{
    let dropped = links_dropping_left(links, id);
    if links.len() > 0 {
        let head = links.drop_last();
        let last = links.last();
        assert(forall|j: int| 0 <= j < head.len() ==> head[j] == links[j]);
        lemma_links_dropping_left_props(head, id, next);
        let pre = links_dropping_left(head, id);
        assert forall|i: int| 0 <= i < dropped.len() implies exists|j: int|
            0 <= j < links.len() && links[j] == #[trigger] dropped[i] by {
            if i < pre.len() {
                let j = choose|j: int| 0 <= j < head.len() && head[j] == pre[i];
                assert(links[j] == dropped[i]);
            } else {
                assert(dropped[i] == last);
                assert(links[links.len() - 1] == last);
            }
        }
        if last.left_id != Some(id) {
            assert forall|i: int, j: int| 0 <= i < j < dropped.len() implies (
            #[trigger] dropped[i]).id != (#[trigger] dropped[j]).id by {
                if j == dropped.len() - 1 {
                    assert(dropped[i] == pre[i]);
                    assert(dropped[j] == last);
                    let m = choose|m: int| 0 <= m < head.len() && head[m] == pre[i];
                    assert(links[m].id == pre[i].id);
                    assert(links[m].id != links[links.len() - 1].id);
                } else {
                    assert(dropped[i] == pre[i] && dropped[j] == pre[j]);
                }
            }
        }
    }
}

/// Dropping the rows of a pair anchored at a right id keeps the junction
/// table well-keyed, removes every such row, and invents no rows.
pub proof fn lemma_links_dropping_right_props(links: Seq<LinkRow>, p: Pair, id: i32, next: i32)
    requires
        forall|i: int| 0 <= i < links.len() ==> 1 <= (#[trigger] links[i]).id < next,
        forall|i: int, j: int|
            0 <= i < j < links.len() ==> (#[trigger] links[i]).id != (#[trigger] links[j]).id,
    ensures
        forall|i: int|
            0 <= i < links_dropping_right(links, p, id).len() ==> 1 <= (
            #[trigger] links_dropping_right(links, p, id)[i]).id < next,
        forall|i: int, j: int|
            0 <= i < j < links_dropping_right(links, p, id).len() ==> (
            #[trigger] links_dropping_right(links, p, id)[i]).id != (#[trigger] links_dropping_right(
                links,
                p,
                id,
            )[j]).id,
        forall|i: int|
            0 <= i < links_dropping_right(links, p, id).len() ==> !((
            #[trigger] links_dropping_right(links, p, id)[i]).pair == p && links_dropping_right(
                links,
                p,
                id,
            )[i].right_id == Some(id)),
        forall|i: int|
            0 <= i < links_dropping_right(links, p, id).len() ==> exists|j: int|
                0 <= j < links.len() && links[j] == #[trigger] links_dropping_right(
                    links,
                    p,
                    id,
                )[i],
    decreases links.len(),
{
    let dropped = links_dropping_right(links, p, id);
    if links.len() > 0 {
        let head = links.drop_last();
        let last = links.last();
        assert(forall|j: int| 0 <= j < head.len() ==> head[j] == links[j]);
        lemma_links_dropping_right_props(head, p, id, next);
        let pre = links_dropping_right(head, p, id);
        assert forall|i: int| 0 <= i < dropped.len() implies exists|j: int|
            0 <= j < links.len() && links[j] == #[trigger] dropped[i] by {
            if i < pre.len() {
                let j = choose|j: int| 0 <= j < head.len() && head[j] == pre[i];
                assert(links[j] == dropped[i]);
            } else {
                assert(dropped[i] == last);
                assert(links[links.len() - 1] == last);
            }
        }
        if !(last.pair == p && last.right_id == Some(id)) {
            assert forall|i: int, j: int| 0 <= i < j < dropped.len() implies (
            #[trigger] dropped[i]).id != (#[trigger] dropped[j]).id by {
                if j == dropped.len() - 1 {
                    assert(dropped[i] == pre[i]);
                    assert(dropped[j] == last);
                    let m = choose|m: int| 0 <= m < head.len() && head[m] == pre[i];
                    assert(links[m].id == pre[i].id);
                    assert(links[m].id != links[links.len() - 1].id);
                } else {
                    assert(dropped[i] == pre[i] && dropped[j] == pre[j]);
                }
            }
        }
    }
}

/// Some junction row of this pair carries this link key.
pub open spec fn has_link(links: Seq<LinkRow>, p: Pair, lid: i32) -> bool {
    exists|i: int|
        0 <= i < links.len() && (#[trigger] links[i]).pair == p && links[i].id == lid
}

/// A row with its missing side filled: the left side when it is the one
/// absent, the right side otherwise.
pub open spec fn spec_fill_row(row: LinkRow, val: i32) -> LinkRow {
    if row.left_id is None {
        LinkRow { left_id: Some(val), ..row }
    } else {
        LinkRow { right_id: Some(val), ..row }
    }
}

/// Whether filling this row's missing side with `val` passes its side's
/// referential check.
pub open spec fn fill_ok<A: LinkedTo<B>, B: Model>(s: StoreModel, row: LinkRow, val: i32) -> bool {
    if row.left_id is None {
        has_key(A::spec_rows(s), val)
    } else {
        has_key(B::spec_rows(s), val)
    }
}

/// The junction table without the row of pair `p` under link key `lid`.
pub open spec fn links_dropping_id(links: Seq<LinkRow>, p: Pair, lid: i32) -> Seq<LinkRow>
    decreases links.len(),
{
    if links.len() == 0 {
        Seq::empty()
    } else {
        let pre = links_dropping_id(links.drop_last(), p, lid);
        if links.last().pair == p && links.last().id == lid {
            pre
        } else {
            pre.push(links.last())
        }
    }
}

/// Filling the missing side of a valid junction row preserves store
/// well-formedness.
pub proof fn lemma_wf_after_link_fill(s: StoreModel, i: int, row2: LinkRow)
    requires
        s.wf(),
        0 <= i < s.links.len(),
        row2.id == s.links[i].id,
        row2.pair == s.links[i].pair,
        row2.left_id matches Some(l) ==> pair_left_has(s, row2.pair, l),
        row2.right_id matches Some(rr) ==> pair_right_has(s, row2.pair, rr),
    ensures
        (StoreModel { links: s.links.update(i, row2), ..s }).wf(),
{
    let s2 = StoreModel { links: s.links.update(i, row2), ..s };
    assert forall|a: int| 0 <= a < s2.links.len() implies 1 <= (#[trigger] s2.links[a]).id
        < s2.next_link_id by {
        if a != i {
            assert(s2.links[a] == s.links[a]);
        }
        assert(1 <= s.links[a].id < s.next_link_id);
    }
    assert forall|a: int, b: int| 0 <= a < b < s2.links.len() implies (
    #[trigger] s2.links[a]).id != (#[trigger] s2.links[b]).id by {
        assert(s.links[a].id != s.links[b].id);
        if a != i {
            assert(s2.links[a] == s.links[a]);
        }
        if b != i {
            assert(s2.links[b] == s.links[b]);
        }
    }
    assert forall|a: int| 0 <= a < s2.links.len() implies link_row_ok(s2, #[trigger] s2.links[a])
        by {
        if a == i {
        } else {
            assert(s2.links[a] == s.links[a]);
            assert(link_row_ok(s, s.links[a]));
        }
    }
}

/// Fill the missing side of the junction row of pair (A, B) under `lid`:
/// the transition from a reservation to a complete link. A row that is
/// already complete is never mutated (`ConstraintViolation`); a fill value
/// its table does not hold is refused the same way; `NotFound` when the
/// junction table has no such row. On any failure nothing changes.
pub fn complete_link<A: LinkedTo<B>, B: Model>(store: &mut Store, lid: i32, val: i32) -> (r:
    Result<(), StorageError>)
    requires
        old(store)@.wf(),
    ensures
        final(store)@.wf(),
        !has_link(old(store)@.links, A::spec_pair(), lid) ==> r == Err::<(), StorageError>(
            StorageError::NotFound,
        ) && final(store)@ == old(store)@,
        has_link(old(store)@.links, A::spec_pair(), lid) ==> exists|i: int|
            {
                &&& 0 <= i < old(store)@.links.len()
                &&& (#[trigger] old(store)@.links[i]).pair == A::spec_pair()
                &&& old(store)@.links[i].id == lid
                &&& if old(store)@.links[i].left_id is Some && old(store)@.links[i].right_id
                    is Some {
                    r == Err::<(), StorageError>(StorageError::ConstraintViolation) && final(store)@ == old(store)@
                } else if fill_ok::<A, B>(old(store)@, old(store)@.links[i], val) {
                    r == Ok::<(), StorageError>(()) && final(store)@ == (StoreModel {
                        links: old(store)@.links.update(
                            i,
                            spec_fill_row(old(store)@.links[i], val),
                        ),
                        ..old(store)@
                    })
                } else {
                    r == Err::<(), StorageError>(StorageError::ConstraintViolation) && final(store)@ == old(store)@
                }
            },
{
    let p = A::pair();
    let n = store.links.len();
    let mut i: usize = 0;
    while i < n
        invariant
            i <= n,
            n == store@.links.len(),
            store@ == old(store)@,
            old(store)@.wf(),
            p == A::spec_pair(),
            forall|j: int|
                0 <= j < i ==> !((#[trigger] store@.links[j]).pair == p && store@.links[j].id
                    == lid),
        decreases n - i,
    {
        let row = store.links[i];
        if row.pair == p && row.id == lid {
            match (row.left_id, row.right_id) {
                (Some(_), Some(_)) => {
                    return Err(StorageError::ConstraintViolation);
                },
                (None, _) => {
                    if !contains_key::<A>(store, val) {
                        return Err(StorageError::ConstraintViolation);
                    }
                    store.links[i] = LinkRow { left_id: Some(val), ..row };
                    proof {
                        A::lemma_pair_tables(old(store)@);
                        assert(link_row_ok(old(store)@, old(store)@.links[i as int]));
                        lemma_wf_after_link_fill(
                            old(store)@,
                            i as int,
                            spec_fill_row(old(store)@.links[i as int], val),
                        );
                        assert(store@ =~= (StoreModel {
                            links: old(store)@.links.update(
                                i as int,
                                spec_fill_row(old(store)@.links[i as int], val),
                            ),
                            ..old(store)@
                        }));
                    }
                    return Ok(());
                },
                (Some(_), None) => {
                    if !contains_key::<B>(store, val) {
                        return Err(StorageError::ConstraintViolation);
                    }
                    store.links[i] = LinkRow { right_id: Some(val), ..row };
                    proof {
                        A::lemma_pair_tables(old(store)@);
                        assert(link_row_ok(old(store)@, old(store)@.links[i as int]));
                        lemma_wf_after_link_fill(
                            old(store)@,
                            i as int,
                            spec_fill_row(old(store)@.links[i as int], val),
                        );
                        assert(store@ =~= (StoreModel {
                            links: old(store)@.links.update(
                                i as int,
                                spec_fill_row(old(store)@.links[i as int], val),
                            ),
                            ..old(store)@
                        }));
                    }
                    return Ok(());
                },
            }
        }
        i += 1;
    }
    Err(StorageError::NotFound)
}

/// Explicitly unlink: remove the junction row of pair (A, B) under `lid`.
/// `NotFound` when the junction table has no such row, and then nothing
/// changes.
pub fn remove_link<A: LinkedTo<B>, B: Model>(store: &mut Store, lid: i32) -> (r: Result<
    i32,
    StorageError,
>)
    requires
        old(store)@.wf(),
    ensures
        final(store)@.wf(),
        has_link(old(store)@.links, A::spec_pair(), lid) ==> r == Ok::<i32, StorageError>(lid)
            && final(store)@ == (StoreModel {
            links: links_dropping_id(old(store)@.links, A::spec_pair(), lid),
            ..old(store)@
        }),
        !has_link(old(store)@.links, A::spec_pair(), lid) ==> r == Err::<i32, StorageError>(
            StorageError::NotFound,
        ) && final(store)@ == old(store)@,
{
    let p = A::pair();
    let n = store.links.len();
    let mut found = false;
    let mut out: Vec<LinkRow> = Vec::new();
    let mut i: usize = 0;
    while i < n
        invariant
            i <= n,
            n == store@.links.len(),
            store@ == old(store)@,
            old(store)@.wf(),
            p == A::spec_pair(),
            out@ == links_dropping_id(store@.links.subrange(0, i as int), p, lid),
            found == has_link(store@.links.subrange(0, i as int), p, lid),
        decreases n - i,
    {
        proof {
            assert(store@.links.subrange(0, i + 1 as int).drop_last() =~= store@.links.subrange(
                0,
                i as int,
            ));
            assert(store@.links.subrange(0, i + 1 as int).last() == store@.links[i as int]);
        }
        let row = store.links[i];
        let ghost pre = store@.links.subrange(0, i as int);
        if row.pair == p && row.id == lid {
            found = true;
            proof {
                assert(store@.links.subrange(0, i + 1 as int)[i as int] == row);
            }
        } else {
            out.push(row);
            proof {
                assert(store@.links.subrange(0, i + 1 as int) =~= pre.push(row));
                if has_link(pre, p, lid) {
                    let j = choose|j: int|
                        0 <= j < pre.len() && (#[trigger] pre[j]).pair == p && pre[j].id == lid;
                    assert(pre.push(row)[j] == pre[j]);
                }
                if has_link(pre.push(row), p, lid) {
                    let j = choose|j: int|
                        0 <= j < pre.push(row).len() && (#[trigger] pre.push(row)[j]).pair == p
                            && pre.push(row)[j].id == lid;
                    if j < pre.len() {
                        assert(pre.push(row)[j] == pre[j]);
                    } else {
                        assert(pre.push(row)[j] == row);
                    }
                }
            }
        }
        i += 1;
    }
    proof {
        assert(store@.links.subrange(0, n as int) =~= store@.links);
    }
    if !found {
        return Err(StorageError::NotFound);
    }
    store.links = out;
    proof {
        lemma_wf_after_link_remove(old(store)@, A::spec_pair(), lid);
        assert(store@ =~= (StoreModel {
            links: links_dropping_id(old(store)@.links, A::spec_pair(), lid),
            ..old(store)@
        }));
    }
    Ok(lid)
}

/// Removing a junction row preserves store well-formedness.
pub proof fn lemma_wf_after_link_remove(s: StoreModel, p: Pair, lid: i32)
    requires
        s.wf(),
    ensures
        (StoreModel { links: links_dropping_id(s.links, p, lid), ..s }).wf(),
    decreases s.links.len(),
{
    lemma_links_dropping_id_props(s.links, p, lid, s.next_link_id);
    let s2 = StoreModel { links: links_dropping_id(s.links, p, lid), ..s };
    assert forall|i: int| 0 <= i < s2.links.len() implies link_row_ok(s2, #[trigger] s2.links[i])
        by {
        let j = choose|j: int| 0 <= j < s.links.len() && s.links[j] == s2.links[i];
        assert(link_row_ok(s, s2.links[i]));
    }
}

/// Dropping one link key keeps the junction table well-keyed and invents
/// no rows.
pub proof fn lemma_links_dropping_id_props(links: Seq<LinkRow>, p: Pair, lid: i32, next: i32)
    requires
        forall|i: int| 0 <= i < links.len() ==> 1 <= (#[trigger] links[i]).id < next,
        forall|i: int, j: int|
            0 <= i < j < links.len() ==> (#[trigger] links[i]).id != (#[trigger] links[j]).id,
    ensures
        forall|i: int|
            0 <= i < links_dropping_id(links, p, lid).len() ==> 1 <= (
            #[trigger] links_dropping_id(links, p, lid)[i]).id < next,
        forall|i: int, j: int|
            0 <= i < j < links_dropping_id(links, p, lid).len() ==> (
            #[trigger] links_dropping_id(links, p, lid)[i]).id != (#[trigger] links_dropping_id(
                links,
                p,
                lid,
            )[j]).id,
        forall|i: int|
            0 <= i < links_dropping_id(links, p, lid).len() ==> exists|j: int|
                0 <= j < links.len() && links[j] == #[trigger] links_dropping_id(links, p, lid)[i],
    decreases links.len(),
{
    let dropped = links_dropping_id(links, p, lid);
    if links.len() > 0 {
        let head = links.drop_last();
        let last = links.last();
        assert(forall|j: int| 0 <= j < head.len() ==> head[j] == links[j]);
        lemma_links_dropping_id_props(head, p, lid, next);
        let pre = links_dropping_id(head, p, lid);
        assert forall|i: int| 0 <= i < dropped.len() implies exists|j: int|
            0 <= j < links.len() && links[j] == #[trigger] dropped[i] by {
            if i < pre.len() {
                let j = choose|j: int| 0 <= j < head.len() && head[j] == pre[i];
                assert(links[j] == dropped[i]);
            } else {
                assert(dropped[i] == last);
                assert(links[links.len() - 1] == last);
            }
        }
        if !(last.pair == p && last.id == lid) {
            assert forall|i: int, j: int| 0 <= i < j < dropped.len() implies (
            #[trigger] dropped[i]).id != (#[trigger] dropped[j]).id by {
                if j == dropped.len() - 1 {
                    assert(dropped[i] == pre[i]);
                    assert(dropped[j] == last);
                    let m = choose|m: int| 0 <= m < head.len() && head[m] == pre[i];
                    assert(links[m].id == pre[i].id);
                    assert(links[m].id != links[links.len() - 1].id);
                } else {
                    assert(dropped[i] == pre[i] && dropped[j] == pre[j]);
                }
            }
        }
    }
}

/// Appending a complete matching row appends its right side to the linked
/// ids.
pub proof fn lemma_linked_ids_push_match(links: Seq<LinkRow>, p: Pair, a: i32, b: i32, lid: i32)
    ensures
        linked_ids(
            links.push(LinkRow { pair: p, id: lid, left_id: Some(a), right_id: Some(b) }),
            p,
            a,
        ) == linked_ids(links, p, a).push(b),
{
    let row = LinkRow { pair: p, id: lid, left_id: Some(a), right_id: Some(b) };
    assert(links.push(row).drop_last() =~= links);
}

/// Appending a row that is incomplete, of another pair, or anchored at
/// another left id leaves every linked-id query unchanged.
pub proof fn lemma_linked_ids_push_other(links: Seq<LinkRow>, p: Pair, a: i32, row: LinkRow)
    requires
        !(row.pair == p && row.left_id == Some(a) && row.right_id is Some),
    ensures
        linked_ids(links.push(row), p, a) == linked_ids(links, p, a),
{
    assert(links.push(row).drop_last() =~= links);
}

/// Link completeness: once a link from `a_id` to `b_id` is added, `b_id`
/// stands among the ids linked to `a_id`, and `b_id` still resolves to the
/// same row of B it did before.
pub proof fn lemma_link_completeness<A: LinkedTo<B>, B: Model>(s: StoreModel, a_id: i32, b_id: i32)
    requires
        s.wf(),
        s.next_link_id < i32::MAX,
        has_key(A::spec_rows(s), a_id),
        has_key(B::spec_rows(s), b_id),
    ensures
        ({
            let s2 = spec_link_inserted(s, A::spec_pair(), Some(a_id), Some(b_id));
            &&& linked_ids(s2.links, A::spec_pair(), a_id).contains(b_id)
            &&& find_by_key(B::spec_rows(s2), b_id) == find_by_key(B::spec_rows(s), b_id)
            &&& find_by_key(B::spec_rows(s), b_id) is Some
        }),
{
    let p = A::spec_pair();
    let s2 = spec_link_inserted(s, p, Some(a_id), Some(b_id));
    lemma_linked_ids_push_match(s.links, p, a_id, b_id, s.next_link_id);
    let ids = linked_ids(s2.links, p, a_id);
    assert(ids[ids.len() - 1] == b_id);
    B::lemma_rows_ignore_links(s, s2);
    crate::store::lemma_find_has_key(B::spec_rows(s), b_id);
}

/// Unlinked reservation: a junction row persisted with a missing right
/// side is excluded from every query that requires both sides populated.
pub proof fn lemma_reservation_excluded(links: Seq<LinkRow>, p: Pair, lid: i32, l: Option<i32>)
    ensures
        forall|q: Pair, x: i32|
            linked_ids(
                links.push(LinkRow { pair: p, id: lid, left_id: l, right_id: None }),
                q,
                x,
            ) == linked_ids(links, q, x),
{
    let row = LinkRow { pair: p, id: lid, left_id: l, right_id: None };
    assert forall|q: Pair, x: i32|
        linked_ids(links.push(row), q, x) == linked_ids(links, q, x) by {
        lemma_linked_ids_push_other(links, q, x, row);
    }
}

/// Cascade on delete, both halves: after the junction rows anchored at a
/// deleted left id are dropped, no surviving row references it, and every
/// row not referencing it survives.
pub proof fn lemma_cascade_on_delete(links: Seq<LinkRow>, id: i32)
    ensures
        forall|i: int|
            0 <= i < links_dropping_left(links, id).len() ==> (#[trigger] links_dropping_left(
                links,
                id,
            )[i]).left_id != Some(id),
        forall|j: int|
            0 <= j < links.len() && (#[trigger] links[j]).left_id != Some(id)
                ==> links_dropping_left(links, id).contains(links[j]),
    decreases links.len(),
{
    let dropped = links_dropping_left(links, id);
    if links.len() > 0 {
        let head = links.drop_last();
        let last = links.last();
        lemma_cascade_on_delete(head, id);
        let pre = links_dropping_left(head, id);
        assert forall|j: int|
            0 <= j < links.len() && (#[trigger] links[j]).left_id != Some(id) implies dropped
            .contains(links[j]) by {
            if j < head.len() {
                assert(head[j] == links[j]);
                let m = choose|m: int| 0 <= m < pre.len() && pre[m] == links[j];
                if last.left_id == Some(id) {
                    assert(dropped[m] == links[j]);
                } else {
                    assert(dropped[m] == pre[m]);
                }
            } else {
                assert(links[j] == last);
                assert(dropped[dropped.len() - 1] == last);
            }
        }
    }
}

} // verus!
