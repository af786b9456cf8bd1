//! The entity contract: the type-level facts every persistable entity
//! supplies, and the enumerations shared by the concrete entities.

use crate::error::StorageError;
use crate::store::{keys_ok, Store, StoreModel};
use vstd::prelude::*;

verus! {

/// Lifecycle state of an entity row.
#[derive(Clone, Copy, Debug, PartialEq, Eq, Structural)]
pub enum Status {
    Active,
    Archived,
    Deleted,
}

/// Who may see an entity row.
#[derive(Clone, Copy, Debug, PartialEq, Eq, Structural)]
pub enum Visibility {
    Private,
    Public,
}

/// The key projection of an entity row: the one fact of the entity
/// contract the store's well-formedness itself is stated over.
pub trait Keyed: Sized {
    /// The primary key of this value; absent before insertion.
    spec fn spec_key(self) -> Option<i32>;
}

/// The entity contract: four type-level facts (storage table, foreign-key
/// column, primary-key accessor, field list), plus the storage operations
/// every entity supports against a [`Store`].
///
/// The spec-level half describes the entity's table inside a store model and
/// the exact effect of an insert, so that the generic relation capability
/// (`LinkedTo`) can be verified once for every implementing pair.
pub trait Model: Keyed {
    /// The storage relation holding rows of this entity.
    spec fn spec_table() -> Seq<char>;

    /// The column name a junction table uses to reference this entity.
    spec fn spec_foreign_id() -> Seq<char>;

    /// The persisted column set, in storage order.
    spec fn spec_fields() -> Seq<Seq<char>>;

    /// This value with its primary key assigned.
    spec fn spec_with_key(self, k: i32) -> Self;

    /// This entity's table inside a store.
    spec fn spec_rows(s: StoreModel) -> Seq<Self>;

    /// The key this entity's table will assign next.
    spec fn spec_next(s: StoreModel) -> i32;

    /// The referential conditions an insert of this value checks.
    spec fn spec_fk_ok(self, s: StoreModel) -> bool;

    /// The store after a successful insert of this value.
    spec fn spec_inserted(self, s: StoreModel) -> StoreModel;

    /// Assigning a key sets the key and nothing else observable here.
    proof fn lemma_with_key(self, k: i32)
        ensures
            self.spec_with_key(k).spec_key() == Some(k);

    /// In a well-formed store this entity's table has well-formed keys.
    proof fn lemma_rows_wf(s: StoreModel)
        requires
            s.wf(),
        ensures
            keys_ok(Self::spec_rows(s), Self::spec_next(s)),
            1 <= Self::spec_next(s);

    /// What a successful insert does to this entity's table and key counter.
    proof fn lemma_insert_shape(self, s: StoreModel)
        requires
            self.spec_fk_ok(s),
            Self::spec_next(s) < i32::MAX,
        ensures
            Self::spec_rows(self.spec_inserted(s)) == Self::spec_rows(s).push(
                self.spec_with_key(Self::spec_next(s)),
            ),
            Self::spec_next(self.spec_inserted(s)) == Self::spec_next(s) + 1,
            self.spec_inserted(s).links == s.links,
            self.spec_inserted(s).next_link_id == s.next_link_id;

    /// This entity's table reads none of the junction state.
    proof fn lemma_rows_ignore_links(s: StoreModel, t: StoreModel)
        requires
            s.users == t.users,
            s.records == t.records,
            s.items == t.items,
            s.groups == t.groups,
            s.next_user_id == t.next_user_id,
            s.next_record_id == t.next_record_id,
            s.next_item_id == t.next_item_id,
            s.next_group_id == t.next_group_id,
        ensures
            Self::spec_rows(s) == Self::spec_rows(t),
            Self::spec_next(s) == Self::spec_next(t);

    /// The storage relation holding rows of this entity.
    fn table() -> (r: String)
        ensures
            r@ == Self::spec_table();

    /// The column name a junction table uses to reference this entity.
    fn foreign_id() -> (r: String)
        ensures
            r@ == Self::spec_foreign_id();

    /// The persisted column set, in storage order.
    fn fields() -> (r: Vec<String>)
        ensures
            r.deep_view() == Self::spec_fields();

    /// The primary key, present once persisted.
    fn primary_key(&self) -> (r: Option<i32>)
        ensures
            r == self.spec_key();

    /// An exact copy of this value.
    fn dup(&self) -> (r: Self)
        ensures
            r == *self;

    /// A read-only borrow of this entity's table inside a store.
    fn rows(store: &Store) -> (r: &Vec<Self>)
        ensures
            r@ == Self::spec_rows(store@);

    /// Persist this value; storage assigns the key. On a referential
    /// violation the store is unchanged and `ConstraintViolation` comes back.
    fn insert(self, store: &mut Store) -> (r: Result<Self, StorageError>)
        requires
            old(store)@.wf(),
            Self::spec_next(old(store)@) < i32::MAX,
        ensures
            final(store)@.wf(),
            self.spec_fk_ok(old(store)@) ==> r == Ok::<Self, StorageError>(
                self.spec_with_key(Self::spec_next(old(store)@)),
            ) && final(store)@ == self.spec_inserted(old(store)@),
            !self.spec_fk_ok(old(store)@) ==> r == Err::<Self, StorageError>(
                StorageError::ConstraintViolation,
            ) && final(store)@ == old(store)@,
    ;
}

} // verus!
