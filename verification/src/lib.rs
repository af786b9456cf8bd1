//! A generic polymorphic linking subsystem: persisted entities (users,
//! records, items, groups) can be associated many-to-many through a uniform
//! junction-table convention, without a bespoke join table and CRUD path for
//! every pair.
//!
//! The storage semantics are modelled by an in-memory [`store::Store`]; the
//! contracts of every operation are stated against its mathematical view,
//! [`store::StoreModel`]. A process that persists into a relational database
//! drives the same entity contract ([`model::Model`]) and junction metadata
//! ([`link::Junction`]) through its own gateway; [`routes`] gives the
//! transport layer its dispatch table as data.

pub mod clock;
pub mod error;
pub mod group;
pub mod item;
pub mod link;
pub mod model;
pub mod payload;
pub mod record;
pub mod routes;
pub mod store;
pub mod user;

pub use error::StorageError;
pub use group::Group;
pub use item::Item;
pub use link::{Junction, Link, LinkRow, LinkedTo, Pair};
pub use model::{Model, Status, Visibility};
pub use payload::TestEcho;
pub use record::Record;
pub use routes::{Method, Target};
pub use store::Store;
pub use user::User;
