//! The error taxonomy of the data-access layer.

use vstd::prelude::*;

verus! {

/// Outcome of a storage operation that did not succeed.
///
/// `NotFound` is a valid empty outcome (a fetch or delete matched zero rows),
/// not a fault; callers branch on it. `ConstraintViolation` reports a
/// referential check that failed at insert or update time.
/// `ConnectivityError` is reserved for an outside gateway (pool exhaustion,
/// storage unavailability); no in-memory operation returns it.
#[derive(Clone, Copy, Debug, PartialEq, Eq, Structural)]
pub enum StorageError {
    NotFound,
    ConstraintViolation,
    ConnectivityError,
}

impl StorageError {
    /// A short stable name for logs and transport layers.
    pub fn describe(&self) -> (r: &'static str)
        ensures
            *self == StorageError::NotFound ==> r@ == "not found"@,
            *self == StorageError::ConstraintViolation ==> r@ == "constraint violation"@,
            *self == StorageError::ConnectivityError ==> r@ == "connectivity error"@,
    {
        match self {
            StorageError::NotFound => "not found",
            StorageError::ConstraintViolation => "constraint violation",
            StorageError::ConnectivityError => "connectivity error",
        }
    }
}

} // verus!
