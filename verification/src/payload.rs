//! Plain request payload shapes handed across the transport boundary.

use crate::model::Model;
use vstd::prelude::*;

verus! {

/// Echo payload of the transport layer's test route.
#[derive(Debug, PartialEq)]
pub struct TestEcho {
    pub num: i32,
    pub string: String,
}

impl TestEcho {
    /// What the test route echoes back: the payload's string.
    pub fn body(&self) -> (r: String)
        ensures
            r@ == self.string@,
    {
        self.string.clone()
    }
}

/// Marker shape of a user-scoped request.
pub struct UserRequest;

/// A request addressing one entity row by key, carrying a caller value of
/// that entity.
pub struct IdQueryParam<T: Model> {
    pub id: i32,
    pub model: T,
}

} // verus!
