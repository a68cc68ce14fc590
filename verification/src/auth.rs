//! Identities from the user directory.
//!
//! Credential storage, password hashing and token issuance live with the
//! surrounding application; the engine itself only ever deals in user
//! identifiers.

use vstd::prelude::*;

verus! {

/// Stable identity of a user account.
#[derive(Debug, Clone, Copy, PartialEq, Eq, Structural)]
pub struct UserId(i32);

impl View for UserId {
    type V = int;

    closed spec fn view(&self) -> int {
        self.0 as int
    }
}

impl UserId {
    /// Wraps a raw identifier.
    pub fn new(value: i32) -> (r: UserId)
        ensures
            r@ == value,
    {
        UserId(value)
    }

    /// The raw identifier.
    pub fn value(&self) -> (v: i32)
        ensures
            v == self@,
    {
        self.0
    }
}

} // verus!
