//! Unique identifier tokens for locals and labels.

use vstd::prelude::*;

verus! {

/// An identifier token.  Uniqueness is not a property of the token itself:
/// whoever mints tokens hands each one a value it has never handed out
/// before, usually from a counter threaded through one compilation run.
#[derive(Debug, Clone, Copy, PartialEq, Eq, Structural)]
pub struct Uuid(pub u128);

impl Uuid {
    /// Create a [`Uuid`] carrying the given value.
    pub fn new(value: u128) -> (r: Self)
        ensures
            r.0 == value,
    {
        Uuid(value)
    }

    /// The reserved all-zero token.
    pub fn nil() -> (r: Self)
        ensures
            r.0 == 0,
    {
        Uuid(0)
    }
}

} // verus!
