//! How users name what they register, and what they want to hear of it.
use vstd::prelude::*;

verus! {

/// The name that a user gives to a registered source; its events carry it.
#[derive(Clone, Copy, Debug, PartialEq, Eq, Structural)]
pub struct Token(pub usize);

/// The kinds of readiness that a user wants to hear of.
#[derive(Clone, Copy, Debug, PartialEq, Eq, Structural)]
pub struct Interest {
    pub readable: bool,
    pub writable: bool,
}

impl Interest {
    /// Whether readable readiness is wanted.
    pub fn is_readable(&self) -> (b: bool)
        ensures
            b == self.readable,
    {
        self.readable
    }

    /// Whether writable readiness is wanted.
    pub fn is_writable(&self) -> (b: bool)
        ensures
            b == self.writable,
    {
        self.writable
    }
}

} // verus!
