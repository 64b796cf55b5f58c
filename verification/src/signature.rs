//! ECDSA signatures.

use crate::uint::U256;
use vstd::prelude::*;

verus! {

/// The two numbers `r` and `s` of an ECDSA signature.
#[derive(Clone, Copy, Debug, PartialEq, Eq, Structural)]
pub struct Signiture {
    r: U256,
    s: U256,
}

impl View for Signiture {
    type V = (nat, nat);

    closed spec fn view(&self) -> (nat, nat) {
        (self.r@, self.s@)
    }
}

impl Signiture {
    /// The signature made of `r` and `s`.
    pub fn new(r: U256, s: U256) -> (sig: Signiture)
        ensures
            sig@ == (r@, s@),
    {
        Signiture { r, s }
    }

    /// The first number of the signature.
    pub fn r(&self) -> (r: U256)
        ensures
            r@ == self@.0,
    {
        self.r
    }

    /// The second number of the signature.
    pub fn s(&self) -> (s: U256)
        ensures
            s@ == self@.1,
    {
        self.s
    }
}

} // verus!
