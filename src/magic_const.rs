//! The magic constants `P` and `Q` of the key expansion.
//!
//! `P` is the odd integer nearest to `(e - 2) * 2^w` and `Q` the odd integer
//! nearest to `(phi - 1) * 2^w`, where `e` is the base of natural logarithms
//! and `phi` the golden ratio. The values for 16, 32 and 64 bits are fixed
//! here.

use vstd::prelude::*;

verus! {

/// A type with the magic constants `P` and `Q`.
pub trait HasPQ: Sized {
    /// The constant `P`.
    spec fn spec_p() -> Self;

    /// The constant `Q`.
    spec fn spec_q() -> Self;

    /// Returns `P`.
    fn p() -> (r: Self)
        ensures
            r == Self::spec_p(),
    ;

    /// Returns `Q`.
    fn q() -> (r: Self)
        ensures
            r == Self::spec_q(),
    ;
}

impl HasPQ for u16 {
    open spec fn spec_p() -> u16 {
        0xb7e1
    }

    open spec fn spec_q() -> u16 {
        0x9e37
    }

    fn p() -> (r: u16) {
        0xb7e1
    }

    fn q() -> (r: u16) {
        0x9e37
    }
}

impl HasPQ for u32 {
    open spec fn spec_p() -> u32 {
        0xb7e15163
    }

    open spec fn spec_q() -> u32 {
        0x9e3779b9
    }

    fn p() -> (r: u32) {
        0xb7e15163
    }

    fn q() -> (r: u32) {
        0x9e3779b9
    }
}

impl HasPQ for u64 {
    open spec fn spec_p() -> u64 {
        0xb7e151628aed2a6b
    }

    open spec fn spec_q() -> u64 {
        0x9e3779b97f4a7c15
    }

    fn p() -> (r: u64) {
        0xb7e151628aed2a6b
    }

    fn q() -> (r: u64) {
        0x9e3779b97f4a7c15
    }
}

} // verus!
