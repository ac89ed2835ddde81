//! Little-endian conversion between words and bytes.
//!
//! The cipher packs bytes into words, and words back into bytes, in
//! little-endian order.

use vstd::prelude::*;

verus! {

/// Reads an integer from its little-endian bytes.
pub trait FromLeBytes: Sized {
    /// The number of bytes of the representation.
    spec fn spec_le_len() -> nat;

    /// The integer whose little-endian bytes are `bytes`.
    spec fn spec_from_le_bytes(bytes: Seq<u8>) -> Self;

    /// Creates an integer from its little-endian bytes.
    fn from_le_bytes(bytes: &[u8]) -> (r: Self)
        requires
            bytes@.len() == Self::spec_le_len(),
        ensures
            r == Self::spec_from_le_bytes(bytes@),
    ;
}

/// Writes an integer as its little-endian bytes.
pub trait ToLeBytes: Sized {
    /// The little-endian bytes of `x`.
    spec fn spec_to_le_bytes(x: Self) -> Seq<u8>;

    /// Returns the bytes of this integer in little-endian order.
    fn to_le_bytes(&self) -> (r: Vec<u8>)
        ensures
            r@ == Self::spec_to_le_bytes(*self),
    ;
}

impl FromLeBytes for u16 {
    open spec fn spec_le_len() -> nat {
        2
    }

    open spec fn spec_from_le_bytes(bytes: Seq<u8>) -> u16 {
        vstd::bytes::spec_u16_from_le_bytes(bytes)
    }

    fn from_le_bytes(bytes: &[u8]) -> (r: u16) {
        vstd::bytes::u16_from_le_bytes(bytes)
    }
}

impl ToLeBytes for u16 {
    open spec fn spec_to_le_bytes(x: u16) -> Seq<u8> {
        vstd::bytes::spec_u16_to_le_bytes(x)
    }

    fn to_le_bytes(&self) -> (r: Vec<u8>) {
        vstd::bytes::u16_to_le_bytes(*self)
    }
}

impl FromLeBytes for u32 {
    open spec fn spec_le_len() -> nat {
        4
    }

    open spec fn spec_from_le_bytes(bytes: Seq<u8>) -> u32 {
        vstd::bytes::spec_u32_from_le_bytes(bytes)
    }

    fn from_le_bytes(bytes: &[u8]) -> (r: u32) {
        vstd::bytes::u32_from_le_bytes(bytes)
    }
}

impl ToLeBytes for u32 {
    open spec fn spec_to_le_bytes(x: u32) -> Seq<u8> {
        vstd::bytes::spec_u32_to_le_bytes(x)
    }

    fn to_le_bytes(&self) -> (r: Vec<u8>) {
        vstd::bytes::u32_to_le_bytes(*self)
    }
}

impl FromLeBytes for u64 {
    open spec fn spec_le_len() -> nat {
        8
    }

    open spec fn spec_from_le_bytes(bytes: Seq<u8>) -> u64 {
        vstd::bytes::spec_u64_from_le_bytes(bytes)
    }

    fn from_le_bytes(bytes: &[u8]) -> (r: u64) {
        vstd::bytes::u64_from_le_bytes(bytes)
    }
}

impl ToLeBytes for u64 {
    open spec fn spec_to_le_bytes(x: u64) -> Seq<u8> {
        vstd::bytes::spec_u64_to_le_bytes(x)
    }

    fn to_le_bytes(&self) -> (r: Vec<u8>) {
        vstd::bytes::u64_to_le_bytes(*self)
    }
}

} // verus!
