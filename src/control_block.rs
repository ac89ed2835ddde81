//! The parameters of an RC5 instance packaged together, as key-management
//! schemes transmit them: `b + 4` bytes, the version `v`, the word size `w`,
//! the number of rounds `r`, the key length `b`, and then the `b` key bytes.

use vstd::prelude::*;

verus! {

/// An RC5 control block.
pub struct ControlBlock {
    /// Version.
    pub v: u8,
    /// Word length in bits.
    pub w: u8,
    /// Number of rounds.
    pub r: u8,
    /// Number of bytes in the secret key.
    pub b: u8,
    /// Secret key.
    pub k: Vec<u8>,
}

impl ControlBlock {
    /// Creates a control block with the nominal choice of parameters:
    /// version `0x10`, 32-bit words and 16 rounds. The key length is kept in
    /// one byte, modulo 256.
    pub fn nominal(key: Vec<u8>) -> (r: Self)
        ensures
            r.v == 0x10,
            r.w == 32,
            r.r == 16,
            r.b == key@.len() as u8,
            r.k@ == key@,
    {
        ControlBlock { v: 0x10, w: 32, r: 16, b: key.len() as u8, k: key }
    }
}

} // verus!
