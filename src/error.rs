//! The errors of the cipher's construction.

use vstd::prelude::*;

verus! {

/// Why a cipher could not be built.
#[derive(Debug, Clone, Copy, PartialEq, Eq, Structural)]
pub enum Error {
    /// The secret key is longer than 256 bytes; holds the length given.
    InvalidSecretKeyLength(usize),
    /// The number of rounds is greater than 256; holds the number given.
    InvalidNumberOfRounds(usize),
}

} // verus!
