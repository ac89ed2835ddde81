//! The machine words the cipher computes on.
//!
//! The cipher is defined for any word length; this library supports 16, 32
//! and 64 bits. All arithmetic is modulo `2^w`, and rotations by a word take
//! the amount modulo `w`, so only its `lg(w)` low-order bits count.

use crate::le_bytes::{FromLeBytes, ToLeBytes};
use crate::magic_const::HasPQ;
use vstd::prelude::*;

verus! {

/// A word of the cipher: an unsigned integer with wrapping addition and
/// subtraction, exclusive or, rotations, the magic constants `P` and `Q`,
/// and little-endian conversion to and from bytes.
pub trait Word: Sized + Copy + HasPQ + FromLeBytes + ToLeBytes {
    /// The size of this word type in bits.
    const BITS: usize;

    /// The size of this word type in bytes.
    const BYTES: usize;

    /// The nominal number of rounds for this word size.
    const ROUNDS: usize;

    /// The zero word.
    spec fn spec_zero() -> Self;

    /// The word whose value is that of a byte.
    spec fn spec_from_byte(b: u8) -> Self;

    /// `a + b` modulo `2^BITS`.
    spec fn spec_add(a: Self, b: Self) -> Self;

    /// `a - b` modulo `2^BITS`.
    spec fn spec_sub(a: Self, b: Self) -> Self;

    /// Bitwise exclusive or.
    spec fn spec_xor(a: Self, b: Self) -> Self;

    /// Rotation to the left by `s` bits, for `s < BITS`.
    spec fn spec_rotl_bits(x: Self, s: nat) -> Self;

    /// `x <<< n`: rotation to the left by `n mod BITS` bits.
    spec fn spec_rotl(x: Self, n: Self) -> Self;

    /// `x >>> n`: rotation to the right by `n mod BITS` bits.
    spec fn spec_rotr(x: Self, n: Self) -> Self;

    /// The zero word.
    fn zero() -> (r: Self)
        ensures
            r == Self::spec_zero(),
    ;

    /// The word holding the value of a byte.
    fn from_byte(b: u8) -> (r: Self)
        ensures
            r == Self::spec_from_byte(b),
    ;

    /// Addition modulo `2^BITS`.
    fn wrapping_add(&self, other: &Self) -> (r: Self)
        ensures
            r == Self::spec_add(*self, *other),
    ;

    /// Subtraction modulo `2^BITS`.
    fn wrapping_sub(&self, other: &Self) -> (r: Self)
        ensures
            r == Self::spec_sub(*self, *other),
    ;

    /// Bitwise exclusive or.
    fn bitxor(&self, other: Self) -> (r: Self)
        ensures
            r == Self::spec_xor(*self, other),
    ;

    /// Rotation to the left by a fixed amount smaller than the word size.
    fn rotate_left(&self, s: u32) -> (r: Self)
        requires
            (s as nat) < Self::BITS as nat,
        ensures
            r == Self::spec_rotl_bits(*self, s as nat),
    ;

    /// Shifts the bits to the left by `n mod BITS`, wrapping the truncated
    /// bits to the end of the word.
    fn rotate_left_by(&self, n: Self) -> (r: Self)
        ensures
            r == Self::spec_rotl(*self, n),
    ;

    /// Shifts the bits to the right by `n mod BITS`, wrapping the truncated
    /// bits to the start of the word.
    fn rotate_right_by(&self, n: Self) -> (r: Self)
        ensures
            r == Self::spec_rotr(*self, n),
    ;

    /// The sizes of a word.
    proof fn lemma_sizes()
        ensures
            Self::BITS == 8 * Self::BYTES,
            Self::BYTES == Self::spec_le_len(),
            2 <= Self::BYTES <= 8,
    ;

    /// Subtracting what was added gives the word back.
    proof fn lemma_add_sub(a: Self, k: Self)
        ensures
            Self::spec_sub(Self::spec_add(a, k), k) == a,
    ;

    /// Exclusive or with the same word twice is the identity.
    proof fn lemma_xor_xor(a: Self, b: Self)
        ensures
            Self::spec_xor(Self::spec_xor(a, b), b) == a,
    ;

    /// Rotating right undoes rotating left by the same amount.
    proof fn lemma_rotr_rotl(x: Self, n: Self)
        ensures
            Self::spec_rotr(Self::spec_rotl(x, n), n) == x,
    ;

    /// Little-endian bytes and words correspond one to one.
    proof fn lemma_le_bytes()
        ensures
            forall|x: Self|
                {
                    &&& (#[trigger] Self::spec_to_le_bytes(x)).len() == Self::BYTES
                    &&& Self::spec_from_le_bytes(Self::spec_to_le_bytes(x)) == x
                },
            forall|s: Seq<u8>|
                s.len() == Self::BYTES ==> #[trigger] Self::spec_to_le_bytes(
                    Self::spec_from_le_bytes(s),
                ) == s,
    ;
}

/// Rotation of a 16-bit word to the left by `s` bits, `s < 16`.
pub open spec fn rotl16(x: u16, s: u16) -> u16 {
    if s == 0 {
        x
    } else {
        (x << s) | (x >> ((16 - s) as u16))
    }
}

/// Rotation of a 16-bit word to the right by `s` bits, `s < 16`.
pub open spec fn rotr16(x: u16, s: u16) -> u16 {
    if s == 0 {
        x
    } else {
        (x >> s) | (x << ((16 - s) as u16))
    }
}

impl Word for u16 {
    const BITS: usize = 16;

    const BYTES: usize = 2;

    const ROUNDS: usize = 12;

    open spec fn spec_zero() -> u16 {
        0
    }

    open spec fn spec_from_byte(b: u8) -> u16 {
        b as u16
    }

    open spec fn spec_add(a: u16, b: u16) -> u16 {
        ((a + b) % 0x1_0000) as u16
    }

    open spec fn spec_sub(a: u16, b: u16) -> u16 {
        ((a - b + 0x1_0000) % 0x1_0000) as u16
    }

    open spec fn spec_xor(a: u16, b: u16) -> u16 {
        a ^ b
    }

    open spec fn spec_rotl_bits(x: u16, s: nat) -> u16 {
        rotl16(x, s as u16)
    }

    open spec fn spec_rotl(x: u16, n: u16) -> u16 {
        rotl16(x, n % 16)
    }

    open spec fn spec_rotr(x: u16, n: u16) -> u16 {
        rotr16(x, n % 16)
    }

    fn zero() -> (r: u16) {
        0
    }

    fn from_byte(b: u8) -> (r: u16) {
        b as u16
    }

    fn wrapping_add(&self, other: &u16) -> (r: u16) {
        u16::wrapping_add(*self, *other)
    }

    fn wrapping_sub(&self, other: &u16) -> (r: u16) {
        u16::wrapping_sub(*self, *other)
    }

    fn bitxor(&self, other: u16) -> (r: u16) {
        *self ^ other
    }

    fn rotate_left(&self, s: u32) -> (r: u16) {
        let s = s as u16;
        if s == 0 {
            *self
        } else {
            (*self << s) | (*self >> (16 - s))
        }
    }

    fn rotate_left_by(&self, n: u16) -> (r: u16) {
        let s: u16 = n % 16;
        if s == 0 {
            *self
        } else {
            (*self << s) | (*self >> (16 - s))
        }
    }

    fn rotate_right_by(&self, n: u16) -> (r: u16) {
        let s: u16 = n % 16;
        if s == 0 {
            *self
        } else {
            (*self >> s) | (*self << (16 - s))
        }
    }

    proof fn lemma_sizes() {
    }

    proof fn lemma_add_sub(a: u16, k: u16) {
    }

    proof fn lemma_xor_xor(a: u16, b: u16) {
        assert((a ^ b) ^ b == a) by (bit_vector);
    }

    proof fn lemma_rotr_rotl(x: u16, n: u16) {
        let s = n % 16;
        if s != 0 {
            let t: u16 = (16 - s) as u16;
            assert(0 < s < 16 && t == 16 - s ==> ((((x << s) | (x >> t)) >> s) | (((x << s) | (x
                >> t)) << t)) == x) by (bit_vector);
        }
    }

    proof fn lemma_le_bytes() {
        vstd::bytes::lemma_auto_spec_u16_to_from_le_bytes();
        assert forall|x: u16| #[trigger] Self::spec_to_le_bytes(x).len() == Self::BYTES by {
            assert(vstd::bytes::spec_u16_to_le_bytes(x).len() == 2);
        }
    }
}

/// Rotation of a 32-bit word to the left by `s` bits, `s < 32`.
pub open spec fn rotl32(x: u32, s: u32) -> u32 {
    if s == 0 {
        x
    } else {
        (x << s) | (x >> ((32 - s) as u32))
    }
}

/// Rotation of a 32-bit word to the right by `s` bits, `s < 32`.
pub open spec fn rotr32(x: u32, s: u32) -> u32 {
    if s == 0 {
        x
    } else {
        (x >> s) | (x << ((32 - s) as u32))
    }
}

impl Word for u32 {
    const BITS: usize = 32;

    const BYTES: usize = 4;

    const ROUNDS: usize = 16;

    open spec fn spec_zero() -> u32 {
        0
    }

    open spec fn spec_from_byte(b: u8) -> u32 {
        b as u32
    }

    open spec fn spec_add(a: u32, b: u32) -> u32 {
        ((a + b) % 0x1_0000_0000) as u32
    }

    open spec fn spec_sub(a: u32, b: u32) -> u32 {
        ((a - b + 0x1_0000_0000) % 0x1_0000_0000) as u32
    }

    open spec fn spec_xor(a: u32, b: u32) -> u32 {
        a ^ b
    }

    open spec fn spec_rotl_bits(x: u32, s: nat) -> u32 {
        rotl32(x, s as u32)
    }

    open spec fn spec_rotl(x: u32, n: u32) -> u32 {
        rotl32(x, n % 32)
    }

    open spec fn spec_rotr(x: u32, n: u32) -> u32 {
        rotr32(x, n % 32)
    }

    fn zero() -> (r: u32) {
        0
    }

    fn from_byte(b: u8) -> (r: u32) {
        b as u32
    }

    fn wrapping_add(&self, other: &u32) -> (r: u32) {
        u32::wrapping_add(*self, *other)
    }

    fn wrapping_sub(&self, other: &u32) -> (r: u32) {
        u32::wrapping_sub(*self, *other)
    }

    fn bitxor(&self, other: u32) -> (r: u32) {
        *self ^ other
    }

    fn rotate_left(&self, s: u32) -> (r: u32) {
        let s = s as u32;
        if s == 0 {
            *self
        } else {
            (*self << s) | (*self >> (32 - s))
        }
    }

    fn rotate_left_by(&self, n: u32) -> (r: u32) {
        let s: u32 = n % 32;
        if s == 0 {
            *self
        } else {
            (*self << s) | (*self >> (32 - s))
        }
    }

    fn rotate_right_by(&self, n: u32) -> (r: u32) {
        let s: u32 = n % 32;
        if s == 0 {
            *self
        } else {
            (*self >> s) | (*self << (32 - s))
        }
    }

    proof fn lemma_sizes() {
    }

    proof fn lemma_add_sub(a: u32, k: u32) {
    }

    proof fn lemma_xor_xor(a: u32, b: u32) {
        assert((a ^ b) ^ b == a) by (bit_vector);
    }

    proof fn lemma_rotr_rotl(x: u32, n: u32) {
        let s = n % 32;
        if s != 0 {
            let t: u32 = (32 - s) as u32;
            assert(0 < s < 32 && t == 32 - s ==> ((((x << s) | (x >> t)) >> s) | (((x << s) | (x
                >> t)) << t)) == x) by (bit_vector);
        }
    }

    proof fn lemma_le_bytes() {
        vstd::bytes::lemma_auto_spec_u32_to_from_le_bytes();
        assert forall|x: u32| #[trigger] Self::spec_to_le_bytes(x).len() == Self::BYTES by {
            assert(vstd::bytes::spec_u32_to_le_bytes(x).len() == 4);
        }
    }
}

/// Rotation of a 64-bit word to the left by `s` bits, `s < 64`.
pub open spec fn rotl64(x: u64, s: u64) -> u64 {
    if s == 0 {
        x
    } else {
        (x << s) | (x >> ((64 - s) as u64))
    }
}

/// Rotation of a 64-bit word to the right by `s` bits, `s < 64`.
pub open spec fn rotr64(x: u64, s: u64) -> u64 {
    if s == 0 {
        x
    } else {
        (x >> s) | (x << ((64 - s) as u64))
    }
}

impl Word for u64 {
    const BITS: usize = 64;

    const BYTES: usize = 8;

    const ROUNDS: usize = 20;

    open spec fn spec_zero() -> u64 {
        0
    }

    open spec fn spec_from_byte(b: u8) -> u64 {
        b as u64
    }

    open spec fn spec_add(a: u64, b: u64) -> u64 {
        ((a + b) % 0x1_0000_0000_0000_0000) as u64
    }

    open spec fn spec_sub(a: u64, b: u64) -> u64 {
        ((a - b + 0x1_0000_0000_0000_0000) % 0x1_0000_0000_0000_0000) as u64
    }

    open spec fn spec_xor(a: u64, b: u64) -> u64 {
        a ^ b
    }

    open spec fn spec_rotl_bits(x: u64, s: nat) -> u64 {
        rotl64(x, s as u64)
    }

    open spec fn spec_rotl(x: u64, n: u64) -> u64 {
        rotl64(x, n % 64)
    }

    open spec fn spec_rotr(x: u64, n: u64) -> u64 {
        rotr64(x, n % 64)
    }

    fn zero() -> (r: u64) {
        0
    }

    fn from_byte(b: u8) -> (r: u64) {
        b as u64
    }

    fn wrapping_add(&self, other: &u64) -> (r: u64) {
        u64::wrapping_add(*self, *other)
    }

    fn wrapping_sub(&self, other: &u64) -> (r: u64) {
        u64::wrapping_sub(*self, *other)
    }

    fn bitxor(&self, other: u64) -> (r: u64) {
        *self ^ other
    }

    fn rotate_left(&self, s: u32) -> (r: u64) {
        let s = s as u64;
        if s == 0 {
            *self
        } else {
            (*self << s) | (*self >> (64 - s))
        }
    }

    fn rotate_left_by(&self, n: u64) -> (r: u64) {
        let s: u64 = n % 64;
        if s == 0 {
            *self
        } else {
            (*self << s) | (*self >> (64 - s))
        }
    }

    fn rotate_right_by(&self, n: u64) -> (r: u64) {
        let s: u64 = n % 64;
        if s == 0 {
            *self
        } else {
            (*self >> s) | (*self << (64 - s))
        }
    }

    proof fn lemma_sizes() {
    }

    proof fn lemma_add_sub(a: u64, k: u64) {
    }

    proof fn lemma_xor_xor(a: u64, b: u64) {
        assert((a ^ b) ^ b == a) by (bit_vector);
    }

    proof fn lemma_rotr_rotl(x: u64, n: u64) {
        let s = n % 64;
        if s != 0 {
            let t: u64 = (64 - s) as u64;
            assert(0 < s < 64 && t == 64 - s ==> ((((x << s) | (x >> t)) >> s) | (((x << s) | (x
                >> t)) << t)) == x) by (bit_vector);
        }
    }

    proof fn lemma_le_bytes() {
        vstd::bytes::lemma_auto_spec_u64_to_from_le_bytes();
        assert forall|x: u64| #[trigger] Self::spec_to_le_bytes(x).len() == Self::BYTES by {
            assert(vstd::bytes::spec_u64_to_le_bytes(x).len() == 8);
        }
    }
}

/// Rotating a 64-bit word by `s + 64 * k` bits, either way, is rotating it
/// by `s` bits: only the amount modulo 64 counts.
pub proof fn lemma_rotate_u64_modulo(x: u64, s: u64, k: u64)
    requires
        s + 64 * k <= u64::MAX,
    ensures
        <u64 as Word>::spec_rotl(x, (s + 64 * k) as u64) == <u64 as Word>::spec_rotl(x, s),
        <u64 as Word>::spec_rotr(x, (s + 64 * k) as u64) == <u64 as Word>::spec_rotr(x, s),
{
    assert(((s + 64 * k) as u64) % 64 == s % 64);
}

} // verus!
