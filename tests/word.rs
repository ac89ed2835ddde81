use rc5::{FromLeBytes, HasPQ, ToLeBytes, Word};

#[test]
fn u16_sizes() {
    assert_eq!(<u16 as Word>::BITS, 16);
    assert_eq!(<u16 as Word>::BYTES, 2);
}

#[test]
fn u32_sizes() {
    assert_eq!(<u32 as Word>::BITS, 32);
    assert_eq!(<u32 as Word>::BYTES, 4);
}

#[test]
fn u64_sizes() {
    assert_eq!(<u64 as Word>::BITS, 64);
    assert_eq!(<u64 as Word>::BYTES, 8);
}

#[test]
fn nominal_rounds() {
    assert_eq!(<u16 as Word>::ROUNDS, 12);
    assert_eq!(<u32 as Word>::ROUNDS, 16);
    assert_eq!(<u64 as Word>::ROUNDS, 20);
}

#[test]
fn rotate_left_by() {
    let n = 0x0123456789ABCDEFu64;
    let m = 0x3456789ABCDEF012u64;
    let bits: u64 = 12 + 64 * 1_000_000;
    let r = Word::rotate_left_by(&n, bits);
    assert_eq!(r, m);
}

#[test]
fn rotate_right_by() {
    let n = 0x0123456789ABCDEFu64;
    let m = 0xDEF0123456789ABCu64;
    let bits = 12 + 64 * 100_000;
    let r = Word::rotate_right_by(&n, bits);
    assert_eq!(r, m);
}

#[test]
fn rotation_amount_taken_modulo_width() {
    let n = 0x0123456789ABCDEFu64;
    assert_eq!(
        Word::rotate_left_by(&n, 12 + 64_000_000u64),
        Word::rotate_left_by(&n, 12u64)
    );
    assert_eq!(
        Word::rotate_right_by(&n, 12 + 64_000_000u64),
        Word::rotate_right_by(&n, 12u64)
    );
    assert_eq!(Word::rotate_left_by(&0x8001u16, 1u16), 0x0003u16);
    assert_eq!(Word::rotate_left_by(&0x8001u16, 17u16), 0x0003u16);
    assert_eq!(Word::rotate_right_by(&0x8001u16, 16u16), 0x8001u16);
    assert_eq!(Word::rotate_left_by(&0x80000001u32, 33u32), 0x00000003u32);
    assert_eq!(Word::rotate_right_by(&0x00000003u32, 1u32), 0x80000001u32);
}

#[test]
fn fixed_rotation_and_wrapping_arithmetic() {
    assert_eq!(Word::rotate_left(&0xF001u16, 3), 0x800Fu16);
    assert_eq!(Word::rotate_left(&0x0102u16, 8), 0x0201u16);
    assert_eq!(Word::wrapping_add(&0xFFFFu16, &2u16), 1u16);
    assert_eq!(Word::wrapping_sub(&1u16, &2u16), 0xFFFFu16);
    assert_eq!(Word::bitxor(&0xF0F0u16, 0xFF00u16), 0x0FF0u16);
    assert_eq!(<u32 as Word>::from_byte(0xAB), 0xABu32);
    assert_eq!(<u64 as Word>::zero(), 0u64);
}

#[test]
fn magic_constants() {
    assert_eq!(<u16 as HasPQ>::p(), 0xb7e1);
    assert_eq!(<u16 as HasPQ>::q(), 0x9e37);
    assert_eq!(<u32 as HasPQ>::p(), 0xb7e15163);
    assert_eq!(<u32 as HasPQ>::q(), 0x9e3779b9);
    assert_eq!(<u64 as HasPQ>::p(), 0xb7e151628aed2a6b);
    assert_eq!(<u64 as HasPQ>::q(), 0x9e3779b97f4a7c15);
}

#[test]
fn from_le_bytes() {
    assert_eq!(<u16 as FromLeBytes>::from_le_bytes(&[24, 48]), 12312u16);
    assert_eq!(
        <u32 as FromLeBytes>::from_le_bytes(&[179, 181, 86, 7]),
        123123123u32
    );
    assert_eq!(
        <u64 as FromLeBytes>::from_le_bytes(&[179, 243, 99, 1, 212, 107, 181, 1]),
        123123123123123123u64
    );
}

#[test]
fn to_le_bytes() {
    assert_eq!(ToLeBytes::to_le_bytes(&12312u16), [24, 48]);
    assert_eq!(ToLeBytes::to_le_bytes(&123123123u32), [179, 181, 86, 7]);
    assert_eq!(
        ToLeBytes::to_le_bytes(&123123123123123123u64),
        [179, 243, 99, 1, 212, 107, 181, 1]
    );
}
