use rc5::{Error, ExpandedKeyTable, SecretKey};

fn key1() -> SecretKey {
    let key1_bytes = vec![
        0x00, 0x01, 0x02, 0x03, 0x04, 0x05, 0x06, 0x07, 0x08, 0x09, 0x0A, 0x0B, 0x0C, 0x0D,
        0x0E, 0x0F,
    ];
    SecretKey::new(key1_bytes).unwrap()
}

#[test]
fn new() {
    let key1 = key1();
    let key1_table = ExpandedKeyTable::<u16>::new(&key1, 12).unwrap();
    assert_eq!(
        key1_table.words(),
        &[
            35335, 28312, 22618, 34867, 45234, 46162, 22833, 59388, 47522, 35862, 3067, 9299,
            32031, 62182, 903, 8243, 57179, 45493, 29169, 52645, 27594, 36810, 63883, 25203,
            40548, 8227
        ]
    );
}

#[test]
fn to_words() {
    let key1 = key1();
    let key1_words = key1.to_words::<u16>();
    assert_eq!(
        key1_words,
        vec![256, 770, 1284, 1798, 2312, 2826, 3340, 3854]
    )
}

#[test]
fn to_words_wider_and_partial() {
    let key = SecretKey::new(vec![0x01, 0x02, 0x03, 0x04, 0x05]).unwrap();
    assert_eq!(key.to_words::<u32>(), vec![0x04030201u32, 0x05u32]);
    assert_eq!(key.to_words::<u16>(), vec![0x0201u16, 0x0403u16, 0x0005u16]);
    assert_eq!(key.to_words::<u64>(), vec![0x0504030201u64]);
}

#[test]
fn empty_key_is_one_zero_word() {
    let key = SecretKey::new(vec![]).unwrap();
    assert_eq!(key.len(), 0);
    assert_eq!(key.to_words::<u16>(), vec![0u16]);
    assert_eq!(key.to_words::<u64>(), vec![0u64]);
}

#[test]
fn secret_key_length_bounds() {
    assert_eq!(SecretKey::new(vec![7u8; 256]).unwrap().len(), 256);
    assert!(matches!(
        SecretKey::new(vec![7u8; 257]),
        Err(Error::InvalidSecretKeyLength(257))
    ));
}

#[test]
fn random_key_has_length_and_random_bytes() {
    let key = SecretKey::random(32);
    assert_eq!(key.len(), 32);
    let words = key.to_words::<u64>();
    assert_eq!(words.len(), 4);
    assert!(words.iter().any(|w| *w != 0));
    assert_eq!(SecretKey::random(0).len(), 0);
}

#[test]
fn table_length_and_round_bounds() {
    let key = key1();
    let t0 = ExpandedKeyTable::<u32>::new(&key, 0).unwrap();
    assert_eq!(t0.words().len(), 2);
    let t256 = ExpandedKeyTable::<u32>::new(&key, 256).unwrap();
    assert_eq!(t256.words().len(), 514);
    assert_eq!(
        ExpandedKeyTable::<u32>::new(&key, 257),
        Err(Error::InvalidNumberOfRounds(257))
    );
}

#[test]
fn same_key_same_table() {
    let a = ExpandedKeyTable::<u64>::new(&key1(), 20).unwrap();
    let b = ExpandedKeyTable::<u64>::new(&key1(), 20).unwrap();
    assert_eq!(a, b);
}
