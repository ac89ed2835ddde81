use rc5::{Block, ControlBlock, Error, RC5};

#[test]
fn known_answer_rc5_32_12_16_zero_key() {
    let key = vec![0x00; 16];
    let pt = vec![0x00; 8];
    let ct = vec![0x21, 0xA5, 0xDB, 0xEE, 0x15, 0x4B, 0x8F, 0x6D];
    let rc5 = RC5::<u32>::new_with_rounds(key, 12).unwrap();
    assert_eq!(rc5.encode(&pt), ct);
    assert_eq!(rc5.decode(&ct), pt);
}

#[test]
fn known_answer_rc5_32_12_16() {
    let key = vec![
        0x91, 0x5F, 0x46, 0x19, 0xBE, 0x41, 0xB2, 0x51, 0x63, 0x55, 0xA5, 0x01, 0x10, 0xA9,
        0xCE, 0x91,
    ];
    let pt = vec![0x21, 0xA5, 0xDB, 0xEE, 0x15, 0x4B, 0x8F, 0x6D];
    let ct = vec![0xF7, 0xC0, 0x13, 0xAC, 0x5B, 0x2B, 0x89, 0x52];
    let rc5 = RC5::<u32>::new_with_rounds(key, 12).unwrap();
    assert_eq!(rc5.encode(&pt), ct);
    assert_eq!(rc5.decode(&ct), pt);
}

fn round_trip<W: rc5::Word>(rounds: usize, key_len: usize) {
    let key: Vec<u8> = (0..key_len).map(|i| (i * 37 + 11) as u8).collect();
    let rc5 = RC5::<W>::new_with_rounds(key, rounds).unwrap();
    let block_len = 2 * W::BYTES;
    for blocks in 0..3usize {
        let pt: Vec<u8> = (0..blocks * block_len).map(|i| (i * 101 + rounds) as u8).collect();
        let ct = rc5.encode(&pt);
        assert_eq!(ct.len(), pt.len());
        assert_eq!(rc5.decode(&ct), pt);
    }
}

#[test]
fn round_trip_all_widths_rounds_and_key_lengths() {
    for rounds in 0..=32usize {
        for key_len in [0usize, 1, 2, 3, 7, 8, 9, 16, 31, 64] {
            round_trip::<u16>(rounds, key_len);
            round_trip::<u32>(rounds, key_len);
            round_trip::<u64>(rounds, key_len);
        }
    }
    for key_len in 0..=64usize {
        round_trip::<u32>(16, key_len);
    }
}

#[test]
fn zero_rounds_only_adds_the_first_two_table_words() {
    let rc5 = RC5::<u16>::new_with_rounds(vec![1, 2, 3, 4], 0).unwrap();
    assert_eq!(rc5.number_of_rounds(), 0);
    let zero = rc5.encode(&[0, 0, 0, 0]);
    let s0 = u16::from_le_bytes([zero[0], zero[1]]);
    let s1 = u16::from_le_bytes([zero[2], zero[3]]);
    let ct = rc5.encode(&[0x34, 0x12, 0xFF, 0xFF]);
    assert_eq!(u16::from_le_bytes([ct[0], ct[1]]), 0x1234u16.wrapping_add(s0));
    assert_eq!(u16::from_le_bytes([ct[2], ct[3]]), 0xFFFFu16.wrapping_add(s1));
    assert_eq!(rc5.decode(&ct), vec![0x34, 0x12, 0xFF, 0xFF]);
}

#[test]
fn deterministic() {
    let a = RC5::<u32>::new(vec![9; 10]).unwrap();
    let b = RC5::<u32>::new(vec![9; 10]).unwrap();
    let pt: Vec<u8> = (0..32u8).collect();
    assert_eq!(a.encode(&pt), b.encode(&pt));
    assert_eq!(a.encode(&pt), a.encode(&pt));
}

#[test]
fn avalanche() {
    let rc5 = RC5::<u32>::new_with_rounds(vec![5; 16], 12).unwrap();
    let pt = vec![0u8; 8];
    let base = rc5.encode(&pt);
    for bit in 0..64usize {
        let mut flipped = pt.clone();
        flipped[bit / 8] ^= 1 << (bit % 8);
        let ct = rc5.encode(&flipped);
        let diff: u32 = base
            .iter()
            .zip(ct.iter())
            .map(|(a, b)| (a ^ b).count_ones())
            .sum();
        assert!(diff > 1);
    }
}

#[test]
fn blocks_are_independent() {
    let rc5 = RC5::<u16>::new(vec![1, 2, 3]).unwrap();
    let one = rc5.encode(&[1, 2, 3, 4]);
    let two = rc5.encode(&[1, 2, 3, 4, 1, 2, 3, 4]);
    assert_eq!(&two[0..4], &one[..]);
    assert_eq!(&two[4..8], &one[..]);
}

#[test]
fn construction_bounds() {
    assert!(RC5::<u32>::new_with_rounds(vec![0; 256], 256).is_ok());
    assert!(matches!(
        RC5::<u32>::new_with_rounds(vec![0; 257], 12),
        Err(Error::InvalidSecretKeyLength(257))
    ));
    assert!(matches!(
        RC5::<u32>::new_with_rounds(vec![0; 16], 257),
        Err(Error::InvalidNumberOfRounds(257))
    ));
    assert!(matches!(
        RC5::<u32>::new_with_rounds(vec![0; 300], 300),
        Err(Error::InvalidSecretKeyLength(300))
    ));
    assert!(matches!(
        RC5::<u64>::new(vec![0; 257]),
        Err(Error::InvalidSecretKeyLength(257))
    ));
    assert_eq!(RC5::<u64>::new(vec![0; 8]).unwrap().number_of_rounds(), 20);
}

#[test]
fn block_words() {
    let b = Block::new(3u16, 4u16);
    assert_eq!(b.to_words(), vec![3u16, 4u16]);
    let c = Block::from_words(&[7u32, 8u32, 9u32]);
    assert_eq!(c.to_words(), vec![7u32, 8u32]);
}

#[test]
fn block_encode_decode() {
    let rc5 = RC5::<u32>::new_with_rounds(vec![0x00; 16], 12).unwrap();
    let b = Block::new(0u32, 0u32);
    let e = b.encode(&rc5);
    assert_eq!(e.to_words(), vec![0xEEDBA521u32, 0x6D8F4B15u32]);
    assert_eq!(e.decode(&rc5).to_words(), vec![0u32, 0u32]);
}

#[test]
fn nominal_control_block() {
    let cb = ControlBlock::nominal(vec![1, 2, 3]);
    assert_eq!(cb.v, 0x10);
    assert_eq!(cb.w, 32);
    assert_eq!(cb.r, 16);
    assert_eq!(cb.b, 3);
    assert_eq!(cb.k, vec![1, 2, 3]);
    assert_eq!(ControlBlock::nominal(vec![0; 256]).b, 0);
}
