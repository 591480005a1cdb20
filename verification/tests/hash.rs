use vinyl::block::BlockRecord;
use vinyl::hash::BlockHash;

#[test]
fn new_keeps_both_halves() {
    let h = BlockHash::new(3, 4);
    assert_eq!(h.hi, 3);
    assert_eq!(h.lo, 4);
    assert_eq!(h, BlockHash { hi: 3, lo: 4 });
    assert_ne!(h, BlockHash::new(4, 3));
}

#[test]
fn record_keeps_its_fields() {
    let r = BlockRecord::new(BlockHash::new(0, 2), 17, BlockHash::new(0, 1));
    assert_eq!(r.hash, BlockHash::new(0, 2));
    assert_eq!(r.number, 17);
    assert_eq!(r.parent_hash, BlockHash::new(0, 1));
}

#[test]
fn to_bytes_is_big_endian_high_half_first() {
    let h = BlockHash::new(0x0102030405060708090a0b0c0d0e0f10, 0x1112131415161718191a1b1c1d1e1f20);
    let expected: Vec<u8> = (1..=32).collect();
    assert_eq!(h.to_bytes().to_vec(), expected);
    assert_eq!(BlockHash::new(0, 0).to_bytes(), [0u8; 32]);
    assert_eq!(BlockHash::new(u128::MAX, u128::MAX).to_bytes(), [0xffu8; 32]);
    let mut one = [0u8; 32];
    one[31] = 1;
    assert_eq!(BlockHash::new(0, 1).to_bytes(), one);
    let mut top = [0u8; 32];
    top[0] = 0x80;
    assert_eq!(BlockHash::new(1 << 127, 0).to_bytes(), top);
}

#[test]
fn from_bytes_reads_what_to_bytes_writes() {
    let mut bytes = [0u8; 32];
    for (i, b) in bytes.iter_mut().enumerate() {
        *b = (i as u8).wrapping_mul(37).wrapping_add(11);
    }
    let h = BlockHash::from_bytes(&bytes);
    assert_eq!(h.hi, u128::from_be_bytes(bytes[..16].try_into().unwrap()));
    assert_eq!(h.lo, u128::from_be_bytes(bytes[16..].try_into().unwrap()));
    assert_eq!(h.to_bytes(), bytes);
    let back = BlockHash::new(0xfedcba9876543210_0011223344556677, 0x8899aabbccddeeff_0123456789abcdef);
    assert_eq!(BlockHash::from_bytes(&back.to_bytes()), back);
    assert_eq!(BlockHash::from_bytes(&[0xff; 32]), BlockHash::new(u128::MAX, u128::MAX));
}
