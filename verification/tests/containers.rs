use craftrs_level::containers::{
    Block49, BlockArray49, ByteArray, HalfByteArray, ReadContainer, WriteContainer,
};

#[test]
fn block49_packs_id_high_and_metadata_low() {
    let b = Block49::new(0x123, 0xAB);
    assert_eq!(b.id(), 0x123);
    assert_eq!(b.metadata(), 0xB);
    let z = Block49::new(0, 0);
    assert_eq!(z.id(), 0);
    assert_eq!(z.metadata(), 0);
}

#[test]
fn byte_array_get_set_swap() {
    let mut a = ByteArray::<8>::new_zeroed();
    assert_eq!(a.get(5), 0);
    a.set(5, 77);
    assert_eq!(a.get(5), 77);
    assert_eq!(a.swap(5, 78), 77);
    assert_eq!(a.get(5), 78);
    assert_eq!(a.bytes().len(), 8);
}

#[test]
fn half_byte_array_addresses_nibbles() {
    let mut a = HalfByteArray::<4>::new_zeroed();
    // even indices are the high nibble, odd the low nibble
    a.set(0, 0x5);
    a.set(1, 0x9);
    a.set(6, 0xF);
    assert_eq!(a.get(0), 0x5);
    assert_eq!(a.get(1), 0x9);
    assert_eq!(a.get(6), 0xF);
    assert_eq!(a.bytes()[0], 0x59);
    assert_eq!(a.bytes()[3], 0xF0);
    // values are masked to four bits
    a.set(2, 0x12);
    assert_eq!(a.get(2), 0x2);
    assert_eq!(a.swap(2, 0x3), 0x2);
}

#[test]
fn block_array_le_round_trip() {
    let mut arr = BlockArray49::<3>::new_zeroed();
    arr.set(0, Block49::new(0x123, 0xA));
    arr.set(1, Block49::new(1, 0));
    arr.set(2, Block49::new(0xFFF, 0xF));
    let bytes = arr.encode_le();
    // block 0 raw = 0x123A, little endian
    assert_eq!(bytes[0], 0x3A);
    assert_eq!(bytes[1], 0x12);
    let back = BlockArray49::<3>::from_le_bytes(&bytes);
    for i in 0..3 {
        assert_eq!(back.get(i).id(), arr.get(i).id());
        assert_eq!(back.get(i).metadata(), arr.get(i).metadata());
    }
    assert_eq!(back.encode_le(), bytes);
    assert_eq!(arr.swap(1, Block49::new(2, 2)).id(), 1);
}
