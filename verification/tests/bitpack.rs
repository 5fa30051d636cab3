use craftrs_level::bitpack::{PackedBits, PackedBitsBE, PackedBitsNE};
use craftrs_level::byteorder::{BigEndian, NativeEndian};

#[test]
fn bitpack() {
    let data = vec![0, 1, 2, 3, 4, 5, 6, 7];
    let new_data = vec![7, 6, 5, 4, 3, 2, 1, 0];
    let mut packedbits = PackedBits::<8, NativeEndian>::with_data_unpacked(3, &data);
    for bits in 3..=32 {
        for i in 0..8 {
            assert_eq!(packedbits.get(i).unwrap(), data[i]);
            packedbits.set(i, new_data[i]);
            assert_eq!(packedbits.get(i).unwrap(), new_data[i]);
            packedbits.set(i, data[i])
        }

        if bits == 32 {
            break;
        }

        packedbits.change_bits(bits + 1);
    }
}

#[test]
fn set_truncates_to_width() {
    // storing 9 in a 3-bit slot keeps only 9 mod 8
    let mut p = PackedBits::<4, NativeEndian>::new(3);
    p.set(0, 9);
    assert_eq!(p.get(0).unwrap(), 1);
    p.set(1, 7);
    assert_eq!(p.get(1).unwrap(), 7);
    assert_eq!(p.get(4), None);
}

#[test]
fn narrowing_change_bits_masks_values() {
    let mut p = PackedBits::<3, NativeEndian>::new(8);
    p.set(0, 0xab);
    p.set(1, 0x05);
    p.set(2, 0x13);
    p.change_bits(4);
    assert_eq!(p.get(0).unwrap(), 0x0b);
    assert_eq!(p.get(1).unwrap(), 0x05);
    assert_eq!(p.get(2).unwrap(), 0x03);
}

#[test]
fn swap_returns_previous_value() {
    let mut p = PackedBits::<4, NativeEndian>::new(5);
    p.set(2, 11);
    assert_eq!(p.swap(2, 19), Some(11));
    assert_eq!(p.get(2).unwrap(), 19);
    assert_eq!(p.swap(4, 1), None);
}

#[test]
fn iterator_yields_values_in_order() {
    let data = vec![3, 1, 4, 1, 5];
    let p = PackedBits::<5, NativeEndian>::with_data_unpacked(4, &data);
    let mut it = p.into_iter();
    for v in &data {
        assert_eq!(it.next(), Some(*v));
    }
    assert_eq!(it.next(), None);
}

#[test]
fn both_byte_orders_encode_the_same_bytes() {
    // width 16, four values per word; value 0 sits in the low bits
    let data = vec![0x0102u64, 0x0304, 0x0506, 0x0708];
    let ne = PackedBits::<4, NativeEndian>::with_data_unpacked(16, &data);
    let be = PackedBits::<4, BigEndian>::with_data_unpacked(16, &data);
    let word: u64 = 0x0102 | (0x0304u64 << 16) | (0x0506u64 << 32) | (0x0708u64 << 48);
    let expected: Vec<u8> = word.to_be_bytes().to_vec();
    let ne = PackedBitsNE::new(ne);
    let be = PackedBitsBE::new(be);
    assert_eq!(ne.encode(), expected);
    assert_eq!(be.encode(), expected);
}

#[test]
fn with_data_takes_packed_words() {
    // width 32: two values per word, low value first
    let words = vec![0x1111111122222222u64, 0x3333333344444444];
    let p = PackedBits::<4, NativeEndian>::with_data(32, &words);
    assert_eq!(p.get(0).unwrap(), 0x22222222);
    assert_eq!(p.get(1).unwrap(), 0x11111111);
    assert_eq!(p.get(2).unwrap(), 0x44444444);
    assert_eq!(p.get(3).unwrap(), 0x33333333);
}
