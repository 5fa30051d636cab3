use craftrs_level::byteorder::NativeEndian;
use craftrs_level::palette::{
    BiomePaletteContainer, PaletteContainer, PaletteKind, StatePaletteContainer,
};

#[test]
fn state() {
    let mut data = Vec::new();
    for i in 0..512 {
        data.push(i)
    }
    data.reverse();
    let mut container = StatePaletteContainer::<512, NativeEndian>::new(0);
    for i in 0..512 {
        container.set(i, data[i]);
        assert_eq!(container.get(i), data[i]);
        for j in 0..=i {
            assert_eq!(container.get(j), data[j])
        }
    }
}

#[test]
fn biome() {
    let data = vec![7, 6, 5, 4, 3, 2, 1, 0];
    let mut container = BiomePaletteContainer::<8, NativeEndian>::new(0);
    for i in 0..8 {
        container.set(i, data[i]);
        assert_eq!(container.get(i), data[i]);
        for j in 0..=i {
            assert_eq!(container.get(j), data[j])
        }
    }
}

#[test]
fn linear_then_mapped_scenario() {
    // a single-value container over 4096 slots; the first insert matches the
    // initial value, so the 16th distinct value exactly fills the linear
    // palette, and the 17th forces the mapped representation
    let mut c = StatePaletteContainer::<4096, NativeEndian>::new(1);
    for i in 0..16usize {
        c.set(i, (i + 1) as u64);
    }
    assert_eq!(c.kind(), PaletteKind::Linear);
    assert_eq!(c.bits(), 4);
    for i in 0..16usize {
        assert_eq!(c.get(i), (i + 1) as u64);
    }
    c.set(16, 17);
    assert_eq!(c.kind(), PaletteKind::Mapped);
    assert_eq!(c.bits(), 5);
    for i in 0..16usize {
        assert_eq!(c.get(i), (i + 1) as u64);
    }
    assert_eq!(c.get(16), 17);
}

#[test]
fn state_width_never_shrinks() {
    let mut c = StatePaletteContainer::<4096, NativeEndian>::new(0);
    let mut last_bits = c.bits();
    for i in 0..600usize {
        c.set(i, i as u64);
        let bits = c.bits();
        assert!(bits >= last_bits);
        last_bits = bits;
    }
    // 600 distinct values exceed the 8-bit mapped ceiling
    assert_eq!(c.kind(), PaletteKind::Global);
    assert_eq!(c.bits(), 15);
}

#[test]
fn biome_width_never_shrinks() {
    // the initial value counts toward the eight-value ceiling, so reuse it
    // as the first insert; the width steps 0 -> 1 -> 2 -> 3
    let mut c = BiomePaletteContainer::<64, NativeEndian>::new(200);
    let mut last_bits = c.bits();
    for i in 0..8usize {
        c.set(i, 200 + i as u64);
        let bits = c.bits();
        assert!(bits >= last_bits);
        last_bits = bits;
    }
    assert_eq!(c.kind(), PaletteKind::Linear);
    assert_eq!(c.bits(), 3);
    for i in 0..8usize {
        assert_eq!(c.get(i), 200 + i as u64);
    }
}

#[test]
fn same_insertion_order_gives_identical_observables() {
    let writes: Vec<(usize, u64)> = vec![(0, 9), (5, 700), (1, 9), (2, 31000), (5, 4), (3, 5)];
    let mut a = StatePaletteContainer::<64, NativeEndian>::new(0);
    let mut b = StatePaletteContainer::<64, NativeEndian>::new(0);
    for (i, v) in &writes {
        a.set(*i, *v);
        b.set(*i, *v);
    }
    assert_eq!(a.kind(), b.kind());
    assert_eq!(a.bits(), b.bits());
    for i in 0..64usize {
        assert_eq!(a.get(i), b.get(i));
    }
}

#[test]
fn state_with_bits_picks_the_representation() {
    let c = StatePaletteContainer::<16, NativeEndian>::with_bits(0, 7);
    assert_eq!(c.kind(), PaletteKind::SingleValue);
    assert_eq!(c.get(3), 7);

    let c = StatePaletteContainer::<16, NativeEndian>::with_bits(3, 7);
    assert_eq!(c.kind(), PaletteKind::Linear);
    assert_eq!(c.bits(), 4);
    assert_eq!(c.get(3), 7);

    let c = StatePaletteContainer::<16, NativeEndian>::with_bits(6, 7);
    assert_eq!(c.kind(), PaletteKind::Mapped);
    assert_eq!(c.bits(), 6);
    assert_eq!(c.get(3), 7);

    let c = StatePaletteContainer::<16, NativeEndian>::with_bits(15, 7);
    assert_eq!(c.kind(), PaletteKind::Global);
    assert_eq!(c.bits(), 15);
    assert_eq!(c.get(3), 7);
}

#[test]
fn biome_with_bits_unchecked_seeds_the_value() {
    let c = BiomePaletteContainer::<4, NativeEndian>::with_bits_unchecked(2, 42);
    assert_eq!(c.kind(), PaletteKind::Linear);
    assert_eq!(c.bits(), 2);
    for i in 0..4usize {
        assert_eq!(c.get(i), 42);
    }
}

#[test]
fn swap_returns_the_previous_slot_value() {
    let mut c = StatePaletteContainer::<8, NativeEndian>::new(3);
    assert_eq!(c.swap(2, 11), 3);
    assert_eq!(c.swap(2, 12), 11);
    assert_eq!(c.get(2), 12);

    let mut b = BiomePaletteContainer::<8, NativeEndian>::new(3);
    assert_eq!(b.swap(1, 9), 3);
    assert_eq!(b.get(1), 9);
}
