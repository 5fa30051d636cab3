//! Adaptive palette compression over a bit-packed index array.
//!
//! A palette container stores `N` logical `u64` values. A small set of
//! distinct values is mapped onto dense indices held in a
//! [`PackedBits`] array; the palette grows through the representations
//! SingleValue -> Linear -> Mapped -> Global (monotonically, never back) as
//! the set of distinct values expands. Value-to-index assignment order is
//! insertion order: the first value seen gets the lowest index, which makes
//! the wire form a function of the insertion history alone.

use crate::bitpack::{lemma_low_mask, low_mask, PackedBits};
use crate::byteorder::ByteOrderedU64;
use std::collections::BTreeMap;
use vstd::prelude::*;

verus! {

broadcast use crate::bitpack::lemma_view_len;

/// The representation a palette container currently uses.
#[derive(Clone, Copy, Debug, PartialEq, Eq, Structural)]
pub enum PaletteKind {
    /// One value for every slot; the index array is not materialized.
    SingleValue,
    /// A value list scanned linearly; indices are positions in the list.
    Linear,
    /// A value list plus a value-to-index map for faster resolution.
    Mapped,
    /// No palette: the stored index is the raw value itself.
    Global,
}

/// The observable palette state of a container: its representation kind, the
/// bit width of the backing index array (0 while a single value suffices),
/// and the palette's value list in first-seen order (empty in Global mode).
pub ghost struct PaletteState {
    pub kind: PaletteKind,
    pub width: u64,
    pub pal: Seq<u64>,
}

/// No value occurs twice.
pub open spec fn distinct_seq(s: Seq<u64>) -> bool {
    forall|i: int, j: int| 0 <= i < j < s.len() ==> s[i] != s[j]
}

/// The width of the index array a block-state container switches to when the
/// mapped palette overflows: wide enough for the whole block-state id space.
pub const STATE_GLOBAL_BITS: usize = 15;

/// The exclusive upper bound on values a state container in the given
/// palette state accepts without truncation.
pub open spec fn state_limit(s: PaletteState) -> u64 {
    if s.kind is Global {
        (1u64 << s.width) as u64
    } else {
        0x8000u64
    }
}

/// How one insert of value `v` evolves the palette state of a block-state
/// container: reuse a known value, extend the palette while there is room,
/// and otherwise grow Linear(4) -> Mapped(5) -> ... -> Mapped(8) -> Global(15),
/// discarding the palette on the final transition.
pub open spec fn state_insert_step(s: PaletteState, v: u64) -> PaletteState {
    match s.kind {
        PaletteKind::SingleValue => {
            if s.pal[0] == v {
                s
            } else {
                PaletteState { kind: PaletteKind::Linear, width: 4, pal: s.pal.push(v) }
            }
        },
        PaletteKind::Linear => {
            if s.pal.contains(v) {
                s
            } else if s.pal.len() < 16 {
                PaletteState { kind: PaletteKind::Linear, width: 4, pal: s.pal.push(v) }
            } else {
                PaletteState { kind: PaletteKind::Mapped, width: 5, pal: s.pal.push(v) }
            }
        },
        PaletteKind::Mapped => {
            if s.pal.contains(v) {
                s
            } else if s.pal.len() < (1u64 << s.width) {
                PaletteState { kind: PaletteKind::Mapped, width: s.width, pal: s.pal.push(v) }
            } else if s.width < 8 {
                PaletteState { kind: PaletteKind::Mapped, width: (s.width + 1) as u64, pal: s.pal.push(v) }
            } else {
                PaletteState { kind: PaletteKind::Global, width: 15, pal: Seq::empty() }
            }
        },
        PaletteKind::Global => s,
    }
}

/// How one insert of value `v` evolves the palette state of a biome
/// container: as the state container, but the only representations are
/// SingleValue and Linear, and the width grows 1 -> 2 -> 3 and no further.
pub open spec fn biome_insert_step(s: PaletteState, v: u64) -> PaletteState {
    match s.kind {
        PaletteKind::SingleValue => {
            if s.pal[0] == v {
                s
            } else {
                PaletteState { kind: PaletteKind::Linear, width: 1, pal: s.pal.push(v) }
            }
        },
        PaletteKind::Linear => {
            if s.pal.contains(v) {
                s
            } else if s.pal.len() < (1u64 << s.width) {
                PaletteState { kind: PaletteKind::Linear, width: s.width, pal: s.pal.push(v) }
            } else {
                PaletteState { kind: PaletteKind::Linear, width: (s.width + 1) as u64, pal: s.pal.push(v) }
            }
        },
        _ => s,
    }
}

/// A compressed container of `N` values resolved through a palette.
pub trait PaletteContainer<const N: usize>: Sized {
    /// Internal consistency of the container.
    spec fn wf(&self) -> bool;

    /// The `N` logical values, in slot order.
    spec fn contents(&self) -> Seq<u64>;

    /// The observable palette state.
    spec fn abs(&self) -> PaletteState;

    /// Whether `v` may be stored in the current state without truncation or
    /// palette overflow.
    spec fn can_store(&self, v: u64) -> bool;

    /// Whether `value` is acceptable as the initial single value.
    spec fn init_ok(value: u64) -> bool;

    /// Whether `with_bits` accepts this width/value pair.
    spec fn with_bits_ok(bits: usize, value: u64) -> bool;

    /// The palette state `with_bits` chooses for a width/value pair.
    spec fn with_bits_abs(bits: usize, value: u64) -> PaletteState;

    /// The palette-state evolution `set` promises: `post` is the abstract
    /// step of `pre` on the inserted value.
    spec fn stepped(pre: Self, post: Self, v: u64) -> bool;

    /// A container whose every slot holds `value`, in SingleValue mode.
    fn new(value: u64) -> (r: Self)
        requires
            Self::init_ok(value),
        ensures
            r.wf(),
            r.contents() == Seq::new(N as nat, |_i: int| value),
            r.abs() == (PaletteState {
                kind: PaletteKind::SingleValue,
                width: 0,
                pal: seq![value],
            }),
    ;

    /// A container whose every slot holds `value`, at a representation
    /// chosen from the requested index width.
    fn with_bits(bits: usize, value: u64) -> (r: Self)
        requires
            Self::with_bits_ok(bits, value),
        ensures
            r.wf(),
            r.contents() == Seq::new(N as nat, |_i: int| value),
            r.abs() == Self::with_bits_abs(bits, value),
    ;

    /// The value at slot `i`.
    fn get(&self, i: usize) -> (r: u64)
        requires
            self.wf(),
            i < N,
        ensures
            r == self.contents()[i as int],
    ;

    /// Stores `v` at slot `i`, growing the palette as needed; every other
    /// slot keeps its value across any growth or rebuild.
    fn set(&mut self, i: usize, v: u64)
        requires
            old(self).wf(),
            i < N,
            old(self).can_store(v),
        ensures
            final(self).wf(),
            final(self).contents() == old(self).contents().update(i as int, v),
            Self::stepped(*old(self), *final(self), v),
    ;

    /// Stores `v` at slot `i` and returns the value previously there.
    fn swap(&mut self, i: usize, v: u64) -> (r: u64)
        requires
            old(self).wf(),
            i < N,
            old(self).can_store(v),
        ensures
            final(self).wf(),
            r == old(self).contents()[i as int],
            final(self).contents() == old(self).contents().update(i as int, v),
            Self::stepped(*old(self), *final(self), v),
    ;
}

/// Small powers of two, once and for all.
proof fn lemma_pow_small()
    ensures
        1u64 << 0u64 == 1,
        1u64 << 1u64 == 2,
        1u64 << 2u64 == 4,
        1u64 << 3u64 == 8,
        1u64 << 4u64 == 16,
        1u64 << 5u64 == 32,
        1u64 << 6u64 == 64,
        1u64 << 7u64 == 128,
        1u64 << 8u64 == 256,
        1u64 << 15u64 == 32768,
{
    assert(1u64 << 0u64 == 1 && 1u64 << 1u64 == 2 && 1u64 << 2u64 == 4 && 1u64 << 3u64 == 8 && 1u64
        << 4u64 == 16 && 1u64 << 5u64 == 32 && 1u64 << 6u64 == 64 && 1u64 << 7u64 == 128 && 1u64
        << 8u64 == 256 && 1u64 << 15u64 == 32768) by (bit_vector);
}

/// The position of the first occurrence of `v`, if any.
fn find_index(values: &Vec<u64>, v: u64) -> (r: Option<usize>)
    ensures
        match r {
            Some(idx) => idx < values@.len() && values@[idx as int] == v,
            None => !values@.contains(v),
        },
{
    let len = values.len();
    let mut i = 0usize;
    while i < len
        invariant
            i <= len,
            len == values@.len(),
            forall|j: int| 0 <= j < i ==> values@[j] != v,
        decreases len - i,
    {
        if values[i] == v {
            return Some(i);
        }
        i += 1;
    }
    None
}

enum StatePalette<const N: usize, B: ByteOrderedU64> {
    SingleValue(u64),
    Linear { values: Vec<u64>, data: PackedBits<N, B> },
    Mapped { indices: BTreeMap<u64, usize>, values: Vec<u64>, data: PackedBits<N, B> },
    Global { data: PackedBits<N, B> },
}

/// Palette-compressed storage for `N` block states, growing through
/// SingleValue -> Linear(4) -> Mapped(5..8) -> Global(15).
pub struct StatePaletteContainer<const N: usize, B: ByteOrderedU64> {
    palette: StatePalette<N, B>,
}

impl<const N: usize, B: ByteOrderedU64> StatePaletteContainer<N, B> {
    /// The observable palette state of the representation.
    pub closed spec fn abs_spec(&self) -> PaletteState {
        match self.palette {
            StatePalette::SingleValue(v) => PaletteState {
                kind: PaletteKind::SingleValue,
                width: 0,
                pal: seq![v],
            },
            StatePalette::Linear { values, data } => PaletteState {
                kind: PaletteKind::Linear,
                width: 4,
                pal: values@,
            },
            StatePalette::Mapped { indices, values, data } => PaletteState {
                kind: PaletteKind::Mapped,
                width: data.width() as u64,
                pal: values@,
            },
            StatePalette::Global { data } => PaletteState {
                kind: PaletteKind::Global,
                width: data.width() as u64,
                pal: Seq::empty(),
            },
        }
    }

    /// The `N` logical values.
    pub closed spec fn contents_spec(&self) -> Seq<u64> {
        match self.palette {
            StatePalette::SingleValue(v) => Seq::new(N as nat, |_i: int| v),
            StatePalette::Linear { values, data } => Seq::new(
                N as nat,
                |i: int| values@[data@[i] as int],
            ),
            StatePalette::Mapped { indices, values, data } => Seq::new(
                N as nat,
                |i: int| values@[data@[i] as int],
            ),
            StatePalette::Global { data } => data@,
        }
    }

    /// Internal consistency: the index array is well-formed at the variant's
    /// width, every stored index resolves into the palette, the palette is
    /// duplicate-free, its values fit the global width, and in Mapped mode
    /// the index map mirrors the value list exactly.
    pub closed spec fn wf_spec(&self) -> bool {
        match self.palette {
            StatePalette::SingleValue(v) => v < 0x8000,
            StatePalette::Linear { values, data } => {
                &&& data.wf()
                &&& data.width() == 4
                &&& 1 <= values@.len() <= 16
                &&& distinct_seq(values@)
                &&& forall|i: int| 0 <= i < N ==> #[trigger] data@[i] < values@.len()
                &&& forall|j: int| 0 <= j < values@.len() ==> #[trigger] values@[j] < 0x8000
            },
            StatePalette::Mapped { indices, values, data } => {
                &&& data.wf()
                &&& 5 <= data.width() <= 8
                &&& 1 <= values@.len() <= (1u64 << (data.width() as u64))
                &&& distinct_seq(values@)
                &&& forall|i: int| 0 <= i < N ==> #[trigger] data@[i] < values@.len()
                &&& forall|j: int| 0 <= j < values@.len() ==> #[trigger] values@[j] < 0x8000
                &&& forall|j: int|
                    0 <= j < values@.len() ==> indices@.contains_key(#[trigger] values@[j])
                        && indices@[values@[j]] == j
                &&& forall|k: u64|
                    #[trigger] indices@.contains_key(k) ==> 0 <= indices@[k] < values@.len()
                        && values@[indices@[k] as int] == k
            },
            StatePalette::Global { data } => {
                &&& data.wf()
                &&& 9 <= data.width() <= 32
            },
        }
    }

    /// The current representation kind, for callers and tests.
    pub fn kind(&self) -> (r: PaletteKind)
        ensures
            r == self.abs().kind,
    {
        match &self.palette {
            StatePalette::SingleValue(..) => PaletteKind::SingleValue,
            StatePalette::Linear { .. } => PaletteKind::Linear,
            StatePalette::Mapped { .. } => PaletteKind::Mapped,
            StatePalette::Global { .. } => PaletteKind::Global,
        }
    }

    /// The current index-array width in bits (0 in SingleValue mode).
    pub fn bits(&self) -> (r: usize)
        requires
            self.wf(),
        ensures
            r as u64 == self.abs().width,
    {
        match &self.palette {
            StatePalette::SingleValue(..) => 0,
            StatePalette::Linear { .. } => 4,
            StatePalette::Mapped { data, .. } => data.bits(),
            StatePalette::Global { data } => data.bits(),
        }
    }
}

/// A power of two that fits a `usize`, as a run-time value.
fn pow2_small(bits: usize) -> (r: usize)
    requires
        bits <= 15,
    ensures
        r as u64 == (1u64 << (bits as u64)) as u64,
{
    proof {
        let b = bits as u64;
        assert((1usize << bits) as u64 == (1u64 << b) as u64) by (bit_vector)
            requires
                b <= 15,
                b == bits as u64,
        ;
    }
    1usize << bits
}

impl<const N: usize, B: ByteOrderedU64> PaletteContainer<N> for StatePaletteContainer<N, B> {
    open spec fn wf(&self) -> bool {
        self.wf_spec()
    }

    open spec fn contents(&self) -> Seq<u64> {
        self.contents_spec()
    }

    open spec fn abs(&self) -> PaletteState {
        self.abs_spec()
    }

    /// A value is storable when it is below the active limit: the global
    /// width's range once Global, the 15-bit block-state space before.
    open spec fn can_store(&self, v: u64) -> bool {
        v < state_limit(self.abs_spec())
    }

    /// The initial value must fit the 15-bit block-state space.
    open spec fn init_ok(value: u64) -> bool {
        value < 0x8000
    }

    /// Any width up to 32 is accepted; the value must fit the representation
    /// that width selects.
    open spec fn with_bits_ok(bits: usize, value: u64) -> bool {
        &&& bits <= 32
        &&& if bits <= 8 {
            value < 0x8000
        } else {
            value < (1u64 << (bits as u64))
        }
    }

    /// Width 0 stays single-valued; 1 to 4 selects Linear at width 4; 5 to
    /// 8 selects Mapped at that width; anything wider goes straight to
    /// Global.
    open spec fn with_bits_abs(bits: usize, value: u64) -> PaletteState {
        if bits == 0 {
            PaletteState { kind: PaletteKind::SingleValue, width: 0, pal: seq![value] }
        } else if bits <= 4 {
            PaletteState { kind: PaletteKind::Linear, width: 4, pal: seq![value] }
        } else if bits <= 8 {
            PaletteState { kind: PaletteKind::Mapped, width: bits as u64, pal: seq![value] }
        } else {
            PaletteState { kind: PaletteKind::Global, width: bits as u64, pal: Seq::empty() }
        }
    }

    open spec fn stepped(pre: Self, post: Self, v: u64) -> bool {
        post.abs_spec() == state_insert_step(pre.abs_spec(), v)
    }

    fn new(value: u64) -> (r: Self) {
        let r = StatePaletteContainer { palette: StatePalette::SingleValue(value) };
        proof {
            assert(r.contents_spec() =~= Seq::new(N as nat, |_i: int| value));
        }
        r
    }

    fn with_bits(bits: usize, value: u64) -> (r: Self) {
        proof {
            lemma_pow_small();
        }
        if bits == 0 {
            Self::new(value)
        } else if bits <= 4 {
            let mut values: Vec<u64> = Vec::new();
            values.push(value);
            let data: PackedBits<N, B> = PackedBits::new(4);
            let r = StatePaletteContainer { palette: StatePalette::Linear { values, data } };
            proof {
                assert(r.contents_spec() =~= Seq::new(N as nat, |_i: int| value));
            }
            r
        } else if bits <= 8 {
            let mut values: Vec<u64> = Vec::new();
            values.push(value);
            let mut indices: BTreeMap<u64, usize> = BTreeMap::new();
            let _ = indices.insert(value, 0);
            let data: PackedBits<N, B> = PackedBits::new(bits);
            let r = StatePaletteContainer {
                palette: StatePalette::Mapped { indices, values, data },
            };
            proof {
                assert(r.contents_spec() =~= Seq::new(N as nat, |_i: int| value));
            }
            r
        } else {
            let mut data: PackedBits<N, B> = PackedBits::new(bits);
            proof {
                lemma_low_mask(value, bits as u64);
            }
            let mut k = 0usize;
            while k < N
                invariant
                    k <= N,
                    data.wf(),
                    data.width() == bits,
                    1 <= bits <= 32,
                    value & low_mask(bits as u64) == value,
                    forall|j: int| 0 <= j < k ==> data@[j] == value,
                    forall|j: int| k <= j < N ==> data@[j] == 0u64,
                decreases N - k,
            {
                data.set_unchecked(k, value);
                k += 1;
            }
            let r = StatePaletteContainer { palette: StatePalette::Global { data } };
            proof {
                assert(r.contents_spec() =~= Seq::new(N as nat, |_i: int| value));
            }
            r
        }
    }

    fn get(&self, i: usize) -> (r: u64) {
        match &self.palette {
            StatePalette::SingleValue(v) => *v,
            StatePalette::Linear { values, data } => {
                let idx = data.get_unchecked(i);
                values[idx as usize]
            },
            StatePalette::Mapped { values, data, .. } => {
                let idx = data.get_unchecked(i);
                values[idx as usize]
            },
            StatePalette::Global { data } => data.get_unchecked(i),
        }
    }

    fn set(&mut self, i: usize, v: u64) {
        proof {
            lemma_pow_small();
        }
        let mut pal = StatePalette::SingleValue(0);
        std::mem::swap(&mut pal, &mut self.palette);
        match pal {
            StatePalette::SingleValue(val) => {
                if val == v {
                    self.palette = StatePalette::SingleValue(val);
                    proof {
                        assert(self.contents_spec() =~= old(self).contents_spec().update(
                            i as int,
                            v,
                        ));
                    }
                } else {
                    let mut values: Vec<u64> = Vec::new();
                    values.push(val);
                    values.push(v);
                    let mut data: PackedBits<N, B> = PackedBits::new(4);
                    proof {
                        lemma_low_mask(1, 4);
                    }
                    data.set_unchecked(i, 1);
                    self.palette = StatePalette::Linear { values, data };
                    proof {
                        assert(self.contents_spec() =~= old(self).contents_spec().update(
                            i as int,
                            v,
                        ));
                        assert(self.abs_spec().pal =~= state_insert_step(
                            old(self).abs_spec(),
                            v,
                        ).pal);
                    }
                }
            },
            StatePalette::Linear { mut values, mut data } => {
                match find_index(&values, v) {
                    Some(idx) => {
                        proof {
                            lemma_low_mask(idx as u64, 4);
                        }
                        data.set_unchecked(i, idx as u64);
                        self.palette = StatePalette::Linear { values, data };
                        proof {
                            assert(self.contents_spec() =~= old(self).contents_spec().update(
                                i as int,
                                v,
                            ));
                        }
                    },
                    None => {
                        if values.len() < 16 {
                            let idx = values.len();
                            values.push(v);
                            proof {
                                lemma_low_mask(idx as u64, 4);
                            }
                            data.set_unchecked(i, idx as u64);
                            self.palette = StatePalette::Linear { values, data };
                            proof {
                                assert(self.contents_spec() =~= old(self).contents_spec().update(
                                    i as int,
                                    v,
                                ));
                                assert(self.abs_spec().pal =~= state_insert_step(
                                    old(self).abs_spec(),
                                    v,
                                ).pal);
                            }
                        } else {
                            // the linear palette is full: rebuild as Mapped at
                            // width 5, then service the insert
                            let ghost data0 = data@;
                            data.change_bits(5);
                            proof {
                                assert forall|k: int| 0 <= k < N implies data@[k] == data0[k] by {
                                    lemma_low_mask(data0[k], 5);
                                }
                            }
                            let mut indices: BTreeMap<u64, usize> = BTreeMap::new();
                            let mut j = 0usize;
                            while j < values.len()
                                invariant
                                    j <= values@.len(),
                                    distinct_seq(values@),
                                    forall|t: int|
                                        0 <= t < j ==> indices@.contains_key(
                                            #[trigger] values@[t],
                                        ) && indices@[values@[t]] == t,
                                    forall|k: u64|
                                        #[trigger] indices@.contains_key(k) ==> 0 <= indices@[k]
                                            < j && values@[indices@[k] as int] == k,
                                decreases values@.len() - j,
                            {
                                let value_j = values[j];
                                let _ = indices.insert(value_j, j);
                                j += 1;
                            }
                            let idx = values.len();
                            values.push(v);
                            let _ = indices.insert(v, idx);
                            proof {
                                lemma_low_mask(idx as u64, 5);
                            }
                            data.set_unchecked(i, idx as u64);
                            self.palette = StatePalette::Mapped { indices, values, data };
                            proof {
                                assert(self.contents_spec() =~= old(self).contents_spec().update(
                                    i as int,
                                    v,
                                ));
                                assert(self.abs_spec().pal =~= state_insert_step(
                                    old(self).abs_spec(),
                                    v,
                                ).pal);
                            }
                        }
                    },
                }
            },
            StatePalette::Mapped { mut indices, mut values, mut data } => {
                let found: Option<usize> = match indices.get(&v) {
                    Some(x) => Some(*x),
                    None => None,
                };
                match found {
                    Some(idx) => {
                        proof {
                            lemma_low_mask(idx as u64, data.width() as u64);
                        }
                        data.set_unchecked(i, idx as u64);
                        self.palette = StatePalette::Mapped { indices, values, data };
                        proof {
                            assert(self.contents_spec() =~= old(self).contents_spec().update(
                                i as int,
                                v,
                            ));
                        }
                    },
                    None => {
                        let w = data.bits();
                        let cap = pow2_small(w);
                        if values.len() >= cap && w < 8 {
                            // the mapped palette is full but may widen by one
                            let ghost data0 = data@;
                            data.change_bits(w + 1);
                            proof {
                                assert forall|k: int| 0 <= k < N implies data@[k] == data0[k] by {
                                    lemma_low_mask(data0[k], (w + 1) as u64);
                                    assert((1u64 << (w as u64)) < (1u64 << ((w + 1) as u64)))
                                        by (bit_vector)
                                        requires
                                            5 <= w <= 8,
                                    ;
                                }
                            }
                            let idx = values.len();
                            values.push(v);
                            let _ = indices.insert(v, idx);
                            proof {
                                lemma_low_mask(idx as u64, (w + 1) as u64);
                                assert((1u64 << (w as u64)) < (1u64 << ((w + 1) as u64)))
                                    by (bit_vector)
                                    requires
                                        5 <= w <= 8,
                                ;
                            }
                            data.set_unchecked(i, idx as u64);
                            self.palette = StatePalette::Mapped { indices, values, data };
                            proof {
                                assert(self.contents_spec() =~= old(self).contents_spec().update(
                                    i as int,
                                    v,
                                ));
                                assert(self.abs_spec().pal =~= state_insert_step(
                                    old(self).abs_spec(),
                                    v,
                                ).pal);
                            }
                        } else if values.len() < cap {
                            let idx = values.len();
                            values.push(v);
                            let _ = indices.insert(v, idx);
                            proof {
                                lemma_low_mask(idx as u64, data.width() as u64);
                            }
                            data.set_unchecked(i, idx as u64);
                            self.palette = StatePalette::Mapped { indices, values, data };
                            proof {
                                assert(self.contents_spec() =~= old(self).contents_spec().update(
                                    i as int,
                                    v,
                                ));
                                assert(self.abs_spec().pal =~= state_insert_step(
                                    old(self).abs_spec(),
                                    v,
                                ).pal);
                            }
                        } else {
                            // width 8 and full: discard the palette and
                            // re-store every slot at the global width
                            let mut nd: PackedBits<N, B> = PackedBits::new(
                                STATE_GLOBAL_BITS,
                            );
                            let mut k = 0usize;
                            while k < N
                                invariant
                                    k <= N,
                                    i < N,
                                    nd.wf(),
                                    nd.width() == 15,
                                    data.wf(),
                                    5 <= data.width() <= 8,
                                    values@.len() >= 1,
                                    forall|t: int| 0 <= t < N ==> #[trigger] data@[t] < values@.len(),
                                    forall|t: int|
                                        0 <= t < values@.len() ==> #[trigger] values@[t] < 0x8000,
                                    forall|t: int|
                                        0 <= t < k ==> #[trigger] nd@[t] == values@[data@[t] as int],
                                    forall|t: int| k <= t < N ==> #[trigger] nd@[t] == 0u64,
                                decreases N - k,
                            {
                                let idx = data.get_unchecked(k);
                                let value = values[idx as usize];
                                proof {
                                    lemma_pow_small();
                                    lemma_low_mask(value, 15);
                                }
                                nd.set_unchecked(k, value);
                                k += 1;
                            }
                            proof {
                                lemma_low_mask(v, 15);
                            }
                            nd.set_unchecked(i, v);
                            self.palette = StatePalette::Global { data: nd };
                            proof {
                                assert(self.contents_spec() =~= old(self).contents_spec().update(
                                    i as int,
                                    v,
                                ));
                                assert(self.abs_spec().pal =~= state_insert_step(
                                    old(self).abs_spec(),
                                    v,
                                ).pal);
                            }
                        }
                    },
                }
            },
            StatePalette::Global { mut data } => {
                proof {
                    lemma_low_mask(v, data.width() as u64);
                }
                data.set_unchecked(i, v);
                self.palette = StatePalette::Global { data };
                proof {
                    assert(self.contents_spec() =~= old(self).contents_spec().update(i as int, v));
                }
            },
        }
    }

    fn swap(&mut self, i: usize, v: u64) -> (r: u64) {
        let r = self.get(i);
        self.set(i, v);
        r
    }
}

enum BiomePalette<const N: usize, B: ByteOrderedU64> {
    SingleValue(u64),
    Linear { values: Vec<u64>, data: PackedBits<N, B> },
}

/// Palette-compressed storage for `N` biome ids, growing through
/// SingleValue -> Linear at widths 1 to 3; the biome id domain is small
/// enough that no Mapped or Global representation exists, so at most eight
/// distinct values fit.
pub struct BiomePaletteContainer<const N: usize, B: ByteOrderedU64> {
    palette: BiomePalette<N, B>,
}

impl<const N: usize, B: ByteOrderedU64> BiomePaletteContainer<N, B> {
    /// The observable palette state of the representation.
    pub closed spec fn abs_spec(&self) -> PaletteState {
        match self.palette {
            BiomePalette::SingleValue(v) => PaletteState {
                kind: PaletteKind::SingleValue,
                width: 0,
                pal: seq![v],
            },
            BiomePalette::Linear { values, data } => PaletteState {
                kind: PaletteKind::Linear,
                width: data.width() as u64,
                pal: values@,
            },
        }
    }

    /// The `N` logical values.
    pub closed spec fn contents_spec(&self) -> Seq<u64> {
        match self.palette {
            BiomePalette::SingleValue(v) => Seq::new(N as nat, |_i: int| v),
            BiomePalette::Linear { values, data } => Seq::new(
                N as nat,
                |i: int| values@[data@[i] as int],
            ),
        }
    }

    /// Internal consistency: the index array is well-formed at a width of 1
    /// to 3, every stored index resolves into the palette, and the palette
    /// is duplicate-free.
    pub closed spec fn wf_spec(&self) -> bool {
        match self.palette {
            BiomePalette::SingleValue(v) => true,
            BiomePalette::Linear { values, data } => {
                &&& data.wf()
                &&& 1 <= data.width() <= 3
                &&& 1 <= values@.len() <= (1u64 << (data.width() as u64))
                &&& distinct_seq(values@)
                &&& forall|i: int| 0 <= i < N ==> #[trigger] data@[i] < values@.len()
            },
        }
    }

    /// The current representation kind, for callers and tests.
    pub fn kind(&self) -> (r: PaletteKind)
        ensures
            r == self.abs().kind,
    {
        match &self.palette {
            BiomePalette::SingleValue(..) => PaletteKind::SingleValue,
            BiomePalette::Linear { .. } => PaletteKind::Linear,
        }
    }

    /// The current index-array width in bits (0 in SingleValue mode).
    pub fn bits(&self) -> (r: usize)
        requires
            self.wf(),
        ensures
            r as u64 == self.abs().width,
    {
        match &self.palette {
            BiomePalette::SingleValue(..) => 0,
            BiomePalette::Linear { data, .. } => data.bits(),
        }
    }

    /// As [`PaletteContainer::with_bits`]; the width obligation (at most 3
    /// bits) rests on the caller.
    pub fn with_bits_unchecked(bits: usize, value: u64) -> (r: Self)
        requires
            bits <= 3,
        ensures
            r.wf(),
            r.contents() == Seq::new(N as nat, |_i: int| value),
            r.abs() == Self::with_bits_abs(bits, value),
    {
        Self::with_bits(bits, value)
    }
}

impl<const N: usize, B: ByteOrderedU64> PaletteContainer<N> for BiomePaletteContainer<N, B> {
    open spec fn wf(&self) -> bool {
        self.wf_spec()
    }

    open spec fn contents(&self) -> Seq<u64> {
        self.contents_spec()
    }

    open spec fn abs(&self) -> PaletteState {
        self.abs_spec()
    }

    /// A value is storable when the palette already holds it or still has
    /// room somewhere below the eight-value ceiling.
    open spec fn can_store(&self, v: u64) -> bool {
        self.abs_spec().pal.contains(v) || self.abs_spec().pal.len() < 8
    }

    /// Any initial value is acceptable.
    open spec fn init_ok(value: u64) -> bool {
        true
    }

    /// The width may not exceed 3 bits.
    open spec fn with_bits_ok(bits: usize, value: u64) -> bool {
        bits <= 3
    }

    /// Width 0 stays single-valued; 1 to 3 selects Linear at that width.
    open spec fn with_bits_abs(bits: usize, value: u64) -> PaletteState {
        if bits == 0 {
            PaletteState { kind: PaletteKind::SingleValue, width: 0, pal: seq![value] }
        } else {
            PaletteState { kind: PaletteKind::Linear, width: bits as u64, pal: seq![value] }
        }
    }

    open spec fn stepped(pre: Self, post: Self, v: u64) -> bool {
        post.abs_spec() == biome_insert_step(pre.abs_spec(), v)
    }

    fn new(value: u64) -> (r: Self) {
        let r = BiomePaletteContainer { palette: BiomePalette::SingleValue(value) };
        proof {
            assert(r.contents_spec() =~= Seq::new(N as nat, |_i: int| value));
        }
        r
    }

    fn with_bits(bits: usize, value: u64) -> (r: Self) {
        proof {
            lemma_pow_small();
        }
        if bits == 0 {
            Self::new(value)
        } else {
            let mut values: Vec<u64> = Vec::new();
            values.push(value);
            let data: PackedBits<N, B> = PackedBits::new(bits);
            let r = BiomePaletteContainer { palette: BiomePalette::Linear { values, data } };
            proof {
                assert(r.contents_spec() =~= Seq::new(N as nat, |_i: int| value));
            }
            r
        }
    }

    fn get(&self, i: usize) -> (r: u64) {
        proof {
            lemma_pow_small();
        }
        match &self.palette {
            BiomePalette::SingleValue(v) => *v,
            BiomePalette::Linear { values, data } => {
                let idx = data.get_unchecked(i);
                values[idx as usize]
            },
        }
    }

    fn set(&mut self, i: usize, v: u64) {
        proof {
            lemma_pow_small();
        }
        let mut pal = BiomePalette::SingleValue(0);
        std::mem::swap(&mut pal, &mut self.palette);
        match pal {
            BiomePalette::SingleValue(val) => {
                if val == v {
                    self.palette = BiomePalette::SingleValue(val);
                    proof {
                        assert(self.contents_spec() =~= old(self).contents_spec().update(
                            i as int,
                            v,
                        ));
                    }
                } else {
                    let mut values: Vec<u64> = Vec::new();
                    values.push(val);
                    values.push(v);
                    let mut data: PackedBits<N, B> = PackedBits::new(1);
                    proof {
                        lemma_low_mask(1, 1);
                    }
                    data.set_unchecked(i, 1);
                    self.palette = BiomePalette::Linear { values, data };
                    proof {
                        assert(self.contents_spec() =~= old(self).contents_spec().update(
                            i as int,
                            v,
                        ));
                        assert(self.abs_spec().pal =~= biome_insert_step(
                            old(self).abs_spec(),
                            v,
                        ).pal);
                    }
                }
            },
            BiomePalette::Linear { mut values, mut data } => {
                match find_index(&values, v) {
                    Some(idx) => {
                        proof {
                            lemma_low_mask(idx as u64, data.width() as u64);
                        }
                        data.set_unchecked(i, idx as u64);
                        self.palette = BiomePalette::Linear { values, data };
                        proof {
                            assert(self.contents_spec() =~= old(self).contents_spec().update(
                                i as int,
                                v,
                            ));
                        }
                    },
                    None => {
                        let w = data.bits();
                        let cap = pow2_small(w);
                        if values.len() >= cap {
                            // the palette is full; `can_store` leaves room
                            // below the eight-value ceiling, so the width is
                            // still below 3 and may grow by one
                            proof {
                                let w64 = w as u64;
                                assert(w64 < 3) by (bit_vector)
                                    requires
                                        1 <= w64 <= 3,
                                        (1u64 << w64) < 8,
                                ;
                            }
                            let ghost data0 = data@;
                            data.change_bits(w + 1);
                            proof {
                                assert forall|k: int| 0 <= k < N implies data@[k] == data0[k] by {
                                    lemma_low_mask(data0[k], (w + 1) as u64);
                                    assert((1u64 << (w as u64)) < (1u64 << ((w + 1) as u64)))
                                        by (bit_vector)
                                        requires
                                            1 <= w <= 3,
                                    ;
                                }
                            }
                            let idx = values.len();
                            values.push(v);
                            proof {
                                lemma_low_mask(idx as u64, (w + 1) as u64);
                                assert((1u64 << (w as u64)) < (1u64 << ((w + 1) as u64)))
                                    by (bit_vector)
                                    requires
                                        1 <= w <= 3,
                                ;
                            }
                            data.set_unchecked(i, idx as u64);
                            self.palette = BiomePalette::Linear { values, data };
                            proof {
                                assert(self.contents_spec() =~= old(self).contents_spec().update(
                                    i as int,
                                    v,
                                ));
                                assert(self.abs_spec().pal =~= biome_insert_step(
                                    old(self).abs_spec(),
                                    v,
                                ).pal);
                            }
                        } else {
                            let idx = values.len();
                            values.push(v);
                            proof {
                                lemma_low_mask(idx as u64, data.width() as u64);
                            }
                            data.set_unchecked(i, idx as u64);
                            self.palette = BiomePalette::Linear { values, data };
                            proof {
                                assert(self.contents_spec() =~= old(self).contents_spec().update(
                                    i as int,
                                    v,
                                ));
                                assert(self.abs_spec().pal =~= biome_insert_step(
                                    old(self).abs_spec(),
                                    v,
                                ).pal);
                            }
                        }
                    },
                }
            },
        }
    }

    fn swap(&mut self, i: usize, v: u64) -> (r: u64) {
        let r = self.get(i);
        self.set(i, v);
        r
    }
}

/// The invariants of the abstract palette state of a block-state container.
pub open spec fn state_abs_wf(s: PaletteState) -> bool {
    &&& distinct_seq(s.pal)
    &&& match s.kind {
        PaletteKind::SingleValue => s.width == 0 && s.pal.len() == 1,
        PaletteKind::Linear => s.width == 4 && 1 <= s.pal.len() <= 16,
        PaletteKind::Mapped => 5 <= s.width <= 8 && 1 <= s.pal.len() <= (1u64 << s.width),
        PaletteKind::Global => 9 <= s.width <= 32 && s.pal.len() == 0,
    }
}

/// The invariants of the abstract palette state of a biome container.
pub open spec fn biome_abs_wf(s: PaletteState) -> bool {
    &&& distinct_seq(s.pal)
    &&& match s.kind {
        PaletteKind::SingleValue => s.width == 0 && s.pal.len() == 1,
        PaletteKind::Linear => 1 <= s.width <= 3 && 1 <= s.pal.len() <= (1u64 << s.width),
        _ => false,
    }
}

impl<const N: usize, B: ByteOrderedU64> StatePaletteContainer<N, B> {
    /// A well-formed container has a well-formed abstract palette state.
    pub proof fn lemma_abs_wf(&self)
        requires
            self.wf(),
        ensures
            state_abs_wf(self.abs()),
    {
    }
}

impl<const N: usize, B: ByteOrderedU64> BiomePaletteContainer<N, B> {
    /// A well-formed container has a well-formed abstract palette state.
    pub proof fn lemma_abs_wf(&self)
        requires
            self.wf(),
        ensures
            biome_abs_wf(self.abs()),
    {
    }
}

/// How many distinct values a palette state's representation can hold.
pub open spec fn state_capacity(s: PaletteState) -> int {
    match s.kind {
        PaletteKind::SingleValue => 1,
        PaletteKind::Linear => 16,
        PaletteKind::Mapped => (1u64 << s.width) as int,
        PaletteKind::Global => (1u64 << s.width) as int,
    }
}

/// Palette monotonicity for the block-state container: an insert never
/// shrinks the index width or the capacity, the state stays well formed,
/// and the inserted value is representable afterwards — growth cannot fail.
pub proof fn lemma_state_growth_monotonic(s: PaletteState, v: u64)
    requires
        state_abs_wf(s),
    ensures
        state_abs_wf(state_insert_step(s, v)),
        state_insert_step(s, v).width >= s.width,
        state_capacity(state_insert_step(s, v)) >= state_capacity(s),
        state_insert_step(s, v).kind is Global || state_insert_step(s, v).pal.contains(v),
{
    lemma_pow_small();
    let post = state_insert_step(s, v);
    if !(s.kind is Global) && !s.pal.contains(v) && !(post.kind is Global) {
        assert(post.pal[s.pal.len() as int] == v);
        if s.kind is SingleValue && s.pal[0] == v {
            assert(s.pal.contains(v));
        }
    }
    match s.kind {
        PaletteKind::Mapped => {
            if !s.pal.contains(v) {
                if s.pal.len() < (1u64 << s.width) {
                } else if s.width < 8 {
                    let w = s.width;
                    assert((1u64 << w) < (1u64 << (w + 1) as u64) && (1u64 << w) + 1 <= (1u64 << (
                    w + 1) as u64)) by (bit_vector)
                        requires
                            5 <= w < 8,
                    ;
                }
            }
        },
        _ => {},
    }
}

/// Palette monotonicity for the biome container, on the inserts its
/// eight-value ceiling admits.
pub proof fn lemma_biome_growth_monotonic(s: PaletteState, v: u64)
    requires
        biome_abs_wf(s),
        s.pal.contains(v) || s.pal.len() < 8,
    ensures
        biome_abs_wf(biome_insert_step(s, v)),
        biome_insert_step(s, v).width >= s.width,
        biome_insert_step(s, v).pal.contains(v),
{
    lemma_pow_small();
    let post = biome_insert_step(s, v);
    if !s.pal.contains(v) {
        assert(post.pal[s.pal.len() as int] == v);
        if s.kind is SingleValue && s.pal[0] == v {
            assert(s.pal.contains(v));
        }
    }
    if s.kind is Linear && !s.pal.contains(v) && s.pal.len() >= (1u64 << s.width) {
        let w = s.width;
        assert(w < 3) by (bit_vector)
            requires
                1 <= w <= 3,
                (1u64 << w) < 8,
        ;
        assert((1u64 << w) + 1 <= (1u64 << (w + 1) as u64)) by (bit_vector)
            requires
                1 <= w < 3,
        ;
    }
}

/// The slot contents after a sequence of writes, each an index paired with
/// the value written there. This is exactly what `set` promises slot-wise,
/// for either container.
pub open spec fn run_writes(c: Seq<u64>, ops: Seq<(int, u64)>) -> Seq<u64>
    decreases ops.len(),
{
    if ops.len() == 0 {
        c
    } else {
        run_writes(c.update(ops[0].0, ops[0].1), ops.skip(1))
    }
}

/// The palette state of a block-state container after inserting a sequence
/// of values, as `set` promises step by step.
pub open spec fn run_state_palette(s: PaletteState, vs: Seq<u64>) -> PaletteState
    decreases vs.len(),
{
    if vs.len() == 0 {
        s
    } else {
        run_state_palette(state_insert_step(s, vs[0]), vs.skip(1))
    }
}

/// Every write lands inside the contents.
pub open spec fn writes_in_range(c: Seq<u64>, ops: Seq<(int, u64)>) -> bool {
    forall|u: int| 0 <= u < ops.len() ==> 0 <= (#[trigger] ops[u]).0 < c.len()
}

/// Shifting past the first write keeps the rest in range.
proof fn lemma_writes_in_range_skip(c: Seq<u64>, ops: Seq<(int, u64)>)
    requires
        ops.len() > 0,
        writes_in_range(c, ops),
    ensures
        writes_in_range(c.update(ops[0].0, ops[0].1), ops.skip(1)),
{
    let c1 = c.update(ops[0].0, ops[0].1);
    assert forall|u: int| 0 <= u < ops.skip(1).len() implies 0 <= (#[trigger] ops.skip(1)[u]).0
        < c1.len() by {
        assert(ops.skip(1)[u] == ops[u + 1]);
    }
}

/// Writes do not change the length of the contents.
pub proof fn lemma_run_writes_len(c: Seq<u64>, ops: Seq<(int, u64)>)
    requires
        writes_in_range(c, ops),
    ensures
        run_writes(c, ops).len() == c.len(),
    decreases ops.len(),
{
    if ops.len() > 0 {
        lemma_writes_in_range_skip(c, ops);
        lemma_run_writes_len(c.update(ops[0].0, ops[0].1), ops.skip(1));
    }
}

/// A slot no write touches keeps its value.
pub proof fn lemma_run_writes_untouched(c: Seq<u64>, ops: Seq<(int, u64)>, k: int)
    requires
        writes_in_range(c, ops),
        0 <= k < c.len(),
        forall|u: int| 0 <= u < ops.len() ==> (#[trigger] ops[u]).0 != k,
    ensures
        run_writes(c, ops)[k] == c[k],
    decreases ops.len(),
{
    if ops.len() > 0 {
        assert(ops[0].0 != k);
        assert forall|u: int| 0 <= u < ops.skip(1).len() implies (#[trigger] ops.skip(1)[u]).0
            != k by {
            assert(ops.skip(1)[u] == ops[u + 1]);
        }
        lemma_writes_in_range_skip(c, ops);
        lemma_run_writes_untouched(c.update(ops[0].0, ops[0].1), ops.skip(1), k);
    }
}

/// No corruption across transitions: after any sequence of writes, a slot
/// holds the value of the last write that touched it, whatever palette
/// growth happened in between — `set` promises exactly one slot update per
/// call while it grows and rebuilds the representation.
pub proof fn lemma_run_writes_last_write(c: Seq<u64>, ops: Seq<(int, u64)>, t: int)
    requires
        writes_in_range(c, ops),
        0 <= t < ops.len(),
        forall|u: int| t < u < ops.len() ==> (#[trigger] ops[u]).0 != ops[t].0,
    ensures
        run_writes(c, ops)[ops[t].0] == ops[t].1,
    decreases ops.len(),
{
    let c1 = c.update(ops[0].0, ops[0].1);
    lemma_writes_in_range_skip(c, ops);
    if t == 0 {
        assert forall|u: int| 0 <= u < ops.skip(1).len() implies (#[trigger] ops.skip(1)[u]).0
            != ops[0].0 by {
            assert(ops.skip(1)[u] == ops[u + 1]);
        }
        lemma_run_writes_untouched(c1, ops.skip(1), ops[0].0);
    } else {
        assert(ops.skip(1)[t - 1] == ops[t]);
        assert forall|u: int| t - 1 < u < ops.skip(1).len() implies (#[trigger] ops.skip(1)[u]).0
            != ops.skip(1)[t - 1].0 by {
            assert(ops.skip(1)[u] == ops[u + 1]);
        }
        lemma_run_writes_last_write(c1, ops.skip(1), t - 1);
    }
}

/// Determinism: two containers fed the same writes from equal observable
/// states end in equal observable states. `set` pins each step to
/// `state_insert_step` (or `biome_insert_step`) and one slot update, and
/// the wire form of a container is a function of this observable state, so
/// independently constructed containers with the same insertion order
/// produce bit-identical output.
pub proof fn lemma_determinism(
    s1: PaletteState,
    c1: Seq<u64>,
    s2: PaletteState,
    c2: Seq<u64>,
    vs: Seq<u64>,
    ops: Seq<(int, u64)>,
)
    requires
        s1 == s2,
        c1 == c2,
    ensures
        run_state_palette(s1, vs) == run_state_palette(s2, vs),
        run_writes(c1, ops) == run_writes(c2, ops),
{
}


} // verus!
