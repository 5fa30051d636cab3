//! Chunk sections and columns, with the per-protocol-version codecs that
//! read and write their historical binary layouts.
//!
//! The legacy pre-flattening layout stores, per present section and in
//! canonical order: a 4096-byte block-id array, 2048 bytes of metadata
//! nibbles, 2048 bytes of block-light nibbles, optionally 2048 bytes of
//! sky-light nibbles, optionally 2048 bytes of "add" nibbles extending the
//! block id range; the column's 256 biome bytes follow the sections. The
//! combined layout stores one little-endian 16-bit id+metadata value per
//! voxel instead of the two parallel arrays and has no add array. Presence
//! of sections and optional sub-arrays is governed by 16-bit masks, one bit
//! per section slot, least-significant bit first.

use crate::containers::{
    le_bytes, nibble_at, Block49, BlockArray49, ByteArray, HalfByteArray, ReadContainer,
};
use vstd::prelude::*;
use vstd::slice::slice_index_get;

verus! {

broadcast use vstd::seq_lib::group_seq_properties;

/// Why a cursor-based decode failed.
#[derive(Clone, Copy, Debug, PartialEq, Eq, Structural)]
pub enum DecodeError {
    /// The remaining input is shorter than the layout requires.
    UnexpectedEndOfSlice,
}

/// Why a column encode failed.
#[derive(Clone, Copy, Debug, PartialEq, Eq, Structural)]
pub enum EncodeError {
    /// The compression stream reported an error.
    Compression,
}

/// Bit `idx` (least significant bit first) of a 16-bit mask.
pub open spec fn spec_bit_at(val: u16, idx: u8) -> bool {
    (val >> (idx as u16)) & 1 != 0
}

/// Reads bit `idx` of a presence bitmask, least significant bit first.
pub fn bit_at(val: u16, idx: u8) -> (r: bool)
    requires
        idx <= 0x0f,
    ensures
        r == spec_bit_at(val, idx),
{
    (val >> idx) & 0b1 != 0
}

/// Setting bit `i` of a mask leaves every other bit as it was.
proof fn lemma_u16_set_bit(m: u16, i: u8)
    requires
        i < 16,
    ensures
        forall|k: u8| k < 16 ==> #[trigger] spec_bit_at(m | (1u16 << (i as u16)), k) == (k == i
            || spec_bit_at(m, k)),
{
    assert(forall|k: u16, i: u16|
        k < 16 && i < 16 ==> #[trigger] (((m | (1u16 << i)) >> k) & 1) == (if k == i {
            1u16
        } else {
            (m >> k) & 1
        })) by (bit_vector);
}

/// Every bit of the zero mask is clear.
proof fn lemma_u16_zero_bits()
    ensures
        forall|k: u8| k < 16 ==> !spec_bit_at(0u16, k),
{
    assert(forall|k: u16| k < 16 ==> ((0u16 >> k) & 1) == 0u16) by (bit_vector);
}

/// Appends all of `src` to `out`.
fn push_bytes(out: &mut Vec<u8>, src: &Vec<u8>)
    ensures
        final(out)@ == old(out)@ + src@,
{
    let len = src.len();
    let mut k = 0usize;
    while k < len
        invariant
            k <= len,
            len == src@.len(),
            out@ == old(out)@ + src@.take(k as int),
        decreases len - k,
    {
        let b = src[k];
        out.push(b);
        proof {
            assert(out@ =~= old(out)@ + src@.take(k + 1));
        }
        k += 1;
    }
    proof {
        assert(out@ =~= old(out)@ + src@);
    }
}

/// Copies `n` bytes starting at `pos` out of `data` into a fresh vector.
fn take_bytes(data: &[u8], pos: usize, n: usize) -> (r: Vec<u8>)
    requires
        pos + n <= data@.len(),
    ensures
        r@ == data@.subrange(pos as int, pos as int + n as int),
{
    let dlen = data.len();
    let mut r: Vec<u8> = Vec::new();
    let mut k = 0usize;
    while k < n
        invariant
            k <= n,
            dlen == data@.len(),
            pos + n <= dlen,
            r@ == data@.subrange(pos as int, pos as int + k as int),
        decreases n - k,
    {
        let b = *slice_index_get(data, pos + k);
        r.push(b);
        proof {
            assert(r@ =~= data@.subrange(pos as int, pos as int + (k + 1)));
        }
        k += 1;
    }
    r
}

/// The byte cost of one legacy-layout section for an optional-array
/// configuration: blocks, metadata nibbles, block light, then sky light and
/// the add array only when present.
pub open spec fn section0_size(skylight: bool, add: bool) -> int {
    4096 + 2048 + 2048 + (if skylight {
        2048 as int
    } else {
        0 as int
    }) + (if add {
        2048 as int
    } else {
        0 as int
    })
}

/// A 16x16x16 section in the legacy layout: parallel block-id, metadata and
/// light arrays, with optional sky-light and add arrays.
#[derive(Clone)]
pub struct ChunkSection0 {
    blocks: ByteArray<4096>,
    metadata: HalfByteArray<2048>,
    light: HalfByteArray<2048>,
    skylight: Option<HalfByteArray<2048>>,
    add: Option<HalfByteArray<2048>>,
}

impl ChunkSection0 {
    /// Internal consistency of all sub-arrays.
    pub closed spec fn wf(&self) -> bool {
        &&& self.blocks.wf()
        &&& self.metadata.wf()
        &&& self.light.wf()
        &&& match self.skylight {
            Some(s) => s.wf(),
            None => true,
        }
        &&& match self.add {
            Some(a) => a.wf(),
            None => true,
        }
    }

    /// The block-id bytes.
    pub closed spec fn blocks_spec(&self) -> Seq<u8> {
        self.blocks@
    }

    /// The packed metadata nibble bytes.
    pub closed spec fn metadata_spec(&self) -> Seq<u8> {
        self.metadata@
    }

    /// The packed block-light nibble bytes.
    pub closed spec fn light_spec(&self) -> Seq<u8> {
        self.light@
    }

    /// The packed sky-light nibble bytes, when the section stores them.
    pub closed spec fn skylight_spec(&self) -> Option<Seq<u8>> {
        match self.skylight {
            Some(s) => Some(s@),
            None => None,
        }
    }

    /// The packed add nibble bytes, when the section stores them.
    pub closed spec fn add_spec(&self) -> Option<Seq<u8>> {
        match self.add {
            Some(a) => Some(a@),
            None => None,
        }
    }

    /// The section's wire form: its sub-arrays in canonical order.
    pub open spec fn enc_spec(&self) -> Seq<u8> {
        self.blocks_spec() + self.metadata_spec() + self.light_spec() + (match self.skylight_spec() {
            Some(s) => s,
            None => Seq::empty(),
        }) + (match self.add_spec() {
            Some(a) => a,
            None => Seq::empty(),
        })
    }

    /// Wraps already-separated sub-arrays of the exact required lengths.
    pub fn from_slices(
        blocks: Vec<u8>,
        metadata: Vec<u8>,
        light: Vec<u8>,
        skylight: Option<Vec<u8>>,
        add: Option<Vec<u8>>,
    ) -> (r: Self)
        requires
            blocks@.len() == 4096,
            metadata@.len() == 2048,
            light@.len() == 2048,
            match skylight {
                Some(s) => s@.len() == 2048,
                None => true,
            },
            match add {
                Some(a) => a@.len() == 2048,
                None => true,
            },
        ensures
            r.wf(),
            r.blocks_spec() == blocks@,
            r.metadata_spec() == metadata@,
            r.light_spec() == light@,
            r.skylight_spec() == (match skylight {
                Some(s) => Some(s@),
                None => None::<Seq<u8>>,
            }),
            r.add_spec() == (match add {
                Some(a) => Some(a@),
                None => None::<Seq<u8>>,
            }),
    {
        ChunkSection0 {
            blocks: ByteArray::from_vec(blocks),
            metadata: HalfByteArray::from_vec(metadata),
            light: HalfByteArray::from_vec(light),
            skylight: match skylight {
                Some(s) => Some(HalfByteArray::from_vec(s)),
                None => None,
            },
            add: match add {
                Some(a) => Some(HalfByteArray::from_vec(a)),
                None => None,
            },
        }
    }

    /// A zero-filled section with the requested optional arrays.
    pub fn new_zeroed(skylight: bool, add: bool) -> (r: Self)
        ensures
            r.wf(),
            r.blocks_spec() == Seq::new(4096, |_i: int| 0u8),
            r.metadata_spec() == Seq::new(2048, |_i: int| 0u8),
            r.light_spec() == Seq::new(2048, |_i: int| 0u8),
            r.skylight_spec() == (if skylight {
                Some(Seq::new(2048, |_i: int| 0u8))
            } else {
                None::<Seq<u8>>
            }),
            r.add_spec() == (if add {
                Some(Seq::new(2048, |_i: int| 0u8))
            } else {
                None::<Seq<u8>>
            }),
    {
        ChunkSection0 {
            blocks: ByteArray::new_zeroed(),
            metadata: HalfByteArray::new_zeroed(),
            light: HalfByteArray::new_zeroed(),
            skylight: if skylight {
                Some(HalfByteArray::new_zeroed())
            } else {
                None
            },
            add: if add {
                Some(HalfByteArray::new_zeroed())
            } else {
                None
            },
        }
    }

    /// Decodes one section from `data` at `pos`, consuming exactly the bytes
    /// its optional-array configuration requires; returns the section and
    /// the position after it.
    pub fn from_bytes(data: &[u8], pos: usize, skylight: bool, add: bool) -> (r: (Self, usize))
        requires
            pos + section0_size(skylight, add) <= data@.len(),
        ensures
            r.0.wf(),
            r.1 == pos + section0_size(skylight, add),
            r.0.blocks_spec() == data@.subrange(pos as int, pos + 4096),
            r.0.metadata_spec() == data@.subrange(pos + 4096, pos + 6144),
            r.0.light_spec() == data@.subrange(pos + 6144, pos + 8192),
            r.0.skylight_spec() == (if skylight {
                Some(data@.subrange(pos + 8192, pos + 10240))
            } else {
                None::<Seq<u8>>
            }),
            r.0.add_spec() == (if add {
                let off = pos + 8192 + (if skylight {
                    2048 as int
                } else {
                    0 as int
                });
                Some(data@.subrange(off, off + 2048))
            } else {
                None::<Seq<u8>>
            }),
            r.0.enc_spec() == data@.subrange(pos as int, pos + section0_size(skylight, add)),
    {
        let dlen = data.len();
        let blocks = take_bytes(data, pos, 4096);
        let mut p = pos + 4096;
        let metadata = take_bytes(data, p, 2048);
        p += 2048;
        let light = take_bytes(data, p, 2048);
        p += 2048;
        let skylight_v = if skylight {
            let s = take_bytes(data, p, 2048);
            p += 2048;
            Some(s)
        } else {
            None
        };
        let add_v = if add {
            let a = take_bytes(data, p, 2048);
            p += 2048;
            Some(a)
        } else {
            None
        };
        let r = Self::from_slices(blocks, metadata, light, skylight_v, add_v);
        proof {
            assert(r.enc_spec() =~= data@.subrange(
                pos as int,
                pos + section0_size(skylight, add),
            ));
        }
        (r, p)
    }

    /// Serializes the sub-arrays in canonical order.
    pub fn encode(&self) -> (r: Vec<u8>)
        requires
            self.wf(),
        ensures
            r@ == self.enc_spec(),
    {
        let mut out: Vec<u8> = Vec::new();
        push_bytes(&mut out, self.blocks.bytes());
        push_bytes(&mut out, self.metadata.bytes());
        push_bytes(&mut out, self.light.bytes());
        if let Some(s) = &self.skylight {
            push_bytes(&mut out, s.bytes());
        }
        if let Some(a) = &self.add {
            push_bytes(&mut out, a.bytes());
        }
        proof {
            assert(out@ =~= self.enc_spec());
        }
        out
    }

    /// The block-id array.
    pub fn blocks(&self) -> (r: &ByteArray<4096>)
        ensures
            r@ == self.blocks_spec(),
    {
        &self.blocks
    }

    /// The metadata nibble array.
    pub fn metadata(&self) -> (r: &HalfByteArray<2048>)
        ensures
            r@ == self.metadata_spec(),
    {
        &self.metadata
    }

    /// The block-light nibble array.
    pub fn light(&self) -> (r: &HalfByteArray<2048>)
        ensures
            r@ == self.light_spec(),
    {
        &self.light
    }

    /// The sky-light nibble array, when present.
    pub fn skylight(&self) -> (r: Option<&HalfByteArray<2048>>)
        ensures
            match r {
                Some(s) => self.skylight_spec() == Some(s@),
                None => self.skylight_spec() is None,
            },
    {
        match &self.skylight {
            Some(s) => Some(s),
            None => None,
        }
    }

    /// The block-id array, for in-place mutation.
    pub fn blocks_mut(&mut self) -> (r: &mut ByteArray<4096>)
        ensures
            r@ == old(self).blocks_spec(),
            old(self).wf() ==> r.wf(),
            final(self).blocks_spec() == final(r)@,
            final(self).metadata_spec() == old(self).metadata_spec(),
            final(self).light_spec() == old(self).light_spec(),
            final(self).skylight_spec() == old(self).skylight_spec(),
            final(self).add_spec() == old(self).add_spec(),
            old(self).wf() && final(r).wf() ==> final(self).wf(),
    {
        &mut self.blocks
    }

    /// The metadata nibble array, for in-place mutation.
    pub fn metadata_mut(&mut self) -> (r: &mut HalfByteArray<2048>)
        ensures
            r@ == old(self).metadata_spec(),
            old(self).wf() ==> r.wf(),
            final(self).metadata_spec() == final(r)@,
            final(self).blocks_spec() == old(self).blocks_spec(),
            final(self).light_spec() == old(self).light_spec(),
            final(self).skylight_spec() == old(self).skylight_spec(),
            final(self).add_spec() == old(self).add_spec(),
            old(self).wf() && final(r).wf() ==> final(self).wf(),
    {
        &mut self.metadata
    }

    /// The block-light nibble array, for in-place mutation.
    pub fn light_mut(&mut self) -> (r: &mut HalfByteArray<2048>)
        ensures
            r@ == old(self).light_spec(),
            old(self).wf() ==> r.wf(),
            final(self).light_spec() == final(r)@,
            final(self).blocks_spec() == old(self).blocks_spec(),
            final(self).metadata_spec() == old(self).metadata_spec(),
            final(self).skylight_spec() == old(self).skylight_spec(),
            final(self).add_spec() == old(self).add_spec(),
            old(self).wf() && final(r).wf() ==> final(self).wf(),
    {
        &mut self.light
    }

    /// The add nibble array, when present.
    pub fn add(&self) -> (r: Option<&HalfByteArray<2048>>)
        ensures
            match r {
                Some(a) => self.add_spec() == Some(a@),
                None => self.add_spec() is None,
            },
    {
        match &self.add {
            Some(a) => Some(a),
            None => None,
        }
    }
}

/// The byte cost of one legacy-layout section, as a run-time value.
fn section0_size_exec(skylight: bool, add: bool) -> (r: usize)
    ensures
        r == section0_size(skylight, add),
{
    4096 + 2048 + 2048 + (if skylight {
        2048
    } else {
        0
    }) + (if add {
        2048
    } else {
        0
    })
}

/// The bytes the first `k` section slots of a legacy column cost, for the
/// given presence masks and sky-light flag.
pub open spec fn col0_sum_upto(bitmask: u16, add: u16, sky: bool, k: int) -> int
    decreases k,
{
    if k <= 0 {
        0
    } else {
        col0_sum_upto(bitmask, add, sky, k - 1) + (if spec_bit_at(bitmask, (k - 1) as u8) {
            section0_size(sky, spec_bit_at(add, (k - 1) as u8))
        } else {
            0
        })
    }
}

/// The exact byte cost of decoding a whole legacy column: its present
/// sections followed by the 256 biome bytes.
pub open spec fn col0_required(bitmask: u16, add: u16, sky: bool) -> int {
    col0_sum_upto(bitmask, add, sky, 16) + 256
}

/// The per-slot byte costs are bounded and monotone.
proof fn lemma_col0_sum_bounds(bitmask: u16, add: u16, sky: bool, k: int)
    requires
        0 <= k <= 16,
    ensures
        0 <= col0_sum_upto(bitmask, add, sky, k) <= 12288 * k,
        col0_sum_upto(bitmask, add, sky, k) <= col0_sum_upto(bitmask, add, sky, 16),
    decreases 16 - k,
{
    lemma_col0_sum_bounds_low(bitmask, add, sky, k);
    if k < 16 {
        lemma_col0_sum_bounds(bitmask, add, sky, k + 1);
    }
}

/// Lower half of the bound: the sum up to `k` is nonnegative and small.
proof fn lemma_col0_sum_bounds_low(bitmask: u16, add: u16, sky: bool, k: int)
    requires
        0 <= k,
    ensures
        0 <= col0_sum_upto(bitmask, add, sky, k) <= 12288 * k,
    decreases k,
{
    if k > 0 {
        lemma_col0_sum_bounds_low(bitmask, add, sky, k - 1);
    }
}

/// A legacy-layout column: up to 16 sections plus 256 biome bytes. All
/// present sections store sky light exactly when the column-wide flag says
/// so; the add array is tracked per section.
#[derive(Clone)]
pub struct ChunkColumn0 {
    skylight: bool,
    sections: Vec<Option<ChunkSection0>>,
    biomes: ByteArray<256>,
}

impl ChunkColumn0 {
    /// Whether this column's sections store sky light.
    pub closed spec fn skylight_spec(&self) -> bool {
        self.skylight
    }

    /// The 16 section slots.
    pub closed spec fn secs(&self) -> Seq<Option<ChunkSection0>> {
        self.sections@
    }

    /// The column's biome bytes.
    pub closed spec fn biomes_spec(&self) -> Seq<u8> {
        self.biomes@
    }

    /// Internal consistency: exactly 16 slots, well-formed sub-structures,
    /// and sky-light presence in every present section equal to the
    /// column-wide flag.
    pub closed spec fn wf(&self) -> bool {
        &&& self.sections@.len() == 16
        &&& self.biomes.wf()
        &&& forall|i: int|
            0 <= i < 16 ==> match #[trigger] self.sections@[i] {
                Some(s) => s.wf() && (s.skylight_spec() is Some <==> self.skylight),
                None => true,
            }
    }

    /// The wire form of the first `k` section slots, in ascending order.
    pub open spec fn enc_upto(&self, k: int) -> Seq<u8>
        decreases k,
    {
        if k <= 0 {
            Seq::empty()
        } else {
            self.enc_upto(k - 1) + (match self.secs()[k - 1] {
                Some(s) => s.enc_spec(),
                None => Seq::empty(),
            })
        }
    }

    /// The column's uncompressed wire form: each present section's bytes in
    /// ascending slot order, then the biome bytes.
    pub open spec fn enc_raw_spec(&self) -> Seq<u8> {
        self.enc_upto(16) + self.biomes_spec()
    }

    /// Returns a bool indicating if this column stores sky light data.
    pub fn skylight(&self) -> (r: bool)
        ensures
            r == self.skylight_spec(),
    {
        self.skylight
    }

    /// Gets a reference to the section if it exists.
    pub fn section(&self, section: usize) -> (r: Option<&ChunkSection0>)
        requires
            section < 16,
            self.wf(),
        ensures
            match r {
                Some(s) => self.secs()[section as int] == Some(*s),
                None => self.secs()[section as int] is None,
            },
    {
        match &self.sections[section] {
            Some(s) => Some(s),
            None => None,
        }
    }

    /// Gets a mutable reference to the section if it exists.
    pub fn section_mut(&mut self, section: usize) -> (r: Option<&mut ChunkSection0>)
        requires
            section < 16,
            old(self).wf(),
        ensures
            r is Some <==> old(self).secs()[section as int] is Some,
            r is None ==> final(self).secs() == old(self).secs() && final(self).skylight_spec()
                == old(self).skylight_spec() && final(self).biomes_spec() == old(self).biomes_spec(),
            r matches Some(s) ==> old(self).secs()[section as int] == Some(*s) && final(self).secs() == old(self).secs().update(section as int, Some(*final(s))) && final(self).skylight_spec() == old(self).skylight_spec() && final(self).biomes_spec() == old(self).biomes_spec(),
    {
        let present = match &self.sections[section] {
            Some(..) => true,
            None => false,
        };
        if !present {
            return None;
        }
        let elem = self.sections[section].as_mut();
        match elem {
            Some(s) => Some(s),
            None => {
                proof {
                    assert(false);
                }
                None
            },
        }
    }

    /// Creates a new all-zero section in an empty slot, sized for the
    /// requested add-array configuration and the column's sky-light flag.
    pub fn insert_section(&mut self, section: usize, add: bool)
        requires
            old(self).wf(),
            section < 16,
            old(self).secs()[section as int] is None,
        ensures
            final(self).wf(),
            final(self).skylight_spec() == old(self).skylight_spec(),
            final(self).biomes_spec() == old(self).biomes_spec(),
            final(self).secs().len() == 16,
            forall|j: int|
                0 <= j < 16 && j != section ==> final(self).secs()[j] == old(self).secs()[j],
            final(self).secs()[section as int] matches Some(s) && s.blocks_spec() == Seq::new(
                4096,
                |_i: int| 0u8,
            ) && s.metadata_spec() == Seq::new(2048, |_i: int| 0u8) && s.light_spec() == Seq::new(
                2048,
                |_i: int| 0u8,
            ) && (s.skylight_spec() is Some <==> old(self).skylight_spec()) && (s.add_spec()
                is Some <==> add),
    {
        let s = ChunkSection0::new_zeroed(self.skylight, add);
        self.sections.set(section, Some(s));
    }

    /// Adds a zeroed add array to a section that exists and lacks one.
    pub fn insert_add(&mut self, section: usize)
        requires
            old(self).wf(),
            section < 16,
            old(self).secs()[section as int] matches Some(s) && s.add_spec() is None,
        ensures
            final(self).wf(),
            final(self).skylight_spec() == old(self).skylight_spec(),
            final(self).biomes_spec() == old(self).biomes_spec(),
            forall|j: int|
                0 <= j < 16 && j != section ==> final(self).secs()[j] == old(self).secs()[j],
            final(self).secs()[section as int] matches Some(s) && {
                let o = old(self).secs()[section as int].unwrap();
                &&& s.blocks_spec() == o.blocks_spec()
                &&& s.metadata_spec() == o.metadata_spec()
                &&& s.light_spec() == o.light_spec()
                &&& s.skylight_spec() == o.skylight_spec()
                &&& s.add_spec() == Some(Seq::new(2048, |_i: int| 0u8))
            },
    {
        let mut slot: Option<ChunkSection0> = None;
        std::mem::swap(&mut slot, &mut self.sections[section]);
        match slot {
            Some(mut s) => {
                s.add = Some(HalfByteArray::new_zeroed());
                self.sections.set(section, Some(s));
            },
            None => {
                proof {
                    assert(false);
                }
            },
        }
    }

    /// Derives the add-presence bitmask from the sections that currently
    /// hold an add array.
    pub fn construct_add(&self) -> (r: u16)
        requires
            self.wf(),
        ensures
            forall|k: u8|
                k < 16 ==> (#[trigger] spec_bit_at(r, k) <==> (self.secs()[k as int] matches Some(
                    s,
                ) && s.add_spec() is Some)),
    {
        proof {
            lemma_u16_zero_bits();
        }
        let mut bitmask: u16 = 0;
        let mut i: u8 = 0;
        while i < 16
            invariant
                i <= 16,
                self.wf(),
                forall|k: u8|
                    k < i ==> (#[trigger] spec_bit_at(bitmask, k) <==> (self.secs()[k as int]
                        matches Some(s) && s.add_spec() is Some)),
                forall|k: u8| i <= k < 16 ==> !(#[trigger] spec_bit_at(bitmask, k)),
            decreases 16 - i,
        {
            let has = match &self.sections[i as usize] {
                Some(s) => s.add().is_some(),
                None => false,
            };
            if has {
                proof {
                    lemma_u16_set_bit(bitmask, i);
                }
                bitmask = bitmask | (1u16 << (i as u16));
            }
            i += 1;
        }
        bitmask
    }

    /// Constructs the primary bitmask for this chunk column: bit `i` is set
    /// exactly when slot `i` holds a section.
    pub fn construct_bitmask(&self) -> (r: u16)
        requires
            self.wf(),
        ensures
            forall|k: u8|
                k < 16 ==> (#[trigger] spec_bit_at(r, k) <==> self.secs()[k as int] is Some),
    {
        proof {
            lemma_u16_zero_bits();
        }
        let mut bitmask: u16 = 0;
        let mut i: u8 = 0;
        while i < 16
            invariant
                i <= 16,
                self.wf(),
                forall|k: u8|
                    k < i ==> (#[trigger] spec_bit_at(bitmask, k) <==> self.secs()[k as int]
                        is Some),
                forall|k: u8| i <= k < 16 ==> !(#[trigger] spec_bit_at(bitmask, k)),
            decreases 16 - i,
        {
            let present = match &self.sections[i as usize] {
                Some(..) => true,
                None => false,
            };
            if present {
                proof {
                    lemma_u16_set_bit(bitmask, i);
                }
                bitmask = bitmask | (1u16 << (i as u16));
            }
            i += 1;
        }
        bitmask
    }
}

/// What a successful legacy-column decode guarantees: presence matches the
/// bitmask, each present section's wire bytes sit at their canonical offset
/// in the input, its optional arrays match the masks, and the biome bytes
/// follow the sections.
pub open spec fn col0_parsed(
    col: ChunkColumn0,
    bytes: Seq<u8>,
    pos: int,
    sky: bool,
    bitmask: u16,
    add: u16,
) -> bool {
    &&& col.wf()
    &&& col.skylight_spec() == sky
    &&& forall|i: int|
        0 <= i < 16 ==> ((#[trigger] col.secs()[i]) is Some <==> spec_bit_at(bitmask, i as u8))
    &&& forall|i: int|
        0 <= i < 16 ==> match #[trigger] col.secs()[i] {
            Some(s) => {
                &&& s.enc_spec() == bytes.subrange(
                    pos + col0_sum_upto(bitmask, add, sky, i),
                    pos + col0_sum_upto(bitmask, add, sky, i + 1),
                )
                &&& (s.add_spec() is Some <==> spec_bit_at(add, i as u8))
            },
            None => true,
        }
    &&& col.biomes_spec() == bytes.subrange(
        pos + col0_sum_upto(bitmask, add, sky, 16),
        pos + col0_sum_upto(bitmask, add, sky, 16) + 256,
    )
}

impl ChunkColumn0 {
    /// Decodes a whole column: for each of the 16 slots in ascending order,
    /// if its existence bit is set, one section consuming exactly the bytes
    /// its (sky-light, add) configuration requires, then the 256 biome
    /// bytes. Fails, consuming nothing, exactly when the input is shorter
    /// than that; returns the column and the position after it.
    pub fn from_reader(data: &[u8], pos: usize, skylight: bool, bitmask: u16, add: u16) -> (r:
        Result<(Self, usize), DecodeError>)
        ensures
            r is Ok <==> pos + col0_required(bitmask, add, skylight) <= data@.len(),
            r matches Ok((col, p)) ==> p == pos + col0_required(bitmask, add, skylight)
                && col0_parsed(col, data@, pos as int, skylight, bitmask, add),
            r matches Err(e) ==> e == DecodeError::UnexpectedEndOfSlice,
    {
        let dlen = data.len();
        // the exact byte cost of this bitmask configuration
        let mut size: usize = 0;
        let mut i: u8 = 0;
        while i < 16
            invariant
                i <= 16,
                size == col0_sum_upto(bitmask, add, skylight, i as int),
                size <= 12288 * i,
            decreases 16 - i,
        {
            if bit_at(bitmask, i) {
                size += section0_size_exec(skylight, bit_at(add, i));
            }
            i += 1;
        }
        if !(pos <= dlen && dlen - pos >= size && dlen - pos - size >= 256) {
            return Err(DecodeError::UnexpectedEndOfSlice);
        }
        let mut sections: Vec<Option<ChunkSection0>> = Vec::new();
        let mut p = pos;
        let mut i: u8 = 0;
        while i < 16
            invariant
                i <= 16,
                dlen == data@.len(),
                pos + col0_required(bitmask, add, skylight) <= dlen,
                size == col0_sum_upto(bitmask, add, skylight, 16),
                p == pos + col0_sum_upto(bitmask, add, skylight, i as int),
                sections@.len() == i,
                forall|j: int|
                    0 <= j < i ==> ((#[trigger] sections@[j]) is Some <==> spec_bit_at(
                        bitmask,
                        j as u8,
                    )),
                forall|j: int|
                    0 <= j < i ==> match #[trigger] sections@[j] {
                        Some(s) => {
                            &&& s.wf()
                            &&& (s.skylight_spec() is Some <==> skylight)
                            &&& (s.add_spec() is Some <==> spec_bit_at(add, j as u8))
                            &&& s.enc_spec() == data@.subrange(
                                pos + col0_sum_upto(bitmask, add, skylight, j),
                                pos + col0_sum_upto(bitmask, add, skylight, j + 1),
                            )
                        },
                        None => true,
                    },
            decreases 16 - i,
        {
            proof {
                lemma_col0_sum_bounds(bitmask, add, skylight, i as int);
                lemma_col0_sum_bounds(bitmask, add, skylight, i as int + 1);
            }
            if bit_at(bitmask, i) {
                let (s, np) = ChunkSection0::from_bytes(data, p, skylight, bit_at(add, i));
                sections.push(Some(s));
                p = np;
            } else {
                sections.push(None);
            }
            i += 1;
        }
        let biomes = take_bytes(data, p, 256);
        let col = ChunkColumn0 { skylight, sections, biomes: ByteArray::from_vec(biomes) };
        Ok((col, p + 256))
    }

    /// Serializes the column without compression: each present section in
    /// ascending slot order, then the biome bytes.
    pub fn encode_raw(&self) -> (r: Vec<u8>)
        requires
            self.wf(),
        ensures
            r@ == self.enc_raw_spec(),
    {
        let mut out: Vec<u8> = Vec::new();
        let mut i: u8 = 0;
        while i < 16
            invariant
                i <= 16,
                self.wf(),
                out@ == self.enc_upto(i as int),
            decreases 16 - i,
        {
            match &self.sections[i as usize] {
                Some(s) => {
                    let e = s.encode();
                    push_bytes(&mut out, &e);
                },
                None => {},
            }
            i += 1;
        }
        push_bytes(&mut out, self.biomes.bytes());
        out
    }

    /// Serializes the column through the zlib stream used by the legacy
    /// network format: the output is exactly the compressed form of
    /// [`Self::encode_raw`]'s bytes. Compressing into memory cannot fail,
    /// so success is guaranteed; the typed error remains the shape a
    /// writer-backed caller propagates.
    pub fn encode(&self) -> (r: Result<Vec<u8>, EncodeError>)
        requires
            self.wf(),
        ensures
            r is Ok,
            r matches Ok(out) ==> out@ == zlib_of(self.enc_raw_spec()),
    {
        let raw = self.encode_raw();
        match zlib_compress(&raw) {
            Some(c) => Ok(c),
            None => {
                proof {
                    assert(false);
                }
                Err(EncodeError::Compression)
            },
        }
    }
}

/// The zlib-compressed form of a byte sequence, at this crate's fixed
/// compression settings.
pub uninterp spec fn zlib_of(bytes: Seq<u8>) -> Seq<u8>;

/// Relies on flate2's ZlibEncoder writing into a Vec at the fixed fastest
/// compression level: the compressed stream is a function of the input
/// bytes alone, and the call cannot fail — a Vec sink never returns a write
/// error, and the deflate error statuses are unreachable when compressing
/// with valid parameters, so `write_all` and `finish` always return `Ok`.
#[verifier::external_body]
fn zlib_compress(data: &Vec<u8>) -> (r: Option<Vec<u8>>)
    ensures
        r is Some,
        r matches Some(c) ==> c@ == zlib_of(data@),
{
    let mut enc = flate2::write::ZlibEncoder::new(Vec::new(), flate2::Compression::fast());
    if std::io::Write::write_all(&mut enc, data.as_slice()).is_err() {
        return None;
    }
    match enc.finish() {
        Ok(v) => Some(v),
        Err(_) => None,
    }
}

/// Decode/encode round trip: a column decoded from a buffer re-encodes to
/// exactly the bytes it consumed, field order and padding preserved.
pub proof fn lemma_col0_round_trip(
    col: ChunkColumn0,
    bytes: Seq<u8>,
    pos: int,
    sky: bool,
    bitmask: u16,
    add: u16,
)
    requires
        0 <= pos,
        pos + col0_required(bitmask, add, sky) <= bytes.len(),
        col0_parsed(col, bytes, pos, sky, bitmask, add),
    ensures
        col.enc_raw_spec() == bytes.subrange(pos, pos + col0_required(bitmask, add, sky)),
{
    lemma_col0_sum_bounds(bitmask, add, sky, 16);
    lemma_col0_enc_upto(col, bytes, pos, sky, bitmask, add, 16);
    assert(col.enc_raw_spec() =~= bytes.subrange(pos, pos + col0_required(bitmask, add, sky)));
}

/// The first `k` slots of a parsed column re-encode to the bytes they were
/// decoded from.
proof fn lemma_col0_enc_upto(
    col: ChunkColumn0,
    bytes: Seq<u8>,
    pos: int,
    sky: bool,
    bitmask: u16,
    add: u16,
    k: int,
)
    requires
        0 <= pos,
        0 <= k <= 16,
        pos + col0_required(bitmask, add, sky) <= bytes.len(),
        col0_parsed(col, bytes, pos, sky, bitmask, add),
    ensures
        col.enc_upto(k) == bytes.subrange(pos, pos + col0_sum_upto(bitmask, add, sky, k)),
    decreases k,
{
    lemma_col0_sum_bounds(bitmask, add, sky, k);
    if k == 0 {
        assert(col.enc_upto(0) =~= bytes.subrange(pos, pos));
    } else {
        lemma_col0_enc_upto(col, bytes, pos, sky, bitmask, add, k - 1);
        lemma_col0_sum_bounds(bitmask, add, sky, k - 1);
        assert(col.enc_upto(k) =~= bytes.subrange(pos, pos + col0_sum_upto(bitmask, add, sky, k)));
    }
}

/// The byte cost of one combined-layout section: 4096 little-endian 16-bit
/// id+metadata values, block-light nibbles, and sky-light nibbles when
/// present.
pub open spec fn section47_size(skylight: bool) -> int {
    8192 + 2048 + (if skylight {
        2048 as int
    } else {
        0 as int
    })
}

/// The byte cost of one combined-layout section, as a run-time value.
fn section47_size_exec(skylight: bool) -> (r: usize)
    ensures
        r == section47_size(skylight),
{
    8192 + 2048 + (if skylight {
        2048
    } else {
        0
    })
}

/// A 16x16x16 section in the combined layout: one 16-bit id+metadata value
/// per voxel, block light, and optional sky light.
#[derive(Clone)]
pub struct ChunkSection47 {
    blocks: BlockArray49<4096>,
    light: HalfByteArray<2048>,
    skylight: Option<HalfByteArray<2048>>,
}

impl ChunkSection47 {
    /// Internal consistency of all sub-arrays.
    pub closed spec fn wf(&self) -> bool {
        &&& self.blocks.wf()
        &&& self.light.wf()
        &&& match self.skylight {
            Some(s) => s.wf(),
            None => true,
        }
    }

    /// The combined id+metadata blocks.
    pub closed spec fn blocks_spec(&self) -> Seq<Block49> {
        self.blocks@
    }

    /// The packed block-light nibble bytes.
    pub closed spec fn light_spec(&self) -> Seq<u8> {
        self.light@
    }

    /// The packed sky-light nibble bytes, when the section stores them.
    pub closed spec fn skylight_spec(&self) -> Option<Seq<u8>> {
        match self.skylight {
            Some(s) => Some(s@),
            None => None,
        }
    }

    /// The section's wire form: blocks as little-endian 16-bit values, then
    /// light, then sky light when present.
    pub open spec fn enc_spec(&self) -> Seq<u8> {
        le_bytes(self.blocks_spec()) + self.light_spec() + (match self.skylight_spec() {
            Some(s) => s,
            None => Seq::empty(),
        })
    }

    /// Wraps already-separated sub-arrays: 8192 raw block bytes, 2048 light
    /// bytes, and 2048 sky-light bytes when present.
    pub fn from_slices(blocks: Vec<u8>, light: Vec<u8>, skylight: Option<Vec<u8>>) -> (r: Self)
        requires
            blocks@.len() == 8192,
            light@.len() == 2048,
            match skylight {
                Some(s) => s@.len() == 2048,
                None => true,
            },
        ensures
            r.wf(),
            le_bytes(r.blocks_spec()) == blocks@,
            r.light_spec() == light@,
            r.skylight_spec() == (match skylight {
                Some(s) => Some(s@),
                None => None::<Seq<u8>>,
            }),
    {
        ChunkSection47 {
            blocks: BlockArray49::from_le_bytes(blocks.as_slice()),
            light: HalfByteArray::from_vec(light),
            skylight: match skylight {
                Some(s) => Some(HalfByteArray::from_vec(s)),
                None => None,
            },
        }
    }

    /// A zero-filled section, with sky light when requested.
    pub fn new_zeroed(skylight: bool) -> (r: Self)
        ensures
            r.wf(),
            r.blocks_spec().len() == 4096,
            forall|j: int| 0 <= j < 4096 ==> (#[trigger] r.blocks_spec()[j]).raw() == 0u16,
            r.light_spec() == Seq::new(2048, |_i: int| 0u8),
            r.skylight_spec() == (if skylight {
                Some(Seq::new(2048, |_i: int| 0u8))
            } else {
                None::<Seq<u8>>
            }),
    {
        ChunkSection47 {
            blocks: BlockArray49::new_zeroed(),
            light: HalfByteArray::new_zeroed(),
            skylight: if skylight {
                Some(HalfByteArray::new_zeroed())
            } else {
                None
            },
        }
    }

    /// Decodes one section from `data` at `pos`, consuming exactly the
    /// bytes its sky-light configuration requires.
    pub fn from_bytes(data: &[u8], pos: usize, skylight: bool) -> (r: (Self, usize))
        requires
            pos + section47_size(skylight) <= data@.len(),
        ensures
            r.0.wf(),
            r.1 == pos + section47_size(skylight),
            le_bytes(r.0.blocks_spec()) == data@.subrange(pos as int, pos + 8192),
            r.0.light_spec() == data@.subrange(pos + 8192, pos + 10240),
            r.0.skylight_spec() == (if skylight {
                Some(data@.subrange(pos + 10240, pos + 12288))
            } else {
                None::<Seq<u8>>
            }),
            r.0.enc_spec() == data@.subrange(pos as int, pos + section47_size(skylight)),
    {
        let dlen = data.len();
        let blocks = take_bytes(data, pos, 8192);
        let mut p = pos + 8192;
        let light = take_bytes(data, p, 2048);
        p += 2048;
        let skylight_v = if skylight {
            let s = take_bytes(data, p, 2048);
            p += 2048;
            Some(s)
        } else {
            None
        };
        let r = Self::from_slices(blocks, light, skylight_v);
        proof {
            assert(r.enc_spec() =~= data@.subrange(pos as int, pos + section47_size(skylight)));
        }
        (r, p)
    }

    /// Serializes the sub-arrays in canonical order.
    pub fn encode(&self) -> (r: Vec<u8>)
        requires
            self.wf(),
        ensures
            r@ == self.enc_spec(),
    {
        let mut out: Vec<u8> = Vec::new();
        let blocks = self.blocks.encode_le();
        push_bytes(&mut out, &blocks);
        push_bytes(&mut out, self.light.bytes());
        if let Some(s) = &self.skylight {
            push_bytes(&mut out, s.bytes());
        }
        proof {
            assert(out@ =~= self.enc_spec());
        }
        out
    }

    /// The combined block array.
    pub fn blocks(&self) -> (r: &BlockArray49<4096>)
        ensures
            r@ == self.blocks_spec(),
    {
        &self.blocks
    }

    /// The block-light nibble array.
    pub fn light(&self) -> (r: &HalfByteArray<2048>)
        ensures
            r@ == self.light_spec(),
    {
        &self.light
    }

    /// The sky-light nibble array, when present.
    pub fn skylight(&self) -> (r: Option<&HalfByteArray<2048>>)
        ensures
            match r {
                Some(s) => self.skylight_spec() == Some(s@),
                None => self.skylight_spec() is None,
            },
    {
        match &self.skylight {
            Some(s) => Some(s),
            None => None,
        }
    }

    /// The combined block array, for in-place mutation.
    pub fn blocks_mut(&mut self) -> (r: &mut BlockArray49<4096>)
        ensures
            r@ == old(self).blocks_spec(),
            old(self).wf() ==> r.wf(),
            final(self).blocks_spec() == final(r)@,
            final(self).light_spec() == old(self).light_spec(),
            final(self).skylight_spec() == old(self).skylight_spec(),
            old(self).wf() && final(r).wf() ==> final(self).wf(),
    {
        &mut self.blocks
    }

    /// The block-light nibble array, for in-place mutation.
    pub fn light_mut(&mut self) -> (r: &mut HalfByteArray<2048>)
        ensures
            r@ == old(self).light_spec(),
            old(self).wf() ==> r.wf(),
            final(self).light_spec() == final(r)@,
            final(self).blocks_spec() == old(self).blocks_spec(),
            final(self).skylight_spec() == old(self).skylight_spec(),
            old(self).wf() && final(r).wf() ==> final(self).wf(),
    {
        &mut self.light
    }
}

/// The bytes the first `k` section slots of a combined-layout column cost.
pub open spec fn col47_sum_upto(bitmask: u16, sky: bool, k: int) -> int
    decreases k,
{
    if k <= 0 {
        0
    } else {
        col47_sum_upto(bitmask, sky, k - 1) + (if spec_bit_at(bitmask, (k - 1) as u8) {
            section47_size(sky)
        } else {
            0
        })
    }
}

/// The exact byte cost of decoding a whole combined-layout column.
pub open spec fn col47_required(bitmask: u16, sky: bool) -> int {
    col47_sum_upto(bitmask, sky, 16) + 256
}

/// The per-slot byte costs are bounded and monotone.
proof fn lemma_col47_sum_bounds(bitmask: u16, sky: bool, k: int)
    requires
        0 <= k <= 16,
    ensures
        0 <= col47_sum_upto(bitmask, sky, k) <= 12288 * k,
        col47_sum_upto(bitmask, sky, k) <= col47_sum_upto(bitmask, sky, 16),
    decreases 16 - k,
{
    lemma_col47_sum_bounds_low(bitmask, sky, k);
    if k < 16 {
        lemma_col47_sum_bounds(bitmask, sky, k + 1);
    }
}

/// Lower half of the bound: the sum up to `k` is nonnegative and small.
proof fn lemma_col47_sum_bounds_low(bitmask: u16, sky: bool, k: int)
    requires
        0 <= k,
    ensures
        0 <= col47_sum_upto(bitmask, sky, k) <= 12288 * k,
    decreases k,
{
    if k > 0 {
        lemma_col47_sum_bounds_low(bitmask, sky, k - 1);
    }
}

/// A combined-layout column: up to 16 sections plus 256 biome bytes.
#[derive(Clone)]
pub struct ChunkColumn47 {
    skylight: bool,
    sections: Vec<Option<ChunkSection47>>,
    biomes: ByteArray<256>,
}

impl ChunkColumn47 {
    /// Whether this column's sections store sky light.
    pub closed spec fn skylight_spec(&self) -> bool {
        self.skylight
    }

    /// The 16 section slots.
    pub closed spec fn secs(&self) -> Seq<Option<ChunkSection47>> {
        self.sections@
    }

    /// The column's biome bytes.
    pub closed spec fn biomes_spec(&self) -> Seq<u8> {
        self.biomes@
    }

    /// Internal consistency: exactly 16 slots with well-formed contents.
    pub closed spec fn wf(&self) -> bool {
        &&& self.sections@.len() == 16
        &&& self.biomes.wf()
        &&& forall|i: int|
            0 <= i < 16 ==> match #[trigger] self.sections@[i] {
                Some(s) => s.wf(),
                None => true,
            }
    }

    /// The wire form of the first `k` section slots, in ascending order.
    pub open spec fn enc_upto(&self, k: int) -> Seq<u8>
        decreases k,
    {
        if k <= 0 {
            Seq::empty()
        } else {
            self.enc_upto(k - 1) + (match self.secs()[k - 1] {
                Some(s) => s.enc_spec(),
                None => Seq::empty(),
            })
        }
    }

    /// The column's wire form: each present section's bytes in ascending
    /// slot order, then the biome bytes.
    pub open spec fn enc_spec(&self) -> Seq<u8> {
        self.enc_upto(16) + self.biomes_spec()
    }

    /// Gets a reference to the section if it exists.
    pub fn section(&self, section: usize) -> (r: Option<&ChunkSection47>)
        requires
            section < 16,
            self.wf(),
        ensures
            match r {
                Some(s) => self.secs()[section as int] == Some(*s),
                None => self.secs()[section as int] is None,
            },
    {
        match &self.sections[section] {
            Some(s) => Some(s),
            None => None,
        }
    }

    /// Gets a mutable reference to the section if it exists.
    pub fn section_mut(&mut self, section: usize) -> (r: Option<&mut ChunkSection47>)
        requires
            section < 16,
            old(self).wf(),
        ensures
            r is Some <==> old(self).secs()[section as int] is Some,
            r is None ==> final(self).secs() == old(self).secs() && final(self).skylight_spec()
                == old(self).skylight_spec() && final(self).biomes_spec() == old(self).biomes_spec(),
            r matches Some(s) ==> old(self).secs()[section as int] == Some(*s)
                && final(self).secs() == old(self).secs().update(section as int, Some(*final(s)))
                && final(self).skylight_spec() == old(self).skylight_spec()
                && final(self).biomes_spec() == old(self).biomes_spec(),
    {
        let present = match &self.sections[section] {
            Some(..) => true,
            None => false,
        };
        if !present {
            return None;
        }
        let elem = self.sections[section].as_mut();
        match elem {
            Some(s) => Some(s),
            None => {
                proof {
                    assert(false);
                }
                None
            },
        }
    }

    /// Constructs the primary bitmask: bit `i` is set exactly when slot `i`
    /// holds a section.
    pub fn primary_bitmap(&self) -> (r: u16)
        requires
            self.wf(),
        ensures
            forall|k: u8|
                k < 16 ==> (#[trigger] spec_bit_at(r, k) <==> self.secs()[k as int] is Some),
    {
        proof {
            lemma_u16_zero_bits();
        }
        let mut bitmap: u16 = 0;
        let mut i: u8 = 0;
        while i < 16
            invariant
                i <= 16,
                self.wf(),
                forall|k: u8|
                    k < i ==> (#[trigger] spec_bit_at(bitmap, k) <==> self.secs()[k as int]
                        is Some),
                forall|k: u8| i <= k < 16 ==> !(#[trigger] spec_bit_at(bitmap, k)),
            decreases 16 - i,
        {
            let present = match &self.sections[i as usize] {
                Some(..) => true,
                None => false,
            };
            if present {
                proof {
                    lemma_u16_set_bit(bitmap, i);
                }
                bitmap = bitmap | (1u16 << (i as u16));
            }
            i += 1;
        }
        bitmap
    }

    /// Creates a new all-zero section in an empty slot, with sky light
    /// exactly when requested.
    pub fn insert_section(&mut self, i: usize, skylight: bool)
        requires
            old(self).wf(),
            i < 16,
            old(self).secs()[i as int] is None,
        ensures
            final(self).wf(),
            final(self).skylight_spec() == old(self).skylight_spec(),
            final(self).biomes_spec() == old(self).biomes_spec(),
            forall|j: int| 0 <= j < 16 && j != i ==> final(self).secs()[j] == old(self).secs()[j],
            final(self).secs()[i as int] matches Some(s) && s.light_spec() == Seq::new(
                2048,
                |_i: int| 0u8,
            ) && (s.skylight_spec() is Some <==> skylight) && s.blocks_spec().len() == 4096
                && (forall|j: int| 0 <= j < 4096 ==> (#[trigger] s.blocks_spec()[j]).raw() == 0u16),
    {
        let s = ChunkSection47::new_zeroed(skylight);
        self.sections.set(i, Some(s));
    }
}

/// What a successful combined-layout column decode guarantees.
pub open spec fn col47_parsed(
    col: ChunkColumn47,
    bytes: Seq<u8>,
    pos: int,
    sky: bool,
    bitmask: u16,
) -> bool {
    &&& col.wf()
    &&& col.skylight_spec() == sky
    &&& forall|i: int|
        0 <= i < 16 ==> ((#[trigger] col.secs()[i]) is Some <==> spec_bit_at(bitmask, i as u8))
    &&& forall|i: int|
        0 <= i < 16 ==> match #[trigger] col.secs()[i] {
            Some(s) => {
                &&& s.enc_spec() == bytes.subrange(
                    pos + col47_sum_upto(bitmask, sky, i),
                    pos + col47_sum_upto(bitmask, sky, i + 1),
                )
                &&& (s.skylight_spec() is Some <==> sky)
            },
            None => true,
        }
    &&& col.biomes_spec() == bytes.subrange(
        pos + col47_sum_upto(bitmask, sky, 16),
        pos + col47_sum_upto(bitmask, sky, 16) + 256,
    )
}

impl ChunkColumn47 {
    /// Decodes a whole column: one section per set bit of the existence
    /// bitmask, in ascending slot order, then the 256 biome bytes. Fails,
    /// consuming nothing, exactly when the input is shorter than required.
    pub fn from_reader(data: &[u8], pos: usize, skylight: bool, bitmask: u16) -> (r: Result<
        (Self, usize),
        DecodeError,
    >)
        ensures
            r is Ok <==> pos + col47_required(bitmask, skylight) <= data@.len(),
            r matches Ok((col, p)) ==> p == pos + col47_required(bitmask, skylight)
                && col47_parsed(col, data@, pos as int, skylight, bitmask),
            r matches Err(e) ==> e == DecodeError::UnexpectedEndOfSlice,
    {
        let dlen = data.len();
        let mut size: usize = 0;
        let mut i: u8 = 0;
        while i < 16
            invariant
                i <= 16,
                size == col47_sum_upto(bitmask, skylight, i as int),
                size <= 12288 * i,
            decreases 16 - i,
        {
            if bit_at(bitmask, i) {
                size += section47_size_exec(skylight);
            }
            i += 1;
        }
        if !(pos <= dlen && dlen - pos >= size && dlen - pos - size >= 256) {
            return Err(DecodeError::UnexpectedEndOfSlice);
        }
        let mut sections: Vec<Option<ChunkSection47>> = Vec::new();
        let mut p = pos;
        let mut i: u8 = 0;
        while i < 16
            invariant
                i <= 16,
                dlen == data@.len(),
                pos + col47_required(bitmask, skylight) <= dlen,
                size == col47_sum_upto(bitmask, skylight, 16),
                p == pos + col47_sum_upto(bitmask, skylight, i as int),
                sections@.len() == i,
                forall|j: int|
                    0 <= j < i ==> ((#[trigger] sections@[j]) is Some <==> spec_bit_at(
                        bitmask,
                        j as u8,
                    )),
                forall|j: int|
                    0 <= j < i ==> match #[trigger] sections@[j] {
                        Some(s) => {
                            &&& s.wf()
                            &&& (s.skylight_spec() is Some <==> skylight)
                            &&& s.enc_spec() == data@.subrange(
                                pos + col47_sum_upto(bitmask, skylight, j),
                                pos + col47_sum_upto(bitmask, skylight, j + 1),
                            )
                        },
                        None => true,
                    },
            decreases 16 - i,
        {
            proof {
                lemma_col47_sum_bounds(bitmask, skylight, i as int);
                lemma_col47_sum_bounds(bitmask, skylight, i as int + 1);
            }
            if bit_at(bitmask, i) {
                let (s, np) = ChunkSection47::from_bytes(data, p, skylight);
                sections.push(Some(s));
                p = np;
            } else {
                sections.push(None);
            }
            i += 1;
        }
        let biomes = take_bytes(data, p, 256);
        let col = ChunkColumn47 { skylight, sections, biomes: ByteArray::from_vec(biomes) };
        Ok((col, p + 256))
    }

    /// Serializes the column: each present section in ascending slot order,
    /// then the biome bytes.
    pub fn encode(&self) -> (r: Vec<u8>)
        requires
            self.wf(),
        ensures
            r@ == self.enc_spec(),
    {
        let mut out: Vec<u8> = Vec::new();
        let mut i: u8 = 0;
        while i < 16
            invariant
                i <= 16,
                self.wf(),
                out@ == self.enc_upto(i as int),
            decreases 16 - i,
        {
            match &self.sections[i as usize] {
                Some(s) => {
                    let e = s.encode();
                    push_bytes(&mut out, &e);
                },
                None => {},
            }
            i += 1;
        }
        push_bytes(&mut out, self.biomes.bytes());
        out
    }
}

/// Decode/encode round trip for the combined layout: a column decoded from
/// a buffer re-encodes to exactly the bytes it consumed.
pub proof fn lemma_col47_round_trip(
    col: ChunkColumn47,
    bytes: Seq<u8>,
    pos: int,
    sky: bool,
    bitmask: u16,
)
    requires
        0 <= pos,
        pos + col47_required(bitmask, sky) <= bytes.len(),
        col47_parsed(col, bytes, pos, sky, bitmask),
    ensures
        col.enc_spec() == bytes.subrange(pos, pos + col47_required(bitmask, sky)),
{
    lemma_col47_sum_bounds(bitmask, sky, 16);
    lemma_col47_enc_upto(col, bytes, pos, sky, bitmask, 16);
    assert(col.enc_spec() =~= bytes.subrange(pos, pos + col47_required(bitmask, sky)));
}

/// The first `k` slots of a parsed column re-encode to the bytes they were
/// decoded from.
proof fn lemma_col47_enc_upto(
    col: ChunkColumn47,
    bytes: Seq<u8>,
    pos: int,
    sky: bool,
    bitmask: u16,
    k: int,
)
    requires
        0 <= pos,
        0 <= k <= 16,
        pos + col47_required(bitmask, sky) <= bytes.len(),
        col47_parsed(col, bytes, pos, sky, bitmask),
    ensures
        col.enc_upto(k) == bytes.subrange(pos, pos + col47_sum_upto(bitmask, sky, k)),
    decreases k,
{
    lemma_col47_sum_bounds(bitmask, sky, k);
    if k == 0 {
        assert(col.enc_upto(0) =~= bytes.subrange(pos, pos));
    } else {
        lemma_col47_enc_upto(col, bytes, pos, sky, bitmask, k - 1);
        lemma_col47_sum_bounds(bitmask, sky, k - 1);
        assert(col.enc_upto(k) =~= bytes.subrange(pos, pos + col47_sum_upto(bitmask, sky, k)));
    }
}

/// One per-section compound of the on-disk chunk structure, reduced to the
/// tags this codec reads. A tag the compound lacks is `None`; a present tag
/// carries its raw bytes (or, for `Y`, its byte value).
pub struct NbtSection {
    /// The `Y` tag: the section's slot index within the column.
    pub y: Option<i8>,
    /// The `Blocks` tag: 4096 block-id bytes.
    pub blocks: Option<Vec<u8>>,
    /// The `Data` tag: 2048 packed metadata nibbles.
    pub data: Option<Vec<u8>>,
    /// The `BlockLight` tag: 2048 packed light nibbles.
    pub block_light: Option<Vec<u8>>,
    /// The `SkyLight` tag: 2048 packed light nibbles, where stored.
    pub sky_light: Option<Vec<u8>>,
}

/// The `Level` compound of the on-disk chunk structure, reduced to the tags
/// this codec reads: the `Sections` list and the 256-byte `Biomes` array.
pub struct NbtLevel {
    /// The `Sections` list, one entry per stored section, in file order.
    pub sections: Option<Vec<NbtSection>>,
    /// The `Biomes` tag: one byte per column cell.
    pub biomes: Option<Vec<u8>>,
}

/// Whether one section compound carries every required tag at its exact
/// length: `Blocks` 4096, `Data` 2048, `BlockLight` 2048, `SkyLight` 2048
/// when sky light is expected, and a `Y` slot index 0 to 15.
pub open spec fn nbt_section_ok(e: NbtSection, sky: bool) -> bool {
    &&& e.blocks matches Some(b) && b@.len() == 4096
    &&& e.data matches Some(d) && d@.len() == 2048
    &&& e.block_light matches Some(l) && l@.len() == 2048
    &&& (sky ==> (e.sky_light matches Some(s) && s@.len() == 2048))
    &&& e.y matches Some(y) && 0 <= y < 16
}

/// Whether the level compound decodes: a sections list whose every entry is
/// well-shaped, and a 256-byte biome array.
pub open spec fn nbt_level_ok(level: NbtLevel, sky: bool) -> bool {
    &&& level.sections matches Some(ss) && (forall|t: int|
        0 <= t < ss@.len() ==> nbt_section_ok(#[trigger] ss@[t], sky))
    &&& level.biomes matches Some(b) && b@.len() == 256
}

/// The slot index a section compound names.
pub open spec fn entry_y(e: NbtSection) -> int {
    e.y.unwrap() as int
}

/// The index of the last list entry naming slot `s`, or -1 when none does;
/// entries are not assumed to be in slot order and a later entry for the
/// same slot replaces an earlier one.
pub open spec fn latest_entry(entries: Seq<NbtSection>, s: int) -> int
    decreases entries.len(),
{
    if entries.len() == 0 {
        -1
    } else if entry_y(entries.last()) == s {
        entries.len() - 1
    } else {
        latest_entry(entries.drop_last(), s)
    }
}

/// How a decoded section reflects its source compound: block `j` packs the
/// id byte `Blocks[j]` with metadata nibble `j` of `Data`, the light bytes
/// are copied, and sky light is carried exactly when expected.
pub open spec fn section47_from_entry(sec: ChunkSection47, e: NbtSection, sky: bool) -> bool {
    &&& sec.blocks_spec().len() == 4096
    &&& forall|j: int|
        0 <= j < 4096 ==> (#[trigger] sec.blocks_spec()[j]).id_spec() == e.blocks.unwrap()@[j]
            as u16 && sec.blocks_spec()[j].meta_spec() == (nibble_at(e.data.unwrap()@, j)
            & 0x0f) as u16
    &&& sec.light_spec() == e.block_light.unwrap()@
    &&& sec.skylight_spec() == (if sky {
        Some(e.sky_light.unwrap()@)
    } else {
        None::<Seq<u8>>
    })
}

/// Where the last entry for a slot sits, if anywhere: within the list.
proof fn lemma_latest_entry_bounds(es: Seq<NbtSection>, s: int)
    ensures
        -1 <= latest_entry(es, s) < es.len(),
    decreases es.len(),
{
    if es.len() > 0 && entry_y(es.last()) != s {
        lemma_latest_entry_bounds(es.drop_last(), s);
    }
}

/// Copies a byte vector.
fn copy_bytes(src: &Vec<u8>) -> (r: Vec<u8>)
    ensures
        r@ == src@,
{
    let mut r: Vec<u8> = Vec::new();
    push_bytes(&mut r, src);
    proof {
        assert(r@ =~= src@);
    }
    r
}

impl ChunkColumn47 {
    /// Reads a column from the reduced on-disk `Level` compound. Each
    /// sections-list entry independently names its slot through its `Y`
    /// tag; a later entry for the same slot replaces an earlier one. Block
    /// ids and metadata nibbles are re-interleaved into the combined
    /// id+metadata array. Returns nothing exactly when a required tag is
    /// missing or mis-sized.
    pub fn from_nbt(nbt: &NbtLevel, skylight: bool) -> (r: Option<Self>)
        ensures
            r is Some <==> nbt_level_ok(*nbt, skylight),
            r matches Some(col) ==> {
                let entries = nbt.sections.unwrap()@;
                &&& col.wf()
                &&& col.skylight_spec() == skylight
                &&& col.biomes_spec() == nbt.biomes.unwrap()@
                &&& forall|s: int|
                    0 <= s < 16 ==> ((#[trigger] col.secs()[s]) is Some <==> latest_entry(
                        entries,
                        s,
                    ) >= 0)
                &&& forall|s: int|
                    0 <= s < 16 && latest_entry(entries, s) >= 0 ==> section47_from_entry(
                        (#[trigger] col.secs()[s]).unwrap(),
                        entries[latest_entry(entries, s)],
                        skylight,
                    )
            },
    {
        let entries = match &nbt.sections {
            Some(ss) => ss,
            None => {
                return None;
            },
        };
        let mut sections: Vec<Option<ChunkSection47>> = Vec::new();
        let mut k = 0usize;
        while k < 16
            invariant
                k <= 16,
                sections@.len() == k,
                forall|s: int| 0 <= s < k ==> (#[trigger] sections@[s]) is None,
            decreases 16 - k,
        {
            sections.push(None);
            k += 1;
        }
        let n = entries.len();
        let mut t = 0usize;
        while t < n
            invariant
                t <= n,
                n == entries@.len(),
                nbt.sections matches Some(ss) && ss@ == entries@,
                sections@.len() == 16,
                forall|u: int| 0 <= u < t ==> nbt_section_ok(#[trigger] entries@[u], skylight),
                forall|s: int|
                    0 <= s < 16 ==> ((#[trigger] sections@[s]) is Some <==> latest_entry(
                        entries@.take(t as int),
                        s,
                    ) >= 0),
                forall|s: int|
                    0 <= s < 16 && latest_entry(entries@.take(t as int), s) >= 0 ==> ((
                    #[trigger] sections@[s]) matches Some(sec) && sec.wf()
                        && section47_from_entry(
                        sec,
                        entries@.take(t as int)[latest_entry(entries@.take(t as int), s)],
                        skylight,
                    )),
            decreases n - t,
        {
            let entry = &entries[t];
            let light = match &entry.block_light {
                Some(l) => {
                    if l.len() != 2048 {
                        return None;
                    }
                    copy_bytes(l)
                },
                None => {
                    return None;
                },
            };
            let blocks_bytes = match &entry.blocks {
                Some(b) => {
                    if b.len() != 4096 {
                        return None;
                    }
                    b
                },
                None => {
                    return None;
                },
            };
            let metadata = match &entry.data {
                Some(d) => {
                    if d.len() != 2048 {
                        return None;
                    }
                    HalfByteArray::<2048>::from_vec(copy_bytes(d))
                },
                None => {
                    return None;
                },
            };
            let sky_v = if skylight {
                match &entry.sky_light {
                    Some(sl) => {
                        if sl.len() != 2048 {
                            return None;
                        }
                        Some(copy_bytes(sl))
                    },
                    None => {
                        return None;
                    },
                }
            } else {
                None
            };
            let y = match entry.y {
                Some(y) => y,
                None => {
                    return None;
                },
            };
            if y < 0 || y > 15 {
                return None;
            }
            // re-interleave block ids and metadata nibbles
            let mut blocks: BlockArray49<4096> = BlockArray49::new_zeroed();
            proof {
                metadata.lemma_view();
                blocks.lemma_view();
            }
            let mut j = 0usize;
            while j < 4096
                invariant
                    j <= 4096,
                    blocks.wf(),
                    metadata.wf(),
                    metadata.contents().len() == 4096,
                    blocks.contents().len() == 4096,
                    blocks.contents() == blocks@,
                    metadata.contents() == Seq::new(4096, |i: int| nibble_at(metadata@, i)),
                    blocks_bytes@.len() == 4096,
                    entry.blocks matches Some(b) && b@ == blocks_bytes@,
                    entry.data matches Some(d) && d@ == metadata@,
                    forall|u: int|
                        0 <= u < j ==> (#[trigger] blocks@[u]).id_spec()
                            == entry.blocks.unwrap()@[u] as u16 && blocks@[u].meta_spec() == (
                        nibble_at(entry.data.unwrap()@, u) & 0x0f) as u16,
                decreases 4096 - j,
            {
                let id = blocks_bytes[j];
                let nib = metadata.get(j);
                let b = Block49::new(id as u16, nib);
                crate::containers::WriteContainer::set(&mut blocks, j, b);
                proof {
                    blocks.lemma_view();
                }
                j += 1;
            }
            let section = ChunkSection47 {
                blocks,
                light: HalfByteArray::from_vec(light),
                skylight: match sky_v {
                    Some(s) => Some(HalfByteArray::from_vec(s)),
                    None => None,
                },
            };
            let ghost pre = entries@.take(t as int);
            sections.set(y as usize, Some(section));
            proof {
                let cur = entries@.take(t as int + 1);
                assert(cur.drop_last() =~= pre);
                assert(cur.last() == entries@[t as int]);
                assert(section47_from_entry(section, entries@[t as int], skylight));
                assert forall|s: int| 0 <= s < 16 implies ((#[trigger] sections@[s]) is Some
                    <==> latest_entry(cur, s) >= 0) by {
                    if s != y as int {
                        assert(latest_entry(cur, s) == latest_entry(pre, s));
                    }
                }
                assert forall|s: int|
                    0 <= s < 16 && latest_entry(cur, s) >= 0 implies ((
                #[trigger] sections@[s]) matches Some(sec) && sec.wf() && section47_from_entry(
                    sec,
                    cur[latest_entry(cur, s)],
                    skylight,
                )) by {
                    if s == y as int {
                        assert(latest_entry(cur, s) == t as int);
                    } else {
                        assert(latest_entry(cur, s) == latest_entry(pre, s));
                        lemma_latest_entry_bounds(pre, s);
                        assert(cur[latest_entry(pre, s)] == pre[latest_entry(pre, s)]);
                    }
                }
            }
            t += 1;
        }
        let biomes = match &nbt.biomes {
            Some(b) => {
                if b.len() != 256 {
                    return None;
                }
                copy_bytes(b)
            },
            None => {
                return None;
            },
        };
        proof {
            assert(entries@.take(n as int) =~= entries@);
        }
        let col = ChunkColumn47 { skylight, sections, biomes: ByteArray::from_vec(biomes) };
        Some(col)
    }
}


} // verus!
