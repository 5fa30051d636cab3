//! The raw sub-arrays that back a chunk section: byte arrays, nibble arrays
//! (two 4-bit values per byte), and the combined 13-bit-id + 4-bit-metadata
//! block array, together with the generic read/write container traits.

use vstd::arithmetic::div_mod::{
    lemma_div_pos_is_pos, lemma_fundamental_div_mod, lemma_fundamental_div_mod_converse_div,
    lemma_mod_division_less_than_divisor,
};
use vstd::prelude::*;
use vstd::slice::slice_index_get;

verus! {

/// Read access to a fixed-capacity container of plain values.
pub trait ReadContainer<V>: Sized {
    /// Internal consistency of the container.
    spec fn wf(&self) -> bool;

    /// The logical values, in index order.
    spec fn contents(&self) -> Seq<V>;

    /// The value at index `i`.
    fn get(&self, i: usize) -> (r: V)
        requires
            self.wf(),
            i < self.contents().len(),
        ensures
            r == self.contents()[i as int],
    ;
}

/// Write access to a fixed-capacity container of plain values.
///
/// `stored` says what a `set` actually records: a nibble array masks the
/// value to its low four bits, the other containers store it unchanged.
pub trait WriteContainer<V>: ReadContainer<V> {
    /// The value recorded when `v` is handed to `set`.
    spec fn stored(v: V) -> V;

    /// Replaces the value at index `i` with `stored(v)`.
    fn set(&mut self, i: usize, v: V)
        requires
            old(self).wf(),
            i < old(self).contents().len(),
        ensures
            final(self).wf(),
            final(self).contents() == old(self).contents().update(i as int, Self::stored(v)),
    ;

    /// Replaces the value at index `i`, returning the previous value.
    fn swap(&mut self, i: usize, v: V) -> (r: V)
        requires
            old(self).wf(),
            i < old(self).contents().len(),
        ensures
            final(self).wf(),
            r == old(self).contents()[i as int],
            final(self).contents() == old(self).contents().update(i as int, Self::stored(v)),
    ;
}

/// Where nibble index `i` lands in a byte array of `n` bytes.
proof fn lemma_half_index(n: int, i: int)
    requires
        0 <= i < 2 * n,
    ensures
        0 <= i / 2 < n,
        i % 2 == 0 || i % 2 == 1,
        i == 2 * (i / 2) + i % 2,
{
    lemma_fundamental_div_mod(i, 2);
    lemma_mod_division_less_than_divisor(i, 2);
    lemma_div_pos_is_pos(i, 2);
    lemma_fundamental_div_mod_converse_div(2 * n - 1, 2, n - 1, 1);
    vstd::arithmetic::div_mod::lemma_div_is_ordered(i, 2 * n - 1, 2);
}

/// Writing the high nibble keeps the low nibble and reads back masked.
proof fn lemma_nibble_high(b: u8, v: u8)
    ensures
        ((b & 0x0f) | ((v & 0x0f) << 4)) >> 4 == v & 0x0f,
        ((b & 0x0f) | ((v & 0x0f) << 4)) & 0x0f == b & 0x0f,
{
    assert(((b & 0x0f) | ((v & 0x0f) << 4)) >> 4 == v & 0x0f) by (bit_vector);
    assert(((b & 0x0f) | ((v & 0x0f) << 4)) & 0x0f == b & 0x0f) by (bit_vector);
}

/// Writing the low nibble keeps the high nibble and reads back masked.
proof fn lemma_nibble_low(b: u8, v: u8)
    ensures
        ((b & 0xf0) | (v & 0x0f)) & 0x0f == v & 0x0f,
        ((b & 0xf0) | (v & 0x0f)) >> 4 == b >> 4,
{
    assert(((b & 0xf0) | (v & 0x0f)) & 0x0f == v & 0x0f) by (bit_vector);
    assert(((b & 0xf0) | (v & 0x0f)) >> 4 == b >> 4) by (bit_vector);
}

/// A plain array of `N` bytes.
#[derive(Clone)]
pub struct ByteArray<const N: usize> {
    data: Vec<u8>,
}

impl<const N: usize> View for ByteArray<N> {
    type V = Seq<u8>;

    /// The stored bytes, which are also the wire form.
    closed spec fn view(&self) -> Seq<u8> {
        self.data@
    }
}

impl<const N: usize> ByteArray<N> {
    /// An all-zero array.
    pub fn new_zeroed() -> (r: Self)
        ensures
            r.wf(),
            r@ == Seq::new(N as nat, |_i: int| 0u8),
    {
        let mut data: Vec<u8> = Vec::new();
        let mut k = 0usize;
        while k < N
            invariant
                k <= N,
                data@.len() == k,
                forall|j: int| 0 <= j < k ==> data@[j] == 0u8,
            decreases N - k,
        {
            data.push(0);
            k += 1;
        }
        let r = ByteArray { data };
        proof {
            assert(r@ =~= Seq::new(N as nat, |_i: int| 0u8));
        }
        r
    }

    /// Wraps exactly `N` bytes.
    pub fn from_vec(data: Vec<u8>) -> (r: Self)
        requires
            data@.len() == N,
        ensures
            r.wf(),
            r@ == data@,
    {
        ByteArray { data }
    }

    /// The stored bytes, the array's wire form.
    pub fn bytes(&self) -> (r: &Vec<u8>)
        ensures
            r@ == self@,
    {
        &self.data
    }

    /// The container contents are exactly the stored bytes.
    pub proof fn lemma_view(&self)
        ensures
            self.wf() <==> self@.len() == N,
            self.contents() == self@,
    {
    }
}

impl<const N: usize> ReadContainer<u8> for ByteArray<N> {
    closed spec fn wf(&self) -> bool {
        self.data@.len() == N
    }

    closed spec fn contents(&self) -> Seq<u8> {
        self.data@
    }

    fn get(&self, i: usize) -> (r: u8) {
        self.data[i]
    }
}

impl<const N: usize> WriteContainer<u8> for ByteArray<N> {
    open spec fn stored(v: u8) -> u8 {
        v
    }

    fn set(&mut self, i: usize, v: u8) {
        self.data.set(i, v);
    }

    fn swap(&mut self, i: usize, v: u8) -> (r: u8) {
        let r = self.data[i];
        self.data.set(i, v);
        r
    }
}

/// `RLEN` bytes holding `2 * RLEN` 4-bit values; even indices are the high
/// nibble of their byte, odd indices the low nibble.
#[derive(Clone)]
pub struct HalfByteArray<const RLEN: usize> {
    data: Vec<u8>,
}

/// The nibble at logical index `i` of the byte sequence `s`.
pub open spec fn nibble_at(s: Seq<u8>, i: int) -> u8 {
    if i % 2 == 0 {
        s[i / 2] >> 4
    } else {
        s[i / 2] & 0x0f
    }
}

impl<const RLEN: usize> View for HalfByteArray<RLEN> {
    type V = Seq<u8>;

    /// The stored bytes, which are also the wire form.
    closed spec fn view(&self) -> Seq<u8> {
        self.data@
    }
}

impl<const RLEN: usize> HalfByteArray<RLEN> {
    /// An all-zero array.
    pub fn new_zeroed() -> (r: Self)
        ensures
            r.wf(),
            r@ == Seq::new(RLEN as nat, |_i: int| 0u8),
    {
        let mut data: Vec<u8> = Vec::new();
        let mut k = 0usize;
        while k < RLEN
            invariant
                k <= RLEN,
                data@.len() == k,
                forall|j: int| 0 <= j < k ==> data@[j] == 0u8,
            decreases RLEN - k,
        {
            data.push(0);
            k += 1;
        }
        let r = HalfByteArray { data };
        proof {
            assert(r@ =~= Seq::new(RLEN as nat, |_i: int| 0u8));
        }
        r
    }

    /// Wraps exactly `RLEN` packed bytes.
    pub fn from_vec(data: Vec<u8>) -> (r: Self)
        requires
            data@.len() == RLEN,
        ensures
            r.wf(),
            r@ == data@,
    {
        HalfByteArray { data }
    }

    /// The packed bytes, the array's wire form.
    pub fn bytes(&self) -> (r: &Vec<u8>)
        ensures
            r@ == self@,
    {
        &self.data
    }

    /// The container contents are the nibbles of the stored bytes.
    pub proof fn lemma_view(&self)
        ensures
            self.wf() <==> self@.len() == RLEN,
            self.contents() == Seq::new(
                (2 * (RLEN as int)) as nat,
                |i: int| nibble_at(self@, i),
            ),
    {
    }
}

impl<const RLEN: usize> ReadContainer<u8> for HalfByteArray<RLEN> {
    closed spec fn wf(&self) -> bool {
        self.data@.len() == RLEN
    }

    /// The `2 * RLEN` nibbles, in logical order.
    closed spec fn contents(&self) -> Seq<u8> {
        Seq::new((2 * (RLEN as int)) as nat, |i: int| nibble_at(self.data@, i))
    }

    fn get(&self, i: usize) -> (r: u8) {
        proof {
            lemma_half_index(RLEN as int, i as int);
        }
        let b = self.data[i / 2];
        if i % 2 == 0 {
            b >> 4
        } else {
            b & 0x0f
        }
    }
}

impl<const RLEN: usize> WriteContainer<u8> for HalfByteArray<RLEN> {
    /// A nibble array keeps only the low four bits of the value.
    open spec fn stored(v: u8) -> u8 {
        v & 0x0f
    }

    fn set(&mut self, i: usize, v: u8) {
        proof {
            lemma_half_index(RLEN as int, i as int);
        }
        let b = self.data[i / 2];
        let nb = if i % 2 == 0 {
            (b & 0x0f) | ((v & 0x0f) << 4)
        } else {
            (b & 0xf0) | (v & 0x0f)
        };
        self.data.set(i / 2, nb);
        proof {
            lemma_nibble_high(b, v);
            lemma_nibble_low(b, v);
            assert(self.contents() =~= old(self).contents().update(i as int, v & 0x0f)) by {
                assert forall|k: int| 0 <= k < 2 * (RLEN as int) implies self.contents()[k] == old(
                    self,
                ).contents().update(i as int, v & 0x0f)[k] by {
                    lemma_half_index(RLEN as int, k);
                }
            }
        }
    }

    fn swap(&mut self, i: usize, v: u8) -> (r: u8) {
        let r = self.get(i);
        self.set(i, v);
        r
    }
}

/// One voxel of the combined layout: a 13-bit-capable block id in the high
/// bits and 4 bits of metadata in the low bits of one 16-bit value.
#[derive(Clone, Copy, Debug)]
pub struct Block49(u16);

impl Block49 {
    /// The packed 16-bit representation.
    pub closed spec fn raw(self) -> u16 {
        self.0
    }

    /// The block id held in the high 12 bits.
    pub open spec fn id_spec(self) -> u16 {
        self.raw() >> 4
    }

    /// The metadata held in the low 4 bits.
    pub open spec fn meta_spec(self) -> u16 {
        self.raw() & 0x0f
    }

    /// Packs an id below 4096 with the low four bits of `metadata`.
    pub fn new(id: u16, metadata: u8) -> (r: Self)
        requires
            id < 4096,
        ensures
            r.id_spec() == id,
            r.meta_spec() == (metadata & 0x0f) as u16,
            r.raw() == (id << 4) | ((metadata as u16) & 0x0f),
    {
        proof {
            let m = metadata as u16;
            assert(((id << 4) | (m & 0x0f)) >> 4 == id && ((id << 4) | (m & 0x0f)) & 0x0f == m
                & 0x0f) by (bit_vector)
                requires
                    id < 4096,
            ;
            assert((metadata & 0x0f) as u16 == (metadata as u16) & 0x0f) by (bit_vector);
        }
        Block49((id << 4) | ((metadata as u16) & 0x0f))
    }

    /// Builds a block from its packed 16-bit wire value.
    pub fn from_raw(raw: u16) -> (r: Self)
        ensures
            r.raw() == raw,
    {
        Block49(raw)
    }

    /// The block id.
    pub fn id(self) -> (r: u16)
        ensures
            r == self.id_spec(),
    {
        self.0 >> 4
    }

    /// The metadata value.
    pub fn metadata(self) -> (r: u16)
        ensures
            r == self.meta_spec(),
    {
        self.0 & 0x000f
    }
}

impl Default for Block49 {
    /// The all-zero block: id 0, metadata 0.
    fn default() -> (r: Self)
        ensures
            r.raw() == 0,
    {
        Block49(0)
    }
}

/// An array of `N` combined id+metadata blocks whose wire form is `2 * N`
/// bytes, each block as a little-endian 16-bit value.
#[derive(Clone)]
pub struct BlockArray49<const N: usize> {
    data: Vec<Block49>,
}

/// The little-endian byte serialization of a sequence of blocks.
pub open spec fn le_bytes(bs: Seq<Block49>) -> Seq<u8> {
    Seq::new(
        bs.len() * 2,
        |t: int|
            if t % 2 == 0 {
                (bs[t / 2].raw() & 0xff) as u8
            } else {
                (bs[t / 2].raw() >> 8) as u8
            },
    )
}

impl<const N: usize> View for BlockArray49<N> {
    type V = Seq<Block49>;

    closed spec fn view(&self) -> Seq<Block49> {
        self.data@
    }
}

impl<const N: usize> BlockArray49<N> {
    /// An array of all-zero blocks.
    pub fn new_zeroed() -> (r: Self)
        ensures
            r.wf(),
            r@.len() == N,
            forall|i: int| 0 <= i < N ==> (#[trigger] r@[i]).raw() == 0u16,
    {
        let mut data: Vec<Block49> = Vec::new();
        let mut k = 0usize;
        while k < N
            invariant
                k <= N,
                data@.len() == k,
                forall|j: int| 0 <= j < k ==> (#[trigger] data@[j]).raw() == 0u16,
            decreases N - k,
        {
            data.push(Block49::from_raw(0));
            k += 1;
        }
        BlockArray49 { data }
    }

    /// Reassembles the blocks from their little-endian wire bytes.
    pub fn from_le_bytes(b: &[u8]) -> (r: Self)
        requires
            b@.len() == 2 * (N as int),
        ensures
            r.wf(),
            le_bytes(r@) == b@,
    {
        let blen = b.len();
        let mut data: Vec<Block49> = Vec::new();
        let mut t = 0usize;
        while t < N
            invariant
                t <= N,
                blen == b@.len(),
                b@.len() == 2 * (N as int),
                data@.len() == t,
                forall|j: int|
                    0 <= j < t ==> (#[trigger] data@[j]).raw() == (b@[2 * j] as u16) | ((b@[2 * j
                        + 1] as u16) << 8),
            decreases N - t,
        {
            let lo = *slice_index_get(b, 2 * t);
            let hi = *slice_index_get(b, 2 * t + 1);
            data.push(Block49::from_raw((lo as u16) | ((hi as u16) << 8)));
            t += 1;
        }
        let r = BlockArray49 { data };
        proof {
            assert(le_bytes(r@) =~= b@) by {
                assert forall|t: int| 0 <= t < 2 * (N as int) implies le_bytes(r@)[t] == b@[t] by {
                    lemma_half_index(N as int, t);
                    let lo = b@[2 * (t / 2)];
                    let hi = b@[2 * (t / 2) + 1];
                    assert((((lo as u16) | ((hi as u16) << 8)) & 0xff) as u8 == lo && (((lo as u16)
                        | ((hi as u16) << 8)) >> 8) as u8 == hi) by (bit_vector);
                }
            }
        }
        r
    }

    /// Serializes the blocks as little-endian 16-bit values.
    pub fn encode_le(&self) -> (r: Vec<u8>)
        requires
            self.wf(),
        ensures
            r@ == le_bytes(self@),
    {
        let mut r: Vec<u8> = Vec::new();
        let mut t = 0usize;
        while t < N
            invariant
                t <= N,
                self.wf(),
                r@.len() == 2 * t,
                forall|k: int| 0 <= k < 2 * t ==> r@[k] == le_bytes(self@)[k],
            decreases N - t,
        {
            let raw = self.data[t].0;
            r.push((raw & 0xff) as u8);
            r.push((raw >> 8) as u8);
            proof {
                assert forall|k: int| 0 <= k < 2 * (t + 1) implies r@[k] == le_bytes(self@)[k] by {
                    lemma_half_index(N as int, k);
                }
            }
            t += 1;
        }
        proof {
            assert(r@ =~= le_bytes(self@));
        }
        r
    }
}

impl<const N: usize> BlockArray49<N> {
    /// The container contents are exactly the stored blocks.
    pub proof fn lemma_view(&self)
        ensures
            self.wf() <==> self@.len() == N,
            self.contents() == self@,
    {
    }
}

impl<const N: usize> ReadContainer<Block49> for BlockArray49<N> {
    closed spec fn wf(&self) -> bool {
        self.data@.len() == N
    }

    closed spec fn contents(&self) -> Seq<Block49> {
        self.data@
    }

    fn get(&self, i: usize) -> (r: Block49) {
        self.data[i]
    }
}

impl<const N: usize> WriteContainer<Block49> for BlockArray49<N> {
    open spec fn stored(v: Block49) -> Block49 {
        v
    }

    fn set(&mut self, i: usize, v: Block49) {
        self.data.set(i, v);
    }

    fn swap(&mut self, i: usize, v: Block49) -> (r: Block49) {
        let r = self.data[i];
        self.data.set(i, v);
        r
    }
}

} // verus!
