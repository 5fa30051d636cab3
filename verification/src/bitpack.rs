//! A fixed-length array of `N` unsigned values, each stored in a configurable
//! bit width (1 to 32), packed into 64-bit words.
//!
//! A stored value never spans two words: each word holds `64 / bit_width`
//! values, and the padding bits at the top of a word are unused when the
//! width does not evenly divide 64. Value `i` occupies `bit_width` bits of
//! word `i / values_per_word` at bit offset `(i % values_per_word) *
//! bit_width` counted from the least significant bit.

use crate::byteorder::ByteOrderedU64;
use vstd::arithmetic::div_mod::{
    lemma_div_is_ordered, lemma_div_is_ordered_by_denominator, lemma_div_plus_one,
    lemma_div_pos_is_pos, lemma_fundamental_div_mod,
    lemma_fundamental_div_mod_converse_div, lemma_mod_division_less_than_divisor,
};
use vstd::prelude::*;
use vstd::slice::slice_index_get;

verus! {

/// A mask of the `bits` low bits, for widths up to 32.
pub open spec fn low_mask(bits: u64) -> u64 {
    ((1u64 << bits) - 1) as u64
}

/// The `bits`-bit value stored at bit offset `bo` of word `w`.
pub open spec fn extract(w: u64, bo: u64, bits: u64) -> u64 {
    (w >> bo) & low_mask(bits)
}

/// Word `w` with the `bits`-bit field at bit offset `bo` replaced by the low
/// `bits` bits of `v`.
pub open spec fn place(w: u64, v: u64, bo: u64, bits: u64) -> u64 {
    (w & !(low_mask(bits) << bo)) | ((v & low_mask(bits)) << bo)
}

/// How many values fit in one 64-bit word at the given width.
pub open spec fn values_per_word(bits: usize) -> int {
    64 as int / bits as int
}

/// How many words back an array of `n` values at the given width.
pub open spec fn word_count(n: int, bits: usize) -> int {
    let vpe = values_per_word(bits);
    n / vpe + if n % vpe == 0 {
        0 as int
    } else {
        1 as int
    }
}

/// A value masked to its width reads back unchanged, and the mask bounds
/// every extracted value.
pub proof fn lemma_low_mask(v: u64, bits: u64)
    requires
        1 <= bits <= 32,
    ensures
        v <= low_mask(bits) ==> v & low_mask(bits) == v,
        v & low_mask(bits) <= low_mask(bits),
        low_mask(bits) + 1 == (1u64 << bits),
{
    assert(v <= ((1u64 << bits) - 1) as u64 ==> v & ((1u64 << bits) - 1) as u64 == v)
        by (bit_vector)
        requires
            1 <= bits <= 32,
    ;
    assert(v & ((1u64 << bits) - 1) as u64 <= ((1u64 << bits) - 1) as u64) by (bit_vector);
    assert(((1u64 << bits) - 1) as u64 + 1 == (1u64 << bits)) by (bit_vector)
        requires
            1 <= bits <= 32,
    ;
}

/// A wider width has a larger mask.
pub proof fn lemma_low_mask_mono(a: u64, b: u64)
    requires
        1 <= a <= b <= 32,
    ensures
        low_mask(a) <= low_mask(b),
{
    assert(((1u64 << a) - 1) as u64 <= ((1u64 << b) - 1) as u64) by (bit_vector)
        requires
            1 <= a <= b <= 32,
    ;
}

/// Every field of a zero word is zero.
proof fn lemma_extract_zero(bo: u64, bits: u64)
    ensures
        extract(0u64, bo, bits) == 0u64,
{
    assert((0u64 >> bo) & ((1u64 << bits) - 1) as u64 == 0u64) by (bit_vector);
}

/// Writing a field and reading it back yields the value masked to the width.
proof fn lemma_place_same(w: u64, v: u64, bo: u64, bits: u64)
    requires
        1 <= bits <= 32,
        bo + bits <= 64,
    ensures
        extract(place(w, v, bo, bits), bo, bits) == v & low_mask(bits),
{
    let m = low_mask(bits);
    assert((((w & !((((1u64 << bits) - 1) as u64) << bo)) | ((v & ((1u64 << bits) - 1) as u64)
        << bo)) >> bo) & ((1u64 << bits) - 1) as u64 == v & ((1u64 << bits) - 1) as u64)
        by (bit_vector)
        requires
            1 <= bits <= 32,
            bo + bits <= 64,
    ;
}

/// Writing a field leaves every disjoint field of the same word unchanged.
proof fn lemma_place_other(w: u64, v: u64, bo: u64, bo2: u64, bits: u64)
    requires
        1 <= bits <= 32,
        bo + bits <= 64,
        bo2 + bits <= 64,
        bo2 + bits <= bo || bo + bits <= bo2,
    ensures
        extract(place(w, v, bo, bits), bo2, bits) == extract(w, bo2, bits),
{
    assert((((w & !((((1u64 << bits) - 1) as u64) << bo)) | ((v & ((1u64 << bits) - 1) as u64)
        << bo)) >> bo2) & ((1u64 << bits) - 1) as u64 == (w >> bo2) & ((1u64 << bits) - 1) as u64)
        by (bit_vector)
        requires
            1 <= bits <= 32,
            bo + bits <= 64,
            bo2 + bits <= 64,
            bo2 + bits <= bo || bo + bits <= bo2,
    ;
}

/// Facts about where logical index `i` lands in the backing words.
proof fn lemma_index_arith(n: int, bits: usize, i: int)
    requires
        1 <= bits <= 32,
        0 <= i < n,
    ensures
        1 <= values_per_word(bits),
        values_per_word(bits) * bits <= 64,
        0 <= i / values_per_word(bits) < word_count(n, bits),
        0 <= i % values_per_word(bits) < values_per_word(bits),
        (i % values_per_word(bits)) * bits + bits <= 64,
        i == (i / values_per_word(bits)) * values_per_word(bits) + i % values_per_word(bits),
{
    let vpe = values_per_word(bits);
    assert(1 <= vpe) by {
        lemma_div_is_ordered(bits as int, 64, bits as int);
        assert(bits as int / bits as int == 1) by (nonlinear_arith)
            requires
                1 <= bits,
        ;
    }
    lemma_fundamental_div_mod(64, bits as int);
    lemma_mod_division_less_than_divisor(64, bits as int);
    assert(vpe * bits <= 64);
    lemma_mod_division_less_than_divisor(i, vpe);
    lemma_fundamental_div_mod(i, vpe);
    lemma_div_pos_is_pos(i, vpe);
    assert((i % vpe) * bits + bits <= vpe * bits) by (nonlinear_arith)
        requires
            0 <= i % vpe < vpe,
            1 <= bits,
    ;
    // i / vpe stays below the word count
    lemma_div_is_ordered(i, n - 1, vpe);
    lemma_div_plus_one(n - 1, vpe);
    assert((vpe + (n - 1)) / vpe == word_count(n, bits)) by {
        if n % vpe == 0 {
            lemma_fundamental_div_mod(n, vpe);
            assert(n == vpe * (n / vpe));
            assert(vpe + (n - 1) == (n / vpe) * vpe + (vpe - 1)) by (nonlinear_arith)
                requires
                    n == vpe * (n / vpe),
            ;
            lemma_fundamental_div_mod_converse_div(vpe + (n - 1), vpe, n / vpe, vpe - 1);
        } else {
            lemma_fundamental_div_mod(n, vpe);
            lemma_mod_division_less_than_divisor(n, vpe);
            assert(vpe + (n - 1) == (n / vpe + 1) * vpe + (n % vpe - 1)) by (nonlinear_arith)
                requires
                    n == vpe * (n / vpe) + n % vpe,
            ;
            lemma_fundamental_div_mod_converse_div(vpe + (n - 1), vpe, n / vpe + 1, n % vpe - 1);
        }
    }
    assert(i == (i / vpe) * vpe + i % vpe) by (nonlinear_arith)
        requires
            i == vpe * (i / vpe) + i % vpe,
    ;
}

/// The mask of the `bits` low bits, as a run-time value.
fn mask_of(bits: usize) -> (r: u64)
    requires
        1 <= bits <= 32,
    ensures
        r == low_mask(bits as u64),
{
    proof {
        let b = bits as u64;
        assert(1u64 << b >= 1) by (bit_vector)
            requires
                1 <= b <= 32,
        ;
    }
    (1u64 << bits) - 1
}

/// Fixed-length array of `N` values of `bits` bits each, packed into 64-bit
/// words held in byte order `B`.
#[derive(Clone)]
pub struct PackedBits<const N: usize, B: ByteOrderedU64> {
    bits: usize,
    data: Vec<B>,
}

impl<const N: usize, B: ByteOrderedU64> View for PackedBits<N, B> {
    type V = Seq<u64>;

    /// The logical contents: `N` values, each below `2^bits`.
    closed spec fn view(&self) -> Seq<u64> {
        Seq::new(
            N as nat,
            |i: int|
                {
                    let vpe = values_per_word(self.bits);
                    extract(
                        self.data@[i / vpe].value(),
                        ((i % vpe) * self.bits) as u64,
                        self.bits as u64,
                    )
                },
        )
    }
}

impl<const N: usize, B: ByteOrderedU64> PackedBits<N, B> {
    /// The configured bit width.
    pub closed spec fn width(&self) -> usize {
        self.bits
    }

    /// Well-formedness: a legal width and a backing store of exactly the
    /// required word count.
    pub closed spec fn wf(&self) -> bool {
        &&& 1 <= self.bits <= 32
        &&& self.data@.len() == word_count(N as int, self.bits)
    }

    /// The logical values of the backing words, in storage order.
    pub closed spec fn words(&self) -> Seq<u64> {
        self.data@.map(|_i: int, b: B| b.value())
    }

    /// Every value a well-formed array holds fits its width.
    pub proof fn lemma_view_bounded(&self)
        requires
            self.wf(),
        ensures
            forall|i: int| 0 <= i < N ==> #[trigger] self@[i] <= low_mask(self.width() as u64),
    {
        assert forall|i: int| 0 <= i < N implies #[trigger] self@[i] <= low_mask(
            self.width() as u64,
        ) by {
            let vpe = values_per_word(self.bits);
            let w = self.data@[i / vpe].value();
            let bo = ((i % vpe) * self.bits) as u64;
            assert(self@[i] == extract(w, bo, self.bits as u64));
            lemma_low_mask(w >> bo, self.bits as u64);
        }
    }

    /// A well-formed array backs exactly the required word count.
    pub proof fn lemma_words_len(&self)
        requires
            self.wf(),
        ensures
            self.words().len() == word_count(N as int, self.width()),
    {
    }

    /// The configured bit width, as a run-time value.
    pub fn bits(&self) -> (r: usize)
        ensures
            r == self.width(),
    {
        self.bits
    }

    /// Constructs an array of `N` zeros at the given width. The width must be
    /// 1 to 32; `new` rejects anything else.
    pub fn new(bits: usize) -> (r: Self)
        requires
            1 <= bits <= 32,
        ensures
            r.wf(),
            r.width() == bits,
            r@ == Seq::new(N as nat, |_i: int| 0u64),
    {
        Self::new_unchecked(bits)
    }

    /// As [`Self::new`]; the width obligation rests on the caller.
    pub fn new_unchecked(bits: usize) -> (r: Self)
        requires
            1 <= bits <= 32,
        ensures
            r.wf(),
            r.width() == bits,
            r@ == Seq::new(N as nat, |_i: int| 0u64),
    {
        proof {
            lemma_fundamental_div_mod(64, bits as int);
            lemma_mod_division_less_than_divisor(64, bits as int);
            assert(64 as int / bits as int >= 2) by (nonlinear_arith)
                requires
                    1 <= bits <= 32,
                    64 == bits * (64 as int / bits as int) + (64 as int % bits as int),
                    0 <= (64 as int % bits as int) < bits,
            ;
            lemma_div_is_ordered_by_denominator(N as int, 2, 64 as int / bits as int);
            lemma_div_is_ordered(N as int, usize::MAX as int, 2);
        }
        let vpe = 64usize / bits;
        let rlen = N / vpe + if N % vpe == 0 {
            0usize
        } else {
            1usize
        };
        let mut data: Vec<B> = Vec::new();
        let mut k = 0usize;
        while k < rlen
            invariant
                k <= rlen,
                data@.len() == k,
                forall|j: int| 0 <= j < k ==> #[trigger] data@[j].value() == 0u64,
            decreases rlen - k,
        {
            data.push(B::from_ne(0));
            k += 1;
        }
        let r = PackedBits { bits, data };
        proof {
            assert(r@ =~= Seq::new(N as nat, |_i: int| 0u64)) by {
                assert forall|i: int| 0 <= i < N implies r@[i] == 0u64 by {
                    lemma_index_arith(N as int, bits, i);
                    lemma_extract_zero(
                        ((i % values_per_word(bits)) * bits) as u64,
                        bits as u64,
                    );
                }
            }
        }
        r
    }

    /// Constructs an array at the given width holding the given (not yet
    /// packed) values, masked to the width; slots past the input are zero.
    pub fn with_data_unpacked(bits: usize, data: &[u64]) -> (r: Self)
        requires
            1 <= bits <= 32,
            data@.len() <= N,
        ensures
            r.wf(),
            r.width() == bits,
            r@.len() == N as int,
            forall|i: int|
                0 <= i < data@.len() ==> r@[i] == #[trigger] data@[i] & low_mask(bits as u64),
            forall|i: int| data@.len() <= i < N ==> r@[i] == 0u64,
    {
        let mut this = Self::new(bits);
        let len = data.len();
        let mut i = 0usize;
        while i < len
            invariant
                i <= len,
                len == data@.len() <= N,
                1 <= bits <= 32,
                this.wf(),
                this.width() == bits,
                forall|j: int|
                    0 <= j < i ==> this@[j] == #[trigger] data@[j] & low_mask(bits as u64),
                forall|j: int| i <= j < N ==> this@[j] == 0u64,
            decreases len - i,
        {
            let v = *slice_index_get(data, i);
            this.set(i, v);
            i += 1;
        }
        this
    }

    /// Constructs an array at the given width from already packed backing
    /// words: one input word per backing word, exactly as many as the width
    /// requires.
    pub fn with_data(bits: usize, data: &[u64]) -> (r: Self)
        requires
            1 <= bits <= 32,
            data@.len() == word_count(N as int, bits),
        ensures
            r.wf(),
            r.width() == bits,
            r.words() == data@,
            forall|i: int|
                0 <= i < N ==> #[trigger] r@[i] == extract(
                    data@[i / values_per_word(bits)],
                    ((i % values_per_word(bits)) * bits) as u64,
                    bits as u64,
                ),
    {
        let dlen = data.len();
        let mut words: Vec<B> = Vec::new();
        let mut k = 0usize;
        while k < dlen
            invariant
                k <= dlen,
                dlen == data@.len(),
                words@.len() == k,
                forall|j: int| 0 <= j < k ==> #[trigger] words@[j].value() == data@[j],
            decreases dlen - k,
        {
            words.push(B::from_ne(*slice_index_get(data, k)));
            k += 1;
        }
        let r = PackedBits { bits, data: words };
        proof {
            assert(r.words() =~= data@);
            assert forall|i: int| 0 <= i < N implies #[trigger] r@[i] == extract(
                data@[i / values_per_word(bits)],
                ((i % values_per_word(bits)) * bits) as u64,
                bits as u64,
            ) by {
                lemma_index_arith(N as int, bits, i);
            }
        }
        r
    }

    /// Where index `i` lives: the word index and the bit offset inside it.
    fn calculate_index(&self, i: usize) -> (r: (usize, usize))
        requires
            self.wf(),
            i < N,
        ensures
            r.0 == i as int / values_per_word(self.width()),
            r.0 < self.data@.len(),
            r.1 == (i as int % values_per_word(self.width())) * self.width(),
            r.1 + self.width() <= 64,
    {
        proof {
            lemma_index_arith(N as int, self.bits, i as int);
        }
        let vpe = 64usize / self.bits;
        (i / vpe, (i % vpe) * self.bits)
    }

    /// The value at index `i`, or `None` when `i` is out of bounds.
    pub fn get(&self, i: usize) -> (r: Option<u64>)
        requires
            self.wf(),
        ensures
            match r {
                Some(v) => i < N && v == self@[i as int],
                None => i >= N,
            },
    {
        if i >= N {
            return None;
        }
        Some(self.get_unchecked(i))
    }

    /// As [`Self::get`]; the bounds obligation rests on the caller.
    pub fn get_unchecked(&self, i: usize) -> (r: u64)
        requires
            self.wf(),
            i < N,
        ensures
            r == self@[i as int],
    {
        let (vi, bo) = self.calculate_index(i);
        let w = self.data[vi].to_ne();
        let m = mask_of(self.bits);
        (w >> (bo as u64)) & m
    }

    /// Stores the low `width` bits of `v` at index `i`; higher bits of `v`
    /// are silently truncated, a documented caller obligation. The index
    /// bound is a precondition, so no call can go out of bounds.
    pub fn set(&mut self, i: usize, v: u64)
        requires
            old(self).wf(),
            i < N,
        ensures
            final(self).wf(),
            final(self).width() == old(self).width(),
            final(self)@ == old(self)@.update(i as int, v & low_mask(old(self).width() as u64)),
    {
        self.set_unchecked(i, v)
    }

    /// As [`Self::set`]; the bounds obligation rests on the caller.
    pub fn set_unchecked(&mut self, i: usize, v: u64)
        requires
            old(self).wf(),
            i < N,
        ensures
            final(self).wf(),
            final(self).width() == old(self).width(),
            final(self)@ == old(self)@.update(i as int, v & low_mask(old(self).width() as u64)),
    {
        let (vi, bo) = self.calculate_index(i);
        let m = mask_of(self.bits);
        let w = self.data[vi].to_ne();
        let nw = (w & !(m << (bo as u64))) | ((v & m) << (bo as u64));
        let stored = B::from_ne(nw);
        self.data.set(vi, stored);
        proof {
            let bits = self.bits;
            let vpe = values_per_word(bits);
            let mask = low_mask(bits as u64);
            assert(self@ =~= old(self)@.update(i as int, v & mask)) by {
                assert forall|j: int| 0 <= j < N implies self@[j] == old(self)@.update(
                    i as int,
                    v & mask,
                )[j] by {
                    lemma_index_arith(N as int, bits, j);
                    lemma_index_arith(N as int, bits, i as int);
                    let bo_j = ((j % vpe) * bits) as u64;
                    let bo_i = ((i as int % vpe) * bits) as u64;
                    if j == i as int {
                        assert(nw == place(w, v, bo_i, bits as u64));
                        lemma_place_same(w, v, bo_i, bits as u64);
                    } else if j / vpe == i as int / vpe {
                        // same word, different slot: the two fields are disjoint
                        assert(j % vpe != i as int % vpe);
                        if j % vpe < i as int % vpe {
                            assert((j % vpe) * bits + bits <= (i as int % vpe) * bits)
                                by (nonlinear_arith)
                                requires
                                    j % vpe + 1 <= i as int % vpe,
                                    1 <= bits,
                            ;
                        } else {
                            assert((i as int % vpe) * bits + bits <= (j % vpe) * bits)
                                by (nonlinear_arith)
                                requires
                                    i as int % vpe + 1 <= j % vpe,
                                    1 <= bits,
                            ;
                        }
                        lemma_place_other(w, v, bo_i, bo_j, bits as u64);
                    } else {
                        // a different word, which the write left untouched
                        assert(self.data@[j / vpe].value() == old(self).data@[j / vpe].value());
                    }
                }
            }
        }
    }

    /// Replaces the value at `i` with the low `width` bits of `v`, returning
    /// the previous value, or `None` (and no change) when out of bounds.
    pub fn swap(&mut self, i: usize, v: u64) -> (r: Option<u64>)
        requires
            old(self).wf(),
        ensures
            final(self).wf(),
            final(self).width() == old(self).width(),
            match r {
                Some(x) => i < N && x == old(self)@[i as int] && final(self)@ == old(
                    self,
                )@.update(i as int, v & low_mask(old(self).width() as u64)),
                None => i >= N && final(self)@ == old(self)@,
            },
    {
        if i >= N {
            return None;
        }
        Some(self.swap_unchecked(i, v))
    }

    /// As [`Self::swap`]; the bounds obligation rests on the caller.
    pub fn swap_unchecked(&mut self, i: usize, v: u64) -> (r: u64)
        requires
            old(self).wf(),
            i < N,
        ensures
            final(self).wf(),
            final(self).width() == old(self).width(),
            r == old(self)@[i as int],
            final(self)@ == old(self)@.update(i as int, v & low_mask(old(self).width() as u64)),
    {
        let val = self.get_unchecked(i);
        self.set_unchecked(i, v);
        val
    }

    /// Rebuilds the backing store at a new width, preserving every logical
    /// value masked to the new width — so a width that does not shrink
    /// preserves every value exactly. The replacement is all-or-nothing: no
    /// partially rebuilt state is observable.
    pub fn change_bits(&mut self, bits: usize)
        requires
            old(self).wf(),
            1 <= bits <= 32,
        ensures
            final(self).wf(),
            final(self).width() == bits,
            final(self)@ == Seq::new(N as nat, |i: int| old(self)@[i] & low_mask(bits as u64)),
            old(self).width() <= bits ==> final(self)@ == old(self)@,
    {
        let mut new = Self::new_unchecked(bits);
        let mut i = 0usize;
        while i < N
            invariant
                i <= N,
                1 <= bits <= 32,
                self.wf(),
                self == old(self),
                new.wf(),
                new.width() == bits,
                forall|k: int|
                    0 <= k < i ==> new@[k] == #[trigger] old(self)@[k] & low_mask(bits as u64),
                forall|k: int| i <= k < N ==> new@[k] == 0u64,
            decreases N - i,
        {
            let v = self.get_unchecked(i);
            new.set_unchecked(i, v);
            i += 1;
        }
        *self = new;
        proof {
            assert(self@ =~= Seq::new(N as nat, |i: int| old(self)@[i] & low_mask(bits as u64)));
            if old(self).width() <= bits {
                old(self).lemma_view_bounded();
                lemma_low_mask_mono(old(self).width() as u64, bits as u64);
                assert forall|k: int| 0 <= k < N implies self@[k] == old(self)@[k] by {
                    lemma_low_mask(old(self)@[k], bits as u64);
                }
                assert(self@ =~= old(self)@);
            }
        }
    }

    /// Serializes the backing words in storage order, each as eight
    /// big-endian bytes; both byte-order variants produce these same bytes,
    /// eight per backing word.
    pub fn encode_be(&self) -> (r: Vec<u8>)
        requires
            self.wf(),
        ensures
            r@ == be_bytes(self.words()),
            r@.len() == 8 * word_count(N as int, self.width()),
    {
        proof {
            self.lemma_words_len();
        }
        let mut r: Vec<u8> = Vec::new();
        let len = self.data.len();
        let mut k = 0usize;
        while k < len
            invariant
                k <= len,
                len == self.data@.len(),
                self.wf(),
                r@.len() == 8 * k,
                forall|t: int| 0 <= t < 8 * k ==> r@[t] == be_bytes(self.words())[t],
            decreases len - k,
        {
            let w = self.data[k].to_ne();
            r.push(((w >> 56) & 0xff) as u8);
            r.push(((w >> 48) & 0xff) as u8);
            r.push(((w >> 40) & 0xff) as u8);
            r.push(((w >> 32) & 0xff) as u8);
            r.push(((w >> 24) & 0xff) as u8);
            r.push(((w >> 16) & 0xff) as u8);
            r.push(((w >> 8) & 0xff) as u8);
            r.push((w & 0xff) as u8);
            proof {
                assert forall|t: int| 0 <= t < 8 * (k + 1) implies r@[t] == be_bytes(
                    self.words(),
                )[t] by {
                    if t >= 8 * k {
                        let j = t - 8 * (k as int);
                        assert(t / 8 == k as int && t % 8 == j) by (nonlinear_arith)
                            requires
                                t == 8 * (k as int) + j,
                                0 <= j < 8,
                        ;
                        assert(self.words()[k as int] == w);
                        if j == 7 {
                            assert((w >> 0u64) & 0xff == w & 0xff) by (bit_vector);
                        }
                    }
                }
            }
            k += 1;
        }
        proof {
            assert(r@ =~= be_bytes(self.words()));
        }
        r
    }
}

/// A bit-packed array always views as exactly `N` logical values.
pub broadcast proof fn lemma_view_len<const N: usize, B: ByteOrderedU64>(p: &PackedBits<N, B>)
    ensures
        (#[trigger] p@).len() == N as int,
{
}

/// The big-endian byte serialization of a sequence of 64-bit words.
pub open spec fn be_bytes(ws: Seq<u64>) -> Seq<u8> {
    Seq::new(ws.len() * 8, |t: int| ((ws[t / 8] >> (((7 - t % 8) * 8) as u64)) & 0xff) as u8)
}

/// Round trip: writing `v` into slot `i` of packed contents `c` makes that
/// slot read back `v` modulo `2^bits`, and leaves every other slot as it
/// was. `set`'s contract pins the new contents to exactly this update, so
/// the property holds after any sequence of writes.
pub proof fn lemma_set_get_round_trip(c: Seq<u64>, i: int, v: u64, bits: u64, j: int)
    requires
        1 <= bits <= 32,
        0 <= i < c.len(),
        0 <= j < c.len(),
    ensures
        c.update(i, v & low_mask(bits))[i] == v % ((1u64 << bits) as u64),
        j != i ==> c.update(i, v & low_mask(bits))[j] == c[j],
{
    vstd::bits::lemma_u64_pow2_no_overflow(bits as nat);
    vstd::bits::lemma_u64_shl_is_mul(1u64, bits);
    vstd::bits::lemma_u64_low_bits_mask_is_mod(v, bits as nat);
    assert(low_mask(bits) == vstd::bits::low_bits_mask(bits as nat) as u64);
}

/// Re-packing preserves data: `change_bits` leaves every slot holding its
/// old value masked to the new width, so any value that fits the new width
/// is carried over unchanged.
pub proof fn lemma_change_bits_preserves(c: Seq<u64>, bits: u64, i: int)
    requires
        1 <= bits <= 32,
        0 <= i < c.len(),
        c[i] <= low_mask(bits),
    ensures
        Seq::new(c.len(), |k: int| c[k] & low_mask(bits))[i] == c[i],
{
    lemma_low_mask(c[i], bits);
}

/// Consuming iterator over the logical values of a [`PackedBits`].
pub struct PackedBitsIter<const N: usize, B: ByteOrderedU64> {
    inner: PackedBits<N, B>,
    index: usize,
}

impl<const N: usize, B: ByteOrderedU64> PackedBitsIter<N, B> {
    /// The values not yet handed out.
    pub closed spec fn remaining(&self) -> Seq<u64> {
        self.inner@.skip(self.index as int)
    }

    /// Well-formedness of the underlying array.
    pub closed spec fn wf(&self) -> bool {
        &&& self.inner.wf()
        &&& self.index <= N
    }

    /// The next value, in index order, or `None` once all `N` are consumed.
    pub fn next(&mut self) -> (r: Option<u64>)
        requires
            old(self).wf(),
        ensures
            final(self).wf(),
            match r {
                Some(v) => old(self).remaining().len() > 0 && v == old(self).remaining()[0]
                    && final(self).remaining() == old(self).remaining().skip(1),
                None => old(self).remaining().len() == 0 && final(self).remaining() == old(
                    self,
                ).remaining(),
            },
    {
        if self.index >= N {
            return None;
        }
        let v = self.inner.get_unchecked(self.index);
        self.index += 1;
        proof {
            assert(self.remaining() =~= old(self).remaining().skip(1));
        }
        Some(v)
    }
}

impl<const N: usize, B: ByteOrderedU64> PackedBits<N, B> {
    /// Turns the array into an iterator over its logical values.
    pub fn into_iter(self) -> (r: PackedBitsIter<N, B>)
        requires
            self.wf(),
        ensures
            r.wf(),
            r.remaining() == self@,
    {
        let r = PackedBitsIter { inner: self, index: 0 };
        proof {
            assert(r.remaining() =~= r.inner@);
        }
        r
    }
}

/// A bit-packed array whose backing words are stored in native order; its
/// wire form serializes each word as big-endian bytes.
pub struct PackedBitsNE<const N: usize> {
    inner: PackedBits<N, crate::byteorder::NativeEndian>,
}

impl<const N: usize> View for PackedBitsNE<N> {
    type V = Seq<u64>;

    closed spec fn view(&self) -> Seq<u64> {
        self.inner@
    }
}

impl<const N: usize> PackedBitsNE<N> {
    /// The logical values of the backing words.
    pub closed spec fn words(&self) -> Seq<u64> {
        self.inner.words()
    }

    /// The configured bit width of the underlying array.
    pub closed spec fn width(&self) -> usize {
        self.inner.width()
    }

    /// Well-formedness of the underlying array.
    pub closed spec fn wf(&self) -> bool {
        self.inner.wf()
    }

    /// Wraps a native-order array.
    pub fn new(inner: PackedBits<N, crate::byteorder::NativeEndian>) -> (r: Self)
        ensures
            r@ == inner@,
            r.words() == inner.words(),
            r.width() == inner.width(),
            r.wf() == inner.wf(),
    {
        PackedBitsNE { inner }
    }

    /// The wrapped array.
    pub fn inner(&self) -> (r: &PackedBits<N, crate::byteorder::NativeEndian>)
        ensures
            r@ == self@,
            r.words() == self.words(),
            r.width() == self.width(),
            r.wf() == self.wf(),
    {
        &self.inner
    }

    /// The wire form: each backing word as eight big-endian bytes, the same
    /// bytes the big-endian variant produces for equal words.
    pub fn encode(&self) -> (r: Vec<u8>)
        requires
            self.wf(),
        ensures
            r@ == be_bytes(self.words()),
            r@.len() == 8 * word_count(N as int, self.width()),
    {
        self.inner.encode_be()
    }
}

/// A bit-packed array whose backing words are stored byte-swapped, so its
/// in-memory bytes already are the big-endian wire form.
pub struct PackedBitsBE<const N: usize> {
    inner: PackedBits<N, crate::byteorder::BigEndian>,
}

impl<const N: usize> View for PackedBitsBE<N> {
    type V = Seq<u64>;

    closed spec fn view(&self) -> Seq<u64> {
        self.inner@
    }
}

impl<const N: usize> PackedBitsBE<N> {
    /// The logical values of the backing words.
    pub closed spec fn words(&self) -> Seq<u64> {
        self.inner.words()
    }

    /// The configured bit width of the underlying array.
    pub closed spec fn width(&self) -> usize {
        self.inner.width()
    }

    /// Well-formedness of the underlying array.
    pub closed spec fn wf(&self) -> bool {
        self.inner.wf()
    }

    /// Wraps a big-endian-order array.
    pub fn new(inner: PackedBits<N, crate::byteorder::BigEndian>) -> (r: Self)
        ensures
            r@ == inner@,
            r.words() == inner.words(),
            r.width() == inner.width(),
            r.wf() == inner.wf(),
    {
        PackedBitsBE { inner }
    }

    /// The wrapped array.
    pub fn inner(&self) -> (r: &PackedBits<N, crate::byteorder::BigEndian>)
        ensures
            r@ == self@,
            r.words() == self.words(),
            r.width() == self.width(),
            r.wf() == self.wf(),
    {
        &self.inner
    }

    /// The wire form: each backing word as eight big-endian bytes, equal to
    /// the native-order variant's output for equal words.
    pub fn encode(&self) -> (r: Vec<u8>)
        requires
            self.wf(),
        ensures
            r@ == be_bytes(self.words()),
            r@.len() == 8 * word_count(N as int, self.width()),
    {
        self.inner.encode_be()
    }
}

} // verus!
