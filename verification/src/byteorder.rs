//! Byte order of the 64-bit words backing a bit-packed array.
//!
//! A [`crate::bitpack::PackedBits`] array can hold its words either in native
//! order or byte-swapped (big-endian storage on a little-endian machine), so
//! that serialization of the big-endian wire form can walk the stored bytes
//! directly. Bit arithmetic always happens on the logical value; the trait
//! normalizes between the stored form and the logical value.

use vstd::prelude::*;

verus! {

/// The value of `v` with its eight bytes reversed.
pub open spec fn spec_swap_bytes(v: u64) -> u64 {
    ((v >> 56) & 0xff) | (((v >> 48) & 0xff) << 8) | (((v >> 40) & 0xff) << 16) | (((v >> 32)
        & 0xff) << 24) | (((v >> 24) & 0xff) << 32) | (((v >> 16) & 0xff) << 40) | (((v >> 8)
        & 0xff) << 48) | ((v & 0xff) << 56)
}

/// Reverses the byte order of a 64-bit word.
pub fn swap_bytes(v: u64) -> (r: u64)
    ensures
        r == spec_swap_bytes(v),
{
    ((v >> 56) & 0xff) | (((v >> 48) & 0xff) << 8) | (((v >> 40) & 0xff) << 16) | (((v >> 32)
        & 0xff) << 24) | (((v >> 24) & 0xff) << 32) | (((v >> 16) & 0xff) << 40) | (((v >> 8)
        & 0xff) << 48) | ((v & 0xff) << 56)
}

/// Swapping bytes twice restores the original word.
pub proof fn lemma_swap_bytes_involutive(v: u64)
    ensures
        spec_swap_bytes(spec_swap_bytes(v)) == v,
{
    assert(spec_swap_bytes(spec_swap_bytes(v)) == v) by (bit_vector);
}

/// A 64-bit word as held in the backing store of a bit-packed array.
///
/// `value` is the logical word; `to_ne`/`from_ne` convert between the stored
/// representation and that logical value.
pub trait ByteOrderedU64: Copy + Sized {
    /// The logical 64-bit value this stored word represents.
    spec fn value(self) -> u64;

    /// Decodes the stored representation into the logical value.
    fn to_ne(self) -> (r: u64)
        ensures
            r == self.value(),
    ;

    /// Encodes a logical value into the stored representation.
    fn from_ne(v: u64) -> (r: Self)
        ensures
            r.value() == v,
    ;
}

/// Stores each word byte-swapped, so the in-memory bytes are the big-endian
/// serialization of the logical value.
#[derive(Clone, Copy)]
pub struct BigEndian(u64);

impl ByteOrderedU64 for BigEndian {
    closed spec fn value(self) -> u64 {
        spec_swap_bytes(self.0)
    }

    fn to_ne(self) -> (r: u64) {
        swap_bytes(self.0)
    }

    fn from_ne(v: u64) -> (r: Self) {
        proof {
            lemma_swap_bytes_involutive(v);
        }
        BigEndian(swap_bytes(v))
    }
}

/// Stores each word as-is.
#[derive(Clone, Copy)]
pub struct NativeEndian(u64);

impl ByteOrderedU64 for NativeEndian {
    closed spec fn value(self) -> u64 {
        self.0
    }

    fn to_ne(self) -> (r: u64) {
        self.0
    }

    fn from_ne(v: u64) -> (r: Self) {
        NativeEndian(v)
    }
}

} // verus!
