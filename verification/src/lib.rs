//! Compact, random-access storage for voxel-grid world data.
//!
//! The crate covers three coupled subsystems: a variable-width bit-packing
//! container ([`bitpack`]), an adaptive palette-compression scheme over it
//! ([`palette`]), and the per-protocol-version section/column codecs that
//! (de)serialize a 16x16x16 voxel section and a 16-section column to and from
//! their historical binary layouts ([`chunk`], [`containers`]).

pub mod bitpack;
pub mod byteorder;
pub mod chunk;
pub mod containers;
pub mod item;
pub mod palette;
