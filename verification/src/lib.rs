//! Verified core of the Homeworld HOD model tool chain: byte framing of
//! HOD chunks and pools, the XPRESS-style decompressor used on pool
//! streams, vertex deduplication and mesh compilation, and the KDOP
//! collision chunk layout.

pub mod bytes;
pub mod xpress;
pub mod analysis;
pub mod mips;
pub mod mesh;
pub mod dedup;
pub mod compiler;
pub mod names;
pub mod iff;
pub mod pool;
pub mod diff;
pub mod kdop;
pub mod lod;
pub mod hull;

pub mod collision;
