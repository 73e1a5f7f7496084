//! Segment partitioning and reassembly engine for monolithic binary images.
//!
//! A manifest declares an ordered list of byte segments of an image. The
//! splitter partitions the image into per-segment artifacts and gap artifacts
//! so that every byte is covered exactly once; the merger concatenates those
//! artifacts back into a byte-identical image. A symbol-aware disassembler
//! annotates code segments, and an object-file reader recovers function blobs
//! from relocatable objects for object-backed segments.

use vstd::prelude::*;

pub mod digest;
pub mod disasm;
pub mod hexutil;
pub mod laws;
pub mod listings;
pub mod manifest;
pub mod merge;
pub mod object;
pub mod paths;
pub mod split;
pub mod symbols;
pub mod textutil;

verus! {

} // verus!
