//! A verified codec for the chunk container format of PNG images.
//!
//! The library parses, validates, mutates and re-serializes the binary
//! container: a fixed 8-byte signature followed by length-prefixed,
//! checksummed chunk records.  It lets a caller embed an auxiliary data
//! chunk into a valid container, locate it again by its 4-byte type tag,
//! and remove it.

pub mod bytes_be;
pub mod checksum;
pub mod chunk;
pub mod chunk_type;
pub mod png;
mod text;

use vstd::prelude::*;

verus! {

} // verus!
