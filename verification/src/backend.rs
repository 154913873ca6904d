//! The two memory backends that symbolic execution can run on.
//!
//! Both use the same solver and bitvector representation; they differ in the
//! `Memory` that holds the program's memory.

use vstd::prelude::*;

verus! {

/// The backend whose memory is an array of 64-bit cells, which handles reads
/// and writes of any size at any alignment (see `cell_memory`).
#[derive(PartialEq, Eq, Clone, Debug)]
pub struct CellMemoryBackend {}

/// The backend used by default, whose memory is an array of bytes.
#[derive(PartialEq, Eq, Clone, Debug)]
pub struct DefaultBackend {}

} // verus!
