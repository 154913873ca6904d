//! An extremely simple bump allocator which never frees.

use std::collections::HashMap;
use vstd::prelude::*;

use crate::cell_memory::{BITS_IN_BYTE, CELL_BYTES};

verus! {

broadcast use vstd::std_specs::hash::group_hash_axioms;

/// Number of whole bytes needed to hold `bits` bits.
pub open spec fn bytes_for_bits(bits: u64) -> nat {
    ((bits as int + 7) / 8) as nat
}

/// Index of the memory cell that holds byte address `addr`.
pub open spec fn cell_of(addr: int) -> int {
    addr / (CELL_BYTES as int)
}

/// The region `[addr, addr + bytes)` lies inside a single cell.
pub open spec fn within_one_cell(addr: int, bytes: nat) -> bool {
    bytes == 0 || cell_of(addr) == cell_of(addr + bytes - 1)
}

/// The placement rule of the allocator: an allocation no larger than a cell
/// never crosses a cell boundary, and a larger one starts at a cell boundary.
pub open spec fn well_placed(addr: int, bytes: nat) -> bool {
    &&& bytes <= CELL_BYTES ==> within_one_cell(addr, bytes)
    &&& bytes > CELL_BYTES ==> addr % (CELL_BYTES as int) == 0
}

/// The byte regions of two allocations do not overlap.
pub open spec fn disjoint(a1: int, n1: nat, a2: int, n2: nat) -> bool {
    a1 + n1 <= a2 || a2 + n2 <= a1
}

/// A bump allocator which never frees.
#[derive(Clone)]
pub struct Alloc {
    /// Pointer to available, unallocated memory
    cursor: u64,
    /// Map from allocation address to its size in bits
    sizes: HashMap<u64, u64>,
}

impl Alloc {
    /// We allocate from this address upwards.
    pub const ALLOC_START: u64 = 0x1000_0000;

    /// The next address the allocator will hand out (before cell realignment).
    pub closed spec fn cursor(&self) -> u64 {
        self.cursor
    }

    /// Map from the address of each allocation made so far to its size in bits.
    pub closed spec fn sizes(&self) -> Map<u64, u64> {
        self.sizes@
    }

    /// The allocator's invariant: every allocation lies between `ALLOC_START`
    /// and the cursor, is well placed with respect to cells, and no two
    /// allocations of nonzero size overlap.
    pub open spec fn wf(&self) -> bool {
        &&& Self::ALLOC_START <= self.cursor()
        &&& self.sizes().dom().finite()
        &&& forall|a: u64| #[trigger] self.sizes().contains_key(a) ==> {
            &&& Self::ALLOC_START <= a
            &&& a + bytes_for_bits(self.sizes()[a]) <= self.cursor()
            &&& well_placed(a as int, bytes_for_bits(self.sizes()[a]))
        }
        &&& forall|a1: u64, a2: u64|
            #![trigger self.sizes().contains_key(a1), self.sizes().contains_key(a2)]
            self.sizes().contains_key(a1) && self.sizes().contains_key(a2) && a1 != a2
                && self.sizes()[a1] != 0 && self.sizes()[a2] != 0 ==> disjoint(
                a1 as int,
                bytes_for_bits(self.sizes()[a1]),
                a2 as int,
                bytes_for_bits(self.sizes()[a2]),
            )
    }

    /// The address that `alloc_bits(bits)` returns when the cursor is at `cursor`.
    pub open spec fn next_addr(cursor: u64, bits: u64) -> int {
        let bytes = bytes_for_bits(bits);
        let remaining = CELL_BYTES - cursor % (CELL_BYTES as u64);
        if bytes > remaining {
            cursor + remaining
        } else {
            cursor as int
        }
    }

    /// A new allocator with nothing allocated.
    pub fn new() -> (r: Self)
        ensures
            r.wf(),
            r.cursor() == Self::ALLOC_START,
            r.sizes() == Map::<u64, u64>::empty(),
    {
        Alloc { cursor: Self::ALLOC_START, sizes: HashMap::new() }
    }

    /// Allocate the specified number of bits, returning a pointer to the allocated object.
    pub fn alloc_bits(&mut self, bits: u64) -> (addr: u64)
        requires
            old(self).wf(),
            Self::next_addr(old(self).cursor(), bits) + bytes_for_bits(bits) <= u64::MAX,
        ensures
            final(self).wf(),
            Self::ALLOC_START <= addr,
            forall|a: u64| #[trigger] old(self).sizes().contains_key(a) ==> a + bytes_for_bits(old(self).sizes()[a]) <= addr,
            addr == Self::next_addr(old(self).cursor(), bits),
            final(self).cursor() == addr + bytes_for_bits(bits),
            final(self).sizes() == old(self).sizes().insert(addr, bits),
            old(self).cursor() <= addr,
            well_placed(addr as int, bytes_for_bits(bits)),
    {
        let bits_in_byte: u64 = BITS_IN_BYTE as u64;
        let cell_bytes: u64 = CELL_BYTES as u64;
        let mut bytes: u64 = bits / bits_in_byte;
        if bits % bits_in_byte != 0 {
            bytes = bytes + 1;  // round up to nearest byte
        }
        assert(bytes == bytes_for_bits(bits));
        let current_offset_bytes = self.cursor % cell_bytes;
        let bytes_remaining_in_cell = cell_bytes - current_offset_bytes;
        if bytes > bytes_remaining_in_cell {
            self.cursor = self.cursor + bytes_remaining_in_cell;
        }
        let rval = self.cursor;
        self.cursor = self.cursor + bytes;
        self.sizes.insert(rval, bits);
        proof {
            let old_c = old(self).cursor();
            assert(within_one_cell(rval as int, bytes as nat) || bytes > 8) by {
                if bytes <= bytes_remaining_in_cell && bytes > 0 {
                    assert(rval == old_c);
                    assert((rval + bytes - 1) / 8 == rval / 8);
                }
            }
            assert forall|a: u64| #[trigger] self.sizes().contains_key(a) implies {
                &&& Self::ALLOC_START <= a
                &&& a + bytes_for_bits(self.sizes()[a]) <= self.cursor()
                &&& well_placed(a as int, bytes_for_bits(self.sizes()[a]))
            } by {
                if a != rval {
                    assert(old(self).sizes().contains_key(a));
                }
            }
        }
        rval
    }

    /// A copy of the allocator.
    pub fn copy(&self) -> (r: Self)
        ensures
            r.cursor() == self.cursor(),
            r.sizes() == self.sizes(),
    {
        Alloc { cursor: self.cursor, sizes: self.sizes.clone() }
    }

    /// Get the size, in bits, of the allocation at the given address, or `None`
    /// if that address is not the result of an `alloc_bits()`.
    pub fn get_allocation_size(&self, addr: u64) -> (r: Option<u64>)
        ensures
            r == (if self.sizes().contains_key(addr) {
                Some(self.sizes()[addr])
            } else {
                None
            }),
    {
        match self.sizes.get(&addr) {
            Some(s) => Some(*s),
            None => None,
        }
    }
}

} // verus!
