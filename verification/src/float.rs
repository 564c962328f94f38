use vstd::prelude::*;

use std::sync::atomic::AtomicU64;

use crate::bitset::MemoryOrder;

verus! {

/// An `f64` that several threads may read and write at once, held as the bits of the value.
pub struct AtomicF64(AtomicU64);

impl AtomicF64 {
    /// A cell that holds the value whose bits are `bits`.
    pub fn from_bits(bits: u64) -> AtomicF64 {
        AtomicF64(AtomicU64::new(bits))
    }

    /// The bits of the value held, as one atomic load read them.
    pub fn load_bits(&self, ordering: MemoryOrder) -> u64 {
        self.0.load(ordering.to_std())
    }

    /// Replaces the value held with the one whose bits are `bits`.
    pub fn store_bits(&self, bits: u64, ordering: MemoryOrder) {
        self.0.store(bits, ordering.to_std())
    }
}

} // verus!
