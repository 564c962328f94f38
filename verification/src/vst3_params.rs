use vstd::prelude::*;

use crate::bits::words_for;
use crate::bitset::{drained_bits, AtomicBitset, MemoryOrder};
use crate::events::ParamId;
use crate::float::AtomicF64;

verus! {

/// The pairs were picked up at exactly the positions flagged in the words `taken` from the
/// shared set, in increasing order: pair `k` carries the id at the `k`-th such position.
pub open spec fn picked_from(pairs: Seq<(ParamId, u64)>, ids: Seq<ParamId>, taken: Seq<u64>) -> bool {
    let idx = drained_bits(taken, ids.len());
    &&& taken.len() == words_for(ids.len())
    &&& idx.len() == pairs.len()
    &&& forall|k: int| 0 <= k < idx.len() ==> #[trigger] idx[k] < ids.len() && pairs[k].0 == ids[idx[k] as int]
    &&& forall|k1: int, k2: int| 0 <= k1 < k2 < idx.len() ==> #[trigger] idx[k1] < #[trigger] idx[k2]
}

/// The pairs were picked up, for some words taken from the shared set, as `picked_from` says.
pub open spec fn picked_in_order(pairs: Seq<(ParamId, u64)>, ids: Seq<ParamId>) -> bool {
    exists|taken: Seq<u64>| picked_from(pairs, ids, taken)
}

/// Parameter values (the bits of `f64`s) shared by the two sides of a VST3 plugin: each side
/// marks what it changes, and the other side picks those changes up.
pub struct ParamValues {
    values: Vec<AtomicF64>,
    plugin_dirty: AtomicBitset,
    processor_dirty: AtomicBitset,
}

impl ParamValues {
    pub closed spec fn wf(&self) -> bool {
        &&& self.plugin_dirty.wf()
        &&& self.processor_dirty.wf()
        &&& self.plugin_dirty.spec_len() == self.values@.len()
        &&& self.processor_dirty.spec_len() == self.values@.len()
    }

    /// The number of parameters.
    pub closed spec fn count(&self) -> nat {
        self.values@.len()
    }

    /// The number of parameters.
    pub fn param_count(&self) -> (r: usize)
        ensures
            r == self.count(),
    {
        self.values.len()
    }

    /// One parameter per default value (given as the bits of an `f64`), none of them changed.
    pub fn new(defaults: &[u64]) -> (r: ParamValues)
        requires
            defaults@.len() + 63 <= usize::MAX,
        ensures
            r.wf(),
            r.count() == defaults@.len(),
    {
        let mut values: Vec<AtomicF64> = Vec::new();
        let mut i: usize = 0;
        while i < defaults.len()
            invariant
                i <= defaults@.len(),
                values@.len() == i,
            decreases defaults@.len() - i,
        {
            values.push(AtomicF64::from_bits(defaults[i]));
            i = i + 1;
        }
        ParamValues {
            values,
            plugin_dirty: AtomicBitset::with_len(defaults.len()),
            processor_dirty: AtomicBitset::with_len(defaults.len()),
        }
    }

    /// Stores a value that the processor set and marks it for the plugin.
    pub fn set_from_processor(&self, index: usize, value: u64)
        requires
            self.wf(),
            index < self.count(),
    {
        self.values[index].store_bits(value, MemoryOrder::Relaxed);
        self.plugin_dirty.set(index, MemoryOrder::Release);
    }

    /// Stores a value that the plugin set and marks it for the processor.
    pub fn set_from_plugin(&self, index: usize, value: u64)
        requires
            self.wf(),
            index < self.count(),
    {
        self.values[index].store_bits(value, MemoryOrder::Relaxed);
        self.processor_dirty.set(index, MemoryOrder::Release);
    }

    /// Picks up the values marked for the processor (every parameter flagged in the words the
    /// drain takes), once each and in increasing order of
    /// parameter index, as (id, value) pairs for it to apply; parameter `i` has id `ids[i]`.
    pub fn sync_processor(&self, ids: &[ParamId]) -> (r: Vec<(ParamId, u64)>)
        requires
            self.wf(),
            ids@.len() == self.count(),
        ensures
            r@.len() <= self.count(),
            picked_in_order(r@, ids@),
    {
        self.sync(&self.processor_dirty, ids)
    }

    /// Picks up the values marked for the plugin (every parameter flagged in the words the
    /// drain takes), once each and in increasing order of
    /// parameter index, as (id, value) pairs for it to apply; parameter `i` has id `ids[i]`.
    pub fn sync_plugin(&self, ids: &[ParamId]) -> (r: Vec<(ParamId, u64)>)
        requires
            self.wf(),
            ids@.len() == self.count(),
        ensures
            r@.len() <= self.count(),
            picked_in_order(r@, ids@),
    {
        self.sync(&self.plugin_dirty, ids)
    }

    fn sync(&self, dirty: &AtomicBitset, ids: &[ParamId]) -> (r: Vec<(ParamId, u64)>)
        requires
            dirty.wf(),
            dirty.spec_len() == self.values@.len(),
            ids@.len() == self.values@.len(),
        ensures
            r@.len() <= self.values@.len(),
            picked_in_order(r@, ids@),
    {
        let mut changes: Vec<(ParamId, u64)> = Vec::new();
        let mut iter = dirty.drain(MemoryOrder::Acquire);
        loop
            invariant
                iter.wf(),
                iter.source() == dirty,
                dirty.spec_len() == self.values@.len(),
                ids@.len() == self.values@.len(),
                changes@.len() == iter.emitted().len(),
                forall|k: int|
                    0 <= k < changes@.len() ==> iter.emitted()[k] < ids@.len() && (#[trigger] changes@[k]).0
                        == ids@[iter.emitted()[k] as int],
                changes@.len() <= self.values@.len(),
            decreases self.values@.len() - changes@.len(),
        {
            match iter.next() {
                Some(index) => {
                    proof {
                        crate::bitset::law_drain_yields_taken_bits_in_order(&iter);
                        crate::bitset::lemma_increasing_bounded(iter.emitted(), self.values@.len());
                    }
                    let value = self.values[index].load_bits(MemoryOrder::Relaxed);
                    let ghost before = changes@;
                    changes.push((ids[index], value));
                    proof {
                        assert forall|k: int| 0 <= k < changes@.len() implies iter.emitted()[k] < ids@.len()
                            && (#[trigger] changes@[k]).0 == ids@[iter.emitted()[k] as int] by {
                            if k < before.len() {
                                assert(changes@[k] == before[k]);
                            }
                        }
                    }
                },
                None => {
                    proof {
                        crate::bitset::law_drain_yields_taken_bits_in_order(&iter);
                        assert(picked_from(changes@, ids@, iter.taken()));
                    }
                    return changes;
                },
            }
        }
    }
}

} // verus!
