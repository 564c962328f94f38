use vstd::prelude::*;

use crate::bitset::{drained_bits, AtomicBitset, Drain, MemoryOrder};
use crate::bits::words_for;
use crate::float::AtomicF64;

verus! {

/// Parameter values (the bits of `f64`s) written by one side and picked up by the other.
pub struct ParamValues {
    values: Vec<AtomicF64>,
    dirty: AtomicBitset,
}

impl ParamValues {
    pub closed spec fn wf(&self) -> bool {
        &&& self.dirty.wf()
        &&& self.dirty.spec_len() == self.values@.len()
    }

    /// The number of parameters.
    pub closed spec fn count(&self) -> nat {
        self.values@.len()
    }

    /// The number of parameters.
    pub fn param_count(&self) -> (r: usize)
        ensures
            r == self.count(),
    {
        self.values.len()
    }

    /// Room for `count` parameters, none of them changed.
    pub fn with_count(count: usize) -> (r: ParamValues)
        requires
            count + 63 <= usize::MAX,
        ensures
            r.wf(),
            r.count() == count,
    {
        let mut values: Vec<AtomicF64> = Vec::new();
        let mut i: usize = 0;
        while i < count
            invariant
                i <= count,
                values@.len() == i,
            decreases count - i,
        {
            values.push(AtomicF64::from_bits(0));
            i = i + 1;
        }
        ParamValues { values, dirty: AtomicBitset::with_len(count) }
    }

    /// Stores a new value for parameter `index` and marks it changed.
    ///
    /// The contract leaves the stored value and flag unsaid: they live in std atomics, which
    /// vstd gives no value semantics, and other threads may change them at any time.
    pub fn set(&self, index: usize, value: u64)
        requires
            self.wf(),
            index < self.count(),
    {
        self.values[index].store_bits(value, MemoryOrder::Relaxed);
        self.dirty.set(index, MemoryOrder::Release);
    }

    /// Starts picking up the changed parameters.
    pub fn poll(&self) -> (r: Poll<'_>)
        requires
            self.wf(),
        ensures
            r.wf(),
            r.count() == self.count(),
            r.emitted() == Seq::<usize>::empty(),
    {
        Poll { values: &self.values, iter: self.dirty.drain(MemoryOrder::Acquire) }
    }
}

/// The picking up of changed parameters, one at a time, in increasing order of index.
pub struct Poll<'a> {
    values: &'a Vec<AtomicF64>,
    iter: Drain<'a>,
}

impl<'a> Poll<'a> {
    pub closed spec fn wf(&self) -> bool {
        &&& self.iter.wf()
        &&& self.iter.source().spec_len() == self.values@.len()
    }

    /// The number of parameters.
    pub closed spec fn count(&self) -> nat {
        self.values@.len()
    }

    /// The indices picked up so far, in order.
    pub closed spec fn emitted(&self) -> Seq<usize> {
        self.iter.emitted()
    }

    /// The words of changed-flags taken from the shared set so far.
    pub closed spec fn taken(&self) -> Seq<u64> {
        self.iter.taken()
    }

    /// Whether every word has been taken and every changed parameter in them picked up.
    pub closed spec fn finished(&self) -> bool {
        self.iter.finished()
    }

    /// The next changed parameter, with the bits of its current value: its index is greater
    /// than every index picked up before.
    pub fn next(&mut self) -> (r: Option<(usize, u64)>)
        requires
            old(self).wf(),
        ensures
            final(self).wf(),
            final(self).count() == old(self).count(),
            final(self).emitted().len() <= final(self).count(),
            match r {
                Some((index, _)) => {
                    &&& index < old(self).count()
                    &&& final(self).emitted() == old(self).emitted().push(index)
                    &&& forall|j: int|
                        0 <= j < old(self).emitted().len() ==> #[trigger] old(self).emitted()[j]
                            < index
                },
                None => {
                    &&& final(self).emitted() == old(self).emitted()
                    &&& final(self).finished()
                    &&& final(self).taken().len() == words_for(final(self).count())
                    &&& final(self).emitted() == drained_bits(final(self).taken(), final(self).count())
                },
            },
    {
        let r = match self.iter.next() {
            Some(index) => Some((index, self.values[index].load_bits(MemoryOrder::Relaxed))),
            None => None,
        };
        proof {
            crate::bitset::law_drain_yields_taken_bits_in_order(&self.iter);
            if let Some((index, _)) = r {
                let e = self.iter.emitted();
                assert(e[e.len() - 1] == index);
                assert forall|j: int| 0 <= j < old(self).emitted().len() implies #[trigger] old(
                    self,
                ).emitted()[j] < index by {
                    assert(e[j] == old(self).emitted()[j]);
                }
            }
        }
        r
    }
}

} // verus!
