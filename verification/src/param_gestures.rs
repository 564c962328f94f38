use vstd::prelude::*;

use crate::bits::words_for;
use crate::bitset::{drained_bits, AtomicBitset, Bitset, Drain, MemoryOrder};
use crate::float::AtomicF64;

verus! {

/// What the audio side must report to the host for one parameter: whether a gesture begins,
/// the value to set (as the bits of an `f64`), and whether the gesture ends, in that order.
#[derive(Clone, Copy, PartialEq, Eq, Debug)]
pub struct GestureUpdate {
    pub index: usize,
    pub begin_gesture: bool,
    pub set_value: Option<u64>,
    pub end_gesture: bool,
}

/// The update reported for parameter `index`, whose gesture the host last saw in `current`,
/// when the editor's gesture state is now `next` and `value` is the value set since the last
/// report, if any. A value set outside a gesture is wrapped in one.
pub open spec fn spec_gesture_update(
    index: usize,
    current: bool,
    value: Option<u64>,
    next: bool,
) -> GestureUpdate {
    let in_gesture = current || value is Some;
    GestureUpdate {
        index,
        begin_gesture: !current && (value is Some || next),
        set_value: value,
        end_gesture: in_gesture && !next,
    }
}

/// The gesture state that the host is left in after it applies `update` to `current`.
pub open spec fn host_state_after(current: bool, update: GestureUpdate) -> bool {
    if update.end_gesture {
        false
    } else {
        current || update.begin_gesture
    }
}

/// Computes the update for one parameter, as `spec_gesture_update` says.
pub fn gesture_update(index: usize, current: bool, value: Option<u64>, next: bool) -> (r:
    GestureUpdate)
    ensures
        r == spec_gesture_update(index, current, value, next),
{
    let mut update = GestureUpdate {
        index,
        begin_gesture: false,
        set_value: None,
        end_gesture: false,
    };
    let mut current_state = current;
    if value.is_some() {
        if !current_state {
            update.begin_gesture = true;
            current_state = true;
        }
        update.set_value = value;
    }
    if !current_state && next {
        update.begin_gesture = true;
    } else if current_state && !next {
        update.end_gesture = true;
    }
    update
}

/// The updates keep the host in step with the editor: after an update the host's gesture state
/// is the editor's, a gesture only begins when none is open and only ends when one is, and a
/// value is only ever set inside a gesture.
pub proof fn law_gesture_update_keeps_host_in_step(
    index: usize,
    current: bool,
    value: Option<u64>,
    next: bool,
)
    ensures
        ({
            let u = spec_gesture_update(index, current, value, next);
            &&& host_state_after(current, u) == next
            &&& u.begin_gesture ==> !current
            &&& u.end_gesture ==> (current || u.begin_gesture)
            &&& u.set_value is Some ==> (current || u.begin_gesture)
            &&& u.set_value == value
            &&& (value is None && current == next) ==> (!u.begin_gesture && !u.end_gesture)
        }),
{
}

/// Gesture and value changes made by an editor, waiting to be reported by the audio side.
pub struct ParamGestures {
    values: Vec<AtomicF64>,
    gesture_states: AtomicBitset,
    dirty: AtomicBitset,
    values_dirty: AtomicBitset,
}

impl ParamGestures {
    pub closed spec fn wf(&self) -> bool {
        &&& self.gesture_states.wf()
        &&& self.dirty.wf()
        &&& self.values_dirty.wf()
        &&& self.gesture_states.spec_len() == self.values@.len()
        &&& self.dirty.spec_len() == self.values@.len()
        &&& self.values_dirty.spec_len() == self.values@.len()
    }

    /// The number of parameters.
    pub closed spec fn count(&self) -> nat {
        self.values@.len()
    }

    /// The number of parameters.
    pub fn param_count(&self) -> (r: usize)
        ensures
            r == self.count(),
    {
        self.values.len()
    }

    /// Room for `count` parameters, with no gesture open and no change waiting.
    pub fn with_count(count: usize) -> (r: ParamGestures)
        requires
            count + 63 <= usize::MAX,
        ensures
            r.wf(),
            r.count() == count,
    {
        let mut values: Vec<AtomicF64> = Vec::new();
        let mut i: usize = 0;
        while i < count
            invariant
                i <= count,
                values@.len() == i,
            decreases count - i,
        {
            values.push(AtomicF64::from_bits(0));
            i = i + 1;
        }
        ParamGestures {
            values,
            gesture_states: AtomicBitset::with_len(count),
            dirty: AtomicBitset::with_len(count),
            values_dirty: AtomicBitset::with_len(count),
        }
    }

    /// Records that a gesture on parameter `index` has begun.
    pub fn begin_gesture(&self, index: usize)
        requires
            self.wf(),
            index < self.count(),
    {
        self.gesture_states.set(index, MemoryOrder::Relaxed);
        self.dirty.set(index, MemoryOrder::Release);
    }

    /// Records that the gesture on parameter `index` has ended.
    pub fn end_gesture(&self, index: usize)
        requires
            self.wf(),
            index < self.count(),
    {
        self.gesture_states.reset(index, MemoryOrder::Relaxed);
        self.dirty.set(index, MemoryOrder::Release);
    }

    /// Records a new value (the bits of an `f64`) for parameter `index`.
    pub fn set_value(&self, index: usize, value: u64)
        requires
            self.wf(),
            index < self.count(),
    {
        self.values[index].store_bits(value, MemoryOrder::Relaxed);
        self.values_dirty.set(index, MemoryOrder::Release);
        self.dirty.set(index, MemoryOrder::Release);
    }

    /// Whether `changes` is a drain of the parameters with waiting changes.
    pub closed spec fn drains(&self, changes: Drain) -> bool {
        *changes.source() == self.dirty
    }

    /// Starts picking up the parameters with waiting changes, for `next_update`.
    pub fn changes(&self) -> (r: Drain<'_>)
        requires
            self.wf(),
        ensures
            r.wf(),
            self.drains(r),
            r.emitted() == Seq::<usize>::empty(),
    {
        self.dirty.drain(MemoryOrder::Acquire)
    }

    /// Reports the next parameter with waiting changes, one past every parameter reported so
    /// far: the update that takes the host from its last reported state of that parameter (in
    /// `states`) to the state the editor is in now, which `states` then records.
    pub fn next_update<'a>(&'a self, changes: &mut Drain<'a>, states: &mut GestureStates) -> (r:
        Option<GestureUpdate>)
        requires
            self.wf(),
            old(changes).wf(),
            self.drains(*old(changes)),
            old(states).wf(),
            old(states)@.len() == self.count(),
        ensures
            final(changes).wf(),
            self.drains(*final(changes)),
            final(states).wf(),
            final(states)@.len() == self.count(),
            final(changes).emitted().len() <= self.count(),
            match r {
                Some(u) => {
                    &&& final(changes).emitted() == old(changes).emitted().push(u.index)
                    &&& u.index < self.count()
                    &&& forall|j: int|
                        0 <= j < old(changes).emitted().len() ==> #[trigger] old(changes).emitted()[j]
                            < u.index
                    &&& final(states)@ == old(states)@.update(
                        u.index as int,
                        final(states)@[u.index as int],
                    )
                    &&& u == spec_gesture_update(
                        u.index,
                        old(states)@[u.index as int],
                        u.set_value,
                        final(states)@[u.index as int],
                    )
                },
                None => {
                    &&& final(states)@ == old(states)@
                    &&& final(changes).emitted() == old(changes).emitted()
                    &&& final(changes).finished()
                    &&& final(changes).taken().len() == words_for(self.count())
                    &&& final(changes).emitted() == drained_bits(final(changes).taken(), self.count())
                },
            },
    {
        proof {
            states.states.lemma_view_len();
        }
        match changes.next() {
            Some(index) => {
                proof {
                    crate::bitset::law_drain_yields_taken_bits_in_order(changes);
                }
                let current = states.states.get(index);
                let value = if self.values_dirty.swap(index, false, MemoryOrder::Acquire) {
                    Some(self.values[index].load_bits(MemoryOrder::Relaxed))
                } else {
                    None
                };
                let next = self.gesture_states.get(index, MemoryOrder::Relaxed);
                let update = gesture_update(index, current, value, next);
                if next {
                    states.states.set(index);
                } else {
                    states.states.reset(index);
                }
                proof {
                    states.states.lemma_view_len();
                    let e = changes.emitted();
                    assert(e[e.len() - 1] == index);
                    assert forall|j: int| 0 <= j < old(changes).emitted().len() implies #[trigger] old(
                        changes,
                    ).emitted()[j] < index by {
                        assert(e[j] == old(changes).emitted()[j]);
                    }
                }
                Some(update)
            },
            None => {
                proof {
                    crate::bitset::law_drain_yields_taken_bits_in_order(changes);
                }
                None
            },
        }
    }

    /// Starts reporting the waiting changes, against the host's view of the gestures in `states`.
    pub fn poll<'a, 'b>(&'a self, states: &'b mut GestureStates) -> (r: Poll<'a, 'b>)
        requires
            self.wf(),
            old(states).wf(),
            old(states)@.len() == self.count(),
        ensures
            r.wf(),
            r.states() == old(states)@,
            r.emitted() == Seq::<usize>::empty(),
    {
        Poll { gestures: self, states, iter: self.changes() }
    }
}

/// The gesture state of each parameter as last reported to the host.
pub struct GestureStates {
    states: Bitset,
}

impl View for GestureStates {
    type V = Seq<bool>;

    closed spec fn view(&self) -> Seq<bool> {
        self.states@
    }
}

impl GestureStates {
    pub closed spec fn wf(&self) -> bool {
        &&& self.states.wf()
        &&& self.states@.len() == self.states.spec_len()
    }

    /// No gesture open on any of `count` parameters.
    pub fn with_count(count: usize) -> (r: GestureStates)
        requires
            count + 63 <= usize::MAX,
        ensures
            r.wf(),
            r@ == Seq::new(count as nat, |i: int| false),
    {
        let states = Bitset::with_len(count);
        proof {
            states.lemma_view_len();
        }
        GestureStates { states }
    }
}

/// The reporting of waiting gesture changes, one parameter at a time.
pub struct Poll<'a, 'b> {
    gestures: &'a ParamGestures,
    states: &'b mut GestureStates,
    iter: Drain<'a>,
}

impl<'a, 'b> Poll<'a, 'b> {
    /// The parameters reported so far, in order.
    pub closed spec fn emitted(&self) -> Seq<usize> {
        self.iter.emitted()
    }

    /// The host's view of the gestures, as updated by the reports made so far.
    pub closed spec fn states(&self) -> Seq<bool> {
        (*self.states)@
    }

    /// The words of change flags taken from the shared set so far.
    pub closed spec fn taken(&self) -> Seq<u64> {
        self.iter.taken()
    }

    /// Whether every word has been taken and every parameter flagged in them reported.
    pub closed spec fn finished(&self) -> bool {
        self.iter.finished()
    }

    pub closed spec fn wf(&self) -> bool {
        &&& self.gestures.wf()
        &&& self.iter.wf()
        &&& self.gestures.drains(self.iter)
        &&& self.states.wf()
        &&& self.states@.len() == self.gestures.count()
    }

    /// Reports the next parameter with waiting changes; see `ParamGestures::next_update`.
    pub fn next(&mut self) -> (r: Option<GestureUpdate>)
        requires
            old(self).wf(),
        ensures
            final(self).wf(),
            final(self).emitted().len() <= final(self).states().len(),
            match r {
                Some(u) => {
                    &&& final(self).emitted() == old(self).emitted().push(u.index)
                    &&& u.index < old(self).states().len()
                    &&& forall|j: int|
                        0 <= j < old(self).emitted().len() ==> #[trigger] old(self).emitted()[j]
                            < u.index
                    &&& final(self).states() == old(self).states().update(
                        u.index as int,
                        final(self).states()[u.index as int],
                    )
                    &&& u == spec_gesture_update(
                        u.index,
                        old(self).states()[u.index as int],
                        u.set_value,
                        final(self).states()[u.index as int],
                    )
                },
                None => {
                    &&& final(self).states() == old(self).states()
                    &&& final(self).emitted() == old(self).emitted()
                    &&& final(self).finished()
                    &&& final(self).taken().len() == words_for(final(self).states().len())
                    &&& final(self).emitted() == drained_bits(
                        final(self).taken(),
                        final(self).states().len(),
                    )
                },
            },
    {
        self.gestures.next_update(&mut self.iter, &mut *self.states)
    }
}

} // verus!
