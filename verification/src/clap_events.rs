use vstd::prelude::*;

use crate::bits::words_for;
use crate::bitset::drained_bits;
use crate::events::{Data, Event, ParamId};
use crate::id_map::{positions_of, IdMap};
use crate::param_gestures::{spec_gesture_update, GestureStates, GestureUpdate, ParamGestures};
use crate::params::ParamValues;

verus! {

/// The event space of CLAP's core events.
pub const CLAP_CORE_EVENT_SPACE_ID: u16 = 0;

/// The type of CLAP's parameter value events.
pub const CLAP_EVENT_PARAM_VALUE: u16 = 5;

/// An event for the host's output queue, in the order it is to be sent; a value is the bits of
/// the parameter's `f64` value before it is mapped for the host.
#[derive(Clone, Copy, PartialEq, Eq, Debug)]
pub enum OutEvent {
    GestureBegin { id: ParamId },
    ParamValue { id: ParamId, value: u64 },
    GestureEnd { id: ParamId },
}

/// The events that report `update` for parameter `id`: a gesture begin, the value, and a
/// gesture end, each only when the update calls for it.
pub open spec fn spec_gesture_events(update: GestureUpdate, id: ParamId) -> Seq<OutEvent> {
    (if update.begin_gesture {
        seq![OutEvent::GestureBegin { id }]
    } else {
        Seq::empty()
    }) + (match update.set_value {
        Some(value) => seq![OutEvent::ParamValue { id, value }],
        None => Seq::empty(),
    }) + (if update.end_gesture {
        seq![OutEvent::GestureEnd { id }]
    } else {
        Seq::empty()
    })
}

/// The events that report `update` for parameter `id`, in order.
pub fn send_gesture_events(update: &GestureUpdate, id: ParamId) -> (r: Vec<OutEvent>)
    ensures
        r@ == spec_gesture_events(*update, id),
{
    let mut out: Vec<OutEvent> = Vec::new();
    if update.begin_gesture {
        out.push(OutEvent::GestureBegin { id });
    }
    if let Some(value) = update.set_value {
        out.push(OutEvent::ParamValue { id, value });
    }
    if update.end_gesture {
        out.push(OutEvent::GestureEnd { id });
    }
    proof {
        let a: Seq<OutEvent> = if update.begin_gesture {
            seq![OutEvent::GestureBegin { id }]
        } else {
            Seq::empty()
        };
        let b: Seq<OutEvent> = match update.set_value {
            Some(value) => seq![OutEvent::ParamValue { id, value }],
            None => Seq::empty(),
        };
        let c: Seq<OutEvent> = if update.end_gesture {
            seq![OutEvent::GestureEnd { id }]
        } else {
            Seq::empty()
        };
        assert(out@ =~= a + b + c);
    }
    out
}

/// The engine events that a run of updates sets values with: one at `time` per update that
/// carries a value, in order.
pub open spec fn value_events(updates: Seq<GestureUpdate>, ids: Seq<ParamId>, time: u32) -> Seq<Event>
    decreases updates.len(),
{
    if updates.len() == 0 {
        Seq::empty()
    } else {
        let rest = value_events(updates.drop_last(), ids, time);
        let u = updates.last();
        match u.set_value {
            Some(value) => rest.push(
                Event { time: time as i64, data: Data::ParamChange { id: ids[u.index as int], value } },
            ),
            None => rest,
        }
    }
}

/// The host events that report a run of updates, in order.
pub open spec fn out_events(updates: Seq<GestureUpdate>, ids: Seq<ParamId>) -> Seq<OutEvent>
    decreases updates.len(),
{
    if updates.len() == 0 {
        Seq::empty()
    } else {
        out_events(updates.drop_last(), ids) + spec_gesture_events(
            updates.last(),
            ids[updates.last().index as int],
        )
    }
}

/// The parameter indices of a run of updates, in order.
pub open spec fn update_indices(updates: Seq<GestureUpdate>) -> Seq<usize> {
    updates.map_values(|u: GestureUpdate| u.index)
}

/// Whether one of `updates` is for parameter `i`.
pub open spec fn reported(updates: Seq<GestureUpdate>, i: int) -> bool {
    exists|k: int| 0 <= k < updates.len() && updates[k].index == i
}

/// Reports the editor's waiting gesture changes at sample `time`: each value goes to the engine
/// as an event and to the plugin's copy of the parameters, and each update to the host as its
/// gesture events. Parameter `i` has id `ids[i]`. Every parameter flagged in the words that
/// the drain took from the shared set is reported, once and in increasing order. Each update is
/// the one that takes the host's
/// view of its parameter in `states` to the editor's state, which `states` then holds; the
/// parameters that are not reported keep their state.
///
/// The hand-over to `plugin_params` is made for every value, but the contract does not state
/// it: the plugin side's values and flags live in std atomics, which vstd gives no value
/// semantics.
pub fn process_gestures(
    gestures: &ParamGestures,
    states: &mut GestureStates,
    ids: &[ParamId],
    plugin_params: &ParamValues,
    time: u32,
    events: &mut Vec<Event>,
) -> (r: Vec<OutEvent>)
    requires
        gestures.wf(),
        old(states).wf(),
        old(states)@.len() == gestures.count(),
        plugin_params.wf(),
        plugin_params.count() == gestures.count(),
        ids@.len() == gestures.count(),
    ensures
        final(states).wf(),
        final(states)@.len() == old(states)@.len(),
        exists|updates: Seq<GestureUpdate>, taken: Seq<u64>|
            {
                &&& taken.len() == words_for(ids@.len())
                &&& update_indices(updates) == drained_bits(taken, ids@.len())
                &&& forall|k: int| 0 <= k < updates.len() ==> #[trigger] updates[k].index < ids@.len()
                &&& forall|k1: int, k2: int|
                    0 <= k1 < k2 < updates.len() ==> #[trigger] updates[k1].index
                        < #[trigger] updates[k2].index
                &&& forall|k: int|
                    0 <= k < updates.len() ==> #[trigger] updates[k] == spec_gesture_update(
                        updates[k].index,
                        old(states)@[updates[k].index as int],
                        updates[k].set_value,
                        final(states)@[updates[k].index as int],
                    )
                &&& forall|i: int|
                    0 <= i < old(states)@.len() && !reported(updates, i)
                        ==> #[trigger] final(states)@[i] == old(states)@[i]
                &&& final(events)@ == old(events)@ + value_events(updates, ids@, time)
                &&& r@ == out_events(updates, ids@)
            },
{
    let mut out: Vec<OutEvent> = Vec::new();
    let ghost updates: Seq<GestureUpdate> = Seq::empty();
    let ghost events0 = events@;
    let ghost states0 = states@;
    let mut changes = gestures.changes();
    loop
        invariant
            gestures.wf(),
            changes.wf(),
            gestures.drains(changes),
            states.wf(),
            states@.len() == ids@.len(),
            states0.len() == ids@.len(),
            states0 == old(states)@,
            ids@.len() == gestures.count(),
            plugin_params.wf(),
            plugin_params.count() == ids@.len(),
            forall|k: int| 0 <= k < updates.len() ==> #[trigger] updates[k].index < ids@.len(),
            updates.len() == changes.emitted().len(),
            forall|k: int| 0 <= k < updates.len() ==> #[trigger] updates[k].index == changes.emitted()[k],
            forall|k1: int, k2: int|
                0 <= k1 < k2 < updates.len() ==> #[trigger] updates[k1].index
                    < #[trigger] updates[k2].index,
            forall|k: int|
                0 <= k < updates.len() ==> #[trigger] updates[k] == spec_gesture_update(
                    updates[k].index,
                    states0[updates[k].index as int],
                    updates[k].set_value,
                    states@[updates[k].index as int],
                ),
            forall|i: int|
                0 <= i < states0.len() && !reported(updates, i) ==> #[trigger] states@[i]
                    == states0[i],
            events@ == events0 + value_events(updates, ids@, time),
            out@ == out_events(updates, ids@),
            events0 == old(events)@,
            changes.emitted().len() <= ids@.len(),
        decreases ids@.len() - changes.emitted().len(),
    {
        let ghost before = changes.emitted();
        let ghost states_before = states@;
        match gestures.next_update(&mut changes, states) {
            Some(update) => {
                let id = ids[update.index];
                if let Some(value) = update.set_value {
                    events.push(Event { time: time as i64, data: Data::ParamChange { id, value } });
                    plugin_params.set(update.index, value);
                }
                let sent = send_gesture_events(&update, id);
                let mut k: usize = 0;
                let ghost out_before = out@;
                while k < sent.len()
                    invariant
                        k <= sent@.len(),
                        out@ == out_before + sent@.subrange(0, k as int),
                    decreases sent@.len() - k,
                {
                    out.push(sent[k]);
                    k = k + 1;
                    assert(out@ =~= out_before + sent@.subrange(0, k as int));
                }
                proof {
                    assert forall|k: int| 0 <= k < updates.len() implies #[trigger] updates[k].index
                        < update.index by {
                        assert(updates[k].index == before[k]);
                    }
                    let us = updates.push(update);
                    assert(us.drop_last() =~= updates);
                    assert(sent@.subrange(0, sent@.len() as int) =~= sent@);
                    assert(!reported(updates, update.index as int));
                    assert(states_before[update.index as int] == states0[update.index as int]);
                    assert forall|k: int| 0 <= k < us.len() implies #[trigger] us[k]
                        == spec_gesture_update(
                        us[k].index,
                        states0[us[k].index as int],
                        us[k].set_value,
                        states@[us[k].index as int],
                    ) by {
                        if k < updates.len() {
                            assert(us[k] == updates[k]);
                            assert(updates[k].index != update.index);
                        }
                    }
                    assert forall|i: int| 0 <= i < states0.len() && !reported(us, i) implies #[trigger] states@[i]
                        == states0[i] by {
                        if i == update.index {
                            assert(us[us.len() - 1].index == i);
                        } else {
                            if reported(updates, i) {
                                let k = choose|k: int| 0 <= k < updates.len() && updates[k].index == i;
                                assert(us[k].index == i);
                            }
                        }
                    }
                    updates = us;
                }
            },
            None => {
                proof {
                    assert(update_indices(updates) =~= changes.emitted());
                }
                return out;
            },
        }
    }
}

/// A parameter value event from a CLAP host's input queue, once picked out (see
/// `select_param_events`) and mapped: its sample time, the parameter's index, and the bits of
/// the value.
#[derive(Clone, Copy, PartialEq, Eq, Debug)]
pub struct HostParamValue {
    pub time: u32,
    pub index: usize,
    pub value: u64,
}

/// The engine events for the host's parameter value events, one per event, in order.
pub open spec fn host_value_events(host: Seq<HostParamValue>, ids: Seq<ParamId>) -> Seq<Event>
    decreases host.len(),
{
    if host.len() == 0 {
        Seq::empty()
    } else {
        host_value_events(host.drop_last(), ids).push(
            Event {
                time: host.last().time as i64,
                data: Data::ParamChange { id: ids[host.last().index as int], value: host.last().value },
            },
        )
    }
}

/// The sample at which a block of `frames_count` samples reports gesture changes: its last,
/// or 0 for an empty block.
pub open spec fn last_sample(frames_count: u32) -> u32 {
    if frames_count == 0 {
        0
    } else {
        (frames_count - 1) as u32
    }
}

/// The engine events of one CLAP block, in the order they are handed over: the changes the
/// plugin's side made (at time 0), then the host's parameter values (each also handed on to
/// the plugin's side), then the editor's gesture values at the block's last sample. Returns
/// the events, the host events that report the gestures, and whether the host changed any
/// parameter (so that the plugin's side is to be called back).
///
/// The hand-over to `plugin_params` is made for every value, but the contract does not state
/// it: the plugin side's values and flags live in std atomics, which vstd gives no value
/// semantics.
pub fn clap_block_events(
    engine_params: &ParamValues,
    ids: &[ParamId],
    host: &[HostParamValue],
    plugin_params: &ParamValues,
    gestures: &ParamGestures,
    states: &mut GestureStates,
    frames_count: u32,
) -> (r: (Vec<Event>, Vec<OutEvent>, bool))
    requires
        engine_params.wf(),
        engine_params.count() == ids@.len(),
        plugin_params.wf(),
        plugin_params.count() == ids@.len(),
        gestures.wf(),
        gestures.count() == ids@.len(),
        old(states).wf(),
        old(states)@.len() == ids@.len(),
        forall|k: int| 0 <= k < host@.len() ==> #[trigger] host@[k].index < ids@.len(),
    ensures
        r.2 == (host@.len() > 0),
        final(states).wf(),
        final(states)@.len() == old(states)@.len(),
        exists|changes: Seq<(usize, u64)>, updates: Seq<GestureUpdate>, taken: Seq<u64>, gesture_taken: Seq<u64>|
            {
                &&& taken.len() == words_for(ids@.len())
                &&& change_indices(changes) == drained_bits(taken, ids@.len())
                &&& gesture_taken.len() == words_for(ids@.len())
                &&& update_indices(updates) == drained_bits(gesture_taken, ids@.len())
                &&& forall|k: int| 0 <= k < changes.len() ==> #[trigger] changes[k].0 < ids@.len()
                &&& forall|k: int| 0 <= k < updates.len() ==> #[trigger] updates[k].index < ids@.len()
                &&& forall|k: int|
                    0 <= k < updates.len() ==> #[trigger] updates[k] == spec_gesture_update(
                        updates[k].index,
                        old(states)@[updates[k].index as int],
                        updates[k].set_value,
                        final(states)@[updates[k].index as int],
                    )
                &&& forall|i: int|
                    0 <= i < old(states)@.len() && !reported(updates, i)
                        ==> #[trigger] final(states)@[i] == old(states)@[i]
                &&& r.0@ == change_events(changes, ids@) + host_value_events(host@, ids@) + value_events(
                    updates,
                    ids@,
                    last_sample(frames_count),
                )
                &&& r.1@ == out_events(updates, ids@)
            },
{
    let mut events: Vec<Event> = Vec::new();
    sync_engine(engine_params, ids, &mut events);
    let ghost after_sync = events@;
    let ghost (changes, taken) = choose|c: Seq<(usize, u64)>, t: Seq<u64>|
        {
            &&& t.len() == words_for(ids@.len())
            &&& change_indices(c) == drained_bits(t, ids@.len())
            &&& forall|k: int| 0 <= k < c.len() ==> #[trigger] c[k].0 < ids@.len()
            &&& forall|k1: int, k2: int|
                0 <= k1 < k2 < c.len() ==> #[trigger] c[k1].0 < #[trigger] c[k2].0
            &&& after_sync == Seq::<Event>::empty() + change_events(c, ids@)
        };
    let mut k: usize = 0;
    while k < host.len()
        invariant
            k <= host@.len(),
            plugin_params.wf(),
            plugin_params.count() == ids@.len(),
            forall|j: int| 0 <= j < host@.len() ==> #[trigger] host@[j].index < ids@.len(),
            events@ == after_sync + host_value_events(host@.subrange(0, k as int), ids@),
        decreases host@.len() - k,
    {
        let h = host[k];
        events.push(Event { time: h.time as i64, data: Data::ParamChange { id: ids[h.index], value: h.value } });
        plugin_params.set(h.index, h.value);
        proof {
            let sub = host@.subrange(0, k + 1);
            assert(sub.drop_last() =~= host@.subrange(0, k as int));
            assert(sub.last() == h);
        }
        k = k + 1;
    }
    proof {
        assert(host@.subrange(0, host@.len() as int) =~= host@);
    }
    let time = if frames_count == 0 {
        0
    } else {
        frames_count - 1
    };
    let ghost before_gestures = events@;
    let out = process_gestures(gestures, states, ids, plugin_params, time, &mut events);
    proof {
        let (updates, gesture_taken) = choose|u: Seq<GestureUpdate>, t: Seq<u64>|
            {
                &&& t.len() == words_for(ids@.len())
                &&& update_indices(u) == drained_bits(t, ids@.len())
                &&& forall|k: int| 0 <= k < u.len() ==> #[trigger] u[k].index < ids@.len()
                &&& forall|k1: int, k2: int|
                    0 <= k1 < k2 < u.len() ==> #[trigger] u[k1].index < #[trigger] u[k2].index
                &&& forall|k: int|
                    0 <= k < u.len() ==> #[trigger] u[k] == spec_gesture_update(
                        u[k].index,
                        old(states)@[u[k].index as int],
                        u[k].set_value,
                        states@[u[k].index as int],
                    )
                &&& forall|i: int|
                    0 <= i < old(states)@.len() && !reported(u, i) ==> #[trigger] states@[i]
                        == old(states)@[i]
                &&& events@ == before_gestures + value_events(u, ids@, time)
                &&& out@ == out_events(u, ids@)
            };
        assert(time == last_sample(frames_count));
        assert(Seq::<Event>::empty() + change_events(changes, ids@) =~= change_events(changes, ids@));
        assert(events@ == change_events(changes, ids@) + host_value_events(host@, ids@) + value_events(
            updates,
            ids@,
            last_sample(frames_count),
        ));
    }
    (events, out, host.len() > 0)
}

/// The engine events for a run of picked-up parameter changes: one at time 0 per change, in
/// order, where parameter `i` has id `ids[i]`.
pub open spec fn change_events(changes: Seq<(usize, u64)>, ids: Seq<ParamId>) -> Seq<Event>
    decreases changes.len(),
{
    if changes.len() == 0 {
        Seq::empty()
    } else {
        change_events(changes.drop_last(), ids).push(
            Event {
                time: 0,
                data: Data::ParamChange { id: ids[changes.last().0 as int], value: changes.last().1 },
            },
        )
    }
}

/// The parameter indices of a run of picked-up changes, in order.
pub open spec fn change_indices(changes: Seq<(usize, u64)>) -> Seq<usize> {
    changes.map_values(|c: (usize, u64)| c.0)
}

/// Turns the parameter changes waiting for the engine into engine events at time 0, appended
/// to `events`: every parameter flagged in the words that the drain took from the shared set,
/// once and in increasing order, with the value loaded for it. Parameter `i` has id `ids[i]`.
pub fn sync_engine(engine_params: &ParamValues, ids: &[ParamId], events: &mut Vec<Event>)
    requires
        engine_params.wf(),
        engine_params.count() == ids@.len(),
    ensures
        exists|changes: Seq<(usize, u64)>, taken: Seq<u64>|
            {
                &&& taken.len() == words_for(ids@.len())
                &&& change_indices(changes) == drained_bits(taken, ids@.len())
                &&& forall|k: int| 0 <= k < changes.len() ==> #[trigger] changes[k].0 < ids@.len()
                &&& forall|k1: int, k2: int|
                    0 <= k1 < k2 < changes.len() ==> #[trigger] changes[k1].0 < #[trigger] changes[k2].0
                &&& final(events)@ == old(events)@ + change_events(changes, ids@)
            },
{
    let ghost changes: Seq<(usize, u64)> = Seq::empty();
    let ghost events0 = events@;
    let mut poll = engine_params.poll();
    loop
        invariant
            poll.wf(),
            poll.count() == ids@.len(),
            forall|k: int| 0 <= k < changes.len() ==> #[trigger] changes[k].0 < ids@.len(),
            changes.len() == poll.emitted().len(),
            forall|k: int| 0 <= k < changes.len() ==> #[trigger] changes[k].0 == poll.emitted()[k],
            forall|k1: int, k2: int|
                0 <= k1 < k2 < changes.len() ==> #[trigger] changes[k1].0 < #[trigger] changes[k2].0,
            events@ == events0 + change_events(changes, ids@),
            events0 == old(events)@,
            poll.emitted().len() <= ids@.len(),
        decreases ids@.len() - poll.emitted().len(),
    {
        let ghost before = poll.emitted();
        match poll.next() {
            Some((index, value)) => {
                events.push(Event { time: 0, data: Data::ParamChange { id: ids[index], value } });
                proof {
                    assert forall|k: int| 0 <= k < changes.len() implies #[trigger] changes[k].0
                        < index by {
                        assert(changes[k].0 == before[k]);
                    }
                    let cs = changes.push((index, value));
                    assert(cs.drop_last() =~= changes);
                    changes = cs;
                }
            },
            None => {
                proof {
                    assert(change_indices(changes) =~= poll.emitted());
                }
                return;
            },
        }
    }
}

/// The header of an event in a CLAP host's input queue, with the parameter it names when it is
/// a parameter value event.
#[derive(Clone, Copy, PartialEq, Eq, Debug)]
pub struct HostEventHeader {
    pub space_id: u16,
    pub type_: u16,
    pub param_id: ParamId,
}

/// The input events, among the first `n`, that set the value of a known parameter, as
/// (position in the queue, parameter index) pairs, in queue order.
pub open spec fn selected_param_events(
    headers: Seq<HostEventHeader>,
    positions: Map<ParamId, usize>,
    n: int,
) -> Seq<(usize, usize)>
    decreases n,
{
    if n <= 0 {
        Seq::empty()
    } else {
        let rest = selected_param_events(headers, positions, n - 1);
        let h = headers[n - 1];
        if h.space_id == CLAP_CORE_EVENT_SPACE_ID && h.type_ == CLAP_EVENT_PARAM_VALUE
            && positions.contains_key(h.param_id) {
            rest.push(((n - 1) as usize, positions[h.param_id]))
        } else {
            rest
        }
    }
}

/// Picks out of a CLAP host's input queue the events that set the value of one of the plugin's
/// parameters, with the index of that parameter.
pub fn select_param_events(headers: &[HostEventHeader], param_map: &IdMap<ParamId>) -> (r: Vec<
    (usize, usize),
>)
    requires
        param_map.wf(),
    ensures
        r@ == selected_param_events(
            headers@,
            positions_of(param_map.ids(), param_map.ids().len() as int),
            headers@.len() as int,
        ),
{
    let ghost positions = positions_of(param_map.ids(), param_map.ids().len() as int);
    let mut selected: Vec<(usize, usize)> = Vec::new();
    let mut i: usize = 0;
    while i < headers.len()
        invariant
            i <= headers@.len(),
            param_map.wf(),
            positions == positions_of(param_map.ids(), param_map.ids().len() as int),
            selected@ == selected_param_events(headers@, positions, i as int),
        decreases headers@.len() - i,
    {
        let h = headers[i];
        if h.space_id == CLAP_CORE_EVENT_SPACE_ID && h.type_ == CLAP_EVENT_PARAM_VALUE {
            match param_map.index_from_id(&h.param_id) {
                Some(index) => {
                    selected.push((i, index));
                },
                None => {},
            }
        }
        i = i + 1;
    }
    selected
}

} // verus!
