use vstd::prelude::*;

use crate::bits::words_for;
use crate::bitset::drained_bits;
use crate::clap_events::{change_events, change_indices, sync_engine};
use crate::events::{Data, Event, ParamId};
use crate::id_map::{lemma_positions_in_range, positions_of, IdMap};
use crate::params::ParamValues;

verus! {

/// A point of a VST3 host's parameter change queue, as its `getPoint` handed it over: whether
/// the call succeeded, the sample offset, and the bits of the value.
#[derive(Clone, Copy)]
pub struct HostPoint {
    pub ok: bool,
    pub offset: i32,
    pub value: u64,
}

/// The changes a VST3 host queued for one parameter during a block.
pub struct HostParamQueue {
    pub id: ParamId,
    pub points: Vec<HostPoint>,
}

/// The events for the first `n` points of the queue of parameter `id`: one per point that was
/// read successfully, at its offset, in queue order.
pub open spec fn point_events(id: ParamId, points: Seq<HostPoint>, n: int) -> Seq<Event>
    decreases n,
{
    if n <= 0 {
        Seq::empty()
    } else {
        let rest = point_events(id, points, n - 1);
        let p = points[n - 1];
        if p.ok {
            rest.push(Event { time: p.offset as i64, data: Data::ParamChange { id, value: p.value } })
        } else {
            rest
        }
    }
}

/// The events for the first `n` queues, in order; the queue of a parameter that is not among
/// the plugin's (not in `positions`) gives none.
pub open spec fn queue_events(
    queues: Seq<HostParamQueue>,
    positions: Map<ParamId, usize>,
    n: int,
) -> Seq<Event>
    decreases n,
{
    if n <= 0 {
        Seq::empty()
    } else {
        let rest = queue_events(queues, positions, n - 1);
        let q = queues[n - 1];
        if positions.contains_key(q.id) {
            rest + point_events(q.id, q.points@, q.points@.len() as int)
        } else {
            rest
        }
    }
}

/// Appends to `events` one event per point that a VST3 host queued for a parameter of the
/// plugin, in queue order, and hands each such value on to the plugin's side through
/// `plugin_params`.
///
/// The hand-over to `plugin_params` is made for every value, but the contract does not state
/// it: the plugin side's values and flags live in std atomics, which vstd gives no value
/// semantics.
pub fn host_param_events(
    queues: &[HostParamQueue],
    param_map: &IdMap<ParamId>,
    plugin_params: &ParamValues,
    events: &mut Vec<Event>,
)
    requires
        param_map.wf(),
        plugin_params.wf(),
        plugin_params.count() == param_map.ids().len(),
    ensures
        final(events)@ == old(events)@ + queue_events(
            queues@,
            positions_of(param_map.ids(), param_map.ids().len() as int),
            queues@.len() as int,
        ),
{
    let ghost positions = positions_of(param_map.ids(), param_map.ids().len() as int);
    let ghost events0 = events@;
    let mut i: usize = 0;
    while i < queues.len()
        invariant
            i <= queues@.len(),
            param_map.wf(),
            plugin_params.wf(),
            plugin_params.count() == param_map.ids().len(),
            positions == positions_of(param_map.ids(), param_map.ids().len() as int),
            events0 == old(events)@,
            events@ == events0 + queue_events(queues@, positions, i as int),
        decreases queues@.len() - i,
    {
        let queue = &queues[i];
        let id = queue.id;
        match param_map.index_from_id(&id) {
            Some(index) => {
                proof {
                    param_map.lemma_len_fits();
                    lemma_positions_in_range(param_map.ids(), param_map.ids().len() as int, id);
                }
                let ghost before = events@;
                let mut k: usize = 0;
                while k < queue.points.len()
                    invariant
                        k <= queue.points@.len(),
                        index < plugin_params.count(),
                        plugin_params.wf(),
                        events@ == before + point_events(id, queue.points@, k as int),
                    decreases queue.points@.len() - k,
                {
                    let point = queue.points[k];
                    if point.ok {
                        events.push(
                            Event {
                                time: point.offset as i64,
                                data: Data::ParamChange { id, value: point.value },
                            },
                        );
                        plugin_params.set(index, point.value);
                        proof {
                            assert(before + point_events(id, queue.points@, k + 1) =~= (before
                                + point_events(id, queue.points@, k as int)).push(
                                point_events(id, queue.points@, k + 1).last(),
                            ));
                        }
                    }
                    k = k + 1;
                }
                proof {
                    assert(events0 + queue_events(queues@, positions, i + 1) =~= events0
                        + queue_events(queues@, positions, i as int) + point_events(
                        id,
                        queue.points@,
                        queue.points@.len() as int,
                    ));
                }
            },
            None => {},
        }
        i = i + 1;
    }
}

/// The events a VST3 processor hands its engine for one block: first the parameter changes
/// the plugin's side made (picked up from `engine_params`, at time 0), then those the host
/// queued (see `host_param_events`).
pub fn process_events(
    engine_params: &ParamValues,
    ids: &[ParamId],
    queues: &[HostParamQueue],
    param_map: &IdMap<ParamId>,
    plugin_params: &ParamValues,
) -> (r: Vec<Event>)
    requires
        engine_params.wf(),
        engine_params.count() == ids@.len(),
        param_map.wf(),
        plugin_params.wf(),
        plugin_params.count() == param_map.ids().len(),
    ensures
        exists|changes: Seq<(usize, u64)>, taken: Seq<u64>|
            {
                &&& taken.len() == words_for(ids@.len())
                &&& change_indices(changes) == drained_bits(taken, ids@.len())
                &&& forall|k: int| 0 <= k < changes.len() ==> #[trigger] changes[k].0 < ids@.len()
                &&& forall|k1: int, k2: int|
                    0 <= k1 < k2 < changes.len() ==> #[trigger] changes[k1].0 < #[trigger] changes[k2].0
                &&& r@ == change_events(changes, ids@) + queue_events(
                    queues@,
                    positions_of(param_map.ids(), param_map.ids().len() as int),
                    queues@.len() as int,
                )
            },
{
    let mut events: Vec<Event> = Vec::new();
    sync_engine(engine_params, ids, &mut events);
    host_param_events(queues, param_map, plugin_params, &mut events);
    events
}

} // verus!
