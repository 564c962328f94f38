use coupler::bitset::MemoryOrder;
use coupler::clap_events::{
    clap_block_events, process_gestures, HostParamValue, select_param_events, send_gesture_events, sync_engine, HostEventHeader,
    OutEvent, CLAP_CORE_EVENT_SPACE_ID, CLAP_EVENT_PARAM_VALUE,
};
use coupler::events::{Data, Event};
use coupler::float::AtomicF64;
use coupler::id_map::IdMap;
use coupler::param_gestures::{GestureStates, GestureUpdate, ParamGestures};
use coupler::params::ParamValues;
use coupler::vst3_events::{host_param_events, process_events, HostParamQueue, HostPoint};
use coupler::vst3_params;

fn change(event: &Event) -> (i64, u32, u64) {
    match event.data {
        Data::ParamChange { id, value } => (event.time, id, value),
        #[allow(unreachable_patterns)]
        _ => unreachable!(),
    }
}

fn changes(events: &[Event]) -> Vec<(i64, u32, u64)> {
    events.iter().map(change).collect()
}

fn poll_all(values: &ParamValues) -> Vec<(usize, u64)> {
    let mut poll = values.poll();
    let mut out = Vec::new();
    while let Some(item) = poll.next() {
        out.push(item);
    }
    out
}

#[test]
fn atomic_f64_holds_bits() {
    let cell = AtomicF64::from_bits(1.5f64.to_bits());
    assert_eq!(f64::from_bits(cell.load_bits(MemoryOrder::Relaxed)), 1.5);
    cell.store_bits((-2.0f64).to_bits(), MemoryOrder::Relaxed);
    assert_eq!(f64::from_bits(cell.load_bits(MemoryOrder::SeqCst)), -2.0);
}

#[test]
fn param_values_report_each_changed_parameter_once() {
    let values = ParamValues::with_count(5);
    assert!(poll_all(&values).is_empty());
    values.set(3, 30);
    values.set(1, 10);
    values.set(3, 31);
    assert_eq!(poll_all(&values), vec![(1, 10), (3, 31)]);
    assert!(poll_all(&values).is_empty());
}

#[test]
fn vst3_param_values_sync_each_side() {
    let values = vst3_params::ParamValues::new(&[0, 0, 0]);
    let ids = [100, 200, 300];
    values.set_from_plugin(2, 7);
    values.set_from_processor(0, 9);
    assert_eq!(values.sync_processor(&ids), vec![(300, 7)]);
    assert_eq!(values.sync_plugin(&ids), vec![(100, 9)]);
    assert!(values.sync_processor(&ids).is_empty());
    assert!(values.sync_plugin(&ids).is_empty());
}

#[test]
fn id_map_maps_both_ways() {
    let map = IdMap::from_ids(vec![10u32, 20, 30]);
    assert_eq!(map.index_from_id(&20), Some(1));
    assert_eq!(map.index_from_id(&40), None);
    assert_eq!(map.id_from_index(2), Some(&30));
    assert_eq!(map.id_from_index(3), None);
}

#[test]
fn id_map_with_repeated_id_keeps_last_position() {
    let map = IdMap::from_ids(vec![7u32, 8, 7]);
    assert_eq!(map.index_from_id(&7), Some(2));
    assert_eq!(map.id_from_index(0), Some(&7));
}

#[test]
fn id_map_round_trips_distinct_ids() {
    let ids = vec![5u32, 3, 9, 1];
    let map = IdMap::from_ids(ids.clone());
    for (index, id) in ids.iter().enumerate() {
        assert_eq!(map.index_from_id(id), Some(index));
        assert_eq!(map.id_from_index(index), Some(id));
    }
}

#[test]
fn gesture_events_in_order() {
    let update = GestureUpdate { index: 0, begin_gesture: true, set_value: Some(5), end_gesture: true };
    assert_eq!(
        send_gesture_events(&update, 42),
        vec![
            OutEvent::GestureBegin { id: 42 },
            OutEvent::ParamValue { id: 42, value: 5 },
            OutEvent::GestureEnd { id: 42 },
        ]
    );
    let update = GestureUpdate { index: 0, begin_gesture: false, set_value: None, end_gesture: false };
    assert!(send_gesture_events(&update, 42).is_empty());
}

#[test]
fn sync_engine_appends_changes_at_time_zero() {
    let values = ParamValues::with_count(3);
    values.set(2, 22);
    values.set(0, 11);
    let mut events = vec![Event { time: 5, data: Data::ParamChange { id: 1, value: 1 } }];
    sync_engine(&values, &[100, 101, 102], &mut events);
    assert_eq!(changes(&events), vec![(5, 1, 1), (0, 100, 11), (0, 102, 22)]);
}

#[test]
fn select_param_events_picks_known_param_values() {
    let map = IdMap::from_ids(vec![10u32, 20]);
    let headers = [
        HostEventHeader { space_id: CLAP_CORE_EVENT_SPACE_ID, type_: CLAP_EVENT_PARAM_VALUE, param_id: 20 },
        HostEventHeader { space_id: CLAP_CORE_EVENT_SPACE_ID, type_: 0, param_id: 10 },
        HostEventHeader { space_id: 1, type_: CLAP_EVENT_PARAM_VALUE, param_id: 10 },
        HostEventHeader { space_id: CLAP_CORE_EVENT_SPACE_ID, type_: CLAP_EVENT_PARAM_VALUE, param_id: 99 },
        HostEventHeader { space_id: CLAP_CORE_EVENT_SPACE_ID, type_: CLAP_EVENT_PARAM_VALUE, param_id: 10 },
    ];
    assert_eq!(select_param_events(&headers, &map), vec![(0, 1), (4, 0)]);
}

#[test]
fn process_gestures_reports_values_to_engine_plugin_and_host() {
    let gestures = ParamGestures::with_count(2);
    let mut states = GestureStates::with_count(2);
    let plugin_params = ParamValues::with_count(2);
    gestures.begin_gesture(1);
    gestures.set_value(1, 77);
    let mut events = Vec::new();
    let out = process_gestures(&gestures, &mut states, &[10, 11], &plugin_params, 3, &mut events);
    assert_eq!(changes(&events), vec![(3, 11, 77)]);
    assert_eq!(out, vec![OutEvent::GestureBegin { id: 11 }, OutEvent::ParamValue { id: 11, value: 77 }]);
    assert_eq!(poll_all(&plugin_params), vec![(1, 77)]);

    gestures.end_gesture(1);
    let mut events = Vec::new();
    let out = process_gestures(&gestures, &mut states, &[10, 11], &plugin_params, 0, &mut events);
    assert!(events.is_empty());
    assert_eq!(out, vec![OutEvent::GestureEnd { id: 11 }]);
}

#[test]
fn vst3_host_changes_become_events() {
    let map = IdMap::from_ids(vec![10u32, 20]);
    let plugin_params = ParamValues::with_count(2);
    let queues = [
        HostParamQueue {
            id: 20,
            points: vec![
                HostPoint { ok: true, offset: 4, value: 1 },
                HostPoint { ok: false, offset: 5, value: 2 },
                HostPoint { ok: true, offset: 8, value: 3 },
            ],
        },
        HostParamQueue { id: 99, points: vec![HostPoint { ok: true, offset: 0, value: 9 }] },
        HostParamQueue { id: 10, points: vec![HostPoint { ok: true, offset: 1, value: 5 }] },
    ];
    let mut events = Vec::new();
    host_param_events(&queues, &map, &plugin_params, &mut events);
    assert_eq!(changes(&events), vec![(4, 20, 1), (8, 20, 3), (1, 10, 5)]);
    assert_eq!(poll_all(&plugin_params), vec![(0, 5), (1, 3)]);
}

#[test]
fn vst3_process_events_put_engine_changes_first() {
    let map = IdMap::from_ids(vec![10u32, 20]);
    let engine_params = ParamValues::with_count(2);
    let plugin_params = ParamValues::with_count(2);
    engine_params.set(0, 42);
    let queues = [HostParamQueue { id: 20, points: vec![HostPoint { ok: true, offset: 2, value: 6 }] }];
    let events = process_events(&engine_params, &[10, 20], &queues, &map, &plugin_params);
    assert_eq!(changes(&events), vec![(0, 10, 42), (2, 20, 6)]);
}

#[test]
fn clap_block_events_in_order() {
    let engine_params = ParamValues::with_count(2);
    let plugin_params = ParamValues::with_count(2);
    let gestures = ParamGestures::with_count(2);
    let mut states = GestureStates::with_count(2);
    engine_params.set(1, 7);
    gestures.set_value(0, 9);
    let host = [HostParamValue { time: 3, index: 1, value: 5 }];
    let (events, out, changed) =
        clap_block_events(&engine_params, &[10, 11], &host, &plugin_params, &gestures, &mut states, 64);
    assert_eq!(changes(&events), vec![(0, 11, 7), (3, 11, 5), (63, 10, 9)]);
    assert_eq!(
        out,
        vec![
            OutEvent::GestureBegin { id: 10 },
            OutEvent::ParamValue { id: 10, value: 9 },
            OutEvent::GestureEnd { id: 10 },
        ]
    );
    assert!(changed);
    assert_eq!(poll_all(&plugin_params), vec![(0, 9), (1, 5)]);

    let (events, out, changed) =
        clap_block_events(&engine_params, &[10, 11], &[], &plugin_params, &gestures, &mut states, 0);
    assert!(events.is_empty());
    assert!(out.is_empty());
    assert!(!changed);
}
