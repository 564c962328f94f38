use coupler::param_gestures::{gesture_update, GestureStates, GestureUpdate, ParamGestures};

fn collect(gestures: &ParamGestures, states: &mut GestureStates) -> Vec<GestureUpdate> {
    let mut poll = gestures.poll(states);
    let mut updates = Vec::new();
    while let Some(update) = poll.next() {
        updates.push(update);
    }
    updates
}

fn bits(value: f64) -> u64 {
    value.to_bits()
}

#[test]
fn gesture_updates() {
    let gestures = ParamGestures::with_count(1);
    let mut states = GestureStates::with_count(1);

    let updates = collect(&gestures, &mut states);
    assert!(updates.is_empty());

    gestures.begin_gesture(0);

    let updates = collect(&gestures, &mut states);
    assert_eq!(
        updates,
        &[GestureUpdate {
            index: 0,
            begin_gesture: true,
            set_value: None,
            end_gesture: false,
        }]
    );

    gestures.set_value(0, bits(0.0));

    let updates = collect(&gestures, &mut states);
    assert_eq!(
        updates,
        &[GestureUpdate {
            index: 0,
            begin_gesture: false,
            set_value: Some(bits(0.0)),
            end_gesture: false,
        }]
    );

    gestures.end_gesture(0);

    let updates = collect(&gestures, &mut states);
    assert_eq!(
        updates,
        &[GestureUpdate {
            index: 0,
            begin_gesture: false,
            set_value: None,
            end_gesture: true,
        }]
    );

    gestures.begin_gesture(0);
    gestures.end_gesture(0);

    let updates = collect(&gestures, &mut states);
    assert_eq!(
        updates,
        &[GestureUpdate {
            index: 0,
            begin_gesture: false,
            set_value: None,
            end_gesture: false,
        }]
    );

    gestures.begin_gesture(0);
    gestures.set_value(0, bits(1.0));

    let updates = collect(&gestures, &mut states);
    assert_eq!(
        updates,
        &[GestureUpdate {
            index: 0,
            begin_gesture: true,
            set_value: Some(bits(1.0)),
            end_gesture: false,
        }]
    );

    gestures.set_value(0, bits(2.0));
    gestures.end_gesture(0);

    let updates = collect(&gestures, &mut states);
    assert_eq!(
        updates,
        &[GestureUpdate {
            index: 0,
            begin_gesture: false,
            set_value: Some(bits(2.0)),
            end_gesture: true,
        }]
    );

    gestures.begin_gesture(0);
    gestures.set_value(0, bits(3.0));
    gestures.end_gesture(0);

    let updates = collect(&gestures, &mut states);
    assert_eq!(
        updates,
        &[GestureUpdate {
            index: 0,
            begin_gesture: true,
            set_value: Some(bits(3.0)),
            end_gesture: true,
        }]
    );

    gestures.begin_gesture(0);
    gestures.set_value(0, bits(4.0));
    gestures.set_value(0, bits(5.0));
    gestures.set_value(0, bits(6.0));
    gestures.end_gesture(0);

    let updates = collect(&gestures, &mut states);
    assert_eq!(
        updates,
        &[GestureUpdate {
            index: 0,
            begin_gesture: true,
            set_value: Some(bits(6.0)),
            end_gesture: true,
        }]
    );

    gestures.begin_gesture(0);
    gestures.set_value(0, bits(7.0));
    gestures.end_gesture(0);
    gestures.begin_gesture(0);
    gestures.set_value(0, bits(8.0));
    gestures.end_gesture(0);
    gestures.begin_gesture(0);
    gestures.set_value(0, bits(9.0));
    gestures.end_gesture(0);

    let updates = collect(&gestures, &mut states);
    assert_eq!(
        updates,
        &[GestureUpdate {
            index: 0,
            begin_gesture: true,
            set_value: Some(bits(9.0)),
            end_gesture: true,
        }]
    );

    let updates = collect(&gestures, &mut states);
    assert!(updates.is_empty());
}

#[test]
fn gesture_update_wraps_value_outside_gesture() {
    let u = gesture_update(3, false, Some(bits(0.5)), false);
    assert_eq!(
        u,
        GestureUpdate { index: 3, begin_gesture: true, set_value: Some(bits(0.5)), end_gesture: true }
    );
}

#[test]
fn gesture_update_keeps_open_gesture() {
    let u = gesture_update(0, true, None, true);
    assert_eq!(
        u,
        GestureUpdate { index: 0, begin_gesture: false, set_value: None, end_gesture: false }
    );
    let u = gesture_update(0, true, Some(7), true);
    assert_eq!(
        u,
        GestureUpdate { index: 0, begin_gesture: false, set_value: Some(7), end_gesture: false }
    );
}

#[test]
fn gestures_on_several_parameters_come_in_index_order() {
    let gestures = ParamGestures::with_count(100);
    let mut states = GestureStates::with_count(100);
    gestures.begin_gesture(70);
    gestures.set_value(2, bits(0.25));
    let updates = collect(&gestures, &mut states);
    assert_eq!(updates.len(), 2);
    assert_eq!(updates[0].index, 2);
    assert!(updates[0].begin_gesture && updates[0].end_gesture);
    assert_eq!(updates[1].index, 70);
    assert!(updates[1].begin_gesture && !updates[1].end_gesture);
}
