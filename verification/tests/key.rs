use coupler::collect::ParamCollector;
use coupler::key::{compare_bytes, compare_keys, Key, KeyList};

#[test]
fn key_from_str_has_generation_zero() {
    let key: Key = Key::from("gain");
    assert_eq!(key, Key::new(0, "gain"));
    assert_eq!(key.generation, 0);
    assert_eq!(key.str, "gain");
}

#[test]
fn keys_order_by_generation_then_bytes() {
    assert!(compare_keys(0, "a", 0, "b") < 0);
    assert!(compare_keys(0, "b", 0, "a") > 0);
    assert_eq!(compare_keys(0, "same", 0, "same"), 0);
    assert!(compare_keys(1, "a", 0, "z") > 0);
    assert!(compare_keys(0, "z", 1, "a") < 0);
    assert!(compare_keys(0, "ab", 0, "abc") < 0);
    assert!(compare_bytes(b"", b"a") < 0);
    assert_eq!(compare_bytes(b"", b""), 0);
    assert!(compare_bytes(&[0xff], &[0x00, 0x01]) > 0);
}

#[test]
fn ids_are_sorted_positions_counting_reserved_keys() {
    let mut keys = KeyList::new();
    keys.key(Key::from("b"));
    keys.reserve(Key::from("a"));
    keys.key(Key::from("c"));
    keys.key(Key::new(1, "a"));
    keys.key(Key::from("a"));
    // Sorted stably: "a" (reserved), "a", "b", "c", then generation 1's "a".
    assert_eq!(keys.into_ids(), vec![2, 3, 4, 1]);
}

#[test]
fn ids_of_no_keys() {
    assert_eq!(KeyList::new().into_ids(), Vec::<u32>::new());
}

#[test]
fn ids_in_declaration_order_when_already_sorted() {
    let mut keys = KeyList::new();
    keys.key(Key::from("a"));
    keys.key(Key::from("b"));
    keys.key(Key::from("c"));
    assert_eq!(keys.into_ids(), vec![0, 1, 2]);
}

#[test]
fn equal_keys_keep_declaration_order() {
    let mut keys = KeyList::new();
    keys.key(Key::from("x"));
    keys.key(Key::from("x"));
    keys.reserve(Key::from("x"));
    keys.key(Key::from("x"));
    assert_eq!(keys.into_ids(), vec![0, 1, 3]);
}

#[test]
fn param_collector_gathers_ids_and_params() {
    let mut collector = ParamCollector::new();
    collector.param(Key::from("volume"), "Volume", 1.0f64.to_bits(), None);
    collector.reserve(Key::from("old"));
    collector.param(Key::from("mode"), "Mode", 0.0f64.to_bits(), Some(3));
    let (ids, params) = collector.finish();
    // Sorted: "mode", "old" (reserved), "volume".
    assert_eq!(ids, vec![2, 0]);
    assert_eq!(params.len(), 2);
    assert_eq!(params[0].name, "Volume");
    assert_eq!(params[0].default, 1.0f64.to_bits());
    assert_eq!(params[0].steps, None);
    assert_eq!(params[1].name, "Mode");
    assert_eq!(params[1].steps, Some(3));
}
