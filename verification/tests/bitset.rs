use coupler::bitset::{AtomicBitset, Bitset, MemoryOrder};
use std::sync::atomic::Ordering;

#[test]
fn set_get() {
    let mut bitset = Bitset::with_len(8);

    for index in 0..8 {
        assert!(!bitset.get(index));

        bitset.set(index);
        assert!(bitset.get(index));

        bitset.reset(index);
        assert!(!bitset.get(index));
    }
}

#[test]
fn atomic_set_get() {
    let bitset = AtomicBitset::with_len(8);

    for index in 0..8 {
        assert!(!bitset.get(index, MemoryOrder::Relaxed));

        bitset.set(index, MemoryOrder::Relaxed);
        assert!(bitset.get(index, MemoryOrder::Relaxed));

        bitset.reset(index, MemoryOrder::Relaxed);
        assert!(!bitset.get(index, MemoryOrder::Relaxed));
    }
}

#[test]
fn atomic_drain() {
    let bitset = AtomicBitset::with_len(8);

    bitset.set(0, MemoryOrder::Relaxed);
    bitset.set(3, MemoryOrder::Relaxed);
    bitset.set(7, MemoryOrder::Relaxed);

    let mut iter = bitset.drain(MemoryOrder::Relaxed);
    assert_eq!(iter.next().unwrap(), 0);
    assert_eq!(iter.next().unwrap(), 3);
    assert_eq!(iter.next().unwrap(), 7);
}

#[test]
fn atomic_count() {
    let bitset = AtomicBitset::with_len(1000);

    for x in 0..128 {
        bitset.set(5 + 7 * x, MemoryOrder::Relaxed);
    }

    let mut count = 0;
    let mut iter = bitset.drain(MemoryOrder::Relaxed);
    while let Some(_) = iter.next() {
        count += 1;
    }

    assert_eq!(count, 128);
}

#[test]
fn drain_clears_the_words_it_takes() {
    let bitset = AtomicBitset::with_len(130);
    bitset.set(1, MemoryOrder::Relaxed);
    bitset.set(64, MemoryOrder::Relaxed);
    bitset.set(129, MemoryOrder::Relaxed);

    let mut iter = bitset.drain(MemoryOrder::Relaxed);
    assert_eq!(iter.next(), Some(1));
    assert_eq!(iter.next(), Some(64));
    assert_eq!(iter.next(), Some(129));
    assert_eq!(iter.next(), None);
    assert_eq!(iter.next(), None);

    let mut again = bitset.drain(MemoryOrder::Relaxed);
    assert_eq!(again.next(), None);
}

#[test]
fn drain_of_empty_set_yields_nothing() {
    let bitset = AtomicBitset::with_len(0);
    let mut iter = bitset.drain(MemoryOrder::SeqCst);
    assert_eq!(iter.next(), None);
}

#[test]
fn swap_reports_previous_bit() {
    let bitset = AtomicBitset::with_len(70);
    assert!(!bitset.swap(65, true, MemoryOrder::AcqRel));
    assert!(bitset.swap(65, true, MemoryOrder::AcqRel));
    assert!(bitset.get(65, MemoryOrder::Acquire));
    assert!(bitset.swap(65, false, MemoryOrder::AcqRel));
    assert!(!bitset.get(65, MemoryOrder::Acquire));
}

#[test]
fn bitset_set_leaves_other_bits() {
    let mut bitset = Bitset::with_len(200);
    bitset.set(63);
    bitset.set(64);
    bitset.set(199);
    for index in 0..200 {
        assert_eq!(bitset.get(index), index == 63 || index == 64 || index == 199);
    }
    bitset.reset(64);
    assert!(bitset.get(63));
    assert!(!bitset.get(64));
}

#[test]
fn memory_order_round_trip() {
    for order in [
        MemoryOrder::Relaxed,
        MemoryOrder::Release,
        MemoryOrder::Acquire,
        MemoryOrder::AcqRel,
        MemoryOrder::SeqCst,
    ] {
        assert_eq!(MemoryOrder::from_std(order.to_std()), order);
    }
    assert_eq!(MemoryOrder::Relaxed.to_std(), Ordering::Relaxed);
}
