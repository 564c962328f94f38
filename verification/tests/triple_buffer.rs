use coupler::triple_buffer::{triple_buffer, State, INDEX_MASK, UNREAD_MASK};

#[test]
fn state_packs_into_bits() {
    assert_eq!(State { unread: true, index: 2 }.to_bits(), 0b110);
    assert_eq!(State { unread: false, index: 1 }.to_bits(), 0b001);
    assert_eq!(State::from_bits(0b110), State { unread: true, index: 2 });
    assert_eq!(State::from_bits(0b011), State { unread: false, index: 3 });
    assert_eq!(UNREAD_MASK | INDEX_MASK, 0b111);
}

#[test]
fn state_bits_round_trip() {
    for index in 0..4 {
        for unread in [false, true] {
            let state = State { unread, index };
            assert_eq!(State::from_bits(state.to_bits()), state);
        }
    }
    for bits in 0..8u8 {
        assert_eq!(State::from_bits(bits).to_bits(), bits);
    }
}

#[test]
fn swap_then_update_hands_the_reader_the_published_buffer() {
    let (mut writer, mut reader) = triple_buffer();
    assert_eq!(writer.current_index(), 0);
    assert_eq!(writer.next_index(), 1);
    assert_eq!(reader.read_index(), 0);
    assert!(!reader.unread());
    assert!(!reader.update());
    assert_eq!(reader.read_index(), 0);

    writer.swap();
    assert_eq!(writer.current_index(), 1);
    assert_eq!(writer.next_index(), 2);
    assert!(writer.unread());
    assert!(reader.unread());

    assert!(reader.update());
    assert_eq!(reader.read_index(), 1);
    assert!(!reader.unread());
    assert!(!reader.update());

    writer.swap();
    assert_eq!(writer.current_index(), 2);
    assert_eq!(writer.next_index(), 0);
    assert!(reader.update());
    assert_eq!(reader.read_index(), 2);
}

#[test]
fn repeated_swaps_without_reads_never_touch_the_readers_buffer() {
    let (mut writer, reader) = triple_buffer();
    for _ in 0..10 {
        writer.swap();
        assert_ne!(writer.next_index(), reader.read_index());
        assert_ne!(writer.current_index(), reader.read_index());
    }
}
