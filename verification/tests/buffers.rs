use coupler::buffers::{
    bind, try_collect, BindBuffersError, BlocksIter, BufferData, BufferShape, BufferType,
    SplitAtEvents, TryFromBuffersError, Window,
};
use coupler::plugin::{PluginInfo, Vst3Host};
use coupler::events::{Data, Event, EventBound, Events};

fn event(time: i64, id: u32) -> Event {
    Event { time, data: Data::ParamChange { id, value: 0 } }
}

fn times(events: Events) -> Vec<i64> {
    let mut out = Vec::new();
    let mut iter = events.into_iter();
    while let Some(event) = iter.next() {
        out.push(event.time);
    }
    out
}

#[test]
fn blocks_hand_out_samples_in_order() {
    let mut blocks = BlocksIter::new(4, 10);
    assert_eq!(blocks.len(), 10);
    assert_eq!(blocks.next_block(3), (4, 3));
    assert_eq!(blocks.len(), 7);
    assert_eq!(blocks.next_block(100), (7, 7));
    assert_eq!(blocks.len(), 0);
    assert_eq!(blocks.next_block(5), (14, 0));
}

#[test]
fn split_at_events_cuts_blocks_at_event_times() {
    let events = [event(0, 1), event(0, 2), event(3, 3), event(7, 4), event(12, 5)];
    let mut split = SplitAtEvents::new(BlocksIter::new(0, 10), Events::new(&events));

    let (block, evs) = split.next().unwrap();
    assert_eq!(block, (0, 3));
    assert_eq!(times(evs), vec![0, 0]);

    let (block, evs) = split.next().unwrap();
    assert_eq!(block, (3, 4));
    assert_eq!(times(evs), vec![3]);

    let (block, evs) = split.next().unwrap();
    assert_eq!(block, (7, 3));
    assert_eq!(times(evs), vec![7]);

    // Events past the end come in one empty block.
    let (block, evs) = split.next().unwrap();
    assert_eq!(block, (10, 0));
    assert_eq!(times(evs), vec![12]);

    assert!(split.next().is_none());
}

#[test]
fn split_without_events_is_one_block() {
    let mut split = SplitAtEvents::new(BlocksIter::new(2, 8), Events::new(&[]));
    let (block, evs) = split.next().unwrap();
    assert_eq!(block, (2, 8));
    assert_eq!(evs.len(), 0);
    assert!(split.next().is_none());
}

#[test]
fn split_of_empty_buffer_without_events_is_done() {
    let mut split = SplitAtEvents::new(BlocksIter::new(0, 0), Events::new(&[]));
    assert!(split.next().is_none());
}

#[test]
fn split_blocks_tile_the_buffer() {
    let events = [event(1, 0), event(2, 0), event(2, 0), event(5, 0), event(9, 0)];
    let mut split = SplitAtEvents::new(BlocksIter::new(0, 10), Events::new(&events));
    let mut next_offset = 0;
    let mut event_total = 0;
    while let Some(((offset, len), evs)) = split.next() {
        assert_eq!(offset, next_offset);
        next_offset = offset + len;
        event_total += evs.len();
    }
    assert_eq!(next_offset, 10);
    assert_eq!(event_total, events.len());
}

#[test]
fn window_split_and_slice() {
    let window = Window { offset: 5, len: 10 };
    assert_eq!(window.split_at(4), (Window { offset: 5, len: 4 }, Window { offset: 9, len: 6 }));
    assert_eq!(window.split_at(0), (Window { offset: 5, len: 0 }, window));
    assert_eq!(window.slice(2..7), Some(Window { offset: 7, len: 5 }));
    assert_eq!(window.slice(0..10), Some(window));
    assert_eq!(window.slice(3..11), None);
    #[allow(clippy::reversed_empty_ranges)]
    let reversed = 4..2;
    assert_eq!(window.slice(reversed), None);
}

#[test]
fn window_chunks() {
    let mut chunks = Window { offset: 0, len: 10 }.chunks(4);
    assert_eq!(chunks.next(), Some(Window { offset: 0, len: 4 }));
    assert_eq!(chunks.next(), Some(Window { offset: 4, len: 4 }));
    assert_eq!(chunks.next(), Some(Window { offset: 8, len: 2 }));
    assert_eq!(chunks.next(), None);
}

#[test]
fn events_slice_skip_take() {
    let events = [event(0, 1), event(1, 2), event(2, 3), event(3, 4)];
    let all = Events::new(&events);
    assert_eq!(all.len(), 4);
    assert_eq!(times(all.slice(1..3).unwrap()), vec![1, 2]);
    assert!(all.slice(2..5).is_none());
    assert_eq!(times(all.skip(3)), vec![3]);
    assert_eq!(times(all.take(2)), vec![0, 1]);
    assert_eq!(all.time_at(2), 2);
    assert_eq!(all.get(1).map(|e| e.time), Some(1));
    assert!(all.get(4).is_none());
}

fn data(buffer_type: BufferType, start: usize, end: usize) -> BufferData {
    BufferData { buffer_type, start, end }
}

#[test]
fn collect_needs_one_fitting_buffer_per_shape() {
    let buffers = [data(BufferType::Const, 0, 2), data(BufferType::Mut, 2, 4)];
    assert_eq!(try_collect(&buffers, &[BufferShape::Const, BufferShape::Mut]), Ok(()));
    assert_eq!(
        try_collect(&buffers, &[BufferShape::ConstChannels(2), BufferShape::MutChannels(2)]),
        Ok(())
    );
    assert_eq!(
        try_collect(&buffers, &[BufferShape::ConstChannels(1), BufferShape::Mut]),
        Err(TryFromBuffersError)
    );
    assert_eq!(try_collect(&buffers, &[BufferShape::Mut, BufferShape::Mut]), Err(TryFromBuffersError));
    assert_eq!(try_collect(&buffers, &[BufferShape::Const]), Err(TryFromBuffersError));
    assert_eq!(try_collect(&[], &[]), Ok(()));
}

#[test]
fn bind_takes_the_first_buffers() {
    let buffers = [data(BufferType::Const, 0, 1), data(BufferType::Mut, 1, 3)];
    assert_eq!(bind(&buffers, &[BufferShape::Const]), Ok(()));
    assert_eq!(bind(&buffers, &[BufferShape::Const, BufferShape::MutChannels(2)]), Ok(()));
    assert_eq!(bind(&buffers, &[BufferShape::Mut]), Err(BindBuffersError));
    assert_eq!(
        bind(&buffers, &[BufferShape::Const, BufferShape::Mut, BufferShape::Mut]),
        Err(BindBuffersError)
    );
}

#[test]
fn plugin_info_and_hosts() {
    let info = PluginInfo { name: "Gain", version: "0.1.0", vendor: "Vendor", url: "", email: "" };
    assert_eq!(info.name, "Gain");
    assert_eq!(Vst3Host::new(), Vst3Host {});
}

#[test]
fn events_slice_by_bounds() {
    let events = [event(0, 1), event(1, 2), event(2, 3), event(3, 4)];
    let all = Events::new(&events);
    assert_eq!(times(all.slice_bounds(EventBound::Unbounded, EventBound::Unbounded).unwrap()), vec![0, 1, 2, 3]);
    assert_eq!(times(all.slice_bounds(EventBound::Included(1), EventBound::Included(2)).unwrap()), vec![1, 2]);
    assert_eq!(times(all.slice_bounds(EventBound::Excluded(1), EventBound::Unbounded).unwrap()), vec![2, 3]);
    assert_eq!(times(all.slice_bounds(EventBound::Unbounded, EventBound::Excluded(1)).unwrap()), vec![0]);
    assert!(all.slice_bounds(EventBound::Included(3), EventBound::Excluded(2)).is_none());
    assert!(all.slice_bounds(EventBound::Unbounded, EventBound::Included(4)).is_none());
    assert!(all.slice_bounds(EventBound::Excluded(usize::MAX), EventBound::Unbounded).is_none());
    assert!(all.slice_bounds(EventBound::Unbounded, EventBound::Included(usize::MAX)).is_none());
}
