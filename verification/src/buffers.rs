use vstd::prelude::*;

use std::ops::Range;

use crate::events::{Event, Events};

verus! {

/// Whether a buffer is read only (an input) or may be written (an output, or an in-out bus).
#[derive(Copy, Clone, Eq, PartialEq, Debug, Structural)]
pub enum BufferType {
    Const,
    Mut,
}

/// One bus's buffer among a set of buffers: its type and the range of channel pointers,
/// `start..end`, that belong to it.
#[derive(Copy, Clone, Eq, PartialEq, Debug)]
pub struct BufferData {
    pub buffer_type: BufferType,
    pub start: usize,
    pub end: usize,
}

/// What a processor asks for in one place of a set of buffers: a read-only buffer, a writable
/// one, or either of those with exactly the given number of channels.
#[derive(Copy, Clone, Eq, PartialEq, Debug, Structural)]
pub enum BufferShape {
    Const,
    Mut,
    ConstChannels(usize),
    MutChannels(usize),
}

/// Whether a buffer can be taken as `shape`.
pub open spec fn shape_fits(data: BufferData, shape: BufferShape) -> bool {
    match shape {
        BufferShape::Const => data.buffer_type == BufferType::Const,
        BufferShape::Mut => data.buffer_type == BufferType::Mut,
        BufferShape::ConstChannels(n) => data.buffer_type == BufferType::Const && data.end - data.start == n,
        BufferShape::MutChannels(n) => data.buffer_type == BufferType::Mut && data.end - data.start == n,
    }
}

/// Whether the first `n` buffers can be taken as the first `n` shapes.
pub open spec fn shapes_fit(buffers: Seq<BufferData>, shapes: Seq<BufferShape>, n: int) -> bool {
    forall|i: int| 0 <= i < n ==> #[trigger] shape_fits(buffers[i], shapes[i])
}

/// The buffers of a set could not be taken as the shapes asked for.
#[derive(Copy, Clone, Eq, PartialEq, Debug)]
pub struct TryFromBuffersError;

/// The first buffers of a set could not be bound to the shapes asked for.
#[derive(Copy, Clone, Eq, PartialEq, Debug)]
pub struct BindBuffersError;

fn fits(data: BufferData, shape: BufferShape) -> (r: bool)
    requires
        data.start <= data.end,
    ensures
        r == shape_fits(data, shape),
{
    match shape {
        BufferShape::Const => data.buffer_type == BufferType::Const,
        BufferShape::Mut => data.buffer_type == BufferType::Mut,
        BufferShape::ConstChannels(n) => data.buffer_type == BufferType::Const && data.end - data.start == n,
        BufferShape::MutChannels(n) => data.buffer_type == BufferType::Mut && data.end - data.start == n,
    }
}

/// Takes a whole set of buffers as the given shapes, in order: there must be exactly one buffer
/// per shape, each fitting its shape.
pub fn try_collect(buffers: &[BufferData], shapes: &[BufferShape]) -> (r: Result<(), TryFromBuffersError>)
    requires
        forall|i: int| 0 <= i < buffers@.len() ==> (#[trigger] buffers@[i]).start <= buffers@[i].end,
    ensures
        r is Ok <==> buffers@.len() == shapes@.len() && shapes_fit(buffers@, shapes@, shapes@.len() as int),
{
    if buffers.len() != shapes.len() {
        return Err(TryFromBuffersError);
    }
    let mut i: usize = 0;
    while i < shapes.len()
        invariant
            buffers@.len() == shapes@.len(),
            i <= shapes@.len(),
            forall|k: int| 0 <= k < buffers@.len() ==> (#[trigger] buffers@[k]).start <= buffers@[k].end,
            shapes_fit(buffers@, shapes@, i as int),
        decreases shapes@.len() - i,
    {
        if !fits(buffers[i], shapes[i]) {
            return Err(TryFromBuffersError);
        }
        i = i + 1;
    }
    Ok(())
}

/// Binds the first buffers of a set to the given shapes, in order, leaving any further buffers
/// alone: there must be a buffer for each shape, fitting it.
pub fn bind(buffers: &[BufferData], shapes: &[BufferShape]) -> (r: Result<(), BindBuffersError>)
    requires
        forall|i: int| 0 <= i < buffers@.len() ==> (#[trigger] buffers@[i]).start <= buffers@[i].end,
    ensures
        r is Ok <==> shapes@.len() <= buffers@.len() && shapes_fit(buffers@, shapes@, shapes@.len() as int),
{
    let mut i: usize = 0;
    while i < shapes.len()
        invariant
            i <= shapes@.len(),
            i <= buffers@.len(),
            forall|k: int| 0 <= k < buffers@.len() ==> (#[trigger] buffers@[k]).start <= buffers@[k].end,
            shapes_fit(buffers@, shapes@, i as int),
        decreases shapes@.len() - i,
    {
        if i >= buffers.len() {
            return Err(BindBuffersError);
        }
        if !fits(buffers[i], shapes[i]) {
            return Err(BindBuffersError);
        }
        i = i + 1;
    }
    Ok(())
}

/// The samples `offset..end` of a set of buffers not yet handed out as blocks.
pub struct BlocksIter {
    offset: usize,
    end: usize,
}

impl BlocksIter {
    pub closed spec fn wf(&self) -> bool {
        self.offset <= self.end
    }

    /// The first sample not yet handed out.
    pub closed spec fn position(&self) -> nat {
        self.offset as nat
    }

    /// The end of the samples.
    pub closed spec fn end(&self) -> nat {
        self.end as nat
    }

    /// The samples `offset..offset + len`, to be handed out as blocks.
    pub fn new(offset: usize, len: usize) -> (r: BlocksIter)
        requires
            offset + len <= usize::MAX,
        ensures
            r.wf(),
            r.position() == offset,
            r.end() == offset + len,
    {
        BlocksIter { offset, end: offset + len }
    }

    /// The number of samples not yet handed out.
    pub fn len(&self) -> (r: usize)
        requires
            self.wf(),
        ensures
            r == self.end() - self.position(),
    {
        self.end - self.offset
    }

    /// Hands out the next `len` samples, or all that are left if fewer: returns the offset and
    /// the length of the block.
    pub fn next_block(&mut self, len: usize) -> (r: (usize, usize))
        requires
            old(self).wf(),
        ensures
            final(self).wf(),
            final(self).end() == old(self).end(),
            r.0 == old(self).position(),
            r.1 == if len <= old(self).end() - old(self).position() {
                len as nat
            } else {
                (old(self).end() - old(self).position()) as nat
            },
            final(self).position() == r.0 + r.1,
    {
        let remainder = self.end - self.offset;
        let len = if len > remainder {
            remainder
        } else {
            len
        };
        let offset = self.offset;
        self.offset = self.offset + len;
        (offset, len)
    }
}

/// The samples `offset..offset + len` of a set of buffers.
#[derive(Copy, Clone, PartialEq, Eq, Debug)]
pub struct Window {
    pub offset: usize,
    pub len: usize,
}

impl Window {
    /// The first `sample` samples and the rest.
    pub fn split_at(self, sample: usize) -> (r: (Window, Window))
        requires
            sample <= self.len,
            self.offset + self.len <= usize::MAX,
        ensures
            r.0 == (Window { offset: self.offset, len: sample }),
            r.1 == (Window { offset: (self.offset + sample) as usize, len: (self.len - sample) as usize }),
    {
        (
            Window { offset: self.offset, len: sample },
            Window { offset: self.offset + sample, len: self.len - sample },
        )
    }

    /// The samples `range` of the window, counted from its start; `None` where the range is
    /// reversed or runs past the end.
    pub fn slice(self, range: Range<usize>) -> (r: Option<Window>)
        requires
            self.offset + self.len <= usize::MAX,
        ensures
            range.start > range.end || range.end > self.len ==> r is None,
            range.start <= range.end && range.end <= self.len ==> r == Some(
                Window {
                    offset: (self.offset + range.start) as usize,
                    len: (range.end - range.start) as usize,
                },
            ),
    {
        if range.start > range.end || range.end > self.len {
            None
        } else {
            Some(Window { offset: self.offset + range.start, len: range.end - range.start })
        }
    }

    /// The samples in consecutive chunks of `chunk_size` samples, the last one shorter.
    pub fn chunks(self, chunk_size: usize) -> (r: Chunks)
        ensures
            r.rest() == self,
            r.chunk_size() == chunk_size,
    {
        Chunks { window: self, chunk_size }
    }
}

/// The samples of a window not yet handed out in chunks.
pub struct Chunks {
    window: Window,
    chunk_size: usize,
}

impl Chunks {
    pub closed spec fn rest(&self) -> Window {
        self.window
    }

    pub closed spec fn chunk_size(&self) -> usize {
        self.chunk_size
    }

    /// The next chunk: the first `chunk_size` samples left, or all of them if fewer; `None`
    /// once no sample is left.
    pub fn next(&mut self) -> (r: Option<Window>)
        requires
            old(self).rest().offset + old(self).rest().len <= usize::MAX,
        ensures
            final(self).chunk_size() == old(self).chunk_size(),
            final(self).rest().offset + final(self).rest().len <= usize::MAX,
            ({
                let w = old(self).rest();
                let n = if old(self).chunk_size() < w.len {
                    old(self).chunk_size()
                } else {
                    w.len
                };
                match r {
                    None => w.len == 0 && final(self).rest() == w,
                    Some(c) => {
                        &&& w.len > 0
                        &&& c == (Window { offset: w.offset, len: n })
                        &&& final(self).rest() == (Window {
                            offset: (w.offset + n) as usize,
                            len: (w.len - n) as usize,
                        })
                    },
                }
            }),
    {
        if self.window.len == 0 {
            return None;
        }
        let chunk_size = if self.chunk_size < self.window.len {
            self.chunk_size
        } else {
            self.window.len
        };
        let chunk = Window { offset: self.window.offset, len: chunk_size };
        self.window.offset = self.window.offset + chunk_size;
        self.window.len = self.window.len - chunk_size;
        Some(chunk)
    }
}

/// The index of the first event, from the start, whose time is later than `time`; the number of
/// events if there is none.
pub open spec fn first_later(events: Seq<Event>, time: int) -> nat
    decreases events.len(),
{
    if events.len() == 0 {
        0
    } else if events[0].time > time {
        0
    } else {
        1 + first_later(events.drop_first(), time)
    }
}

/// A split of a buffer into blocks at the times of events: each block comes with the events
/// that fall at its start.
pub struct SplitAtEvents<'e> {
    blocks: BlocksIter,
    events: Events<'e>,
    time: i64,
}

impl<'e> SplitAtEvents<'e> {
    pub closed spec fn wf(&self) -> bool {
        &&& self.blocks.wf()
        &&& self.time >= 0
    }

    /// The samples not yet handed out.
    pub closed spec fn blocks(&self) -> BlocksIter {
        self.blocks
    }

    /// The events not yet handed out.
    pub closed spec fn events(&self) -> Seq<Event> {
        self.events@
    }

    /// The time, relative to the start of the split, of the last split point.
    pub closed spec fn time(&self) -> int {
        self.time as int
    }

    /// Splits the samples of `blocks` at the times of `events`.
    pub fn new(blocks: BlocksIter, events: Events<'e>) -> (r: SplitAtEvents<'e>)
        requires
            blocks.wf(),
        ensures
            r.wf(),
            r.blocks() == blocks,
            r.events() == events@,
            r.time() == 0,
    {
        SplitAtEvents { blocks, events, time: 0 }
    }

    /// The next block, as its offset and length, with its events. With no samples left, all the
    /// events left come in one empty block; with neither left, the split is done. Otherwise the
    /// block runs up to the first event later than the last split point (or to the end), and its
    /// events are those before that event.
    pub fn next(&mut self) -> (r: Option<((usize, usize), Events<'e>)>)
        requires
            old(self).wf(),
        ensures
            final(self).wf(),
            final(self).blocks().end() == old(self).blocks().end(),
            ({
                let len = old(self).blocks().end() - old(self).blocks().position();
                let evs = old(self).events();
                let k = first_later(evs, old(self).time());
                match r {
                    None => len == 0 && evs.len() == 0 && final(self).events() == evs,
                    Some(((offset, n), out)) => {
                        &&& offset == old(self).blocks().position()
                        &&& final(self).blocks().position() == offset + n
                        &&& out@ + final(self).events() == evs
                        &&& if len == 0 {
                            &&& evs.len() > 0
                            &&& n == 0
                            &&& out@ == evs
                        } else {
                            &&& out@ == evs.subrange(0, k as int)
                            &&& k < evs.len() ==> final(self).time() == evs[k as int].time
                            &&& k == evs.len() ==> final(self).time() == old(self).time()
                            &&& n == if k < evs.len() && evs[k as int].time - old(self).time()
                                < len {
                                evs[k as int].time - old(self).time()
                            } else {
                                len as int
                            }
                        }
                    },
                }
            }),
    {
        let len = self.blocks.len();
        if len == 0 {
            if self.events.len() == 0 {
                return None;
            }
            let block = self.blocks.next_block(0);
            let events = self.events;
            self.events = Events::new(&[]);
            proof {
                assert(events@ + self.events@ =~= events@);
            }
            return Some((block, events));
        }
        let ghost evs = self.events@;
        let ghost t0 = self.time as int;
        let mut event_count: usize = 0;
        let n = self.events.len();
        assert(evs.subrange(0, n as int) =~= evs);
        while event_count < n && self.events.time_at(event_count) <= self.time
            invariant
                self.wf(),
                self.events@ == evs,
                self.time == t0,
                n == evs.len(),
                event_count <= n,
                first_later(evs, t0) == event_count + first_later(
                    evs.subrange(event_count as int, n as int),
                    t0,
                ),
            decreases n - event_count,
        {
            proof {
                let rest = evs.subrange(event_count as int, n as int);
                assert(rest[0] == evs[event_count as int]);
                assert(rest.drop_first() =~= evs.subrange(event_count + 1, n as int));
            }
            event_count = event_count + 1;
        }
        let mut split = len;
        if event_count < n {
            let time = self.events.time_at(event_count);
            proof {
                let rest = evs.subrange(event_count as int, n as int);
                assert(rest[0] == evs[event_count as int]);
            }
            let offset = time - self.time;
            if (offset as u64) < (len as u64) {
                split = offset as usize;
            }
            self.time = time;
        } else {
            assert(evs.subrange(n as int, n as int).len() == 0);
        }
        let block = self.blocks.next_block(split);
        let events = self.events.take(event_count);
        self.events = self.events.skip(event_count);
        proof {
            assert(events@ + self.events@ =~= evs);
        }
        Some((block, events))
    }
}

} // verus!
