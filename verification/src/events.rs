use vstd::prelude::*;

use std::ops::Range;

verus! {

/// The identifier of a parameter.
pub type ParamId = u32;

/// An event, at a sample offset from the start of the block it belongs to.
#[derive(Copy, Clone)]
pub struct Event {
    pub time: i64,
    pub data: Data,
}

/// What an event carries; a parameter value is given as the bits of an `f64`.
#[derive(Copy, Clone)]
#[non_exhaustive]
pub enum Data {
    ParamChange { id: ParamId, value: u64 },
}

/// One end of a range of events.
#[derive(Copy, Clone, PartialEq, Eq, Debug, Structural)]
pub enum EventBound {
    Included(usize),
    Excluded(usize),
    Unbounded,
}

/// The first position a range starting at `bound` takes.
pub open spec fn start_index(bound: EventBound) -> int {
    match bound {
        EventBound::Included(x) => x as int,
        EventBound::Excluded(x) => x + 1,
        EventBound::Unbounded => 0,
    }
}

/// The position just past a range ending at `bound`, among `len` events.
pub open spec fn end_index(bound: EventBound, len: int) -> int {
    match bound {
        EventBound::Included(x) => x + 1,
        EventBound::Excluded(x) => x as int,
        EventBound::Unbounded => len,
    }
}

/// A borrowed, ordered list of events.
#[derive(Copy, Clone)]
pub struct Events<'a> {
    events: &'a [Event],
}

impl<'a> View for Events<'a> {
    type V = Seq<Event>;

    closed spec fn view(&self) -> Seq<Event> {
        self.events@
    }
}

impl<'a> Events<'a> {
    pub fn new(events: &'a [Event]) -> (r: Events<'a>)
        ensures
            r@ == events@,
    {
        Events { events }
    }

    pub fn len(&self) -> (r: usize)
        ensures
            r == self@.len(),
    {
        self.events.len()
    }

    /// The event at `index`, if there is one.
    pub fn get(&self, index: usize) -> (r: Option<&'a Event>)
        ensures
            index < self@.len() ==> r == Some(&self@[index as int]),
            index >= self@.len() ==> r is None,
    {
        if index < self.events.len() {
            Some(&self.events[index])
        } else {
            None
        }
    }

    /// The events in `range`, or `None` when the range is reversed or runs past the end.
    pub fn slice(&self, range: Range<usize>) -> (r: Option<Events<'a>>)
        ensures
            range.start <= range.end <= self@.len() ==> (r matches Some(e) && e@ == self@.subrange(
                range.start as int,
                range.end as int,
            )),
            !(range.start <= range.end <= self@.len()) ==> r is None,
    {
        if range.start <= range.end && range.end <= self.events.len() {
            Some(Events { events: vstd::slice::slice_subrange(self.events, range.start, range.end) })
        } else {
            None
        }
    }

    /// The events between two bounds, as a range of any shape gives them (`..`, `a..`, `..=b`
    /// and so on); `None` where the range is reversed or runs past the end.
    pub fn slice_bounds(&self, start: EventBound, end: EventBound) -> (r: Option<Events<'a>>)
        ensures
            ({
                let lo = start_index(start);
                let hi = end_index(end, self@.len() as int);
                &&& lo <= hi <= self@.len() ==> (r matches Some(e) && e@ == self@.subrange(lo, hi))
                &&& !(lo <= hi <= self@.len()) ==> r is None
            }),
    {
        let len = self.events.len();
        let lo = match start {
            EventBound::Included(x) => x,
            EventBound::Excluded(x) => {
                if x == usize::MAX {
                    return None;
                }
                x + 1
            },
            EventBound::Unbounded => 0,
        };
        let hi = match end {
            EventBound::Included(x) => {
                if x == usize::MAX {
                    return None;
                }
                x + 1
            },
            EventBound::Excluded(x) => x,
            EventBound::Unbounded => len,
        };
        self.slice(lo..hi)
    }

    /// The events after the first `count`, which must exist.
    pub fn skip(&self, count: usize) -> (r: Events<'a>)
        requires
            count <= self@.len(),
        ensures
            r@ == self@.subrange(count as int, self@.len() as int),
    {
        Events { events: vstd::slice::slice_subrange(self.events, count, self.events.len()) }
    }

    /// The first `count` events, which must exist.
    pub fn take(&self, count: usize) -> (r: Events<'a>)
        requires
            count <= self@.len(),
        ensures
            r@ == self@.subrange(0, count as int),
    {
        Events { events: vstd::slice::slice_subrange(self.events, 0, count) }
    }

    /// The time of the event at `index`.
    pub fn time_at(&self, index: usize) -> (r: i64)
        requires
            index < self@.len(),
        ensures
            r == self@[index as int].time,
    {
        self.events[index].time
    }

    /// An iteration over the events in order.
    pub fn into_iter(self) -> (r: Iter<'a>)
        ensures
            r.remaining() == self@,
    {
        Iter { events: self.events, pos: 0 }
    }
}

/// An iteration over a list of events.
pub struct Iter<'a> {
    events: &'a [Event],
    pos: usize,
}

impl<'a> Iter<'a> {
    /// The events not yet yielded.
    pub closed spec fn remaining(&self) -> Seq<Event> {
        self.events@.subrange(self.pos as int, self.events@.len() as int)
    }

    pub closed spec fn wf(&self) -> bool {
        self.pos <= self.events@.len()
    }

    /// The next event, if any.
    pub fn next(&mut self) -> (r: Option<&'a Event>)
        requires
            old(self).wf(),
        ensures
            final(self).wf(),
            old(self).remaining().len() == 0 ==> r is None && final(self).remaining() == old(
                self,
            ).remaining(),
            old(self).remaining().len() > 0 ==> r == Some(&old(self).remaining()[0])
                && final(self).remaining() == old(self).remaining().drop_first(),
    {
        if self.pos < self.events.len() {
            let e = &self.events[self.pos];
            self.pos = self.pos + 1;
            proof {
                assert(self.remaining() =~= old(self).remaining().drop_first());
            }
            Some(e)
        } else {
            None
        }
    }
}

} // verus!
