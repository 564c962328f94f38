use vstd::prelude::*;

use std::sync::atomic::AtomicU8;
use std::sync::Arc;

use crate::bitset::MemoryOrder;

verus! {

/// The bit of the shared state that says a published buffer has not been read yet.
pub const UNREAD_MASK: u8 = 0b100;

/// The bits of the shared state that name the buffer held in reserve.
pub const INDEX_MASK: u8 = 0b011;

/// The state shared by the writer and the reader of a triple buffer: which buffer is held
/// in reserve, and whether it holds a value the reader has not taken yet.
#[derive(Clone, Copy, PartialEq, Eq, Debug)]
pub struct State {
    pub unread: bool,
    pub index: usize,
}

impl State {
    /// The state packed into one byte: the unread flag in bit 2, the index in bits 0 and 1.
    pub fn to_bits(self) -> (r: u8)
        ensures
            r == (if self.unread { UNREAD_MASK } else { 0u8 }) | ((self.index % 256) as u8
                & INDEX_MASK),
            r & !(UNREAD_MASK | INDEX_MASK) == 0,
    {
        let truncated = (self.index % 256) as u8;
        let index = truncated & INDEX_MASK;
        assert(index & !(UNREAD_MASK | INDEX_MASK) == 0) by (bit_vector)
            requires
                index == truncated & 3u8,
        ;
        if self.unread {
            assert((UNREAD_MASK | index) & !(UNREAD_MASK | INDEX_MASK) == 0) by (bit_vector)
                requires
                    index == truncated & 3u8,
            ;
            UNREAD_MASK | index
        } else {
            assert(0u8 | index == index) by (bit_vector);
            index
        }
    }

    /// The state that a byte encodes; bits outside the two fields are ignored.
    pub fn from_bits(bits: u8) -> (r: State)
        ensures
            r.unread == (bits & UNREAD_MASK != 0),
            r.index == (bits & INDEX_MASK) as usize,
            r.index < 4,
    {
        assert(bits & 3u8 < 4) by (bit_vector);
        State { unread: bits & UNREAD_MASK != 0, index: (bits & INDEX_MASK) as usize }
    }
}

/// Packing a state with an index below 4 and unpacking it gives the same state back, and
/// unpacking then packing keeps exactly the two fields' bits.
pub proof fn law_state_bits_round_trip(s: State, bits: u8)
    requires
        s.index < 4,
    ensures
        ({
            let packed = (if s.unread { UNREAD_MASK } else { 0u8 }) | ((s.index % 256) as u8
                & INDEX_MASK);
            &&& (packed & UNREAD_MASK != 0) == s.unread
            &&& (packed & INDEX_MASK) as usize == s.index
        }),
        ({
            let u = bits & UNREAD_MASK != 0;
            let i = (bits & INDEX_MASK) as usize;
            (if u { UNREAD_MASK } else { 0u8 }) | ((i % 256) as u8 & INDEX_MASK) == bits & (
            UNREAD_MASK | INDEX_MASK)
        }),
{
    let i = s.index as u8;
    assert(s.index % 256 == s.index);
    assert(((4u8 | (i & 3u8)) & 4u8 != 0) && ((4u8 | (i & 3u8)) & 3u8) == i) by (bit_vector)
        requires
            i < 4,
    ;
    assert(((0u8 | (i & 3u8)) & 4u8 == 0) && ((0u8 | (i & 3u8)) & 3u8) == i) by (bit_vector)
        requires
            i < 4,
    ;
    let j = bits & 3u8;
    assert(j < 4) by (bit_vector)
        requires
            j == bits & 3u8,
    ;
    assert((j as usize) % 256 == j as usize);
    assert(((bits & 4u8 != 0) ==> (4u8 | ((bits & 3u8) & 3u8)) == bits & (4u8 | 3u8)) && ((bits
        & 4u8 == 0) ==> (0u8 | ((bits & 3u8) & 3u8)) == bits & (4u8 | 3u8))) by (bit_vector);
}

/// The buffer indices that the writer and the reader hold, with the shared state, seen at one
/// moment: the writer edits `writer_next` and may read `writer_current`, the reader reads
/// `reader`, and `shared` is held in reserve.
#[derive(Clone, Copy, PartialEq, Eq, Debug)]
pub struct Indices {
    pub writer_current: usize,
    pub writer_next: usize,
    pub reader: usize,
    pub shared: State,
}

/// The buffer the writer edits, the buffer the reader reads and the reserve are three
/// different buffers, and the writer's last published buffer is either the reader's or the
/// reserve.
pub open spec fn indices_wf(s: Indices) -> bool {
    &&& s.writer_next < 3
    &&& s.reader < 3
    &&& s.shared.index < 3
    &&& s.writer_next != s.reader
    &&& s.writer_next != s.shared.index
    &&& s.reader != s.shared.index
    &&& (s.writer_current == s.reader || s.writer_current == s.shared.index)
}

/// The state right after `triple_buffer`.
pub open spec fn initial_indices() -> Indices {
    Indices { writer_current: 0, writer_next: 1, reader: 0, shared: State { unread: false, index: 2 } }
}

/// What a writer's `swap` does, as one atomic exchange of the shared state.
pub open spec fn writer_swap_step(s: Indices) -> Indices {
    Indices {
        writer_current: s.writer_next,
        writer_next: s.shared.index,
        reader: s.reader,
        shared: State { unread: true, index: s.writer_next },
    }
}

/// What a reader's `update` does, as one atomic exchange of the shared state; it does nothing
/// when no unread value is waiting.
pub open spec fn reader_update_step(s: Indices) -> Indices {
    if s.shared.unread {
        Indices {
            writer_current: s.writer_current,
            writer_next: s.writer_next,
            reader: s.shared.index,
            shared: State { unread: false, index: s.reader },
        }
    } else {
        s
    }
}

/// The writer and the reader never share a buffer that one of them writes: the state right
/// after creation is well formed, and every swap and every update, in any interleaving, keeps
/// it so. A reader update after a swap hands the reader the buffer just published.
pub proof fn law_triple_buffer_never_shares(s: Indices)
    ensures
        indices_wf(initial_indices()),
        indices_wf(s) ==> indices_wf(writer_swap_step(s)),
        indices_wf(s) ==> indices_wf(reader_update_step(s)),
        reader_update_step(writer_swap_step(s)).reader == s.writer_next,
        !reader_update_step(s).shared.unread,
{
}

/// The writer's half of a triple buffer's shared state: the indices of the buffer it edits and
/// of the one it published last.
pub struct Writer {
    state: Arc<AtomicU8>,
    current: usize,
    next: usize,
}

/// The reader's half of a triple buffer's shared state: the index of the buffer it reads.
pub struct Reader {
    state: Arc<AtomicU8>,
    index: usize,
}

/// A fresh shared state with the writer editing buffer 1, the reader reading buffer 0 and
/// buffer 2 in reserve.
pub fn triple_buffer() -> (r: (Writer, Reader))
    ensures
        r.0.current() == 0,
        r.0.next() == 1,
        r.1.index() == 0,
{
    let state = State::to_bits(State { unread: false, index: 2 });
    let shared = Arc::new(AtomicU8::new(state));
    let writer = Writer { state: shared.clone(), current: 0, next: 1 };
    let reader = Reader { state: shared, index: 0 };
    (writer, reader)
}

impl Writer {
    /// The buffer the writer published last.
    pub closed spec fn current(&self) -> usize {
        self.current
    }

    /// The buffer the writer edits.
    pub closed spec fn next(&self) -> usize {
        self.next
    }

    /// The index of the buffer the writer published last.
    pub fn current_index(&self) -> (r: usize)
        ensures
            r == self.current(),
    {
        self.current
    }

    /// The index of the buffer the writer edits.
    pub fn next_index(&self) -> (r: usize)
        ensures
            r == self.next(),
    {
        self.next
    }

    /// Whether the shared state, as one atomic load read it, says a value is waiting.
    pub fn unread(&self) -> bool {
        State::from_bits(self.state.load(MemoryOrder::Relaxed.to_std())).unread
    }

    /// Publishes the buffer being edited: one atomic exchange puts it in reserve, marked unread,
    /// and the writer goes on editing the buffer that was in reserve.
    pub fn swap(&mut self)
        requires
            old(self).next() < 4,
        ensures
            final(self).current() == old(self).next(),
            final(self).next() < 4,
    {
        let new_state = State::to_bits(State { unread: true, index: self.next });
        let old_state = self.state.swap(new_state, MemoryOrder::AcqRel.to_std());
        self.current = self.next;
        self.next = State::from_bits(old_state).index;
    }
}

impl Reader {
    /// The buffer the reader reads.
    pub closed spec fn index(&self) -> usize {
        self.index
    }

    /// The index of the buffer the reader reads.
    pub fn read_index(&self) -> (r: usize)
        ensures
            r == self.index(),
    {
        self.index
    }

    /// Whether the shared state, as one atomic load read it, says a value is waiting.
    pub fn unread(&self) -> bool {
        State::from_bits(self.state.load(MemoryOrder::Relaxed.to_std())).unread
    }

    /// Takes the waiting value, if the shared state says there is one: one atomic exchange puts
    /// the reader's buffer in reserve and hands the reader the published one. Returns whether
    /// it did; when it did not, the reader keeps its buffer.
    pub fn update(&mut self) -> (r: bool)
        requires
            old(self).index() < 4,
        ensures
            final(self).index() < 4,
            !r ==> final(self).index() == old(self).index(),
    {
        if !self.unread() {
            return false;
        }
        let new_state = State::to_bits(State { unread: false, index: self.index });
        let old_state = self.state.swap(new_state, MemoryOrder::AcqRel.to_std());
        self.index = State::from_bits(old_state).index;
        true
    }
}

} // verus!
