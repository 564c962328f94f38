use vstd::prelude::*;

use std::sync::atomic::{AtomicU64, Ordering};

use crate::bits::{
    bit_of, bits_of_words, has_bit, lemma_and_mask_bit, lemma_and_not_bit, lemma_or_bit,
    lemma_zero_has_no_bit, locate, masked, trailing_zeros, word_of, words_for,
};

verus! {

/// A fixed-length set of bits, packed into 64-bit words.
pub struct Bitset {
    words: Vec<u64>,
    len: usize,
}

impl View for Bitset {
    type V = Seq<bool>;

    /// The bits of the set, one per index below its length.
    closed spec fn view(&self) -> Seq<bool> {
        bits_of_words(self.words@, self.len as nat)
    }
}

impl Bitset {
    /// The set holds one word for every 64 indices below its length.
    pub closed spec fn wf(&self) -> bool {
        self.words@.len() == words_for(self.len as nat)
    }

    /// The number of bits that the set holds.
    pub closed spec fn spec_len(&self) -> nat {
        self.len as nat
    }

    pub proof fn lemma_view_len(&self)
        ensures
            self@.len() == self.spec_len(),
    {
    }

    /// A set of `len` bits, all clear.
    pub fn with_len(len: usize) -> (r: Bitset)
        requires
            len + 63 <= usize::MAX,
        ensures
            r.wf(),
            r.spec_len() == len,
            r@ == Seq::new(len as nat, |i: int| false),
    {
        let rounded = len + 63;
        let bits_len = rounded >> 6usize;
        assert(rounded >> 6usize == rounded / 64) by (bit_vector);
        let mut words: Vec<u64> = Vec::new();
        let mut i: usize = 0;
        while i < bits_len
            invariant
                i <= bits_len,
                words@.len() == i,
                forall|j: int| 0 <= j < i ==> words@[j] == 0u64,
            decreases bits_len - i,
        {
            words.push(0u64);
            i = i + 1;
        }
        let r = Bitset { words, len };
        assert forall|k: int| 0 <= k < len implies !has_bit(r.words@[word_of(k)], bit_of(k)) by {
            lemma_zero_has_no_bit(bit_of(k));
        }
        assert(r@ =~= Seq::new(len as nat, |i: int| false));
        r
    }

    /// Sets bit `index`; every other bit keeps its value.
    pub fn set(&mut self, index: usize)
        requires
            old(self).wf(),
            index < old(self).spec_len(),
        ensures
            final(self).wf(),
            final(self).spec_len() == old(self).spec_len(),
            final(self)@ == old(self)@.update(index as int, true),
    {
        let (w, mask) = locate(index);
        let ghost b = bit_of(index as int);
        let word = self.words[w];
        self.words.set(w, word | mask);
        proof {
            assert forall|k: int| 0 <= k < self.len implies #[trigger] self@[k] == old(self)@.update(
                index as int,
                true,
            )[k] by {
                if word_of(k) == w as int {
                    lemma_or_bit(word, b, bit_of(k));
                }
            }
            assert(self@ =~= old(self)@.update(index as int, true));
        }
    }

    /// Clears bit `index`; every other bit keeps its value.
    pub fn reset(&mut self, index: usize)
        requires
            old(self).wf(),
            index < old(self).spec_len(),
        ensures
            final(self).wf(),
            final(self).spec_len() == old(self).spec_len(),
            final(self)@ == old(self)@.update(index as int, false),
    {
        let (w, mask) = locate(index);
        let ghost b = bit_of(index as int);
        let word = self.words[w];
        self.words.set(w, word & !mask);
        proof {
            assert forall|k: int| 0 <= k < self.len implies #[trigger] self@[k] == old(self)@.update(
                index as int,
                false,
            )[k] by {
                if word_of(k) == w as int {
                    lemma_and_not_bit(word, b, bit_of(k));
                }
            }
            assert(self@ =~= old(self)@.update(index as int, false));
        }
    }

    /// Whether bit `index` is set.
    pub fn get(&self, index: usize) -> (r: bool)
        requires
            self.wf(),
            index < self.spec_len(),
        ensures
            r == self@[index as int],
    {
        let (w, mask) = locate(index);
        let word = self.words[w];
        proof {
            lemma_and_mask_bit(word, bit_of(index as int));
        }
        word & mask != 0
    }
}

} // verus!

verus! {

/// The memory orderings of atomic operations, kept where a value of the standard library's own
/// enumeration cannot be stored.
#[derive(Clone, Copy, PartialEq, Eq, Debug)]
pub enum MemoryOrder {
    Relaxed,
    Release,
    Acquire,
    AcqRel,
    SeqCst,
}

impl MemoryOrder {
    /// The standard library's ordering with the same name.
    pub fn to_std(self) -> (r: Ordering)
        ensures
            r == match self {
                MemoryOrder::Relaxed => Ordering::Relaxed,
                MemoryOrder::Release => Ordering::Release,
                MemoryOrder::Acquire => Ordering::Acquire,
                MemoryOrder::AcqRel => Ordering::AcqRel,
                MemoryOrder::SeqCst => Ordering::SeqCst,
            },
    {
        match self {
            MemoryOrder::Relaxed => Ordering::Relaxed,
            MemoryOrder::Release => Ordering::Release,
            MemoryOrder::Acquire => Ordering::Acquire,
            MemoryOrder::AcqRel => Ordering::AcqRel,
            MemoryOrder::SeqCst => Ordering::SeqCst,
        }
    }

    /// The ordering with the same name as the standard library's `ordering`.
    pub fn from_std(ordering: Ordering) -> (r: MemoryOrder)
        ensures
            r == match ordering {
                Ordering::Relaxed => MemoryOrder::Relaxed,
                Ordering::Release => MemoryOrder::Release,
                Ordering::Acquire => MemoryOrder::Acquire,
                Ordering::AcqRel => MemoryOrder::AcqRel,
                _ => MemoryOrder::SeqCst,
            },
    {
        match ordering {
            Ordering::Relaxed => MemoryOrder::Relaxed,
            Ordering::Release => MemoryOrder::Release,
            Ordering::Acquire => MemoryOrder::Acquire,
            Ordering::AcqRel => MemoryOrder::AcqRel,
            _ => MemoryOrder::SeqCst,
        }
    }
}

/// A fixed-length set of bits that several threads may set, clear and drain at once.
///
/// What a word holds at any moment depends on the other threads, so the contracts below speak
/// of the positions that an operation touches and of what it does with the values it reads,
/// not of the stored values themselves.
pub struct AtomicBitset {
    words: Vec<AtomicU64>,
    len: usize,
}

impl AtomicBitset {
    /// The set holds one word for every 64 indices below its length.
    pub closed spec fn wf(&self) -> bool {
        &&& self.words@.len() == words_for(self.len as nat)
        &&& self.len + 63 <= usize::MAX
    }

    /// The number of bits that the set holds.
    pub closed spec fn spec_len(&self) -> nat {
        self.len as nat
    }

    /// The number of words that the set holds.
    pub closed spec fn word_count(&self) -> nat {
        self.words@.len()
    }

    /// A set of `len` bits, all clear.
    pub fn with_len(len: usize) -> (r: AtomicBitset)
        requires
            len + 63 <= usize::MAX,
        ensures
            r.wf(),
            r.spec_len() == len,
            r.word_count() == words_for(len as nat),
    {
        let rounded = len + 63;
        let bits_len = rounded >> 6usize;
        assert(rounded >> 6usize == rounded / 64) by (bit_vector);
        let mut words: Vec<AtomicU64> = Vec::new();
        let mut i: usize = 0;
        while i < bits_len
            invariant
                i <= bits_len,
                words@.len() == i,
            decreases bits_len - i,
        {
            words.push(AtomicU64::new(0));
            i = i + 1;
        }
        AtomicBitset { words, len }
    }

    /// Sets bit `index`, with one atomic or on the word that holds it.
    pub fn set(&self, index: usize, ordering: MemoryOrder)
        requires
            self.wf(),
            index < self.spec_len(),
    {
        let (w, mask) = locate(index);
        self.words[w].fetch_or(mask, ordering.to_std());
    }

    /// Clears bit `index`, with one atomic and on the word that holds it.
    pub fn reset(&self, index: usize, ordering: MemoryOrder)
        requires
            self.wf(),
            index < self.spec_len(),
    {
        let (w, mask) = locate(index);
        self.words[w].fetch_and(!mask, ordering.to_std());
    }

    /// Whether bit `index` is set in the value that one atomic load of its word read.
    ///
    /// The contract leaves the result unsaid: it is a function of the word the load returned,
    /// and vstd gives std's atomics no value semantics, so that word cannot be named here.
    pub fn get(&self, index: usize, ordering: MemoryOrder) -> bool
        requires
            self.wf(),
            index < self.spec_len(),
    {
        let (w, mask) = locate(index);
        let word = self.words[w].load(ordering.to_std());
        masked(word, mask)
    }

    /// Sets bit `index` to `value` with one atomic operation on its word, and returns whether it
    /// was set in the value that the operation replaced.
    pub fn swap(&self, index: usize, value: bool, ordering: MemoryOrder) -> bool
        requires
            self.wf(),
            index < self.spec_len(),
    {
        let (w, mask) = locate(index);
        let previous = if value {
            self.words[w].fetch_or(mask, ordering.to_std())
        } else {
            self.words[w].fetch_and(!mask, ordering.to_std())
        };
        masked(previous, mask)
    }

    /// Starts draining the set: the first word is taken (swapped with zero) at once, each later
    /// one when the drain reaches it.
    pub fn drain(&self, ordering: MemoryOrder) -> (r: Drain<'_>)
        requires
            self.wf(),
        ensures
            r.wf(),
            r.source() == self,
            r.taken().len() <= 1,
            r.cursor() == 0,
            r.emitted() == Seq::<usize>::empty(),
    {
        let ghost taken: Seq<u64> = Seq::empty();
        let current_word = if self.words.len() > 0 {
            let word = self.take_word(0, ordering);
            proof {
                taken = seq![word];
            }
            Some(word)
        } else {
            None
        };
        let r = Drain {
            bitset: self,
            order: ordering,
            len: self.len,
            index: 0,
            next_word: if self.words.len() > 0 { 1 } else { 0 },
            current_word,
            taken: Ghost(taken),
            cursor: Ghost(0),
            emitted: Ghost(Seq::empty()),
        };
        r
    }

    /// Takes word `i`: swaps it with zero and returns what it held.
    fn take_word(&self, i: usize, ordering: MemoryOrder) -> u64
        requires
            i < self.word_count(),
    {
        self.words[i].swap(0, ordering.to_std())
    }
}

/// Whether bit `i` is set in the words that a drain took, counting only the first `len`.
pub open spec fn taken_bit(taken: Seq<u64>, len: nat, i: int) -> bool {
    0 <= i < len && word_of(i) < taken.len() && has_bit(taken[word_of(i)], bit_of(i))
}

/// The indices in `lo..hi` whose bits are set in the taken words, in increasing order.
pub open spec fn taken_bits_between(taken: Seq<u64>, len: nat, lo: int, hi: int) -> Seq<usize>
    decreases hi - lo,
{
    if hi <= lo {
        Seq::empty()
    } else if taken_bit(taken, len, hi - 1) {
        taken_bits_between(taken, len, lo, hi - 1).push((hi - 1) as usize)
    } else {
        taken_bits_between(taken, len, lo, hi - 1)
    }
}

/// The indices below `len` whose bits are set in the words `taken`, in increasing order: what a
/// drain that took those words yields in all.
pub open spec fn drained_bits(taken: Seq<u64>, len: nat) -> Seq<usize> {
    taken_bits_between(taken, len, 0, (64 * taken.len()) as int)
}

/// An iteration over the set bits of an `AtomicBitset` that clears each word as it takes it.
pub struct Drain<'a> {
    bitset: &'a AtomicBitset,
    order: MemoryOrder,
    len: usize,
    index: usize,
    next_word: usize,
    current_word: Option<u64>,
    taken: Ghost<Seq<u64>>,
    cursor: Ghost<int>,
    emitted: Ghost<Seq<usize>>,
}

impl<'a> Drain<'a> {
    /// The set being drained.
    pub closed spec fn source(&self) -> &'a AtomicBitset {
        self.bitset
    }

    /// The values of the words taken so far, in order.
    pub closed spec fn taken(&self) -> Seq<u64> {
        self.taken@
    }

    /// Every bit below this index has been dealt with.
    pub closed spec fn cursor(&self) -> int {
        self.cursor@
    }

    /// The indices yielded so far, in order.
    pub closed spec fn emitted(&self) -> Seq<usize> {
        self.emitted@
    }

    /// Whether every word of the set has been taken and every bit dealt with.
    pub closed spec fn finished(&self) -> bool {
        self.current_word is None
    }

    pub closed spec fn wf(&self) -> bool {
        &&& self.bitset.wf()
        &&& self.len == self.bitset.len
        &&& self.taken@.len() == self.next_word
        &&& self.next_word <= self.bitset.words@.len()
        &&& 0 <= self.cursor@
        &&& self.emitted@ == taken_bits_between(self.taken@, self.len as nat, 0, self.cursor@)
        &&& match self.current_word {
            Some(cw) => {
                &&& self.taken@.len() >= 1
                &&& self.index == 64 * (self.taken@.len() - 1)
                &&& self.index <= self.cursor@ <= self.index + 64
                &&& forall|b: u64|
                    b < 64 ==> (#[trigger] has_bit(cw, b) <==> (self.index + b >= self.cursor@
                        && has_bit(self.taken@.last(), b)))
            },
            None => {
                &&& self.taken@.len() == self.bitset.words@.len()
                &&& self.cursor@ == 64 * self.taken@.len()
            },
        }
    }

    /// Yields the lowest index at or above the cursor, below the set's length, whose bit is set
    /// in the words taken; it takes (swaps with zero) further words as it needs them.
    pub fn next(&mut self) -> (r: Option<usize>)
        requires
            old(self).wf(),
        ensures
            final(self).wf(),
            final(self).source() == old(self).source(),
            old(self).taken().is_prefix_of(final(self).taken()),
            old(self).cursor() <= final(self).cursor(),
            match r {
                Some(i) => {
                    &&& old(self).cursor() <= i < old(self).source().spec_len()
                    &&& taken_bit(final(self).taken(), old(self).source().spec_len(), i as int)
                    &&& final(self).cursor() == i + 1
                    &&& final(self).emitted() == old(self).emitted().push(i)
                },
                None => {
                    &&& final(self).finished()
                    &&& final(self).taken().len() == old(self).source().word_count()
                    &&& final(self).emitted() == old(self).emitted()
                },
            },
    {
        let ghost len = self.len as nat;
        proof {
            assert(64 * words_for(len) <= self.len + 63);
        }
        loop
            invariant
                self.wf(),
                self.bitset == old(self).bitset,
                self.len == old(self).len,
                len == self.len as nat,
                old(self).taken@.is_prefix_of(self.taken@),
                old(self).cursor@ <= self.cursor@,
                self.emitted@ == old(self).emitted@,
                64 * self.bitset.words@.len() <= self.len + 63,
            decreases (self.bitset.words@.len() - self.next_word) * 2 + (if self.current_word is Some {
                1int
            } else {
                0int
            }),
        {
            match self.current_word {
                None => {
                    return None;
                },
                Some(word) => {
                    let b = trailing_zeros(word);
                    let ghost n = self.taken@.len();
                    let ghost last = self.taken@.last();
                    let ghost cursor = self.cursor@;
                    let ghost taken = self.taken@;
                    if b < 64 && self.index + (b as usize) < self.len {
                        let i = self.index + (b as usize);
                        let mask = 1u64 << b;
                        let rest = word & !mask;
                        proof {
                            assert(word_of(i as int) == n - 1);
                            assert(bit_of(i as int) == b);
                            assert(has_bit(word, b));
                            assert(has_bit(last, b));
                            assert(last == taken[word_of(i as int)]);
                            assert(0 <= i < len);
                            assert(word_of(i as int) < taken.len());
                            assert(has_bit(taken[word_of(i as int)], bit_of(i as int)));
                            assert(taken_bit(taken, len, i as int));
                            assert forall|j: int| cursor <= j < i implies !taken_bit(taken, len, j) by {
                                assert(word_of(j) == n - 1);
                                let c = bit_of(j);
                                assert(c < b);
                                assert(!has_bit(word, c));
                            }
                            lemma_no_bits_between(taken, len, cursor, i as int);
                            assert forall|c: u64| c < 64 implies (#[trigger] has_bit(rest, c) <==> (
                            self.index + c >= i + 1 && has_bit(last, c))) by {
                                lemma_and_not_bit(word, b, c);
                            }
                        }
                        self.current_word = Some(rest);
                        proof {
                            self.cursor = Ghost(i + 1);
                            self.emitted = Ghost(self.emitted@.push(i));
                        }
                        return Some(i);
                    }
                    proof {
                        assert forall|j: int| cursor <= j < self.index + 64 implies !taken_bit(taken, len, j) by {
                            if 0 <= j < len {
                                assert(word_of(j) == n - 1);
                                let c = bit_of(j);
                                if b == 64 || c < b {
                                    assert(!has_bit(word, c));
                                    assert(self.index + c >= cursor);
                                    assert(!has_bit(last, c));
                                    assert(last == taken[word_of(j)]);
                                } else {
                                    assert(j >= self.index + b);
                                }
                            }
                        }
                        lemma_no_bits_between(taken, len, cursor, self.index + 64);
                        self.cursor = Ghost(self.index + 64);
                    }
                    if self.next_word < self.bitset.words.len() {
                        let w = self.bitset.take_word(self.next_word, self.order);
                        proof {
                            lemma_taken_bits_extend(taken, w, len, 0, self.cursor@);
                            self.taken = Ghost(taken.push(w));
                            assert(taken.is_prefix_of(self.taken@));
                        }
                        self.next_word = self.next_word + 1;
                        self.index = self.index + 64;
                        self.current_word = Some(w);
                    } else {
                        self.current_word = None;
                    }
                },
            }
        }
    }
}

/// The indices collected from a range lie in it, have their bits set, and rise strictly.
proof fn lemma_taken_bits_between(taken: Seq<u64>, len: nat, lo: int, hi: int)
    requires
        0 <= lo,
        len <= usize::MAX,
    ensures
        forall|k: int|
            0 <= k < taken_bits_between(taken, len, lo, hi).len() ==> {
                let i = #[trigger] taken_bits_between(taken, len, lo, hi)[k];
                &&& lo <= i < hi
                &&& taken_bit(taken, len, i as int)
            },
        forall|k1: int, k2: int|
            0 <= k1 < k2 < taken_bits_between(taken, len, lo, hi).len() ==> #[trigger] taken_bits_between(
                taken,
                len,
                lo,
                hi,
            )[k1] < #[trigger] taken_bits_between(taken, len, lo, hi)[k2],
        forall|i: int|
            lo <= i < hi && taken_bit(taken, len, i) ==> taken_bits_between(taken, len, lo, hi).contains(
                i as usize,
            ),
    decreases hi - lo,
{
    if hi > lo {
        lemma_taken_bits_between(taken, len, lo, hi - 1);
        let prev = taken_bits_between(taken, len, lo, hi - 1);
        if taken_bit(taken, len, hi - 1) {
            let cur = prev.push((hi - 1) as usize);
            assert(cur[prev.len() as int] == (hi - 1) as usize);
            assert forall|i: int| lo <= i < hi && taken_bit(taken, len, i) implies cur.contains(
                i as usize,
            ) by {
                if i < hi - 1 {
                    let k = choose|k: int| 0 <= k < prev.len() && prev[k] == i as usize;
                    assert(cur[k] == i as usize);
                } else {
                    assert(cur[prev.len() as int] == i as usize);
                }
            }
        }
    }
}

/// A drain yields indices below the set's length whose bits were set in the words it took, in
/// strictly increasing order; once it is finished it has taken every word and yielded exactly
/// the indices whose bits were set in them.
pub proof fn law_drain_yields_taken_bits_in_order(d: &Drain)
    requires
        d.wf(),
    ensures
        forall|k: int|
            0 <= k < d.emitted().len() ==> #[trigger] d.emitted()[k] < d.source().spec_len()
                && taken_bit(d.taken(), d.source().spec_len(), d.emitted()[k] as int),
        forall|k1: int, k2: int|
            0 <= k1 < k2 < d.emitted().len() ==> #[trigger] d.emitted()[k1]
                < #[trigger] d.emitted()[k2],
        d.emitted().len() <= d.source().spec_len(),
        d.finished() ==> d.taken().len() == d.source().word_count(),
        d.finished() ==> forall|i: int|
            taken_bit(d.taken(), d.source().spec_len(), i) ==> d.emitted().contains(i as usize),
        d.finished() ==> d.emitted() == drained_bits(d.taken(), d.source().spec_len()),
        d.source().word_count() == words_for(d.source().spec_len()),
{
    lemma_taken_bits_between(d.taken@, d.len as nat, 0, d.cursor@);
    lemma_increasing_bounded(d.emitted(), d.source().spec_len());
    if d.finished() {
        assert(64 * words_for(d.len as nat) >= d.len);
    }
}

/// A strictly increasing sequence of indices below `n` has at most `n` elements.
pub proof fn lemma_increasing_bounded(s: Seq<usize>, n: nat)
    requires
        forall|k: int| 0 <= k < s.len() ==> #[trigger] s[k] < n,
        forall|k1: int, k2: int| 0 <= k1 < k2 < s.len() ==> #[trigger] s[k1] < #[trigger] s[k2],
    ensures
        s.len() <= n,
    decreases s.len(),
{
    if s.len() > 0 {
        assert(s[s.len() - 1] < n);
        let t = s.drop_last();
        if t.len() > 0 {
            assert(t[0] == s[0]);
            assert(s[0] < s[s.len() - 1]);
        }
        assert forall|k: int| 0 <= k < t.len() implies #[trigger] t[k] < s.last() by {
            assert(t[k] == s[k]);
        }
        if s.last() > 0 {
            lemma_increasing_bounded(t, s.last() as nat);
        }
    }
}

/// Bits set in words beyond the first ones do not change what the first ones hold.
proof fn lemma_taken_bits_extend(taken: Seq<u64>, w: u64, len: nat, lo: int, hi: int)
    requires
        hi <= 64 * taken.len(),
    ensures
        taken_bits_between(taken.push(w), len, lo, hi) == taken_bits_between(taken, len, lo, hi),
    decreases hi - lo,
{
    if hi > lo {
        lemma_taken_bits_extend(taken, w, len, lo, hi - 1);
        if hi - 1 >= 0 {
            assert(word_of(hi - 1) < taken.len());
            assert(taken.push(w)[word_of(hi - 1)] == taken[word_of(hi - 1)]);
        }
    }
}

/// A range with no set bit adds nothing to the indices collected before it.
proof fn lemma_no_bits_between(taken: Seq<u64>, len: nat, a: int, b: int)
    requires
        0 <= a <= b,
        forall|j: int| a <= j < b ==> !taken_bit(taken, len, j),
    ensures
        taken_bits_between(taken, len, 0, b) == taken_bits_between(taken, len, 0, a),
    decreases b - a,
{
    if b > a {
        lemma_no_bits_between(taken, len, a, b - 1);
    }
}

} // verus!
