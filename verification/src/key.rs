use vstd::prelude::*;

verus! {

/// The key that identifies a parameter across versions of a plugin: a generation, then a
/// string. Keys are ordered by generation, then by the bytes of the string.
#[derive(Copy, Clone, Debug, Eq, PartialEq, Ord, PartialOrd)]
pub struct Key<'a> {
    pub generation: usize,
    pub str: &'a str,
}

impl<'a> Key<'a> {
    pub fn new(generation: usize, str: &'a str) -> (r: Key<'a>)
        ensures
            r.generation == generation,
            r.str == str,
    {
        Key { generation, str }
    }
}

impl<'a> From<&'a str> for Key<'a> {
    fn from(value: &'a str) -> (r: Key<'a>) {
        Key::new(0, value)
    }
}

impl<'a> vstd::std_specs::convert::FromSpecImpl<&'a str> for Key<'a> {
    open spec fn obeys_from_spec() -> bool {
        true
    }

    open spec fn from_spec(v: &'a str) -> Key<'a> {
        Key { generation: 0, str: v }
    }
}

/// Three-way comparison of `a` and `b` from position `i` on, byte by byte; a sequence that
/// runs out first is the smaller. The result is negative, zero or positive.
pub open spec fn bytes_order_from(a: Seq<u8>, b: Seq<u8>, i: int) -> int
    decreases a.len() - i,
{
    if i < 0 || i >= a.len() {
        if i >= 0 && i < b.len() {
            -1
        } else {
            0
        }
    } else if i >= b.len() {
        1
    } else if a[i] < b[i] {
        -1
    } else if a[i] > b[i] {
        1
    } else {
        bytes_order_from(a, b, i + 1)
    }
}

/// Three-way comparison of keys given as a generation and the bytes of a string.
pub open spec fn key_order(g1: nat, s1: Seq<u8>, g2: nat, s2: Seq<u8>) -> int {
    if g1 < g2 {
        -1
    } else if g1 > g2 {
        1
    } else {
        bytes_order_from(s1, s2, 0)
    }
}

/// Compares the bytes of two strings, as `bytes_order_from` from position 0.
pub fn compare_bytes(a: &[u8], b: &[u8]) -> (r: i8)
    ensures
        r == bytes_order_from(a@, b@, 0),
{
    let mut i: usize = 0;
    while i < a.len() && i < b.len()
        invariant
            i <= a@.len(),
            i <= b@.len(),
            bytes_order_from(a@, b@, 0) == bytes_order_from(a@, b@, i as int),
        decreases a@.len() - i,
    {
        if a[i] < b[i] {
            return -1;
        }
        if a[i] > b[i] {
            return 1;
        }
        i = i + 1;
    }
    if i < a.len() {
        1
    } else if i < b.len() {
        -1
    } else {
        0
    }
}

/// Compares two keys: by generation, then by the bytes of the string.
pub fn compare_keys(g1: usize, s1: &str, g2: usize, s2: &str) -> (r: i8)
    ensures
        r == key_order(g1 as nat, str_bytes(s1), g2 as nat, str_bytes(s2)),
{
    if g1 < g2 {
        -1
    } else if g1 > g2 {
        1
    } else {
        compare_bytes(s1.as_bytes(), s2.as_bytes())
    }
}

/// An entry of a key list: a key, and for a parameter (not a reserved key) its position among
/// the parameters.
pub struct EntryView {
    pub generation: nat,
    pub bytes: Seq<u8>,
    pub index: Option<nat>,
}

/// Whether entry `j` comes before entry `k` once the entries are sorted stably by key.
pub open spec fn precedes(entries: Seq<EntryView>, j: int, k: int) -> bool {
    let c = key_order(entries[j].generation, entries[j].bytes, entries[k].generation, entries[k].bytes);
    c < 0 || (c == 0 && j < k)
}

/// The number of entries among the first `n` that come before entry `k`.
pub open spec fn count_preceding(entries: Seq<EntryView>, k: int, n: int) -> nat
    decreases n,
{
    if n <= 0 {
        0
    } else {
        count_preceding(entries, k, n - 1) + if precedes(entries, n - 1, k) {
            1nat
        } else {
            0nat
        }
    }
}

/// The position of entry `k` once all entries are sorted stably by key.
pub open spec fn sorted_position(entries: Seq<EntryView>, k: int) -> nat {
    count_preceding(entries, k, entries.len() as int)
}

/// The number of parameters (entries with a position) among the first `n` entries.
pub open spec fn keyed_before(entries: Seq<EntryView>, n: int) -> nat
    decreases n,
{
    if n <= 0 {
        0
    } else {
        keyed_before(entries, n - 1) + if entries[n - 1].index is Some {
            1nat
        } else {
            0nat
        }
    }
}

proof fn lemma_keyed_before_push(entries: Seq<EntryView>, e: EntryView, n: int)
    requires
        0 <= n <= entries.len(),
    ensures
        keyed_before(entries.push(e), n) == keyed_before(entries, n),
    decreases n,
{
    if n > 0 {
        lemma_keyed_before_push(entries, e, n - 1);
    }
}

proof fn lemma_keyed_before_grows(entries: Seq<EntryView>, i: int, j: int)
    requires
        0 <= i < j <= entries.len(),
        entries[i].index is Some,
    ensures
        keyed_before(entries, i) < keyed_before(entries, j),
    decreases j - i,
{
    if j > i + 1 {
        lemma_keyed_before_grows(entries, i, j - 1);
    }
}

proof fn lemma_bytes_order_antisymmetric(a: Seq<u8>, b: Seq<u8>, i: int)
    requires
        0 <= i,
    ensures
        bytes_order_from(a, b, i) == -bytes_order_from(b, a, i),
    decreases a.len() - i,
{
    if i < a.len() && i < b.len() && a[i] == b[i] {
        lemma_bytes_order_antisymmetric(a, b, i + 1);
    }
}

proof fn lemma_bytes_order_transitive(a: Seq<u8>, b: Seq<u8>, c: Seq<u8>, i: int)
    requires
        0 <= i,
    ensures
        bytes_order_from(a, b, i) < 0 && bytes_order_from(b, c, i) < 0 ==> bytes_order_from(a, c, i)
            < 0,
        bytes_order_from(a, b, i) < 0 && bytes_order_from(b, c, i) == 0 ==> bytes_order_from(a, c, i)
            < 0,
        bytes_order_from(a, b, i) == 0 && bytes_order_from(b, c, i) < 0 ==> bytes_order_from(a, c, i)
            < 0,
        bytes_order_from(a, b, i) == 0 && bytes_order_from(b, c, i) == 0 ==> bytes_order_from(a, c, i)
            == 0,
    decreases a.len() - i,
{
    if i < a.len() && i < b.len() && i < c.len() && a[i] == b[i] && b[i] == c[i] {
        lemma_bytes_order_transitive(a, b, c, i + 1);
    }
}

proof fn lemma_precedes_order(entries: Seq<EntryView>, i: int, j: int, k: int)
    requires
        0 <= i < entries.len(),
        0 <= j < entries.len(),
        0 <= k < entries.len(),
    ensures
        j != k ==> (precedes(entries, j, k) || precedes(entries, k, j)),
        !(precedes(entries, j, k) && precedes(entries, k, j)),
        !precedes(entries, k, k),
        precedes(entries, i, j) && precedes(entries, j, k) ==> precedes(entries, i, k),
{
    let (ei, ej, ek) = (entries[i], entries[j], entries[k]);
    lemma_bytes_order_antisymmetric(ej.bytes, ek.bytes, 0);
    lemma_bytes_order_antisymmetric(ek.bytes, ek.bytes, 0);
    lemma_bytes_order_transitive(ei.bytes, ej.bytes, ek.bytes, 0);
}

proof fn lemma_count_preceding_le(entries: Seq<EntryView>, j: int, k: int, n: int)
    requires
        0 <= j < entries.len(),
        0 <= k < entries.len(),
        0 <= n <= entries.len(),
        precedes(entries, j, k),
    ensures
        count_preceding(entries, j, n) + (if j < n {
            1int
        } else {
            0int
        }) <= count_preceding(entries, k, n),
    decreases n,
{
    if n > 0 {
        lemma_count_preceding_le(entries, j, k, n - 1);
        lemma_precedes_order(entries, n - 1, j, k);
        lemma_precedes_order(entries, j, j, j);
    }
}

/// Parameters get distinct ids in the order of their keys: the sorted positions of two
/// different entries differ, the entry whose key comes first (the earlier one among equal
/// keys) gets the smaller one, and every sorted position is below the number of entries.
pub proof fn law_sorted_positions_distinct(entries: Seq<EntryView>, j: int, k: int)
    requires
        0 <= j < entries.len(),
        0 <= k < entries.len(),
        j != k,
    ensures
        sorted_position(entries, j) != sorted_position(entries, k),
        precedes(entries, j, k) ==> sorted_position(entries, j) < sorted_position(entries, k),
        sorted_position(entries, j) < entries.len(),
{
    lemma_precedes_order(entries, j, j, k);
    if precedes(entries, j, k) {
        lemma_count_preceding_le(entries, j, k, entries.len() as int);
    } else {
        lemma_count_preceding_le(entries, k, j, entries.len() as int);
    }
    lemma_count_preceding_below(entries, j, entries.len() as int);
}

proof fn lemma_count_preceding_below(entries: Seq<EntryView>, k: int, n: int)
    requires
        0 <= k < entries.len(),
        0 <= n <= entries.len(),
    ensures
        count_preceding(entries, k, n) <= n - (if k < n {
            1int
        } else {
            0int
        }),
    decreases n,
{
    if n > 0 {
        lemma_count_preceding_below(entries, k, n - 1);
        lemma_precedes_order(entries, k, k, k);
    }
}

struct Entry {
    generation: usize,
    str: String,
    index: Option<usize>,
}

/// The keys of a plugin's parameters and reserved keys, in the order they were declared.
pub struct KeyList {
    count: usize,
    entries: Vec<Entry>,
}

impl View for KeyList {
    type V = Seq<EntryView>;

    closed spec fn view(&self) -> Seq<EntryView> {
        Seq::new(
            self.entries@.len(),
            |i: int|
                EntryView {
                    generation: self.entries@[i].generation as nat,
                    bytes: vstd::utf8::encode_utf8(self.entries@[i].str@),
                    index: match self.entries@[i].index {
                        Some(x) => Some(x as nat),
                        None => None,
                    },
                },
        )
    }
}

/// The bytes of a string with the given characters.
pub open spec fn str_bytes(s: &str) -> Seq<u8> {
    vstd::utf8::encode_utf8(s@)
}

impl KeyList {
    /// The parameters are numbered in the order they were declared.
    pub closed spec fn wf(&self) -> bool {
        &&& forall|i: int|
            0 <= i < self.entries@.len() ==> match #[trigger] self.entries@[i].index {
                Some(x) => x == keyed_before(self@, i),
                None => true,
            }
        &&& self.count == keyed_before(self@, self.entries@.len() as int)
    }

    /// The number of parameters (keys that are not reserved).
    pub closed spec fn count(&self) -> nat {
        self.count as nat
    }

    /// The ids of the parameters: id `x` is the position that parameter `x`'s key takes when all
    /// keys, reserved ones included, are sorted stably.
    pub fn into_ids(self) -> (r: Vec<u32>)
        requires
            self.wf(),
            self@.len() <= u32::MAX,
        ensures
            r@.len() == self.count(),
            forall|k: int|
                0 <= k < self@.len() && #[trigger] self@[k].index is Some ==> r@[self@[k].index->0 as int]
                    == sorted_position(self@, k),
    {
        let n = self.entries.len();
        let mut ids: Vec<u32> = Vec::new();
        let mut i: usize = 0;
        while i < self.count
            invariant
                i <= self.count,
                ids@.len() == i,
            decreases self.count - i,
        {
            ids.push(0);
            i = i + 1;
        }
        let ghost entries = self@;
        let mut k: usize = 0;
        while k < n
            invariant
                self.wf(),
                entries == self@,
                n == self.entries@.len(),
                n <= u32::MAX,
                k <= n,
                ids@.len() == self.count,
                forall|k2: int|
                    0 <= k2 < k && #[trigger] entries[k2].index is Some ==> ids@[entries[k2].index->0 as int]
                        == sorted_position(entries, k2),
            decreases n - k,
        {
            match self.entries[k].index {
                Some(x) => {
                    let mut rank: usize = 0;
                    let mut j: usize = 0;
                    while j < n
                        invariant
                            entries == self@,
                            n == self.entries@.len(),
                            k < n,
                            j <= n,
                            rank <= j,
                            rank == count_preceding(entries, k as int, j as int),
                        decreases n - j,
                    {
                        let c = compare_keys(
                            self.entries[j].generation,
                            self.entries[j].str.as_str(),
                            self.entries[k].generation,
                            self.entries[k].str.as_str(),
                        );
                        if c < 0 || (c == 0 && j < k) {
                            rank = rank + 1;
                        }
                        j = j + 1;
                    }
                    proof {
                        assert(self.entries@[k as int].index == Some(x));
                        assert(x == keyed_before(self@, k as int));
                        assert(entries[k as int].index == Some(x as nat));
                        lemma_keyed_before_grows(entries, k as int, n as int);
                        assert forall|k2: int| 0 <= k2 < k && #[trigger] entries[k2].index is Some implies entries[k2].index->0
                            != x by {
                            lemma_keyed_before_grows(entries, k2, k as int);
                        }
                    }
                    assert(x < ids@.len());
                    let ghost before = ids@;
                    ids.set(x, rank as u32);
                    proof {
                        assert forall|k2: int|
                            0 <= k2 < k + 1 && #[trigger] entries[k2].index is Some implies ids@[entries[k2].index->0 as int]
                                == sorted_position(entries, k2) by {
                            if k2 < k {
                                assert(self.entries@[k2].index is Some);
                                lemma_keyed_before_grows(entries, k2, n as int);
                                assert(entries[k2].index->0 != x);
                                assert(ids@[entries[k2].index->0 as int] == before[entries[k2].index->0 as int]);
                            }
                        }
                    }
                },
                None => {},
            }
            k = k + 1;
        }
        ids
    }

    /// The number of keys declared, reserved ones included.
    pub fn len(&self) -> (r: usize)
        ensures
            r == self@.len(),
    {
        self.entries.len()
    }

    pub fn new() -> (r: KeyList)
        ensures
            r.wf(),
            r@ == Seq::<EntryView>::empty(),
            r.count() == 0,
    {
        let r = KeyList { count: 0, entries: Vec::new() };
        assert(r@ =~= Seq::<EntryView>::empty());
        r
    }

    /// Declares a parameter with `key`; it is numbered after the parameters declared before.
    pub fn key<'k>(&mut self, key: Key<'k>)
        requires
            old(self).wf(),
            old(self).count() < usize::MAX,
        ensures
            final(self).wf(),
            final(self).count() == old(self).count() + 1,
            final(self)@ == old(self)@.push(
                EntryView {
                    generation: key.generation as nat,
                    bytes: str_bytes(key.str),
                    index: Some(old(self).count()),
                },
            ),
    {
        let entry = Entry {
            generation: key.generation,
            str: key.str.to_owned(),
            index: Some(self.count),
        };
        self.entries.push(entry);
        self.count = self.count + 1;
        proof {
            let e = EntryView {
                generation: key.generation as nat,
                bytes: str_bytes(key.str),
                index: Some(old(self).count()),
            };
            assert(self@ =~= old(self)@.push(e));
            let n = old(self)@.len() as int;
            assert forall|i: int| 0 <= i <= n implies keyed_before(self@, i) == keyed_before(old(self)@, i) by {
                lemma_keyed_before_push(old(self)@, e, i);
            }
            assert forall|i: int| 0 <= i < self.entries@.len() implies match #[trigger] self.entries@[i].index {
                Some(x) => x == keyed_before(self@, i),
                None => true,
            } by {
                if i < n {
                    assert(self.entries@[i] == old(self).entries@[i]);
                    assert(old(self)@[i] == self@[i]);
                }
            }
            assert(self@ =~= old(self)@.push(
                EntryView {
                    generation: key.generation as nat,
                    bytes: str_bytes(key.str),
                    index: Some(old(self).count()),
                },
            ));
        }
    }

    /// Reserves `key`: it takes part in the ordering but numbers no parameter.
    pub fn reserve<'k>(&mut self, key: Key<'k>)
        requires
            old(self).wf(),
        ensures
            final(self).wf(),
            final(self).count() == old(self).count(),
            final(self)@ == old(self)@.push(
                EntryView { generation: key.generation as nat, bytes: str_bytes(key.str), index: None },
            ),
    {
        let entry = Entry { generation: key.generation, str: key.str.to_owned(), index: None };
        self.entries.push(entry);
        proof {
            let e = EntryView {
                generation: key.generation as nat,
                bytes: str_bytes(key.str),
                index: None,
            };
            assert(self@ =~= old(self)@.push(e));
            let n = old(self)@.len() as int;
            assert forall|i: int| 0 <= i <= n implies keyed_before(self@, i) == keyed_before(old(self)@, i) by {
                lemma_keyed_before_push(old(self)@, e, i);
            }
            assert forall|i: int| 0 <= i < self.entries@.len() implies match #[trigger] self.entries@[i].index {
                Some(x) => x == keyed_before(self@, i),
                None => true,
            } by {
                if i < n {
                    assert(self.entries@[i] == old(self).entries@[i]);
                    assert(old(self)@[i] == self@[i]);
                }
            }
        }
    }
}

} // verus!
