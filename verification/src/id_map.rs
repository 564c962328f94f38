use vstd::prelude::*;

use std::collections::HashMap;
use std::hash::Hash;

verus! {

/// The map from each id among the first `n` of `ids` to the last position where it occurs.
pub open spec fn positions_of<T>(ids: Seq<T>, n: int) -> Map<T, usize>
    decreases n,
{
    if n <= 0 {
        Map::empty()
    } else {
        positions_of(ids, n - 1).insert(ids[n - 1], (n - 1) as usize)
    }
}

/// A two-way mapping between a list of ids and their positions in it.
pub struct IdMap<T> {
    ids: Vec<T>,
    map: HashMap<T, usize>,
}

impl<T: Copy + Eq + Hash> IdMap<T> {
    /// The ids, in order.
    pub closed spec fn ids(&self) -> Seq<T> {
        self.ids@
    }

    pub closed spec fn wf(&self) -> bool {
        &&& self.ids@.len() <= usize::MAX
        &&& vstd::std_specs::hash::obeys_key_model::<T>() ==> self.map@ == positions_of(
            self.ids@,
            self.ids@.len() as int,
        )
    }

    /// A well-formed map holds no more ids than a `usize` counts.
    pub proof fn lemma_len_fits(&self)
        requires
            self.wf(),
        ensures
            self.ids().len() <= usize::MAX,
    {
    }

    /// The mapping for `ids`; an id that occurs more than once maps to its last position.
    pub fn from_ids(ids: Vec<T>) -> (r: IdMap<T>)
        requires
            ids@.len() <= usize::MAX,
        ensures
            r.wf(),
            r.ids() == ids@,
    {
        let mut map: HashMap<T, usize> = HashMap::new();
        let mut index: usize = 0;
        while index < ids.len()
            invariant
                index <= ids@.len(),
                vstd::std_specs::hash::obeys_key_model::<T>() ==> map@ == positions_of(
                    ids@,
                    index as int,
                ),
            decreases ids@.len() - index,
        {
            let id = ids[index];
            map.insert(id, index);
            index = index + 1;
        }
        IdMap { ids, map }
    }

    /// The id at position `index`, if there is one.
    pub fn id_from_index(&self, index: usize) -> (r: Option<&T>)
        ensures
            index < self.ids().len() ==> r == Some(&self.ids()[index as int]),
            index >= self.ids().len() ==> r is None,
    {
        if index < self.ids.len() {
            Some(&self.ids[index])
        } else {
            None
        }
    }

    /// The last position of `id`, if it occurs.
    pub fn index_from_id(&self, id: &T) -> (r: Option<usize>)
        requires
            self.wf(),
        ensures
            vstd::std_specs::hash::obeys_key_model::<T>() ==> r == positions_of(
                self.ids(),
                self.ids().len() as int,
            ).get(*id),
    {
        match self.map.get(id) {
            Some(index) => Some(*index),
            None => None,
        }
    }
}

/// Every position in the map is one of the first `n`.
pub proof fn lemma_positions_in_range<T>(ids: Seq<T>, n: int, id: T)
    requires
        0 <= n <= ids.len(),
        n <= usize::MAX,
        positions_of(ids, n).contains_key(id),
    ensures
        positions_of(ids, n)[id] < n,
    decreases n,
{
    if n > 0 && id != ids[n - 1] {
        lemma_positions_in_range(ids, n - 1, id);
    }
}

/// An id maps to a position that holds it, and, when the ids are distinct, to its own
/// position: looking up the id at position `i` gives `i` back.
pub proof fn law_positions_of_ids<T>(ids: Seq<T>, n: int, i: int)
    requires
        0 <= i < n <= ids.len(),
        n <= usize::MAX,
    ensures
        positions_of(ids, n).contains_key(ids[i]),
        ids[positions_of(ids, n)[ids[i]] as int] == ids[i],
        i <= positions_of(ids, n)[ids[i]] < n,
        (forall|j: int, k: int| 0 <= j < k < n ==> ids[j] != ids[k]) ==> positions_of(ids, n)[ids[i]]
            == i,
    decreases n,
{
    let m = positions_of(ids, n - 1);
    assert(positions_of(ids, n) == m.insert(ids[n - 1], (n - 1) as usize));
    if ids[i] == ids[n - 1] {
        assert(positions_of(ids, n)[ids[i]] == n - 1);
        if forall|j: int, k: int| 0 <= j < k < n ==> ids[j] != ids[k] {
            if i < n - 1 {
                assert(ids[i] != ids[n - 1]);
            }
        }
    } else {
        assert(i < n - 1);
        law_positions_of_ids(ids, n - 1, i);
        assert(positions_of(ids, n)[ids[i]] == m[ids[i]]);
    }
}

/// An id is in the map exactly when it occurs among the ids.
pub proof fn law_positions_hold_exactly_the_ids<T>(ids: Seq<T>, n: int, x: T)
    requires
        0 <= n <= ids.len(),
        n <= usize::MAX,
    ensures
        positions_of(ids, n).contains_key(x) <==> exists|i: int| 0 <= i < n && ids[i] == x,
    decreases n,
{
    if n > 0 {
        law_positions_hold_exactly_the_ids(ids, n - 1, x);
        if ids[n - 1] != x && positions_of(ids, n).contains_key(x) {
            assert(positions_of(ids, n - 1).contains_key(x));
        }
    }
}

/// The integer ids that parameters have obey vstd's model of hash-map keys, so `index_from_id`
/// on an `IdMap<u32>` always gives the last position of the id, and `None` exactly for an id
/// that does not occur.
pub proof fn lemma_u32_ids_obey_key_model()
    ensures
        vstd::std_specs::hash::obeys_key_model::<u32>(),
{
}

} // verus!
