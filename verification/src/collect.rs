use vstd::prelude::*;

use crate::bus::{BusConfig, BusInfo, Layout, OwnedBusConfig, OwnedBusInfo};
use crate::key::{sorted_position, str_bytes, EntryView, Key, KeyList};

verus! {

/// A parameter as a plugin declares it, with its name owned and its default value given as the
/// bits of an `f64`.
pub struct OwnedParamInfo {
    pub name: String,
    pub default: u64,
    pub steps: Option<u32>,
}

/// What is kept of a declared parameter: its name, default value and number of steps.
pub open spec fn param_view(p: OwnedParamInfo) -> (Seq<char>, u64, Option<u32>) {
    (p.name@, p.default, p.steps)
}

/// Gathers a plugin's parameter declarations: their keys, in order, and what each parameter is.
pub struct ParamCollector {
    keys: KeyList,
    params: Vec<OwnedParamInfo>,
}

impl ParamCollector {
    pub closed spec fn wf(&self) -> bool {
        &&& self.keys.wf()
        &&& self.keys.count() == self.params@.len()
    }

    /// The keys declared so far, reserved ones included.
    pub closed spec fn keys(&self) -> Seq<EntryView> {
        self.keys@
    }

    /// The parameters declared so far.
    pub closed spec fn params(&self) -> Seq<(Seq<char>, u64, Option<u32>)> {
        self.params@.map_values(|p: OwnedParamInfo| param_view(p))
    }

    pub fn new() -> (r: ParamCollector)
        ensures
            r.wf(),
            r.keys() == Seq::<EntryView>::empty(),
            r.params() == Seq::<(Seq<char>, u64, Option<u32>)>::empty(),
    {
        let r = ParamCollector { keys: KeyList::new(), params: Vec::new() };
        assert(r.params() =~= Seq::<(Seq<char>, u64, Option<u32>)>::empty());
        r
    }

    /// The number of keys declared, reserved ones included.
    pub fn key_count(&self) -> (r: usize)
        ensures
            r == self.keys().len(),
    {
        self.keys.len()
    }

    /// The number of parameters declared.
    pub fn param_count(&self) -> (r: usize)
        requires
            self.wf(),
        ensures
            r == self.params().len(),
    {
        self.params.len()
    }

    /// Declares a parameter under `key`; it is numbered after those declared before.
    pub fn param<'k>(&mut self, key: Key<'k>, name: &str, default: u64, steps: Option<u32>)
        requires
            old(self).wf(),
            old(self).params().len() < usize::MAX,
        ensures
            final(self).wf(),
            final(self).keys() == old(self).keys().push(
                EntryView {
                    generation: key.generation as nat,
                    bytes: str_bytes(key.str),
                    index: Some(old(self).params().len()),
                },
            ),
            final(self).params() == old(self).params().push((name@, default, steps)),
    {
        self.keys.key(key);
        self.params.push(OwnedParamInfo { name: name.to_owned(), default, steps });
        assert(self.params() =~= old(self).params().push((name@, default, steps)));
    }

    /// Reserves `key`: it takes part in the numbering of ids but declares no parameter.
    pub fn reserve<'k>(&mut self, key: Key<'k>)
        requires
            old(self).wf(),
        ensures
            final(self).wf(),
            final(self).keys() == old(self).keys().push(
                EntryView { generation: key.generation as nat, bytes: str_bytes(key.str), index: None },
            ),
            final(self).params() == old(self).params(),
    {
        self.keys.reserve(key);
    }

    /// The ids of the parameters (see `KeyList::into_ids`) and the parameters, in the order they
    /// were declared.
    pub fn finish(self) -> (r: (Vec<u32>, Vec<OwnedParamInfo>))
        requires
            self.wf(),
            self.keys().len() <= u32::MAX,
        ensures
            r.0@.len() == self.params().len(),
            r.1@.map_values(|p: OwnedParamInfo| param_view(p)) == self.params(),
            forall|k: int|
                0 <= k < self.keys().len() && #[trigger] self.keys()[k].index is Some
                    ==> r.0@[self.keys()[k].index->0 as int] == sorted_position(self.keys(), k),
    {
        let ParamCollector { keys, params } = self;
        let ids = keys.into_ids();
        (ids, params)
    }
}

/// Gathers a plugin's bus declarations, with their names owned.
pub fn owned_bus(bus: &BusInfo) -> (r: OwnedBusInfo)
    ensures
        r.name@ == bus.name@,
        r.dir == bus.dir,
{
    OwnedBusInfo { name: bus.name.to_owned(), dir: bus.dir }
}

/// A bus configuration with its layouts owned.
pub fn owned_bus_config(config: &BusConfig) -> (r: OwnedBusConfig)
    ensures
        r.layouts@ == config.layouts@,
{
    let mut layouts: Vec<Layout> = Vec::new();
    let mut i: usize = 0;
    while i < config.layouts.len()
        invariant
            i <= config.layouts@.len(),
            layouts@ == config.layouts@.subrange(0, i as int),
        decreases config.layouts@.len() - i,
    {
        layouts.push(config.layouts[i]);
        i = i + 1;
        assert(layouts@ =~= config.layouts@.subrange(0, i as int));
    }
    assert(layouts@ =~= config.layouts@);
    OwnedBusConfig { layouts }
}

} // verus!
