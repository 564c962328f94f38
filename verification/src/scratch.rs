use vstd::prelude::*;

use crate::buffers::{BufferData, BufferType};
use crate::bus::{layout_channels, BusDir, BusInfo, Layout};

verus! {

/// Where a channel's samples live, as the audio processor is to see them: a buffer of the host
/// (by its address), one of the scratch slots (slot `k` is samples `k * len .. (k + 1) * len`
/// of the scratch space), the silence buffer, or nowhere yet.
#[derive(Copy, Clone, PartialEq, Eq, Debug, Structural)]
pub enum ChannelPtr {
    Host(usize),
    Scratch(usize),
    Silence,
    Dangling,
}

/// What a scratch slot was handed out for.
pub enum SlotUse {
    /// Channel `channel` of output bus `output`, which the host left inactive.
    Output { output: nat, channel: nat },
    /// A copy of the host buffer at `addr`, which an output buffer aliases.
    Save { addr: usize },
}

/// A bus as the host passes it to `process`: its channel count and its channels' addresses.
pub struct HostBus {
    pub num_channels: i32,
    pub channels: Vec<usize>,
}

/// The number of channels of the first `n` buses.
pub open spec fn channels_before(formats: Seq<Layout>, n: int) -> nat
    decreases n,
{
    if n <= 0 {
        0
    } else {
        channels_before(formats, n - 1) + layout_channels(formats[n - 1])
    }
}

/// The number of channels of the in-out buses among the first `n` buses.
pub open spec fn in_out_channels_before(dirs: Seq<BusDir>, formats: Seq<Layout>, n: int) -> nat
    decreases n,
{
    if n <= 0 {
        0
    } else {
        in_out_channels_before(dirs, formats, n - 1) + if dirs[n - 1] == BusDir::InOut {
            layout_channels(formats[n - 1])
        } else {
            0
        }
    }
}

/// The directions of a list of buses.
pub open spec fn dirs_of(buses: Seq<BusInfo>) -> Seq<BusDir> {
    Seq::new(buses.len(), |i: int| buses[i].dir)
}

/// The buffer type that a bus of direction `dir` gets.
pub open spec fn buffer_type_of(dir: BusDir) -> BufferType {
    if dir == BusDir::In {
        BufferType::Const
    } else {
        BufferType::Mut
    }
}

/// `map` lists buses below `n`, in strictly increasing order, none of direction `excluded`.
pub open spec fn bus_map_wf(map: Seq<usize>, dirs: Seq<BusDir>, excluded: BusDir) -> bool {
    &&& forall|i: int| 0 <= i < map.len() ==> #[trigger] map[i] < dirs.len() && dirs[map[i] as int]
        != excluded
    &&& forall|i: int, j: int| 0 <= i < j < map.len() ==> #[trigger] map[i] < #[trigger] map[j]
}

/// The host's buses match the layout: one per mapped bus, each with the layout's channel count.
pub open spec fn host_buses_match(map: Seq<usize>, formats: Seq<Layout>, host: Seq<HostBus>) -> bool {
    &&& host.len() == map.len()
    &&& forall|i: int|
        0 <= i < map.len() ==> (#[trigger] host[i]).num_channels >= 0 && host[i].num_channels as nat
            == layout_channels(formats[map[i] as int])
}

/// The number of channels of the buses that `map` lists.
pub open spec fn mapped_channels(map: Seq<usize>, formats: Seq<Layout>, n: int) -> nat
    decreases n,
{
    if n <= 0 {
        0
    } else {
        mapped_channels(map, formats, n - 1) + layout_channels(formats[map[n - 1] as int])
    }
}

/// The channels of bus `b` are charged to slot budget when `b` is not of direction `excluded`.
pub open spec fn charge(dirs: Seq<BusDir>, formats: Seq<Layout>, excluded: BusDir, b: int) -> nat {
    if dirs[b] != excluded {
        layout_channels(formats[b])
    } else {
        0
    }
}

/// The charge of the first `n` buses.
pub open spec fn charge_before(dirs: Seq<BusDir>, formats: Seq<Layout>, excluded: BusDir, n: int) -> nat
    decreases n,
{
    if n <= 0 {
        0
    } else {
        charge_before(dirs, formats, excluded, n - 1) + charge(dirs, formats, excluded, n - 1)
    }
}

/// The position of channel `c` of bus `b` among the channel pointers of all buses.
pub open spec fn chan(formats: Seq<Layout>, b: int, c: int) -> int {
    channels_before(formats, b) + c
}

/// The addresses of the channels of the first `n` output buses that are active, in order.
pub open spec fn active_output_addrs(outputs: Seq<HostBus>, active: Seq<bool>, n: int) -> Seq<usize>
    decreases n,
{
    if n <= 0 {
        Seq::empty()
    } else {
        active_output_addrs(outputs, active, n - 1) + if active[n - 1] {
            outputs[n - 1].channels@
        } else {
            Seq::empty()
        }
    }
}

/// The number of channels of the buses of direction `dir` among the first `n` that `map`
/// lists.
pub open spec fn mapped_channels_of(
    map: Seq<usize>,
    dirs: Seq<BusDir>,
    formats: Seq<Layout>,
    dir: BusDir,
    n: int,
) -> nat
    decreases n,
{
    if n <= 0 {
        0
    } else {
        mapped_channels_of(map, dirs, formats, dir, n - 1) + if dirs[map[n - 1] as int] == dir {
            layout_channels(formats[map[n - 1] as int])
        } else {
            0
        }
    }
}

/// The pointer of channel `c` of output bus `o` is right: the host's buffer when the bus is
/// active, else a scratch slot handed out for that channel.
pub open spec fn output_ptr_ok(
    p: ChannelPtr,
    active: bool,
    host: HostBus,
    o: nat,
    c: nat,
    uses: Seq<SlotUse>,
) -> bool {
    if active {
        p == ChannelPtr::Host(host.channels@[c as int])
    } else {
        p matches ChannelPtr::Scratch(s) && s < uses.len() && uses[s as int] == (SlotUse::Output {
            output: o,
            channel: c,
        })
    }
}

/// The pointer of channel `c` of an input bus is right: for an active bus, the host's buffer,
/// or a scratch copy of it when an output buffer aliases it; for an inactive bus, silence.
pub open spec fn input_ptr_ok(
    p: ChannelPtr,
    active: bool,
    host: HostBus,
    c: nat,
    aliased: Seq<usize>,
    saves: Seq<(usize, usize)>,
    uses: Seq<SlotUse>,
) -> bool {
    if active {
        let h = host.channels@[c as int];
        if aliased.contains(h) {
            p matches ChannelPtr::Scratch(s) && saves.contains((h, s)) && s < uses.len() && uses[s as int]
                == (SlotUse::Save { addr: h })
        } else {
            p == ChannelPtr::Host(h)
        }
    } else {
        p == ChannelPtr::Silence
    }
}

/// Channel `c` of an in-out bus gets its input into its output buffer `dst`: nothing to do when
/// the host passed the same buffer, else a move from the input (or from its scratch copy when an
/// output aliases it); an inactive input bus gives silence.
pub open spec fn in_out_ok(
    dst: ChannelPtr,
    active: bool,
    host: HostBus,
    c: nat,
    aliased: Seq<usize>,
    saves: Seq<(usize, usize)>,
    moves: Seq<(ChannelPtr, ChannelPtr)>,
    uses: Seq<SlotUse>,
) -> bool {
    if active {
        let h = host.channels@[c as int];
        ||| ChannelPtr::Host(h) == dst
        ||| !aliased.contains(h) && moves.contains((ChannelPtr::Host(h), dst))
        ||| aliased.contains(h) && exists|s: usize|
            moves.contains((ChannelPtr::Scratch(s), dst)) && saves.contains((h, s)) && s < uses.len()
                && uses[s as int] == (SlotUse::Save { addr: h })
    } else {
        moves.contains((ChannelPtr::Silence, dst))
    }
}

/// `dst` is the output pointer of a channel of one of the first `upto` in-out buses that `map`
/// lists.
pub open spec fn in_out_dst(
    dst: ChannelPtr,
    ptrs: Seq<ChannelPtr>,
    map: Seq<usize>,
    dirs: Seq<BusDir>,
    formats: Seq<Layout>,
    upto: int,
) -> bool {
    exists|i: int, c: int|
        #![trigger map[i], ptrs[chan(formats, map[i] as int, c)]]
        0 <= i < upto && dirs[map[i] as int] == BusDir::InOut && 0 <= c < layout_channels(
            formats[map[i] as int],
        ) && dst == ptrs[chan(formats, map[i] as int, c)]
}

/// Every save copies into a slot handed out for it, and no move reads a buffer that an output
/// aliases.
pub open spec fn copies_safe(
    aliased: Seq<usize>,
    saves: Seq<(usize, usize)>,
    moves: Seq<(ChannelPtr, ChannelPtr)>,
    uses: Seq<SlotUse>,
) -> bool {
    &&& forall|k: int|
        0 <= k < saves.len() ==> (#[trigger] saves[k]).1 < uses.len() && uses[saves[k].1 as int] == (
        SlotUse::Save { addr: saves[k].0 })
    &&& forall|k: int|
        0 <= k < moves.len() ==> !((#[trigger] moves[k]).0 matches ChannelPtr::Host(a)
            && aliased.contains(a))
}

proof fn lemma_channels_before_mono(formats: Seq<Layout>, a: int, b: int)
    requires
        0 <= a <= b,
    ensures
        channels_before(formats, a) <= channels_before(formats, b),
    decreases b - a,
{
    if a < b {
        lemma_channels_before_mono(formats, a, b - 1);
    }
}

proof fn lemma_chan_disjoint(formats: Seq<Layout>, b1: int, c1: int, b2: int, c2: int)
    requires
        0 <= b1,
        0 <= b2,
        b1 != b2,
        0 <= c1 < layout_channels(formats[b1]),
        0 <= c2 < layout_channels(formats[b2]),
    ensures
        chan(formats, b1, c1) != chan(formats, b2, c2),
{
    if b1 < b2 {
        lemma_channels_before_mono(formats, b1 + 1, b2);
    } else {
        lemma_channels_before_mono(formats, b2 + 1, b1);
    }
}

proof fn lemma_chan_bound(formats: Seq<Layout>, b: int, c: int, n: int)
    requires
        0 <= b < n,
        0 <= c < layout_channels(formats[b]),
    ensures
        chan(formats, b, c) < channels_before(formats, n),
{
    lemma_channels_before_mono(formats, b + 1, n);
}

proof fn lemma_charge_before_mono(dirs: Seq<BusDir>, formats: Seq<Layout>, excluded: BusDir, a: int, b: int)
    requires
        0 <= a <= b,
    ensures
        charge_before(dirs, formats, excluded, a) <= charge_before(dirs, formats, excluded, b),
    decreases b - a,
{
    if a < b {
        lemma_charge_before_mono(dirs, formats, excluded, a, b - 1);
    }
}

/// The channels of the buses a map lists are no more than the channels of all buses of the
/// directions it may list.
proof fn lemma_mapped_le_charge(
    map: Seq<usize>,
    dirs: Seq<BusDir>,
    formats: Seq<Layout>,
    excluded: BusDir,
    k: int,
)
    requires
        bus_map_wf(map, dirs, excluded),
        0 <= k <= map.len(),
    ensures
        k > 0 ==> mapped_channels(map, formats, k) <= charge_before(
            dirs,
            formats,
            excluded,
            map[k - 1] + 1,
        ),
        mapped_channels(map, formats, k) <= charge_before(dirs, formats, excluded, dirs.len() as int),
    decreases k,
{
    if k > 0 {
        lemma_mapped_le_charge(map, dirs, formats, excluded, k - 1);
        if k > 1 {
            assert(map[k - 2] < map[k - 1]);
            lemma_charge_before_mono(dirs, formats, excluded, map[k - 2] + 1, map[k - 1] as int);
        }
        lemma_charge_before_mono(dirs, formats, excluded, map[k - 1] + 1, dirs.len() as int);
    } else {
        lemma_charge_before_mono(dirs, formats, excluded, 0, dirs.len() as int);
    }
}

/// The channels of all buses that are not inputs, plus those of all buses that are not outputs,
/// are all channels plus the in-out channels.
proof fn lemma_charges_sum(dirs: Seq<BusDir>, formats: Seq<Layout>, n: int)
    ensures
        charge_before(dirs, formats, BusDir::In, n) + charge_before(dirs, formats, BusDir::Out, n)
            == channels_before(formats, n) + in_out_channels_before(dirs, formats, n),
    decreases n,
{
    if n > 0 {
        lemma_charges_sum(dirs, formats, n - 1);
    }
}

proof fn lemma_mapped_split(map: Seq<usize>, dirs: Seq<BusDir>, formats: Seq<Layout>, n: int)
    requires
        bus_map_wf(map, dirs, BusDir::Out),
        0 <= n <= map.len(),
    ensures
        mapped_channels_of(map, dirs, formats, BusDir::In, n) + mapped_channels_of(
            map,
            dirs,
            formats,
            BusDir::InOut,
            n,
        ) == mapped_channels(map, formats, n),
    decreases n,
{
    if n > 0 {
        lemma_mapped_split(map, dirs, formats, n - 1);
    }
}

proof fn lemma_mapped_of_mono(map: Seq<usize>, dirs: Seq<BusDir>, formats: Seq<Layout>, dir: BusDir, a: int, b: int)
    requires
        0 <= a <= b,
    ensures
        mapped_channels_of(map, dirs, formats, dir, a) <= mapped_channels_of(map, dirs, formats, dir, b),
    decreases b - a,
{
    if a < b {
        lemma_mapped_of_mono(map, dirs, formats, dir, a, b - 1);
    }
}

proof fn lemma_mapped_mono(map: Seq<usize>, formats: Seq<Layout>, a: int, b: int)
    requires
        0 <= a <= b,
    ensures
        mapped_channels(map, formats, a) <= mapped_channels(map, formats, b),
    decreases b - a,
{
    if a < b {
        lemma_mapped_mono(map, formats, a, b - 1);
    }
}

proof fn lemma_output_ptr_ok_grows(
    p: ChannelPtr,
    active: bool,
    host: HostBus,
    o: nat,
    c: nat,
    uses: Seq<SlotUse>,
    uses2: Seq<SlotUse>,
)
    requires
        output_ptr_ok(p, active, host, o, c, uses),
        uses.is_prefix_of(uses2),
    ensures
        output_ptr_ok(p, active, host, o, c, uses2),
{
    if !active {
        let s = p->Scratch_0;
        assert(uses2[s as int] == uses[s as int]);
    }
}

proof fn lemma_input_ptr_ok_grows(
    p: ChannelPtr,
    active: bool,
    host: HostBus,
    c: nat,
    aliased: Seq<usize>,
    saves: Seq<(usize, usize)>,
    uses: Seq<SlotUse>,
    saves2: Seq<(usize, usize)>,
    uses2: Seq<SlotUse>,
)
    requires
        input_ptr_ok(p, active, host, c, aliased, saves, uses),
        saves.is_prefix_of(saves2),
        uses.is_prefix_of(uses2),
    ensures
        input_ptr_ok(p, active, host, c, aliased, saves2, uses2),
{
    if active && aliased.contains(host.channels@[c as int]) {
        let h = host.channels@[c as int];
        let s = p->Scratch_0;
        let k = choose|k: int| 0 <= k < saves.len() && saves[k] == (h, s);
        assert(saves2[k] == saves[k]);
        assert(uses2[s as int] == uses[s as int]);
    }
}

/// Where the samples of a planned copy into an in-out bus's output come from: the host's input
/// buffer at an address, or silence.
#[derive(Copy, Clone, PartialEq, Eq, Debug, Structural)]
pub enum MoveFrom {
    Input(usize),
    Silence,
}

/// The copies owed to channels `0..c` of an in-out bus whose input channels are `src` and whose
/// output pointers sit at `start..` in `ptrs`: for an active input, one per channel whose input
/// buffer is not its output buffer; for an inactive one, silence into every channel. In
/// channel order.
pub open spec fn in_out_channel_moves(
    src: Seq<usize>,
    active: bool,
    ptrs: Seq<ChannelPtr>,
    start: int,
    c: int,
) -> Seq<(MoveFrom, ChannelPtr)>
    decreases c,
{
    if c <= 0 {
        Seq::empty()
    } else {
        let rest = in_out_channel_moves(src, active, ptrs, start, c - 1);
        let dst = ptrs[start + c - 1];
        if !active {
            rest.push((MoveFrom::Silence, dst))
        } else if ChannelPtr::Host(src[c - 1]) != dst {
            rest.push((MoveFrom::Input(src[c - 1]), dst))
        } else {
            rest
        }
    }
}

/// The copies owed to the in-out buses among the first `n` input buses of `map`, in bus order
/// and channel order.
pub open spec fn planned_in_out_moves(
    inputs: Seq<HostBus>,
    active: Seq<bool>,
    map: Seq<usize>,
    dirs: Seq<BusDir>,
    formats: Seq<Layout>,
    ptrs: Seq<ChannelPtr>,
    n: int,
) -> Seq<(MoveFrom, ChannelPtr)>
    decreases n,
{
    if n <= 0 {
        Seq::empty()
    } else {
        let rest = planned_in_out_moves(inputs, active, map, dirs, formats, ptrs, n - 1);
        let b = map[n - 1] as int;
        if dirs[b] == BusDir::InOut {
            rest + in_out_channel_moves(
                inputs[n - 1].channels@,
                active[n - 1],
                ptrs,
                channels_before(formats, b) as int,
                layout_channels(formats[b]) as int,
            )
        } else {
            rest
        }
    }
}

/// A planned copy carries out an owed one: same destination, and its source is silence, the
/// input's buffer, or (when an output aliases the input) the scratch slot that the input was
/// saved to.
pub open spec fn move_matches(
    m: (ChannelPtr, ChannelPtr),
    e: (MoveFrom, ChannelPtr),
    aliased: Seq<usize>,
    saves: Seq<(usize, usize)>,
    uses: Seq<SlotUse>,
) -> bool {
    &&& m.1 == e.1
    &&& match e.0 {
        MoveFrom::Silence => m.0 == ChannelPtr::Silence,
        MoveFrom::Input(h) => if aliased.contains(h) {
            m.0 matches ChannelPtr::Scratch(s) && saves.contains((h, s)) && s < uses.len() && uses[s as int]
                == (SlotUse::Save { addr: h })
        } else {
            m.0 == ChannelPtr::Host(h)
        },
    }
}

/// The planned copies are exactly the owed ones, one for one and in order.
pub open spec fn moves_exact(
    moves: Seq<(ChannelPtr, ChannelPtr)>,
    owed: Seq<(MoveFrom, ChannelPtr)>,
    aliased: Seq<usize>,
    saves: Seq<(usize, usize)>,
    uses: Seq<SlotUse>,
) -> bool {
    &&& moves.len() == owed.len()
    &&& forall|k: int| 0 <= k < moves.len() ==> move_matches(#[trigger] moves[k], owed[k], aliased, saves, uses)
}

proof fn lemma_move_matches_grows(
    m: (ChannelPtr, ChannelPtr),
    e: (MoveFrom, ChannelPtr),
    aliased: Seq<usize>,
    saves: Seq<(usize, usize)>,
    uses: Seq<SlotUse>,
    saves2: Seq<(usize, usize)>,
    uses2: Seq<SlotUse>,
)
    requires
        move_matches(m, e, aliased, saves, uses),
        saves.is_prefix_of(saves2),
        uses.is_prefix_of(uses2),
    ensures
        move_matches(m, e, aliased, saves2, uses2),
{
    if let MoveFrom::Input(h) = e.0 {
        if aliased.contains(h) {
            let s = m.0->Scratch_0;
            let k = choose|k: int| 0 <= k < saves.len() && saves[k] == (h, s);
            assert(saves2[k] == saves[k]);
            assert(uses2[s as int] == uses[s as int]);
        }
    }
}

/// What a channel of an in-out bus is owed stays owed as saves, moves and slot uses grow.
proof fn lemma_in_out_ok_grows(
    dst: ChannelPtr,
    active: bool,
    host: HostBus,
    c: nat,
    aliased: Seq<usize>,
    saves: Seq<(usize, usize)>,
    moves: Seq<(ChannelPtr, ChannelPtr)>,
    uses: Seq<SlotUse>,
    saves2: Seq<(usize, usize)>,
    moves2: Seq<(ChannelPtr, ChannelPtr)>,
    uses2: Seq<SlotUse>,
)
    requires
        in_out_ok(dst, active, host, c, aliased, saves, moves, uses),
        saves.is_prefix_of(saves2),
        moves.is_prefix_of(moves2),
        uses.is_prefix_of(uses2),
    ensures
        in_out_ok(dst, active, host, c, aliased, saves2, moves2, uses2),
{
    if active {
        let h = host.channels@[c as int];
        if ChannelPtr::Host(h) == dst {
        } else if !aliased.contains(h) && moves.contains((ChannelPtr::Host(h), dst)) {
            let k = choose|k: int| 0 <= k < moves.len() && moves[k] == (ChannelPtr::Host(h), dst);
            assert(moves2[k] == moves[k]);
        } else {
            let s = choose|s: usize|
                moves.contains((ChannelPtr::Scratch(s), dst)) && saves.contains((h, s)) && s < uses.len()
                    && uses[s as int] == (SlotUse::Save { addr: h });
            let k = choose|k: int| 0 <= k < moves.len() && moves[k] == (ChannelPtr::Scratch(s), dst);
            assert(moves2[k] == moves[k]);
            let k2 = choose|k2: int| 0 <= k2 < saves.len() && saves[k2] == (h, s);
            assert(saves2[k2] == saves[k2]);
            assert(uses2[s as int] == uses[s as int]);
            assert(moves2.contains((ChannelPtr::Scratch(s), dst)) && saves2.contains((h, s)) && s < uses2.len()
                && uses2[s as int] == (SlotUse::Save { addr: h }));
        }
    } else {
        let k = choose|k: int| 0 <= k < moves.len() && moves[k] == (ChannelPtr::Silence, dst);
        assert(moves2[k] == moves[k]);
    }
}

/// Whether `v` holds `a`.
fn contains_addr(v: &Vec<usize>, a: usize) -> (r: bool)
    ensures
        r == v@.contains(a),
{
    let mut i: usize = 0;
    while i < v.len()
        invariant
            i <= v@.len(),
            forall|k: int| 0 <= k < i ==> v@[k] != a,
        decreases v@.len() - i,
    {
        if v[i] == a {
            return true;
        }
        i = i + 1;
    }
    false
}

/// The input buses (those of direction `In` or `InOut`) and the output buses (`Out` or `InOut`)
/// of a plugin, as lists of bus indices in increasing order; an in-out bus is in both.
pub fn bus_maps(buses: &[BusInfo]) -> (r: (Vec<usize>, Vec<usize>))
    ensures
        bus_map_wf(r.0@, dirs_of(buses@), BusDir::Out),
        bus_map_wf(r.1@, dirs_of(buses@), BusDir::In),
        forall|b: int|
            0 <= b < buses@.len() && buses@[b].dir != BusDir::Out ==> #[trigger] r.0@.contains(b as usize),
        forall|b: int|
            0 <= b < buses@.len() && buses@[b].dir != BusDir::In ==> #[trigger] r.1@.contains(b as usize),
{
    let ghost dirs = dirs_of(buses@);
    let mut inputs: Vec<usize> = Vec::new();
    let mut outputs: Vec<usize> = Vec::new();
    let mut index: usize = 0;
    while index < buses.len()
        invariant
            index <= buses@.len(),
            dirs == dirs_of(buses@),
            forall|i: int| 0 <= i < inputs@.len() ==> #[trigger] inputs@[i] < index && dirs[inputs@[i] as int] != BusDir::Out,
            forall|i: int, j: int| 0 <= i < j < inputs@.len() ==> #[trigger] inputs@[i] < #[trigger] inputs@[j],
            forall|i: int| 0 <= i < outputs@.len() ==> #[trigger] outputs@[i] < index && dirs[outputs@[i] as int] != BusDir::In,
            forall|i: int, j: int| 0 <= i < j < outputs@.len() ==> #[trigger] outputs@[i] < #[trigger] outputs@[j],
            forall|b: int| 0 <= b < index && buses@[b].dir != BusDir::Out ==> #[trigger] inputs@.contains(b as usize),
            forall|b: int| 0 <= b < index && buses@[b].dir != BusDir::In ==> #[trigger] outputs@.contains(b as usize),
        decreases buses@.len() - index,
    {
        let ghost inputs_before = inputs@;
        let ghost outputs_before = outputs@;
        match buses[index].dir {
            BusDir::In => inputs.push(index),
            BusDir::Out => outputs.push(index),
            BusDir::InOut => {
                inputs.push(index);
                outputs.push(index);
            },
        }
        proof {
            assert forall|b: int| 0 <= b < index + 1 && buses@[b].dir != BusDir::Out implies #[trigger] inputs@.contains(b as usize) by {
                if b < index {
                    assert(inputs_before.contains(b as usize));
                    let k = choose|k: int| 0 <= k < inputs_before.len() && inputs_before[k] == b as usize;
                    assert(inputs@[k] == b as usize);
                } else {
                    assert(inputs@[inputs@.len() - 1] == b as usize);
                }
            }
            assert forall|b: int| 0 <= b < index + 1 && buses@[b].dir != BusDir::In implies #[trigger] outputs@.contains(b as usize) by {
                if b < index {
                    assert(outputs_before.contains(b as usize));
                    let k = choose|k: int| 0 <= k < outputs_before.len() && outputs_before[k] == b as usize;
                    assert(outputs@[k] == b as usize);
                } else {
                    assert(outputs@[outputs@.len() - 1] == b as usize);
                }
            }
        }
        index = index + 1;
    }
    (inputs, outputs)
}

/// The buffer of each bus when the buses are laid out one after another: bus `b` gets channel
/// pointers `start..end`, read only for an input bus; the pairs go up to the shorter list.
/// Returns the buffers and the total number of channels.
pub fn buffer_layout(buses: &[BusInfo], formats: &[Layout]) -> (r: (Vec<BufferData>, usize))
    requires
        buses@.len() <= usize::MAX / 4,
    ensures
        ({
            let n = if buses@.len() <= formats@.len() {
                buses@.len() as int
            } else {
                formats@.len() as int
            };
            let fs = formats@.subrange(0, n);
            let dirs = dirs_of(buses@);
            &&& r.0@.len() == n
            &&& r.1 == channels_before(fs, n)
            &&& forall|b: int|
                0 <= b < n ==> {
                    &&& (#[trigger] r.0@[b]).start == channels_before(fs, b)
                    &&& r.0@[b].end == channels_before(fs, b + 1)
                    &&& r.0@[b].buffer_type == buffer_type_of(dirs[b])
                }
        }),
{
    let n = if buses.len() <= formats.len() {
        buses.len()
    } else {
        formats.len()
    };
    let ghost fs = formats@.subrange(0, n as int);
    let ghost dirs = dirs_of(buses@);
    let mut data: Vec<BufferData> = Vec::new();
    let mut total_channels: usize = 0;
    let mut b: usize = 0;
    while b < n
        invariant
            n <= buses@.len(),
            n <= formats@.len(),
            n <= usize::MAX / 4,
            fs == formats@.subrange(0, n as int),
            dirs == dirs_of(buses@),
            b <= n,
            data@.len() == b,
            total_channels == channels_before(fs, b as int),
            total_channels <= 2 * b,
            forall|k: int|
                0 <= k < b ==> {
                    &&& (#[trigger] data@[k]).start == channels_before(fs, k)
                    &&& data@[k].end == channels_before(fs, k + 1)
                    &&& data@[k].buffer_type == buffer_type_of(dirs[k])
                },
        decreases n - b,
    {
        let buffer_type = match buses[b].dir {
            BusDir::In => BufferType::Const,
            BusDir::Out | BusDir::InOut => BufferType::Mut,
        };
        let channel_count = formats[b].channel_count();
        data.push(BufferData { buffer_type, start: total_channels, end: total_channels + channel_count });
        total_channels = total_channels + channel_count;
        proof {
            assert(fs[b as int] == formats@[b as int]);
        }
        b = b + 1;
    }
    (data, total_channels)
}

/// A bus as a CLAP host passes it to `process`: its channel count and its channels' addresses.
pub struct ClapHostBus {
    pub channel_count: u32,
    pub channels: Vec<usize>,
}

/// The host's buses match the layout: one per mapped bus, each with the layout's channel count.
pub open spec fn clap_buses_match(map: Seq<usize>, formats: Seq<Layout>, host: Seq<ClapHostBus>) -> bool {
    &&& host.len() == map.len()
    &&& forall|i: int|
        0 <= i < map.len() ==> (#[trigger] host[i]).channel_count as nat == layout_channels(
            formats[map[i] as int],
        )
}

/// The copies for channels `0..c` of an in-out bus whose input channels are `src` and whose
/// output channels sit at `start..` in `ptrs`: one (input, output) pair per channel whose two
/// buffers differ, in channel order.
pub open spec fn channel_moves(src: Seq<usize>, ptrs: Seq<usize>, start: int, c: int) -> Seq<
    (usize, usize),
>
    decreases c,
{
    if c <= 0 {
        Seq::empty()
    } else {
        let rest = channel_moves(src, ptrs, start, c - 1);
        if src[c - 1] != ptrs[start + c - 1] {
            rest.push((src[c - 1], ptrs[start + c - 1]))
        } else {
            rest
        }
    }
}

/// The copies for the in-out buses among the first `n` input buses of `map`, in bus order and
/// channel order.
pub open spec fn clap_moves(
    inputs: Seq<ClapHostBus>,
    map: Seq<usize>,
    dirs: Seq<BusDir>,
    formats: Seq<Layout>,
    ptrs: Seq<usize>,
    n: int,
) -> Seq<(usize, usize)>
    decreases n,
{
    if n <= 0 {
        Seq::empty()
    } else {
        let rest = clap_moves(inputs, map, dirs, formats, ptrs, n - 1);
        let b = map[n - 1] as int;
        if dirs[b] == BusDir::InOut {
            rest + channel_moves(
                inputs[n - 1].channels@,
                ptrs,
                channels_before(formats, b) as int,
                layout_channels(formats[b]) as int,
            )
        } else {
            rest
        }
    }
}

proof fn lemma_channel_moves_agree(src: Seq<usize>, p1: Seq<usize>, p2: Seq<usize>, start: int, c: int)
    requires
        forall|k: int| start <= k < start + c ==> #[trigger] p1[k] == p2[k],
    ensures
        channel_moves(src, p1, start, c) == channel_moves(src, p2, start, c),
    decreases c,
{
    if c > 0 {
        lemma_channel_moves_agree(src, p1, p2, start, c - 1);
        assert(p1[start + (c - 1)] == p2[start + (c - 1)]);
    }
}

proof fn lemma_clap_moves_agree(
    inputs: Seq<ClapHostBus>,
    map: Seq<usize>,
    dirs: Seq<BusDir>,
    formats: Seq<Layout>,
    p1: Seq<usize>,
    p2: Seq<usize>,
    n: int,
)
    requires
        0 <= n <= map.len(),
        forall|i: int| 0 <= i < map.len() ==> #[trigger] map[i] < dirs.len(),
        forall|b: int, c: int|
            0 <= b < dirs.len() && dirs[b] == BusDir::InOut && 0 <= c < layout_channels(formats[b])
                ==> #[trigger] p1[chan(formats, b, c)] == p2[chan(formats, b, c)],
    ensures
        clap_moves(inputs, map, dirs, formats, p1, n) == clap_moves(inputs, map, dirs, formats, p2, n),
    decreases n,
{
    if n > 0 {
        lemma_clap_moves_agree(inputs, map, dirs, formats, p1, p2, n - 1);
        let b = map[n - 1] as int;
        if dirs[b] == BusDir::InOut {
            let start = channels_before(formats, b) as int;
            let count = layout_channels(formats[b]) as int;
            assert forall|k: int| start <= k < start + count implies #[trigger] p1[k] == p2[k] by {
                assert(p1[chan(formats, b, k - start)] == p2[chan(formats, b, k - start)]);
            }
            lemma_channel_moves_agree(inputs[n - 1].channels@, p1, p2, start, count);
        }
    }
}

/// Sets the channel pointers up for one call of a CLAP `process`, given the host's buses:
/// output channels and input channels point at the host's buffers, and for each in-out bus
/// whose input the host passed apart from its output, a copy (source, destination) of the
/// input into the output is listed (exactly those, in bus and channel order: `clap_moves`).
/// Checks the buses against the layout as it goes; the flag tells whether they all matched (the pointers and copies of the buses checked before a
/// mismatch stay as set).
pub fn clap_buffer_ptrs(
    data: &[BufferData],
    input_bus_map: &[usize],
    output_bus_map: &[usize],
    buses: &[BusInfo],
    layouts: &[Layout],
    inputs: &[ClapHostBus],
    outputs: &[ClapHostBus],
    ptrs: &mut Vec<usize>,
) -> (r: (Vec<(usize, usize)>, bool))
    requires
        data@.len() == dirs_of(buses@).len(),
        layouts@.len() == dirs_of(buses@).len(),
        forall|b: int|
            0 <= b < data@.len() ==> {
                &&& (#[trigger] data@[b]).start == channels_before(layouts@, b)
                &&& data@[b].end == channels_before(layouts@, b + 1)
                &&& data@[b].buffer_type == buffer_type_of(dirs_of(buses@)[b])
            },
        old(ptrs)@.len() == channels_before(layouts@, dirs_of(buses@).len() as int),
        bus_map_wf(input_bus_map@, dirs_of(buses@), BusDir::Out),
        bus_map_wf(output_bus_map@, dirs_of(buses@), BusDir::In),
        forall|i: int|
            0 <= i < inputs@.len() ==> (#[trigger] inputs@[i]).channels@.len()
                == inputs@[i].channel_count,
        forall|o: int|
            0 <= o < outputs@.len() ==> (#[trigger] outputs@[o]).channels@.len()
                == outputs@[o].channel_count,
    ensures
        final(ptrs)@.len() == old(ptrs)@.len(),
        r.1 == (clap_buses_match(input_bus_map@, layouts@, inputs@) && clap_buses_match(
            output_bus_map@,
            layouts@,
            outputs@,
        )),
        r.1 ==> forall|o: int, c: int|
            0 <= o < output_bus_map@.len() && 0 <= c < layout_channels(layouts@[output_bus_map@[o] as int])
                ==> #[trigger] final(ptrs)@[chan(layouts@, output_bus_map@[o] as int, c)]
                == outputs@[o].channels@[c],
        r.1 ==> forall|i: int, c: int|
            0 <= i < input_bus_map@.len() && dirs_of(buses@)[input_bus_map@[i] as int] == BusDir::In && 0 <= c
                < layout_channels(layouts@[input_bus_map@[i] as int]) ==> #[trigger] final(ptrs)@[chan(
                layouts@,
                input_bus_map@[i] as int,
                c,
            )] == inputs@[i].channels@[c],
        r.1 ==> forall|i: int, c: int|
            0 <= i < input_bus_map@.len() && dirs_of(buses@)[input_bus_map@[i] as int] == BusDir::InOut && 0
                <= c < layout_channels(layouts@[input_bus_map@[i] as int]) ==> ({
                let src = inputs@[i].channels@[c];
                let dst = #[trigger] final(ptrs)@[chan(layouts@, input_bus_map@[i] as int, c)];
                src == dst || r.0@.contains((src, dst))
            }),
        forall|k: int|
            0 <= k < r.0@.len() ==> (#[trigger] r.0@[k]).0 != r.0@[k].1,
        r.1 ==> r.0@ == clap_moves(
            inputs@,
            input_bus_map@,
            dirs_of(buses@),
            layouts@,
            final(ptrs)@,
            input_bus_map@.len() as int,
        ),
{
    let ghost dirs = dirs_of(buses@);
    let ghost formats = layouts@;
    let mut moves: Vec<(usize, usize)> = Vec::new();
    if inputs.len() != input_bus_map.len() || outputs.len() != output_bus_map.len() {
        return (moves, false);
    }
    let ghost n = dirs.len() as int;
    let ghost ptrs0 = ptrs@;
    assert(ptrs0 == old(ptrs)@);
    let plen = ptrs.len();
    let mut o: usize = 0;
    while o < output_bus_map.len()
        invariant
            formats == layouts@,
            dirs == dirs_of(buses@),
            data@.len() == dirs.len(),
            formats.len() == dirs.len(),
            n == dirs.len(),
            forall|b: int|
                0 <= b < data@.len() ==> {
                    &&& (#[trigger] data@[b]).start == channels_before(formats, b)
                    &&& data@[b].end == channels_before(formats, b + 1)
                    &&& data@[b].buffer_type == buffer_type_of(dirs[b])
                },
            ptrs@.len() == ptrs0.len(),
            ptrs0.len() == channels_before(formats, n),
            ptrs0 == old(ptrs)@,
            plen == ptrs0.len(),
            bus_map_wf(output_bus_map@, dirs, BusDir::In),
            outputs@.len() == output_bus_map@.len(),
            forall|o2: int|
                0 <= o2 < outputs@.len() ==> (#[trigger] outputs@[o2]).channels@.len()
                    == outputs@[o2].channel_count,
            o <= output_bus_map@.len(),
            moves@.len() == 0,
            forall|o2: int|
                0 <= o2 < o ==> (#[trigger] outputs@[o2]).channel_count as nat == layout_channels(
                    formats[output_bus_map@[o2] as int],
                ),
            forall|j: int|
                0 <= j < ptrs0.len() ==> (ptrs@[j] == ptrs0[j] || exists|o2: int, c2: int|
                    0 <= o2 < o && 0 <= c2 < layout_channels(formats[output_bus_map@[o2] as int])
                        && j == chan(formats, output_bus_map@[o2] as int, c2)),
            forall|o2: int, c: int|
                0 <= o2 < o && 0 <= c < layout_channels(formats[output_bus_map@[o2] as int])
                    ==> #[trigger] ptrs@[chan(formats, output_bus_map@[o2] as int, c)]
                    == outputs@[o2].channels@[c],
        decreases output_bus_map@.len() - o,
    {
        let b = output_bus_map[o];
        let start = data[b].start;
        let end = data[b].end;
        let count = end - start;
        proof {
            assert(data@[b as int].start == channels_before(formats, b as int));
            assert(count == layout_channels(formats[b as int]));
        }
        if outputs[o].channel_count as usize != count {
            return (moves, false);
        }
        let ghost before = ptrs@;
        let mut c: usize = 0;
        while c < count
            invariant
                b < n,
                n == dirs.len(),
                o < outputs@.len(),
                b == output_bus_map@[o as int],
                start == channels_before(formats, b as int),
                count == layout_channels(formats[b as int]),
                outputs@[o as int].channels@.len() == count,
                c <= count,
                plen == before.len(),
                ptrs@.len() == before.len(),
                before.len() == channels_before(formats, n),
                forall|j: int| 0 <= j < before.len() && !(start <= j < start + c) ==> ptrs@[j] == before[j],
                forall|c2: int| 0 <= c2 < c ==> #[trigger] ptrs@[chan(formats, b as int, c2)]
                    == outputs@[o as int].channels@[c2],
            decreases count - c,
        {
            proof {
                lemma_chan_bound(formats, b as int, c as int, n);
            }
            ptrs.set(start + c, outputs[o].channels[c]);
            c = c + 1;
        }
        proof {
            assert forall|o2: int, c2: int|
                0 <= o2 < o + 1 && 0 <= c2 < layout_channels(formats[output_bus_map@[o2] as int])
                    implies #[trigger] ptrs@[chan(formats, output_bus_map@[o2] as int, c2)]
                    == outputs@[o2].channels@[c2] by {
                if o2 < o {
                    let b2 = output_bus_map@[o2] as int;
                    assert(b2 < b);
                    lemma_chan_disjoint(formats, b2, c2, b as int, 0);
                    lemma_channels_before_mono(formats, b2 + 1, b as int);
                    lemma_chan_bound(formats, b2, c2, n);
                    assert(ptrs@[chan(formats, b2, c2)] == before[chan(formats, b2, c2)]);
                } else {
                    assert(output_bus_map@[o2] == b);
                }
            }
            assert forall|j: int| 0 <= j < ptrs0.len() implies (ptrs@[j] == ptrs0[j] || exists|o2: int, c2: int|
                    0 <= o2 < o + 1 && 0 <= c2 < layout_channels(formats[output_bus_map@[o2] as int])
                        && j == chan(formats, output_bus_map@[o2] as int, c2)) by {
                if start <= j < start + count {
                    assert(j == chan(formats, b as int, j - start));
                }
            }
        }
        o = o + 1;
    }
    let ghost ptrs1 = ptrs@;
    let mut i: usize = 0;
    while i < input_bus_map.len()
        invariant
            formats == layouts@,
            dirs == dirs_of(buses@),
            data@.len() == dirs.len(),
            formats.len() == dirs.len(),
            n == dirs.len(),
            forall|b: int|
                0 <= b < data@.len() ==> {
                    &&& (#[trigger] data@[b]).start == channels_before(formats, b)
                    &&& data@[b].end == channels_before(formats, b + 1)
                    &&& data@[b].buffer_type == buffer_type_of(dirs[b])
                },
            ptrs@.len() == ptrs1.len(),
            ptrs1.len() == channels_before(formats, n),
            ptrs1.len() == old(ptrs)@.len(),
            plen == ptrs1.len(),
            bus_map_wf(input_bus_map@, dirs, BusDir::Out),
            bus_map_wf(output_bus_map@, dirs, BusDir::In),
            inputs@.len() == input_bus_map@.len(),
            outputs@.len() == output_bus_map@.len(),
            clap_buses_match(output_bus_map@, formats, outputs@),
            forall|i2: int|
                0 <= i2 < inputs@.len() ==> (#[trigger] inputs@[i2]).channels@.len()
                    == inputs@[i2].channel_count,
            i <= input_bus_map@.len(),
            forall|i2: int|
                0 <= i2 < i ==> (#[trigger] inputs@[i2]).channel_count as nat == layout_channels(
                    formats[input_bus_map@[i2] as int],
                ),
            forall|k: int| 0 <= k < moves@.len() ==> (#[trigger] moves@[k]).0 != moves@[k].1,
            moves@ == clap_moves(inputs@, input_bus_map@, dirs, formats, ptrs1, i as int),
            forall|b: int, c: int|
                0 <= b < n && dirs[b] != BusDir::In && 0 <= c < layout_channels(formats[b])
                    ==> #[trigger] ptrs@[chan(formats, b, c)] == ptrs1[chan(formats, b, c)],
            forall|j: int|
                0 <= j < ptrs1.len() ==> (ptrs@[j] == ptrs1[j] || exists|i2: int, c2: int|
                    0 <= i2 < i && dirs[input_bus_map@[i2] as int] == BusDir::In && 0 <= c2 < layout_channels(formats[input_bus_map@[i2] as int])
                        && j == chan(formats, input_bus_map@[i2] as int, c2)),
            forall|i2: int, c: int|
                0 <= i2 < i && dirs[input_bus_map@[i2] as int] == BusDir::In && 0 <= c < layout_channels(
                    formats[input_bus_map@[i2] as int],
                ) ==> #[trigger] ptrs@[chan(formats, input_bus_map@[i2] as int, c)] == inputs@[i2].channels@[c],
            forall|i2: int, c: int|
                0 <= i2 < i && dirs[input_bus_map@[i2] as int] == BusDir::InOut && 0 <= c < layout_channels(
                    formats[input_bus_map@[i2] as int],
                ) ==> ({
                    let src = inputs@[i2].channels@[c];
                    let dst = #[trigger] ptrs@[chan(formats, input_bus_map@[i2] as int, c)];
                    src == dst || moves@.contains((src, dst))
                }),
        decreases input_bus_map@.len() - i,
    {
        let b = input_bus_map[i];
        let start = data[b].start;
        let end = data[b].end;
        let count = end - start;
        let is_input = match data[b].buffer_type {
            BufferType::Const => true,
            BufferType::Mut => false,
        };
        proof {
            assert(data@[b as int].start == channels_before(formats, b as int));
            assert(count == layout_channels(formats[b as int]));
            assert(is_input == (dirs[b as int] == BusDir::In));
        }
        if inputs[i].channel_count as usize != count {
            return (moves, false);
        }
        let ghost before = ptrs@;
        let ghost moves_before = moves@;
        proof {
            if !is_input {
                assert forall|k: int| start <= k < start + count implies #[trigger] before[k] == ptrs1[k] by {
                    assert(chan(formats, b as int, k - start) == k);
                    assert(before[chan(formats, b as int, k - start)] == ptrs1[chan(
                        formats,
                        b as int,
                        k - start,
                    )]);
                }
            }
        }
        let mut c: usize = 0;
        while c < count
            invariant
                b < n,
                n == dirs.len(),
                i < inputs@.len(),
                inputs@.len() == input_bus_map@.len(),
                b == input_bus_map@[i as int],
                is_input == (dirs[b as int] == BusDir::In),
                dirs[b as int] != BusDir::Out,
                start == channels_before(formats, b as int),
                count == layout_channels(formats[b as int]),
                inputs@[i as int].channels@.len() == count,
                c <= count,
                plen == before.len(),
                ptrs@.len() == before.len(),
                before.len() == channels_before(formats, n),
                !is_input ==> ptrs@ == before,
                forall|j: int| 0 <= j < before.len() && !(start <= j < start + c) ==> ptrs@[j] == before[j],
                is_input ==> forall|c2: int| 0 <= c2 < c ==> #[trigger] ptrs@[chan(formats, b as int, c2)]
                    == inputs@[i as int].channels@[c2],
                is_input ==> moves@ == moves_before,
                !is_input ==> moves@ == moves_before + channel_moves(
                    inputs@[i as int].channels@,
                    ptrs1,
                    start as int,
                    c as int,
                ),
                !is_input ==> forall|k: int| start <= k < start + count ==> #[trigger] before[k] == ptrs1[k],
                moves_before.is_prefix_of(moves@),
                forall|k: int| 0 <= k < moves@.len() ==> (#[trigger] moves@[k]).0 != moves@[k].1,
                !is_input ==> forall|c2: int| 0 <= c2 < c ==> ({
                    let src = inputs@[i as int].channels@[c2];
                    let dst = #[trigger] ptrs@[chan(formats, b as int, c2)];
                    src == dst || moves@.contains((src, dst))
                }),
            decreases count - c,
        {
            proof {
                lemma_chan_bound(formats, b as int, c as int, n);
            }
            let src = inputs[i].channels[c];
            if is_input {
                ptrs.set(start + c, src);
            } else {
                let dst = ptrs[start + c];
                if src != dst {
                    let ghost m0 = moves@;
                    moves.push((src, dst));
                    proof {
                        assert(moves@[moves@.len() - 1] == (src, dst));
                        assert forall|c2: int| 0 <= c2 < c implies ({
                            let s2 = inputs@[i as int].channels@[c2];
                            let d2 = #[trigger] ptrs@[chan(formats, b as int, c2)];
                            s2 == d2 || moves@.contains((s2, d2))
                        }) by {
                            let s2 = inputs@[i as int].channels@[c2];
                            let d2 = ptrs@[chan(formats, b as int, c2)];
                            if s2 != d2 {
                                assert(m0.contains((s2, d2)));
                                let k = choose|k: int| 0 <= k < m0.len() && m0[k] == (s2, d2);
                                assert(moves@[k] == (s2, d2));
                            }
                        }
                    }
                }
                proof {
                    let srcs = inputs@[i as int].channels@;
                    assert(dst == ptrs1[start + c]);
                    let cm0 = channel_moves(srcs, ptrs1, start as int, c as int);
                    let cm1 = channel_moves(srcs, ptrs1, start as int, c + 1);
                    if src != dst {
                        assert(cm1 == cm0.push((src, dst)));
                        assert(moves_before + cm1 =~= (moves_before + cm0).push((src, dst)));
                    } else {
                        assert(cm1 == cm0);
                    }
                }
            }
            c = c + 1;
        }
        proof {
            if is_input {
                assert(clap_moves(inputs@, input_bus_map@, dirs, formats, ptrs1, i + 1) == moves_before);
            } else {
                assert(dirs[b as int] == BusDir::InOut);
                assert(clap_moves(inputs@, input_bus_map@, dirs, formats, ptrs1, i + 1) == moves_before
                    + channel_moves(inputs@[i as int].channels@, ptrs1, start as int, count as int));
            }
        }
        proof {
            assert forall|i2: int, c2: int|
                0 <= i2 < i + 1 && dirs[input_bus_map@[i2] as int] == BusDir::In && 0 <= c2 < layout_channels(
                    formats[input_bus_map@[i2] as int],
                ) implies #[trigger] ptrs@[chan(formats, input_bus_map@[i2] as int, c2)] == inputs@[i2].channels@[c2] by {
                if i2 < i {
                    let b2 = input_bus_map@[i2] as int;
                    assert(b2 < b);
                    lemma_chan_disjoint(formats, b2, c2, b as int, 0);
                    lemma_channels_before_mono(formats, b2 + 1, b as int);
                    lemma_chan_bound(formats, b2, c2, n);
                    assert(ptrs@[chan(formats, b2, c2)] == before[chan(formats, b2, c2)]);
                } else {
                    assert(input_bus_map@[i2] == b);
                }
            }
            assert forall|i2: int, c2: int|
                0 <= i2 < i + 1 && dirs[input_bus_map@[i2] as int] == BusDir::InOut && 0 <= c2 < layout_channels(
                    formats[input_bus_map@[i2] as int],
                ) implies ({
                    let s2 = inputs@[i2].channels@[c2];
                    let d2 = #[trigger] ptrs@[chan(formats, input_bus_map@[i2] as int, c2)];
                    s2 == d2 || moves@.contains((s2, d2))
                }) by {
                if i2 < i {
                    let b2 = input_bus_map@[i2] as int;
                    lemma_chan_bound(formats, b2, c2, n);
                    if is_input {
                        lemma_chan_disjoint(formats, b2, c2, b as int, 0);
                        lemma_channels_before_mono(formats, b2 + 1, b as int);
                    }
                    let s2 = inputs@[i2].channels@[c2];
                    let d2 = ptrs@[chan(formats, b2, c2)];
                    assert(d2 == before[chan(formats, b2, c2)]);
                    if s2 != d2 {
                        assert(moves_before.contains((s2, d2)));
                        let k = choose|k: int| 0 <= k < moves_before.len() && moves_before[k] == (s2, d2);
                        assert(moves@[k] == (s2, d2));
                    }
                }
            }
            assert forall|b2: int, c2: int|
                0 <= b2 < n && dirs[b2] != BusDir::In && 0 <= c2 < layout_channels(formats[b2])
                    implies #[trigger] ptrs@[chan(formats, b2, c2)] == ptrs1[chan(formats, b2, c2)] by {
                lemma_chan_bound(formats, b2, c2, n);
                if is_input {
                    assert(b2 != b);
                    lemma_chan_disjoint(formats, b2, c2, b as int, 0);
                    if b2 < b {
                        lemma_channels_before_mono(formats, b2 + 1, b as int);
                    } else {
                        lemma_channels_before_mono(formats, b as int + 1, b2);
                    }
                }
                assert(ptrs@[chan(formats, b2, c2)] == before[chan(formats, b2, c2)]);
            }
            assert forall|j: int| 0 <= j < ptrs1.len() implies (ptrs@[j] == ptrs1[j] || exists|i2: int, c2: int|
                    0 <= i2 < i + 1 && dirs[input_bus_map@[i2] as int] == BusDir::In && 0 <= c2 < layout_channels(formats[input_bus_map@[i2] as int])
                        && j == chan(formats, input_bus_map@[i2] as int, c2)) by {
                if is_input && start <= j < start + count {
                    assert(j == chan(formats, b as int, j - start));
                }
            }
        }
        i = i + 1;
    }
    proof {
        lemma_clap_moves_agree(
            inputs@,
            input_bus_map@,
            dirs,
            formats,
            ptrs1,
            ptrs@,
            input_bus_map@.len() as int,
        );
        assert forall|o2: int, c: int|
            0 <= o2 < output_bus_map@.len() && 0 <= c < layout_channels(formats[output_bus_map@[o2] as int])
                implies #[trigger] ptrs@[chan(formats, output_bus_map@[o2] as int, c)]
                == outputs@[o2].channels@[c] by {
            let b2 = output_bus_map@[o2] as int;
            assert(ptrs@[chan(formats, b2, c)] == ptrs1[chan(formats, b2, c)]);
        }
    }
    (moves, true)
}

/// Scratch space and channel pointers for handing a host's buffers to an audio processor.
pub struct ScratchBuffers {
    inputs_active: Vec<bool>,
    outputs_active: Vec<bool>,
    data: Vec<BufferData>,
    ptrs: Vec<ChannelPtr>,
    scratch_len: usize,
    silence_len: usize,
    max_buffer_size: usize,
    capacity: usize,
    output_ptrs: Vec<usize>,
    saves: Vec<(usize, usize)>,
    moves: Vec<(ChannelPtr, ChannelPtr)>,
    slots_used: usize,
    uses: Ghost<Seq<SlotUse>>,
}

impl ScratchBuffers {
    /// All buses start out active, with no layout set.
    pub fn new(input_count: usize, output_count: usize) -> (r: ScratchBuffers)
        ensures
            r.inputs_active() == Seq::new(input_count as nat, |i: int| true),
            r.outputs_active() == Seq::new(output_count as nat, |i: int| true),
            r.data()@.len() == 0,
    {
        let mut inputs_active: Vec<bool> = Vec::new();
        let mut i: usize = 0;
        while i < input_count
            invariant
                i <= input_count,
                inputs_active@ == Seq::new(i as nat, |k: int| true),
            decreases input_count - i,
        {
            inputs_active.push(true);
            i = i + 1;
            assert(inputs_active@ =~= Seq::new(i as nat, |k: int| true));
        }
        let mut outputs_active: Vec<bool> = Vec::new();
        let mut j: usize = 0;
        while j < output_count
            invariant
                j <= output_count,
                outputs_active@ == Seq::new(j as nat, |k: int| true),
            decreases output_count - j,
        {
            outputs_active.push(true);
            j = j + 1;
            assert(outputs_active@ =~= Seq::new(j as nat, |k: int| true));
        }
        ScratchBuffers {
            inputs_active,
            outputs_active,
            data: Vec::new(),
            ptrs: Vec::new(),
            scratch_len: 0,
            silence_len: 0,
            max_buffer_size: 0,
            capacity: 0,
            output_ptrs: Vec::new(),
            saves: Vec::new(),
            moves: Vec::new(),
            slots_used: 0,
            uses: Ghost(Seq::empty()),
        }
    }

    pub closed spec fn inputs_active(&self) -> Seq<bool> {
        self.inputs_active@
    }

    pub closed spec fn outputs_active(&self) -> Seq<bool> {
        self.outputs_active@
    }

    /// The number of input buses.
    pub fn input_count(&self) -> (r: usize)
        ensures
            r == self.inputs_active().len(),
    {
        self.inputs_active.len()
    }

    /// The number of output buses.
    pub fn output_count(&self) -> (r: usize)
        ensures
            r == self.outputs_active().len(),
    {
        self.outputs_active.len()
    }

    /// The buffer of each bus, as the last `resize` laid them out.
    pub closed spec fn data(&self) -> Vec<BufferData> {
        self.data
    }

    /// The channel pointers, one per channel of all buses.
    pub closed spec fn ptrs(&self) -> Seq<ChannelPtr> {
        self.ptrs@
    }

    /// The copies of host buffers into scratch slots, as (address, slot), in the order made.
    pub closed spec fn saves(&self) -> Seq<(usize, usize)> {
        self.saves@
    }

    /// The copies into in-out buses' outputs, as (source, destination), to be made after the
    /// saves.
    pub closed spec fn moves(&self) -> Seq<(ChannelPtr, ChannelPtr)> {
        self.moves@
    }

    /// What each scratch slot handed out by the last `get_buffers` is for, by slot.
    pub closed spec fn slot_uses(&self) -> Seq<SlotUse> {
        self.uses@
    }

    /// The number of scratch slots, of up to `max_buffer_size` samples each, that the scratch
    /// space holds.
    pub closed spec fn capacity(&self) -> nat {
        self.capacity as nat
    }

    /// The scratch space, in samples.
    pub closed spec fn scratch_len(&self) -> nat {
        self.scratch_len as nat
    }

    /// The silence buffer, in samples.
    pub closed spec fn silence_len(&self) -> nat {
        self.silence_len as nat
    }

    /// The buffers are laid out for buses of directions `dirs` with layouts `formats`, for
    /// blocks of up to `max_buffer_size` samples.
    pub closed spec fn laid_out(&self, dirs: Seq<BusDir>, formats: Seq<Layout>, max_buffer_size: nat) -> bool {
        let n = self.data@.len() as int;
        &&& dirs.len() == n
        &&& formats.len() == n
        &&& forall|b: int|
            0 <= b < n ==> {
                &&& (#[trigger] self.data@[b]).start == channels_before(formats, b)
                &&& self.data@[b].end == channels_before(formats, b + 1)
                &&& self.data@[b].buffer_type == buffer_type_of(dirs[b])
            }
        &&& self.ptrs@.len() == channels_before(formats, n)
        &&& self.capacity == channels_before(formats, n) + in_out_channels_before(dirs, formats, n)
        &&& self.max_buffer_size == max_buffer_size
        &&& self.scratch_len == max_buffer_size * self.capacity
        &&& self.silence_len == max_buffer_size
    }

    /// The buffer of each bus.
    pub fn buffer_data(&self) -> (r: &[BufferData])
        ensures
            r@ == self.data()@,
    {
        self.data.as_slice()
    }

    /// The channel pointers, one per channel of all buses.
    pub fn channel_ptrs(&self) -> (r: &[ChannelPtr])
        ensures
            r@ == self.ptrs(),
    {
        self.ptrs.as_slice()
    }

    /// The copies of host buffers into scratch slots that the last `get_buffers` planned, as
    /// (address, slot), to be made first and in this order.
    pub fn planned_saves(&self) -> (r: &[(usize, usize)])
        ensures
            r@ == self.saves(),
    {
        self.saves.as_slice()
    }

    /// The copies into in-out buses' outputs that the last `get_buffers` planned, as (source,
    /// destination), to be made after the saves and in this order.
    pub fn planned_moves(&self) -> (r: &[(ChannelPtr, ChannelPtr)])
        ensures
            r@ == self.moves(),
    {
        self.moves.as_slice()
    }

    /// The size of the scratch space, in samples.
    pub fn scratch_size(&self) -> (r: usize)
        ensures
            r == self.scratch_len(),
    {
        self.scratch_len
    }

    /// The size of the silence buffer, in samples.
    pub fn silence_size(&self) -> (r: usize)
        ensures
            r == self.silence_len(),
    {
        self.silence_len
    }

    /// What `laid_out` says, spelled out over the public views: one buffer per bus, each
    /// covering the next run of channel pointers and read only for an input bus, one pointer per
    /// channel, one scratch slot per channel and per in-out channel, scratch space of
    /// `max_buffer_size` samples per slot, and a silence buffer of `max_buffer_size` samples.
    pub proof fn lemma_laid_out(&self, dirs: Seq<BusDir>, formats: Seq<Layout>, max_buffer_size: nat)
        requires
            self.laid_out(dirs, formats, max_buffer_size),
        ensures
            self.data()@.len() == dirs.len(),
            formats.len() == dirs.len(),
            forall|b: int|
                0 <= b < dirs.len() ==> {
                    &&& (#[trigger] self.data()@[b]).start == channels_before(formats, b)
                    &&& self.data()@[b].end == channels_before(formats, b + 1)
                    &&& self.data()@[b].buffer_type == buffer_type_of(dirs[b])
                },
            self.ptrs().len() == channels_before(formats, dirs.len() as int),
            self.capacity() == channels_before(formats, dirs.len() as int) + in_out_channels_before(
                dirs,
                formats,
                dirs.len() as int,
            ),
            self.scratch_len() == max_buffer_size * self.capacity(),
            self.silence_len() == max_buffer_size,
    {
    }

    /// Marks input bus `index` active or inactive.
    pub fn set_input_active(&mut self, index: usize, active: bool)
        requires
            index < old(self).inputs_active().len(),
        ensures
            final(self).inputs_active() == old(self).inputs_active().update(index as int, active),
            final(self).outputs_active() == old(self).outputs_active(),
            final(self).data() == old(self).data(),
            final(self).ptrs() == old(self).ptrs(),
            final(self).capacity() == old(self).capacity(),
            final(self).scratch_len() == old(self).scratch_len(),
            final(self).silence_len() == old(self).silence_len(),
            forall|d: Seq<BusDir>, f: Seq<Layout>, m: nat|
                old(self).laid_out(d, f, m) ==> #[trigger] final(self).laid_out(d, f, m),
    {
        self.inputs_active.set(index, active);
    }

    /// Marks output bus `index` active or inactive.
    pub fn set_output_active(&mut self, index: usize, active: bool)
        requires
            index < old(self).outputs_active().len(),
        ensures
            final(self).outputs_active() == old(self).outputs_active().update(index as int, active),
            final(self).inputs_active() == old(self).inputs_active(),
            final(self).data() == old(self).data(),
            final(self).ptrs() == old(self).ptrs(),
            final(self).capacity() == old(self).capacity(),
            final(self).scratch_len() == old(self).scratch_len(),
            final(self).silence_len() == old(self).silence_len(),
            forall|d: Seq<BusDir>, f: Seq<Layout>, m: nat|
                old(self).laid_out(d, f, m) ==> #[trigger] final(self).laid_out(d, f, m),
    {
        self.outputs_active.set(index, active);
    }

    /// Points each channel of each output bus at the host's buffer, or at a fresh scratch slot
    /// when the bus is inactive, and lists the addresses of the active outputs' channels.
    fn set_output_ptrs(
        &mut self,
        output_bus_map: &[usize],
        outputs: &[HostBus],
        Ghost(dirs): Ghost<Seq<BusDir>>,
        Ghost(formats): Ghost<Seq<Layout>>,
    )
        requires
            old(self).laid_out(dirs, formats, old(self).max_buffer_size as nat),
            bus_map_wf(output_bus_map@, dirs, BusDir::In),
            host_buses_match(output_bus_map@, formats, outputs@),
            forall|o: int|
                0 <= o < outputs@.len() ==> (#[trigger] outputs@[o]).channels@.len()
                    == outputs@[o].num_channels as usize,
            old(self).outputs_active@.len() == output_bus_map@.len(),
            old(self).uses@.len() == 0,
            old(self).slots_used == 0,
        ensures
            final(self).laid_out(dirs, formats, old(self).max_buffer_size as nat),
            final(self).inputs_active == old(self).inputs_active,
            final(self).outputs_active == old(self).outputs_active,
            final(self).saves == old(self).saves,
            final(self).moves == old(self).moves,
            final(self).uses@.len() == final(self).slots_used,
            final(self).slots_used <= mapped_channels(
                output_bus_map@,
                formats,
                output_bus_map@.len() as int,
            ),
            final(self).output_ptrs@ == active_output_addrs(
                outputs@,
                final(self).outputs_active@,
                output_bus_map@.len() as int,
            ),
            forall|s: int| 0 <= s < final(self).uses@.len() ==> (#[trigger] final(self).uses@[s]) is Output,
            forall|o: int, c: int|
                0 <= o < output_bus_map@.len() && 0 <= c < layout_channels(
                    formats[output_bus_map@[o] as int],
                ) ==> output_ptr_ok(
                    #[trigger] final(self).ptrs@[chan(formats, output_bus_map@[o] as int, c)],
                    final(self).outputs_active@[o],
                    outputs@[o],
                    o as nat,
                    c as nat,
                    final(self).uses@,
                ),
    {
        let ghost n = dirs.len() as int;
        let ghost max = self.max_buffer_size as nat;
        self.output_ptrs.clear();
        let mut o: usize = 0;
        while o < output_bus_map.len()
            invariant
                self.laid_out(dirs, formats, max),
                self.inputs_active == old(self).inputs_active,
                self.outputs_active == old(self).outputs_active,
                self.saves == old(self).saves,
                self.moves == old(self).moves,
                bus_map_wf(output_bus_map@, dirs, BusDir::In),
                host_buses_match(output_bus_map@, formats, outputs@),
                forall|o2: int|
                    0 <= o2 < outputs@.len() ==> (#[trigger] outputs@[o2]).channels@.len()
                        == outputs@[o2].num_channels as usize,
                self.outputs_active@.len() == output_bus_map@.len(),
                n == dirs.len(),
                o <= output_bus_map@.len(),
                self.uses@.len() == self.slots_used,
                self.slots_used <= mapped_channels(output_bus_map@, formats, o as int),
                self.output_ptrs@ == active_output_addrs(outputs@, self.outputs_active@, o as int),
                forall|s: int| 0 <= s < self.uses@.len() ==> (#[trigger] self.uses@[s]) is Output,
                forall|o2: int, c: int|
                    0 <= o2 < o && 0 <= c < layout_channels(formats[output_bus_map@[o2] as int])
                        ==> output_ptr_ok(
                        #[trigger] self.ptrs@[chan(formats, output_bus_map@[o2] as int, c)],
                        self.outputs_active@[o2],
                        outputs@[o2],
                        o2 as nat,
                        c as nat,
                        self.uses@,
                    ),
            decreases output_bus_map@.len() - o,
        {
            let b = output_bus_map[o];
            let start = self.data[b].start;
            let end = self.data[b].end;
            let count = end - start;
            proof {
                assert(self.data@[b as int].start == channels_before(formats, b as int));
                assert(count == layout_channels(formats[b as int]));
                lemma_mapped_le_charge(output_bus_map@, dirs, formats, BusDir::In, o + 1);
                lemma_charges_sum(dirs, formats, n);
                lemma_mapped_mono(output_bus_map@, formats, o as int, o + 1);
            }
            let ghost before = self.ptrs@;
            let ghost uses_before = self.uses@;
            let ghost addrs_before = self.output_ptrs@;
            let active = self.outputs_active[o];
            let mut c: usize = 0;
            while c < count
                invariant
                    self.laid_out(dirs, formats, max),
                    self.inputs_active == old(self).inputs_active,
                    self.outputs_active == old(self).outputs_active,
                    self.saves == old(self).saves,
                    self.moves == old(self).moves,
                    bus_map_wf(output_bus_map@, dirs, BusDir::In),
                    host_buses_match(output_bus_map@, formats, outputs@),
                    outputs@[o as int].channels@.len() == count,
                    active == self.outputs_active@[o as int],
                    self.outputs_active@.len() == output_bus_map@.len(),
                    n == dirs.len(),
                    o < output_bus_map@.len(),
                    b == output_bus_map@[o as int],
                    b < n,
                    start == channels_before(formats, b as int),
                    count == layout_channels(formats[b as int]),
                    c <= count,
                    self.uses@.len() == self.slots_used,
                    uses_before.is_prefix_of(self.uses@),
                    self.slots_used <= mapped_channels(output_bus_map@, formats, o as int) + c,
                    mapped_channels(output_bus_map@, formats, o + 1) <= self.capacity,
                    self.output_ptrs@ == addrs_before + if active {
                        outputs@[o as int].channels@.subrange(0, c as int)
                    } else {
                        Seq::empty()
                    },
                    addrs_before == active_output_addrs(outputs@, self.outputs_active@, o as int),
                    forall|s: int| 0 <= s < self.uses@.len() ==> (#[trigger] self.uses@[s]) is Output,
                    forall|j: int|
                        0 <= j < before.len() && !(start <= j < start + c) ==> self.ptrs@[j]
                            == before[j],
                    self.ptrs@.len() == before.len(),
                    forall|c2: int|
                        0 <= c2 < c ==> output_ptr_ok(
                            #[trigger] self.ptrs@[chan(formats, b as int, c2)],
                            active,
                            outputs@[o as int],
                            o as nat,
                            c2 as nat,
                            self.uses@,
                        ),
                    forall|o2: int, c2: int|
                        0 <= o2 < o && 0 <= c2 < layout_channels(formats[output_bus_map@[o2] as int])
                            ==> output_ptr_ok(
                            #[trigger] before[chan(formats, output_bus_map@[o2] as int, c2)],
                            self.outputs_active@[o2],
                            outputs@[o2],
                            o2 as nat,
                            c2 as nat,
                            uses_before,
                        ),
                decreases count - c,
            {
                proof {
                    lemma_chan_bound(formats, b as int, c as int, n);
                }
                if active {
                    let addr = outputs[o].channels[c];
                    self.ptrs.set(start + c, ChannelPtr::Host(addr));
                    self.output_ptrs.push(addr);
                    proof {
                        assert(outputs@[o as int].channels@.subrange(0, c + 1) =~= outputs@[o as int].channels@.subrange(0, c as int).push(addr));
                    }
                } else {
                    let slot = self.slots_used;
                    self.ptrs.set(start + c, ChannelPtr::Scratch(slot));
                    proof {
                        self.uses = Ghost(self.uses@.push(SlotUse::Output { output: o as nat, channel: c as nat }));
                    }
                    self.slots_used = self.slots_used + 1;
                }
                c = c + 1;
            }
            proof {
                assert forall|o2: int, c2: int|
                    0 <= o2 < o + 1 && 0 <= c2 < layout_channels(formats[output_bus_map@[o2] as int])
                        implies output_ptr_ok(
                        #[trigger] self.ptrs@[chan(formats, output_bus_map@[o2] as int, c2)],
                        self.outputs_active@[o2],
                        outputs@[o2],
                        o2 as nat,
                        c2 as nat,
                        self.uses@,
                    ) by {
                    if o2 < o {
                        let b2 = output_bus_map@[o2] as int;
                        assert(b2 < b);
                        lemma_chan_disjoint(formats, b2, c2, b as int, 0);
                        lemma_channels_before_mono(formats, b2 + 1, b as int);
                        lemma_chan_bound(formats, b2, c2, n);
                        assert(self.ptrs@[chan(formats, b2, c2)] == before[chan(formats, b2, c2)]);
                    }
                }
                assert(outputs@[o as int].channels@.subrange(0, count as int) =~= outputs@[o as int].channels@);
            }
            o = o + 1;
        }
    }

    /// Points each channel of each active input bus at the host's buffer, or, when an output
    /// aliases it, at a fresh scratch slot to which it is copied; inactive input buses get
    /// silence. In-out buses are left alone.
    fn set_input_ptrs(
        &mut self,
        input_bus_map: &[usize],
        inputs: &[HostBus],
        Ghost(dirs): Ghost<Seq<BusDir>>,
        Ghost(formats): Ghost<Seq<Layout>>,
    )
        requires
            old(self).laid_out(dirs, formats, old(self).max_buffer_size as nat),
            bus_map_wf(input_bus_map@, dirs, BusDir::Out),
            host_buses_match(input_bus_map@, formats, inputs@),
            forall|i: int|
                0 <= i < inputs@.len() ==> (#[trigger] inputs@[i]).channels@.len()
                    == inputs@[i].num_channels as usize,
            old(self).inputs_active@.len() == input_bus_map@.len(),
            old(self).uses@.len() == old(self).slots_used,
            old(self).slots_used + mapped_channels_of(
                input_bus_map@,
                dirs,
                formats,
                BusDir::In,
                input_bus_map@.len() as int,
            ) <= old(self).capacity,
            forall|k: int|
                0 <= k < old(self).saves@.len() ==> (#[trigger] old(self).saves@[k]).1 < old(self).uses@.len() && old(self).uses@[old(self).saves@[k].1 as int] == (SlotUse::Save {
                    addr: old(self).saves@[k].0,
                }),
        ensures
            final(self).laid_out(dirs, formats, old(self).max_buffer_size as nat),
            final(self).inputs_active == old(self).inputs_active,
            final(self).outputs_active == old(self).outputs_active,
            final(self).output_ptrs == old(self).output_ptrs,
            final(self).moves == old(self).moves,
            final(self).uses@.len() == final(self).slots_used,
            final(self).slots_used <= old(self).slots_used + mapped_channels_of(
                input_bus_map@,
                dirs,
                formats,
                BusDir::In,
                input_bus_map@.len() as int,
            ),
            old(self).uses@.is_prefix_of(final(self).uses@),
            old(self).saves@.is_prefix_of(final(self).saves@),
            forall|k: int|
                0 <= k < final(self).saves@.len() ==> (#[trigger] final(self).saves@[k]).1 < final(self).uses@.len() && final(self).uses@[final(self).saves@[k].1 as int] == (
                SlotUse::Save { addr: final(self).saves@[k].0 }),
            forall|b: int, c: int|
                0 <= b < dirs.len() && dirs[b] != BusDir::In && 0 <= c < layout_channels(formats[b])
                    ==> #[trigger] final(self).ptrs@[chan(formats, b, c)] == old(self).ptrs@[chan(
                    formats,
                    b,
                    c,
                )],
            forall|i: int, c: int|
                0 <= i < input_bus_map@.len() && dirs[input_bus_map@[i] as int] == BusDir::In && 0
                    <= c < layout_channels(formats[input_bus_map@[i] as int]) ==> input_ptr_ok(
                    #[trigger] final(self).ptrs@[chan(formats, input_bus_map@[i] as int, c)],
                    final(self).inputs_active@[i],
                    inputs@[i],
                    c as nat,
                    final(self).output_ptrs@,
                    final(self).saves@,
                    final(self).uses@,
                ),
    {
        let ghost n = dirs.len() as int;
        let ghost max = self.max_buffer_size as nat;
        let ghost ptrs0 = self.ptrs@;
        let ghost uses0 = self.uses@;
        let ghost saves0 = self.saves@;
        let ghost slots0 = self.slots_used as int;
        let mut i: usize = 0;
        while i < input_bus_map.len()
            invariant
                self.laid_out(dirs, formats, max),
                self.inputs_active == old(self).inputs_active,
                self.outputs_active == old(self).outputs_active,
                self.output_ptrs == old(self).output_ptrs,
                self.moves == old(self).moves,
                bus_map_wf(input_bus_map@, dirs, BusDir::Out),
                host_buses_match(input_bus_map@, formats, inputs@),
                forall|i2: int|
                    0 <= i2 < inputs@.len() ==> (#[trigger] inputs@[i2]).channels@.len()
                        == inputs@[i2].num_channels as usize,
                self.inputs_active@.len() == input_bus_map@.len(),
                n == dirs.len(),
                i <= input_bus_map@.len(),
                self.uses@.len() == self.slots_used,
                self.slots_used <= slots0 + mapped_channels_of(input_bus_map@, dirs, formats, BusDir::In, i as int),
                slots0 + mapped_channels_of(input_bus_map@, dirs, formats, BusDir::In, input_bus_map@.len() as int) <= self.capacity,
                uses0.is_prefix_of(self.uses@),
                saves0.is_prefix_of(self.saves@),
                ptrs0.len() == self.ptrs@.len(),
                forall|k: int|
                    0 <= k < self.saves@.len() ==> (#[trigger] self.saves@[k]).1 < self.uses@.len()
                        && self.uses@[self.saves@[k].1 as int] == (SlotUse::Save { addr: self.saves@[k].0 }),
                forall|j: int|
                    0 <= j < ptrs0.len() ==> (self.ptrs@[j] == ptrs0[j] || exists|i2: int, c2: int|
                        0 <= i2 < i && dirs[input_bus_map@[i2] as int] == BusDir::In && 0 <= c2 < layout_channels(formats[input_bus_map@[i2] as int])
                            && j == chan(formats, input_bus_map@[i2] as int, c2)),
                forall|i2: int, c: int|
                    0 <= i2 < i && dirs[input_bus_map@[i2] as int] == BusDir::In && 0 <= c < layout_channels(
                        formats[input_bus_map@[i2] as int],
                    ) ==> input_ptr_ok(
                        #[trigger] self.ptrs@[chan(formats, input_bus_map@[i2] as int, c)],
                        self.inputs_active@[i2],
                        inputs@[i2],
                        c as nat,
                        self.output_ptrs@,
                        self.saves@,
                        self.uses@,
                    ),
            decreases input_bus_map@.len() - i,
        {
            let b = input_bus_map[i];
            let start = self.data[b].start;
            let end = self.data[b].end;
            let count = end - start;
            let is_input = match self.data[b].buffer_type {
                BufferType::Const => true,
                BufferType::Mut => false,
            };
            proof {
                assert(self.data@[b as int].start == channels_before(formats, b as int));
                assert(count == layout_channels(formats[b as int]));
                assert(is_input == (dirs[b as int] == BusDir::In));
                lemma_mapped_of_mono(input_bus_map@, dirs, formats, BusDir::In, i + 1, input_bus_map@.len() as int);
            }
            let ghost before = self.ptrs@;
            let ghost uses_before = self.uses@;
            let ghost saves_before = self.saves@;
            if is_input {
                let active = self.inputs_active[i];
                let mut c: usize = 0;
                while c < count
                    invariant
                        self.laid_out(dirs, formats, max),
                        self.inputs_active == old(self).inputs_active,
                        self.outputs_active == old(self).outputs_active,
                        self.output_ptrs == old(self).output_ptrs,
                        self.moves == old(self).moves,
                        bus_map_wf(input_bus_map@, dirs, BusDir::Out),
                        host_buses_match(input_bus_map@, formats, inputs@),
                        inputs@[i as int].channels@.len() == count,
                        active == self.inputs_active@[i as int],
                        self.inputs_active@.len() == input_bus_map@.len(),
                        n == dirs.len(),
                        i < input_bus_map@.len(),
                        b == input_bus_map@[i as int],
                        b < n,
                        dirs[b as int] == BusDir::In,
                        start == channels_before(formats, b as int),
                        count == layout_channels(formats[b as int]),
                        c <= count,
                        self.uses@.len() == self.slots_used,
                        uses_before.is_prefix_of(self.uses@),
                        saves_before.is_prefix_of(self.saves@),
                        self.slots_used <= slots0 + mapped_channels_of(input_bus_map@, dirs, formats, BusDir::In, i as int) + c,
                        slots0 + mapped_channels_of(input_bus_map@, dirs, formats, BusDir::In, i + 1) <= self.capacity,
                        mapped_channels_of(input_bus_map@, dirs, formats, BusDir::In, i + 1) == mapped_channels_of(input_bus_map@, dirs, formats, BusDir::In, i as int) + count,
                        forall|k: int|
                            0 <= k < self.saves@.len() ==> (#[trigger] self.saves@[k]).1 < self.uses@.len()
                                && self.uses@[self.saves@[k].1 as int] == (SlotUse::Save { addr: self.saves@[k].0 }),
                        self.ptrs@.len() == before.len(),
                        forall|j: int|
                            0 <= j < before.len() && !(start <= j < start + c) ==> self.ptrs@[j] == before[j],
                        forall|c2: int|
                            0 <= c2 < c ==> input_ptr_ok(
                                #[trigger] self.ptrs@[chan(formats, b as int, c2)],
                                active,
                                inputs@[i as int],
                                c2 as nat,
                                self.output_ptrs@,
                                self.saves@,
                                self.uses@,
                            ),
                    decreases count - c,
                {
                    proof {
                        lemma_chan_bound(formats, b as int, c as int, n);
                    }
                    let ghost saves_iter = self.saves@;
                    let ghost ptrs_iter = self.ptrs@;
                    if active {
                        let h = inputs[i].channels[c];
                        if contains_addr(&self.output_ptrs, h) {
                            let slot = self.slots_used;
                            self.saves.push((h, slot));
                            proof {
                                self.uses = Ghost(self.uses@.push(SlotUse::Save { addr: h }));
                                assert(self.saves@[self.saves@.len() - 1] == (h, slot));
                            }
                            self.slots_used = self.slots_used + 1;
                            self.ptrs.set(start + c, ChannelPtr::Scratch(slot));
                        } else {
                            self.ptrs.set(start + c, ChannelPtr::Host(h));
                        }
                    } else {
                        self.ptrs.set(start + c, ChannelPtr::Silence);
                    }
                    proof {
                        assert forall|c2: int| 0 <= c2 < c + 1 implies input_ptr_ok(
                            #[trigger] self.ptrs@[chan(formats, b as int, c2)],
                            active,
                            inputs@[i as int],
                            c2 as nat,
                            self.output_ptrs@,
                            self.saves@,
                            self.uses@,
                        ) by {
                            if c2 < c && active && self.output_ptrs@.contains(inputs@[i as int].channels@[c2]) {
                                let h2 = inputs@[i as int].channels@[c2];
                                assert(self.ptrs@[chan(formats, b as int, c2)] == ptrs_iter[chan(formats, b as int, c2)]);
                                let p = ptrs_iter[chan(formats, b as int, c2)];
                                let s2 = p->Scratch_0;
                                assert(saves_iter.contains((h2, s2)));
                                let k = choose|k: int| 0 <= k < saves_iter.len() && saves_iter[k] == (h2, s2);
                                assert(self.saves@[k] == (h2, s2));
                            }
                        }
                    }
                    c = c + 1;
                }
            }
            proof {
                lemma_mapped_of_mono(input_bus_map@, dirs, formats, BusDir::In, i as int, i + 1);
                assert forall|i2: int, c: int|
                    0 <= i2 < i + 1 && dirs[input_bus_map@[i2] as int] == BusDir::In && 0 <= c < layout_channels(
                        formats[input_bus_map@[i2] as int],
                    ) implies input_ptr_ok(
                        #[trigger] self.ptrs@[chan(formats, input_bus_map@[i2] as int, c)],
                        self.inputs_active@[i2],
                        inputs@[i2],
                        c as nat,
                        self.output_ptrs@,
                        self.saves@,
                        self.uses@,
                    ) by {
                    if i2 < i {
                        let b2 = input_bus_map@[i2] as int;
                        assert(b2 < b);
                        lemma_chan_disjoint(formats, b2, c, b as int, 0);
                        lemma_channels_before_mono(formats, b2 + 1, b as int);
                        lemma_chan_bound(formats, b2, c, n);
                        assert(self.ptrs@[chan(formats, b2, c)] == before[chan(formats, b2, c)]);
                        if self.inputs_active@[i2] && self.output_ptrs@.contains(inputs@[i2].channels@[c]) {
                            let h2 = inputs@[i2].channels@[c];
                            let s2 = before[chan(formats, b2, c)]->Scratch_0;
                            assert(saves_before.contains((h2, s2)));
                            let k = choose|k: int| 0 <= k < saves_before.len() && saves_before[k] == (h2, s2);
                            assert(self.saves@[k] == (h2, s2));
                        }
                    }
                }
                assert forall|j: int| 0 <= j < ptrs0.len() implies (self.ptrs@[j] == ptrs0[j] || exists|i2: int, c2: int|
                        0 <= i2 < i + 1 && dirs[input_bus_map@[i2] as int] == BusDir::In && 0 <= c2 < layout_channels(formats[input_bus_map@[i2] as int])
                            && j == chan(formats, input_bus_map@[i2] as int, c2)) by {
                    if is_input && start <= j < start + count {
                        assert(j == chan(formats, b as int, j - start));
                    }
                }
            }
            i = i + 1;
        }
        proof {
            assert forall|b: int, c: int|
                0 <= b < dirs.len() && dirs[b] != BusDir::In && 0 <= c < layout_channels(formats[b])
                    implies #[trigger] self.ptrs@[chan(formats, b, c)] == ptrs0[chan(formats, b, c)] by {
                lemma_chan_bound(formats, b, c, n);
                let j = chan(formats, b, c);
                if self.ptrs@[j] != ptrs0[j] {
                    let (i2, c2) = choose|i2: int, c2: int|
                        0 <= i2 < input_bus_map@.len() && dirs[input_bus_map@[i2] as int] == BusDir::In && 0 <= c2 < layout_channels(formats[input_bus_map@[i2] as int])
                            && j == chan(formats, input_bus_map@[i2] as int, c2);
                    lemma_chan_disjoint(formats, b, c, input_bus_map@[i2] as int, c2);
                }
            }
        }
    }

    /// Plans, for each channel of each in-out bus, the copy of the host's input into the
    /// output buffer when they differ (through a fresh scratch slot when an output aliases the
    /// input), or of silence for an inactive input bus.
    fn plan_moves(
        &mut self,
        input_bus_map: &[usize],
        inputs: &[HostBus],
        Ghost(dirs): Ghost<Seq<BusDir>>,
        Ghost(formats): Ghost<Seq<Layout>>,
    )
        requires
            old(self).laid_out(dirs, formats, old(self).max_buffer_size as nat),
            bus_map_wf(input_bus_map@, dirs, BusDir::Out),
            host_buses_match(input_bus_map@, formats, inputs@),
            forall|i: int|
                0 <= i < inputs@.len() ==> (#[trigger] inputs@[i]).channels@.len()
                    == inputs@[i].num_channels as usize,
            old(self).inputs_active@.len() == input_bus_map@.len(),
            old(self).uses@.len() == old(self).slots_used,
            old(self).slots_used + mapped_channels_of(
                input_bus_map@,
                dirs,
                formats,
                BusDir::InOut,
                input_bus_map@.len() as int,
            ) <= old(self).capacity,
            forall|k: int|
                0 <= k < old(self).saves@.len() ==> (#[trigger] old(self).saves@[k]).1 < old(self).uses@.len()
                    && old(self).uses@[old(self).saves@[k].1 as int] == (SlotUse::Save {
                    addr: old(self).saves@[k].0,
                }),
        ensures
            final(self).laid_out(dirs, formats, old(self).max_buffer_size as nat),
            final(self).inputs_active == old(self).inputs_active,
            final(self).outputs_active == old(self).outputs_active,
            final(self).output_ptrs == old(self).output_ptrs,
            final(self).ptrs == old(self).ptrs,
            final(self).uses@.len() == final(self).slots_used,
            final(self).slots_used <= old(self).slots_used + mapped_channels_of(
                input_bus_map@,
                dirs,
                formats,
                BusDir::InOut,
                input_bus_map@.len() as int,
            ),
            old(self).uses@.is_prefix_of(final(self).uses@),
            old(self).saves@.is_prefix_of(final(self).saves@),
            copies_safe(final(self).output_ptrs@, final(self).saves@, final(self).moves@, final(self).uses@),
            moves_exact(
                final(self).moves@,
                planned_in_out_moves(
                    inputs@,
                    final(self).inputs_active@,
                    input_bus_map@,
                    dirs,
                    formats,
                    final(self).ptrs@,
                    input_bus_map@.len() as int,
                ),
                final(self).output_ptrs@,
                final(self).saves@,
                final(self).uses@,
            ),
            forall|k: int|
                0 <= k < final(self).moves@.len() ==> in_out_dst(
                    (#[trigger] final(self).moves@[k]).1,
                    final(self).ptrs@,
                    input_bus_map@,
                    dirs,
                    formats,
                    input_bus_map@.len() as int,
                ),
            forall|i: int, c: int|
                0 <= i < input_bus_map@.len() && dirs[input_bus_map@[i] as int] == BusDir::InOut && 0
                    <= c < layout_channels(formats[input_bus_map@[i] as int]) ==> in_out_ok(
                    #[trigger] final(self).ptrs@[chan(formats, input_bus_map@[i] as int, c)],
                    final(self).inputs_active@[i],
                    inputs@[i],
                    c as nat,
                    final(self).output_ptrs@,
                    final(self).saves@,
                    final(self).moves@,
                    final(self).uses@,
                ),
    {
        let ghost n = dirs.len() as int;
        let ghost max = self.max_buffer_size as nat;
        let ghost uses0 = self.uses@;
        let ghost saves0 = self.saves@;
        let ghost slots0 = self.slots_used as int;
        self.moves.clear();
        let mut i: usize = 0;
        while i < input_bus_map.len()
            invariant
                self.laid_out(dirs, formats, max),
                self.inputs_active == old(self).inputs_active,
                self.outputs_active == old(self).outputs_active,
                self.output_ptrs == old(self).output_ptrs,
                self.ptrs == old(self).ptrs,
                bus_map_wf(input_bus_map@, dirs, BusDir::Out),
                host_buses_match(input_bus_map@, formats, inputs@),
                forall|i2: int|
                    0 <= i2 < inputs@.len() ==> (#[trigger] inputs@[i2]).channels@.len()
                        == inputs@[i2].num_channels as usize,
                self.inputs_active@.len() == input_bus_map@.len(),
                n == dirs.len(),
                i <= input_bus_map@.len(),
                self.uses@.len() == self.slots_used,
                self.slots_used <= slots0 + mapped_channels_of(input_bus_map@, dirs, formats, BusDir::InOut, i as int),
                slots0 + mapped_channels_of(input_bus_map@, dirs, formats, BusDir::InOut, input_bus_map@.len() as int) <= self.capacity,
                uses0.is_prefix_of(self.uses@),
                saves0.is_prefix_of(self.saves@),
                copies_safe(self.output_ptrs@, self.saves@, self.moves@, self.uses@),
                moves_exact(
                    self.moves@,
                    planned_in_out_moves(
                        inputs@,
                        self.inputs_active@,
                        input_bus_map@,
                        dirs,
                        formats,
                        self.ptrs@,
                        i as int,
                    ),
                    self.output_ptrs@,
                    self.saves@,
                    self.uses@,
                ),
                forall|k: int|
                    0 <= k < self.moves@.len() ==> in_out_dst(
                        (#[trigger] self.moves@[k]).1,
                        self.ptrs@,
                        input_bus_map@,
                        dirs,
                        formats,
                        i as int,
                    ),
                forall|i2: int, c: int|
                    0 <= i2 < i && dirs[input_bus_map@[i2] as int] == BusDir::InOut && 0 <= c < layout_channels(
                        formats[input_bus_map@[i2] as int],
                    ) ==> in_out_ok(
                        #[trigger] self.ptrs@[chan(formats, input_bus_map@[i2] as int, c)],
                        self.inputs_active@[i2],
                        inputs@[i2],
                        c as nat,
                        self.output_ptrs@,
                        self.saves@,
                        self.moves@,
                        self.uses@,
                    ),
            decreases input_bus_map@.len() - i,
        {
            let b = input_bus_map[i];
            let start = self.data[b].start;
            let end = self.data[b].end;
            let count = end - start;
            let is_in_out = match self.data[b].buffer_type {
                BufferType::Const => false,
                BufferType::Mut => true,
            };
            proof {
                assert(self.data@[b as int].start == channels_before(formats, b as int));
                assert(count == layout_channels(formats[b as int]));
                assert(is_in_out == (dirs[b as int] == BusDir::InOut));
                lemma_mapped_of_mono(input_bus_map@, dirs, formats, BusDir::InOut, i + 1, input_bus_map@.len() as int);
                lemma_mapped_of_mono(input_bus_map@, dirs, formats, BusDir::InOut, i as int, i + 1);
            }
            let ghost saves_before = self.saves@;
            let ghost moves_before = self.moves@;
            let ghost uses_before = self.uses@;
            if is_in_out {
                let active = self.inputs_active[i];
                let mut c: usize = 0;
                while c < count
                    invariant
                        self.laid_out(dirs, formats, max),
                        self.inputs_active == old(self).inputs_active,
                        self.outputs_active == old(self).outputs_active,
                        self.output_ptrs == old(self).output_ptrs,
                        self.ptrs == old(self).ptrs,
                        bus_map_wf(input_bus_map@, dirs, BusDir::Out),
                        host_buses_match(input_bus_map@, formats, inputs@),
                        inputs@[i as int].channels@.len() == count,
                        active == self.inputs_active@[i as int],
                        self.inputs_active@.len() == input_bus_map@.len(),
                        n == dirs.len(),
                        i < input_bus_map@.len(),
                        b == input_bus_map@[i as int],
                        b < n,
                        dirs[b as int] == BusDir::InOut,
                        start == channels_before(formats, b as int),
                        count == layout_channels(formats[b as int]),
                        c <= count,
                        self.uses@.len() == self.slots_used,
                        uses_before.is_prefix_of(self.uses@),
                        saves_before.is_prefix_of(self.saves@),
                        moves_before.is_prefix_of(self.moves@),
                        moves_exact(
                            self.moves@,
                            planned_in_out_moves(
                                inputs@,
                                self.inputs_active@,
                                input_bus_map@,
                                dirs,
                                formats,
                                self.ptrs@,
                                i as int,
                            ) + in_out_channel_moves(
                                inputs@[i as int].channels@,
                                active,
                                self.ptrs@,
                                start as int,
                                c as int,
                            ),
                            self.output_ptrs@,
                            self.saves@,
                            self.uses@,
                        ),
                        self.slots_used <= slots0 + mapped_channels_of(input_bus_map@, dirs, formats, BusDir::InOut, i as int) + c,
                        slots0 + mapped_channels_of(input_bus_map@, dirs, formats, BusDir::InOut, i + 1) <= self.capacity,
                        mapped_channels_of(input_bus_map@, dirs, formats, BusDir::InOut, i + 1) == mapped_channels_of(input_bus_map@, dirs, formats, BusDir::InOut, i as int) + count,
                        copies_safe(self.output_ptrs@, self.saves@, self.moves@, self.uses@),
                        forall|k: int|
                            0 <= k < self.moves@.len() ==> (k < moves_before.len() || exists|c2: int|
                                0 <= c2 < c && (#[trigger] self.moves@[k]).1 == self.ptrs@[chan(formats, b as int, c2)]),
                        forall|c2: int|
                            0 <= c2 < c ==> in_out_ok(
                                #[trigger] self.ptrs@[chan(formats, b as int, c2)],
                                active,
                                inputs@[i as int],
                                c2 as nat,
                                self.output_ptrs@,
                                self.saves@,
                                self.moves@,
                                self.uses@,
                            ),
                    decreases count - c,
                {
                    proof {
                        lemma_chan_bound(formats, b as int, c as int, n);
                    }
                    let ghost saves_iter = self.saves@;
                    let ghost moves_iter = self.moves@;
                    let ghost uses_iter = self.uses@;
                    let dst = self.ptrs[start + c];
                    if active {
                        let src = inputs[i].channels[c];
                        if ChannelPtr::Host(src) != dst {
                            if contains_addr(&self.output_ptrs, src) {
                                let slot = self.slots_used;
                                self.saves.push((src, slot));
                                proof {
                                    self.uses = Ghost(self.uses@.push(SlotUse::Save { addr: src }));
                                }
                                self.slots_used = self.slots_used + 1;
                                self.moves.push((ChannelPtr::Scratch(slot), dst));
                                proof {
                                    assert(self.moves@[self.moves@.len() - 1] == (ChannelPtr::Scratch(slot), dst));
                                    assert(self.saves@[self.saves@.len() - 1] == (src, slot));
                                }
                            } else {
                                self.moves.push((ChannelPtr::Host(src), dst));
                                proof {
                                    assert(self.moves@[self.moves@.len() - 1] == (ChannelPtr::Host(src), dst));
                                }
                            }
                        }
                    } else {
                        self.moves.push((ChannelPtr::Silence, dst));
                        proof {
                            assert(self.moves@[self.moves@.len() - 1] == (ChannelPtr::Silence, dst));
                        }
                    }
                    proof {
                        let srcs = inputs@[i as int].channels@;
                        let pl = planned_in_out_moves(
                            inputs@,
                            self.inputs_active@,
                            input_bus_map@,
                            dirs,
                            formats,
                            self.ptrs@,
                            i as int,
                        );
                        let a0 = in_out_channel_moves(srcs, active, self.ptrs@, start as int, c as int);
                        let a1 = in_out_channel_moves(srcs, active, self.ptrs@, start as int, c + 1);
                        assert(dst == self.ptrs@[start + c]);
                        assert(saves_iter.is_prefix_of(self.saves@));
                        assert(uses_iter.is_prefix_of(self.uses@));
                        if self.moves@.len() == moves_iter.len() {
                            assert(a1 == a0);
                            assert(self.moves@ == moves_iter);
                        } else {
                            assert(a1 == a0.push(a1[a1.len() - 1]));
                            assert(pl + a1 =~= (pl + a0).push(a1[a1.len() - 1]));
                        }
                        assert forall|k: int| 0 <= k < self.moves@.len() implies move_matches(
                            #[trigger] self.moves@[k],
                            (pl + a1)[k],
                            self.output_ptrs@,
                            self.saves@,
                            self.uses@,
                        ) by {
                            if k < moves_iter.len() {
                                assert(self.moves@[k] == moves_iter[k]);
                                assert((pl + a1)[k] == (pl + a0)[k]);
                                lemma_move_matches_grows(
                                    moves_iter[k],
                                    (pl + a0)[k],
                                    self.output_ptrs@,
                                    saves_iter,
                                    uses_iter,
                                    self.saves@,
                                    self.uses@,
                                );
                            } else {
                                assert((pl + a1)[k] == a1[a1.len() - 1]);
                                if active && self.output_ptrs@.contains(srcs[c as int]) {
                                    let ks = self.saves@.len() - 1;
                                    assert(self.saves@.contains(self.saves@[ks]));
                                }
                            }
                        }
                        assert(dst == self.ptrs@[chan(formats, b as int, c as int)]);
                        assert forall|k: int| 0 <= k < self.saves@.len() implies (#[trigger] self.saves@[k]).1 < self.uses@.len()
                            && self.uses@[self.saves@[k].1 as int] == (SlotUse::Save { addr: self.saves@[k].0 }) by {
                            if k < saves_iter.len() {
                                assert(self.saves@[k] == saves_iter[k]);
                                assert(self.uses@[saves_iter[k].1 as int] == uses_iter[saves_iter[k].1 as int]);
                            }
                        }
                        assert forall|k: int| 0 <= k < self.moves@.len() implies !((#[trigger] self.moves@[k]).0 matches ChannelPtr::Host(a)
                            && self.output_ptrs@.contains(a)) by {
                            if k < moves_iter.len() {
                                assert(self.moves@[k] == moves_iter[k]);
                            }
                        }
                        assert forall|k: int| 0 <= k < self.moves@.len() implies (k < moves_before.len() || exists|c2: int|
                                0 <= c2 < c + 1 && (#[trigger] self.moves@[k]).1 == self.ptrs@[chan(formats, b as int, c2)]) by {
                            if k < moves_iter.len() {
                                assert(self.moves@[k] == moves_iter[k]);
                            } else {
                                assert(self.moves@[k].1 == self.ptrs@[chan(formats, b as int, c as int)]);
                            }
                        }
                        assert forall|c2: int| 0 <= c2 < c + 1 implies in_out_ok(
                            #[trigger] self.ptrs@[chan(formats, b as int, c2)],
                            active,
                            inputs@[i as int],
                            c2 as nat,
                            self.output_ptrs@,
                            self.saves@,
                            self.moves@,
                            self.uses@,
                        ) by {
                            if c2 < c {
                                lemma_in_out_ok_grows(
                                    self.ptrs@[chan(formats, b as int, c2)],
                                    active,
                                    inputs@[i as int],
                                    c2 as nat,
                                    self.output_ptrs@,
                                    saves_iter,
                                    moves_iter,
                                    uses_iter,
                                    self.saves@,
                                    self.moves@,
                                    self.uses@,
                                );
                            } else {
                                let last = self.moves@.len() - 1;
                                if active {
                                    let h = inputs@[i as int].channels@[c as int];
                                    if ChannelPtr::Host(h) != dst {
                                        assert(self.moves@.contains(self.moves@[last]));
                                        if self.output_ptrs@.contains(h) {
                                            let sl = self.moves@[last].0->Scratch_0;
                                            let ks = self.saves@.len() - 1;
                                            assert(self.saves@[ks] == (h, sl));
                                            assert(self.saves@.contains((h, sl)));
                                            assert(self.moves@.contains((ChannelPtr::Scratch(sl), dst)));
                                        }
                                    }
                                } else {
                                    assert(self.moves@.contains(self.moves@[last]));
                                }
                            }
                        }
                    }
                    c = c + 1;
                }
            }
            proof {
                if !is_in_out {
                    assert(self.moves@ == moves_before);
                    assert(self.saves@ == saves_before);
                }
                let pl_next = planned_in_out_moves(
                    inputs@,
                    self.inputs_active@,
                    input_bus_map@,
                    dirs,
                    formats,
                    self.ptrs@,
                    i + 1,
                );
                let pl = planned_in_out_moves(
                    inputs@,
                    self.inputs_active@,
                    input_bus_map@,
                    dirs,
                    formats,
                    self.ptrs@,
                    i as int,
                );
                if is_in_out {
                    assert(pl_next == pl + in_out_channel_moves(
                        inputs@[i as int].channels@,
                        self.inputs_active@[i as int],
                        self.ptrs@,
                        start as int,
                        count as int,
                    ));
                } else {
                    assert(pl_next == pl);
                }
                assert forall|i2: int, c: int|
                    0 <= i2 < i + 1 && dirs[input_bus_map@[i2] as int] == BusDir::InOut && 0 <= c < layout_channels(
                        formats[input_bus_map@[i2] as int],
                    ) implies in_out_ok(
                        #[trigger] self.ptrs@[chan(formats, input_bus_map@[i2] as int, c)],
                        self.inputs_active@[i2],
                        inputs@[i2],
                        c as nat,
                        self.output_ptrs@,
                        self.saves@,
                        self.moves@,
                        self.uses@,
                    ) by {
                    if i2 < i {
                        lemma_in_out_ok_grows(
                            self.ptrs@[chan(formats, input_bus_map@[i2] as int, c)],
                            self.inputs_active@[i2],
                            inputs@[i2],
                            c as nat,
                            self.output_ptrs@,
                            saves_before,
                            moves_before,
                            uses_before,
                            self.saves@,
                            self.moves@,
                            self.uses@,
                        );
                    }
                }
                assert forall|k: int| 0 <= k < self.moves@.len() implies in_out_dst(
                        (#[trigger] self.moves@[k]).1,
                        self.ptrs@,
                        input_bus_map@,
                        dirs,
                        formats,
                        i + 1,
                    ) by {
                    if k < moves_before.len() {
                        assert(self.moves@[k] == moves_before[k]);
                        assert(in_out_dst(moves_before[k].1, self.ptrs@, input_bus_map@, dirs, formats, i as int));
                        let (i2, c) = choose|i2: int, c: int|
                            0 <= i2 < i && dirs[input_bus_map@[i2] as int] == BusDir::InOut
                                && 0 <= c < layout_channels(formats[input_bus_map@[i2] as int])
                                && moves_before[k].1 == self.ptrs@[chan(formats, input_bus_map@[i2] as int, c)];
                        assert(0 <= i2 < i + 1);
                        assert(self.ptrs@[chan(formats, input_bus_map@[i2] as int, c)] == self.moves@[k].1);
                    } else {
                        let c2 = choose|c2: int| 0 <= c2 < count && self.moves@[k].1 == self.ptrs@[chan(formats, b as int, c2)];
                        assert(input_bus_map@[i as int] == b);
                        assert(0 <= i < i + 1 && dirs[input_bus_map@[i as int] as int] == BusDir::InOut
                            && 0 <= c2 < layout_channels(formats[input_bus_map@[i as int] as int])
                            && self.moves@[k].1 == self.ptrs@[chan(formats, input_bus_map@[i as int] as int, c2)]);
                    }
                }
            }
            i = i + 1;
        }
    }

    /// Sets the channel pointers up for one call of `process`, given the host's buses.
    ///
    /// Fails when the block is longer than the layout allows or, for a non-empty block, when
    /// the host's buses do not match the layout; an empty block needs no buffers. Otherwise
    /// output channels point at the host's buffers (or at scratch slots for inactive buses);
    /// input channels point at the host's buffers, at scratch copies of those that an output
    /// aliases, or at silence; and in-out buses get the copies (`saves`, then `moves`) that bring
    /// their inputs into their outputs: exactly one move per channel whose input buffer is not
    /// its output buffer (silence for an inactive input), in bus and channel order, and no
    /// other. Returns the block length.
    pub fn get_buffers(
        &mut self,
        buses: &[BusInfo],
        input_bus_map: &[usize],
        output_bus_map: &[usize],
        formats: &[Layout],
        max_buffer_size: usize,
        num_samples: i32,
        inputs: &[HostBus],
        outputs: &[HostBus],
    ) -> (r: Result<Option<usize>, ()>)
        requires
            old(self).laid_out(dirs_of(buses@), formats@, max_buffer_size as nat),
            bus_map_wf(input_bus_map@, dirs_of(buses@), BusDir::Out),
            bus_map_wf(output_bus_map@, dirs_of(buses@), BusDir::In),
            old(self).inputs_active().len() == input_bus_map@.len(),
            old(self).outputs_active().len() == output_bus_map@.len(),
            forall|i: int|
                0 <= i < inputs@.len() ==> (#[trigger] inputs@[i]).channels@.len() == if inputs@[i].num_channels
                    >= 0 {
                    inputs@[i].num_channels as nat
                } else {
                    0
                },
            forall|o: int|
                0 <= o < outputs@.len() ==> (#[trigger] outputs@[o]).channels@.len() == if outputs@[o].num_channels
                    >= 0 {
                    outputs@[o].num_channels as nat
                } else {
                    0
                },
        ensures
            final(self).laid_out(dirs_of(buses@), formats@, max_buffer_size as nat),
            final(self).inputs_active() == old(self).inputs_active(),
            final(self).outputs_active() == old(self).outputs_active(),
            ({
                let len = num_samples as usize;
                let matches = host_buses_match(input_bus_map@, formats@, inputs@) && host_buses_match(
                    output_bus_map@,
                    formats@,
                    outputs@,
                );
                let dirs = dirs_of(buses@);
                let aliased = active_output_addrs(
                    outputs@,
                    final(self).outputs_active(),
                    output_bus_map@.len() as int,
                );
                match r {
                    Err(()) => len > max_buffer_size || (len != 0 && !matches),
                    Ok(None) => len == 0,
                    Ok(Some(l)) => {
                        &&& l == len
                        &&& 0 < len <= max_buffer_size
                        &&& matches
                        &&& final(self).slot_uses().len() <= final(self).capacity()
                        &&& copies_safe(
                            aliased,
                            final(self).saves(),
                            final(self).moves(),
                            final(self).slot_uses(),
                        )
                        &&& moves_exact(
                            final(self).moves(),
                            planned_in_out_moves(
                                inputs@,
                                final(self).inputs_active(),
                                input_bus_map@,
                                dirs,
                                formats@,
                                final(self).ptrs(),
                                input_bus_map@.len() as int,
                            ),
                            aliased,
                            final(self).saves(),
                            final(self).slot_uses(),
                        )
                        &&& forall|k: int|
                            0 <= k < final(self).moves().len() ==> in_out_dst(
                                (#[trigger] final(self).moves()[k]).1,
                                final(self).ptrs(),
                                input_bus_map@,
                                dirs,
                                formats@,
                                input_bus_map@.len() as int,
                            )
                        &&& forall|o: int, c: int|
                            0 <= o < output_bus_map@.len() && 0 <= c < layout_channels(
                                formats@[output_bus_map@[o] as int],
                            ) ==> output_ptr_ok(
                                #[trigger] final(self).ptrs()[chan(formats@, output_bus_map@[o] as int, c)],
                                final(self).outputs_active()[o],
                                outputs@[o],
                                o as nat,
                                c as nat,
                                final(self).slot_uses(),
                            )
                        &&& forall|i: int, c: int|
                            0 <= i < input_bus_map@.len() && dirs[input_bus_map@[i] as int] == BusDir::In
                                && 0 <= c < layout_channels(formats@[input_bus_map@[i] as int])
                                ==> input_ptr_ok(
                                #[trigger] final(self).ptrs()[chan(formats@, input_bus_map@[i] as int, c)],
                                final(self).inputs_active()[i],
                                inputs@[i],
                                c as nat,
                                aliased,
                                final(self).saves(),
                                final(self).slot_uses(),
                            )
                        &&& forall|i: int, c: int|
                            0 <= i < input_bus_map@.len() && dirs[input_bus_map@[i] as int] == BusDir::InOut
                                && 0 <= c < layout_channels(formats@[input_bus_map@[i] as int])
                                ==> in_out_ok(
                                #[trigger] final(self).ptrs()[chan(formats@, input_bus_map@[i] as int, c)],
                                final(self).inputs_active()[i],
                                inputs@[i],
                                c as nat,
                                aliased,
                                final(self).saves(),
                                final(self).moves(),
                                final(self).slot_uses(),
                            )
                    },
                }
            }),
    {
        let ghost dirs = dirs_of(buses@);
        let ghost fs = formats@;
        let len = num_samples as usize;
        if len > max_buffer_size {
            return Err(());
        }
        if len == 0 {
            return Ok(None);
        }
        if inputs.len() != input_bus_map.len() || outputs.len() != output_bus_map.len() {
            return Err(());
        }
        let mut i: usize = 0;
        while i < input_bus_map.len()
            invariant
                i <= input_bus_map@.len(),
                inputs@.len() == input_bus_map@.len(),
                bus_map_wf(input_bus_map@, dirs, BusDir::Out),
                dirs.len() == fs.len(),
                fs == formats@,
                self.laid_out(dirs, fs, max_buffer_size as nat),
                dirs == dirs_of(buses@),
                len == num_samples as usize,
                0 < len <= max_buffer_size,
                self.inputs_active == old(self).inputs_active,
                self.outputs_active == old(self).outputs_active,
                forall|i2: int|
                    0 <= i2 < i ==> (#[trigger] inputs@[i2]).num_channels >= 0 && inputs@[i2].num_channels as nat
                        == layout_channels(formats@[input_bus_map@[i2] as int]),
            decreases input_bus_map@.len() - i,
        {
            let found = inputs[i].num_channels;
            if found < 0 || found as usize != formats[input_bus_map[i]].channel_count() {
                return Err(());
            }
            i = i + 1;
        }
        let mut o: usize = 0;
        while o < output_bus_map.len()
            invariant
                o <= output_bus_map@.len(),
                outputs@.len() == output_bus_map@.len(),
                bus_map_wf(output_bus_map@, dirs, BusDir::In),
                dirs.len() == fs.len(),
                fs == formats@,
                self.laid_out(dirs, fs, max_buffer_size as nat),
                dirs == dirs_of(buses@),
                len == num_samples as usize,
                0 < len <= max_buffer_size,
                self.inputs_active == old(self).inputs_active,
                self.outputs_active == old(self).outputs_active,
                host_buses_match(input_bus_map@, formats@, inputs@),
                forall|o2: int|
                    0 <= o2 < o ==> (#[trigger] outputs@[o2]).num_channels >= 0 && outputs@[o2].num_channels as nat
                        == layout_channels(formats@[output_bus_map@[o2] as int]),
            decreases output_bus_map@.len() - o,
        {
            let found = outputs[o].num_channels;
            if found < 0 || found as usize != formats[output_bus_map[o]].channel_count() {
                return Err(());
            }
            o = o + 1;
        }
        proof {
            assert forall|i2: int| 0 <= i2 < inputs@.len() implies (#[trigger] inputs@[i2]).channels@.len()
                == inputs@[i2].num_channels as usize by {
                assert(inputs@[i2].num_channels >= 0);
            }
            assert forall|o2: int| 0 <= o2 < outputs@.len() implies (#[trigger] outputs@[o2]).channels@.len()
                == outputs@[o2].num_channels as usize by {
                assert(outputs@[o2].num_channels >= 0);
            }
            lemma_mapped_le_charge(output_bus_map@, dirs, fs, BusDir::In, output_bus_map@.len() as int);
            lemma_mapped_le_charge(input_bus_map@, dirs, fs, BusDir::Out, input_bus_map@.len() as int);
            lemma_charges_sum(dirs, fs, dirs.len() as int);
            lemma_mapped_split(input_bus_map@, dirs, fs, input_bus_map@.len() as int);
        }
        self.slots_used = 0;
        proof {
            self.uses = Ghost(Seq::empty());
        }
        self.saves.clear();
        self.set_output_ptrs(output_bus_map, outputs, Ghost(dirs), Ghost(fs));
        let ghost ptrs1 = self.ptrs@;
        let ghost uses1 = self.uses@;
        self.set_input_ptrs(input_bus_map, inputs, Ghost(dirs), Ghost(fs));
        let ghost ptrs2 = self.ptrs@;
        let ghost uses2 = self.uses@;
        let ghost saves2 = self.saves@;
        self.plan_moves(input_bus_map, inputs, Ghost(dirs), Ghost(fs));
        let ghost aliased = self.output_ptrs@;
        self.output_ptrs.clear();
        proof {
            assert forall|o: int, c: int|
                0 <= o < output_bus_map@.len() && 0 <= c < layout_channels(fs[output_bus_map@[o] as int])
                    implies output_ptr_ok(
                    #[trigger] self.ptrs@[chan(fs, output_bus_map@[o] as int, c)],
                    self.outputs_active@[o],
                    outputs@[o],
                    o as nat,
                    c as nat,
                    self.uses@,
                ) by {
                let b = output_bus_map@[o] as int;
                assert(ptrs2[chan(fs, b, c)] == ptrs1[chan(fs, b, c)]);
                lemma_output_ptr_ok_grows(ptrs1[chan(fs, b, c)], self.outputs_active@[o], outputs@[o], o as nat, c as nat, uses1, self.uses@);
            }
            assert forall|i: int, c: int|
                0 <= i < input_bus_map@.len() && dirs[input_bus_map@[i] as int] == BusDir::In
                    && 0 <= c < layout_channels(fs[input_bus_map@[i] as int]) implies input_ptr_ok(
                    #[trigger] self.ptrs@[chan(fs, input_bus_map@[i] as int, c)],
                    self.inputs_active@[i],
                    inputs@[i],
                    c as nat,
                    aliased,
                    self.saves@,
                    self.uses@,
                ) by {
                let b = input_bus_map@[i] as int;
                lemma_input_ptr_ok_grows(ptrs2[chan(fs, b, c)], self.inputs_active@[i], inputs@[i], c as nat, aliased, saves2, uses2, self.saves@, self.uses@);
            }
        }
        Ok(Some(len))
    }

    /// Lays the buffers out for `buses` with layouts `formats` (the pairs up to the shorter
    /// list) and blocks of up to `max_buffer_size` samples: each bus gets the next run of
    /// channel pointers, read only for input buses; the scratch space gets one block for every
    /// channel and one more for every in-out channel, and the silence buffer one block.
    pub fn resize(&mut self, buses: &[BusInfo], formats: &[Layout], max_buffer_size: usize)
        requires
            ({
                let n = if buses@.len() <= formats@.len() {
                    buses@.len() as int
                } else {
                    formats@.len() as int
                };
                let dirs = dirs_of(buses@).subrange(0, n);
                let fs = formats@.subrange(0, n);
                max_buffer_size * (channels_before(fs, n) + in_out_channels_before(dirs, fs, n))
                    <= usize::MAX && n <= usize::MAX / 4
            }),
        ensures
            ({
                let n = if buses@.len() <= formats@.len() {
                    buses@.len() as int
                } else {
                    formats@.len() as int
                };
                let dirs = dirs_of(buses@).subrange(0, n);
                let fs = formats@.subrange(0, n);
                &&& final(self).laid_out(dirs, fs, max_buffer_size as nat)
                &&& final(self).data()@.len() == n
                &&& forall|b: int|
                    0 <= b < n ==> {
                        &&& (#[trigger] final(self).data()@[b]).start == channels_before(fs, b)
                        &&& final(self).data()@[b].end == channels_before(fs, b + 1)
                        &&& final(self).data()@[b].buffer_type == buffer_type_of(buses@[b].dir)
                    }
                &&& final(self).ptrs().len() == channels_before(fs, n)
                &&& final(self).capacity() == channels_before(fs, n) + in_out_channels_before(dirs, fs, n)
                &&& final(self).scratch_len() == max_buffer_size * final(self).capacity()
                &&& final(self).silence_len() == max_buffer_size
            }),
            final(self).inputs_active() == old(self).inputs_active(),
            final(self).outputs_active() == old(self).outputs_active(),
    {
        let n = if buses.len() <= formats.len() {
            buses.len()
        } else {
            formats.len()
        };
        let ghost dirs = dirs_of(buses@).subrange(0, n as int);
        let ghost fs = formats@.subrange(0, n as int);
        self.data.clear();
        let mut total_channels: usize = 0;
        let mut output_channels: usize = 0;
        let mut in_out_channels: usize = 0;
        let mut b: usize = 0;
        while b < n
            invariant
                n <= buses@.len(),
                n <= formats@.len(),
                n <= usize::MAX / 4,
                dirs == dirs_of(buses@).subrange(0, n as int),
                fs == formats@.subrange(0, n as int),
                b <= n,
                self.inputs_active == old(self).inputs_active,
                self.outputs_active == old(self).outputs_active,
                self.data@.len() == b,
                total_channels == channels_before(fs, b as int),
                in_out_channels == in_out_channels_before(dirs, fs, b as int),
                total_channels <= 2 * b,
                in_out_channels <= total_channels,
                output_channels <= total_channels,
                forall|k: int|
                    0 <= k < b ==> {
                        &&& (#[trigger] self.data@[k]).start == channels_before(fs, k)
                        &&& self.data@[k].end == channels_before(fs, k + 1)
                        &&& self.data@[k].buffer_type == buffer_type_of(dirs[k])
                    },
            decreases n - b,
        {
            let dir = buses[b].dir;
            let buffer_type = match dir {
                BusDir::In => BufferType::Const,
                BusDir::Out | BusDir::InOut => BufferType::Mut,
            };
            let channel_count = formats[b].channel_count();
            self.data.push(BufferData {
                buffer_type,
                start: total_channels,
                end: total_channels + channel_count,
            });
            total_channels = total_channels + channel_count;
            if dir == BusDir::Out || dir == BusDir::InOut {
                output_channels = output_channels + channel_count;
            }
            if dir == BusDir::InOut {
                in_out_channels = in_out_channels + channel_count;
            }
            proof {
                assert(dirs[b as int] == dir);
                assert(fs[b as int] == formats@[b as int]);
            }
            b = b + 1;
        }
        let mut ptrs: Vec<ChannelPtr> = Vec::new();
        let mut k: usize = 0;
        while k < total_channels
            invariant
                k <= total_channels,
                ptrs@.len() == k,
            decreases total_channels - k,
        {
            ptrs.push(ChannelPtr::Dangling);
            k = k + 1;
        }
        self.ptrs = ptrs;
        self.capacity = total_channels + in_out_channels;
        self.max_buffer_size = max_buffer_size;
        self.scratch_len = max_buffer_size * self.capacity;
        self.silence_len = max_buffer_size;
        self.output_ptrs.clear();
        self.moves.clear();
        self.saves.clear();
        self.slots_used = 0;
        proof {
            self.uses = Ghost(Seq::empty());
            self.lemma_laid_out(dirs, fs, max_buffer_size as nat);
            assert forall|b: int| 0 <= b < n implies dirs[b] == buses@[b].dir by {}
        }
    }
}

} // verus!
