use vstd::prelude::*;

use crate::bus::{layout_channels, BusDir, BusInfo, Layout};
use crate::scratch::{bus_map_wf, dirs_of};

verus! {

/// The VST3 speaker arrangement of a single (mono) speaker.
pub const SPEAKER_ARR_MONO: u64 = 0x80000;

/// The VST3 speaker arrangement of a left and a right speaker.
pub const SPEAKER_ARR_STEREO: u64 = 0x3;

/// The VST3 speaker arrangement of a bus layout.
pub open spec fn spec_speaker_arrangement(layout: Layout) -> u64 {
    match layout {
        Layout::Mono => SPEAKER_ARR_MONO,
        Layout::Stereo => SPEAKER_ARR_STEREO,
    }
}

/// The bus layout of a VST3 speaker arrangement, if it is one that buses can have.
pub open spec fn spec_arrangement_layout(arrangement: u64) -> Option<Layout> {
    if arrangement == SPEAKER_ARR_MONO {
        Some(Layout::Mono)
    } else if arrangement == SPEAKER_ARR_STEREO {
        Some(Layout::Stereo)
    } else {
        None
    }
}

pub fn format_to_speaker_arrangement(format: &Layout) -> (r: u64)
    ensures
        r == spec_speaker_arrangement(*format),
{
    match format {
        Layout::Mono => SPEAKER_ARR_MONO,
        Layout::Stereo => SPEAKER_ARR_STEREO,
    }
}

pub fn speaker_arrangement_to_format(speaker_arrangement: u64) -> (r: Option<Layout>)
    ensures
        r == spec_arrangement_layout(speaker_arrangement),
{
    if speaker_arrangement == SPEAKER_ARR_MONO {
        Some(Layout::Mono)
    } else if speaker_arrangement == SPEAKER_ARR_STEREO {
        Some(Layout::Stereo)
    } else {
        None
    }
}

/// A layout turned into a speaker arrangement and back is the same layout, and an arrangement
/// that maps to a layout is that layout's arrangement.
pub proof fn law_speaker_arrangement_round_trip(layout: Layout, arrangement: u64)
    ensures
        spec_arrangement_layout(spec_speaker_arrangement(layout)) == Some(layout),
        spec_arrangement_layout(arrangement) matches Some(l) ==> spec_speaker_arrangement(l)
            == arrangement,
{
}

/// The number of buses among the first `n` that are not of direction `excluded`.
pub open spec fn count_not(dirs: Seq<BusDir>, excluded: BusDir, n: int) -> nat
    decreases n,
{
    if n <= 0 {
        0
    } else {
        count_not(dirs, excluded, n - 1) + if dirs[n - 1] != excluded {
            1nat
        } else {
            0nat
        }
    }
}

/// The arrangement that the host asks for bus `b`: the next input arrangement for an input bus,
/// the next output one for an output bus, and for an in-out bus the two, which must agree.
pub open spec fn requested_arrangement(
    dirs: Seq<BusDir>,
    inputs: Seq<u64>,
    outputs: Seq<u64>,
    b: int,
) -> Option<u64> {
    let i = count_not(dirs, BusDir::Out, b) as int;
    let o = count_not(dirs, BusDir::In, b) as int;
    match dirs[b] {
        BusDir::In => Some(inputs[i]),
        BusDir::Out => Some(outputs[o]),
        BusDir::InOut => if inputs[i] == outputs[o] {
            Some(outputs[o])
        } else {
            None
        },
    }
}

/// The layout that the host asks for bus `b`, if the request is one the plugin can read.
pub open spec fn requested_layout(dirs: Seq<BusDir>, inputs: Seq<u64>, outputs: Seq<u64>, b: int) -> Option<
    Layout,
> {
    match requested_arrangement(dirs, inputs, outputs, b) {
        Some(a) => spec_arrangement_layout(a),
        None => None,
    }
}

/// The answer to a host's request for a set of speaker arrangements.
#[derive(Debug, PartialEq, Eq)]
pub enum ArrangementAnswer {
    /// The counts of arrangements do not match the plugin's input and output buses.
    InvalidArgument,
    /// Some bus cannot take its arrangement, or the layouts are not a supported configuration.
    Rejected,
    /// The layouts, one per bus, that the plugin now uses.
    Accepted(Vec<Layout>),
}

/// Answers a VST3 host's `setBusArrangements`: the host gives `num_ins` input arrangements and
/// `num_outs` output arrangements; they must number the plugin's input and output buses, each
/// bus must get an arrangement it can read (an in-out bus the same one on both sides), and the
/// resulting layouts must be one of the plugin's supported configurations.
pub fn set_bus_arrangements(
    buses: &[BusInfo],
    num_ins: i32,
    num_outs: i32,
    inputs: &[u64],
    outputs: &[u64],
    layouts: &[Vec<Layout>],
) -> (r: ArrangementAnswer)
    requires
        inputs@.len() == if num_ins >= 0 {
            num_ins as nat
        } else {
            0
        },
        outputs@.len() == if num_outs >= 0 {
            num_outs as nat
        } else {
            0
        },
    ensures
        ({
            let dirs = dirs_of(buses@);
            let n = buses@.len() as int;
            let counts_ok = num_ins >= 0 && num_ins as nat == count_not(dirs, BusDir::Out, n)
                && num_outs >= 0 && num_outs as nat == count_not(dirs, BusDir::In, n);
            let readable = forall|b: int|
                0 <= b < n ==> #[trigger] requested_layout(dirs, inputs@, outputs@, b) is Some;
            let candidate = Seq::new(
                n as nat,
                |b: int| requested_layout(dirs, inputs@, outputs@, b)->0,
            );
            match r {
                ArrangementAnswer::InvalidArgument => !counts_ok,
                ArrangementAnswer::Rejected => counts_ok && (!readable || !(exists|k: int|
                    0 <= k < layouts@.len() && #[trigger] layouts@[k]@ == candidate)),
                ArrangementAnswer::Accepted(v) => counts_ok && readable && v@ == candidate
                    && exists|k: int| 0 <= k < layouts@.len() && #[trigger] layouts@[k]@ == candidate,
            }
        }),
{
    let ghost dirs = dirs_of(buses@);
    let ghost n = buses@.len() as int;
    let mut input_count: usize = 0;
    let mut output_count: usize = 0;
    let mut b: usize = 0;
    while b < buses.len()
        invariant
            b <= buses@.len(),
            dirs == dirs_of(buses@),
            input_count == count_not(dirs, BusDir::Out, b as int),
            output_count == count_not(dirs, BusDir::In, b as int),
            input_count <= b,
            output_count <= b,
        decreases buses@.len() - b,
    {
        if buses[b].dir != BusDir::Out {
            input_count = input_count + 1;
        }
        if buses[b].dir != BusDir::In {
            output_count = output_count + 1;
        }
        b = b + 1;
    }
    if num_ins < 0 || num_ins as usize != input_count || num_outs < 0 || num_outs as usize
        != output_count {
        return ArrangementAnswer::InvalidArgument;
    }
    let mut candidate: Vec<Layout> = Vec::new();
    let mut next_in: usize = 0;
    let mut next_out: usize = 0;
    let mut b: usize = 0;
    while b < buses.len()
        invariant
            b <= buses@.len(),
            dirs == dirs_of(buses@),
            n == buses@.len(),
            inputs@.len() == count_not(dirs, BusDir::Out, n),
            outputs@.len() == count_not(dirs, BusDir::In, n),
            num_ins >= 0 && num_ins as nat == count_not(dirs, BusDir::Out, n),
            num_outs >= 0 && num_outs as nat == count_not(dirs, BusDir::In, n),
            next_in == count_not(dirs, BusDir::Out, b as int),
            next_out == count_not(dirs, BusDir::In, b as int),
            candidate@.len() == b,
            forall|k: int|
                0 <= k < b ==> #[trigger] requested_layout(dirs, inputs@, outputs@, k) == Some(
                    candidate@[k],
                ),
        decreases buses@.len() - b,
    {
        proof {
            lemma_count_not_mono(dirs, BusDir::Out, b + 1, n);
            lemma_count_not_mono(dirs, BusDir::In, b + 1, n);
        }
        let arrangement = match buses[b].dir {
            BusDir::In => {
                let a = inputs[next_in];
                next_in = next_in + 1;
                a
            },
            BusDir::Out => {
                let a = outputs[next_out];
                next_out = next_out + 1;
                a
            },
            BusDir::InOut => {
                let input_arrangement = inputs[next_in];
                let output_arrangement = outputs[next_out];
                next_in = next_in + 1;
                next_out = next_out + 1;
                if input_arrangement != output_arrangement {
                    proof {
                        assert(requested_layout(dirs, inputs@, outputs@, b as int) is None);
                    }
                    return ArrangementAnswer::Rejected;
                }
                output_arrangement
            },
        };
        match speaker_arrangement_to_format(arrangement) {
            Some(format) => {
                candidate.push(format);
            },
            None => {
                proof {
                    assert(requested_layout(dirs, inputs@, outputs@, b as int) is None);
                }
                return ArrangementAnswer::Rejected;
            },
        }
        b = b + 1;
    }
    let ghost cand = Seq::new(n as nat, |k: int| requested_layout(dirs, inputs@, outputs@, k)->0);
    assert(candidate@ =~= cand);
    assert forall|j: int| 0 <= j < n implies #[trigger] requested_layout(dirs, inputs@, outputs@, j) is Some by {
        assert(requested_layout(dirs, inputs@, outputs@, j) == Some(candidate@[j]));
    }
    let mut k: usize = 0;
    while k < layouts.len()
        invariant
            k <= layouts@.len(),
            candidate@ == cand,
            cand == Seq::new(n as nat, |k: int| requested_layout(dirs, inputs@, outputs@, k)->0),
            n == buses@.len(),
            dirs == dirs_of(buses@),
            num_ins >= 0 && num_ins as nat == count_not(dirs, BusDir::Out, n),
            num_outs >= 0 && num_outs as nat == count_not(dirs, BusDir::In, n),
            forall|j: int| 0 <= j < n ==> #[trigger] requested_layout(dirs, inputs@, outputs@, j) is Some,
            forall|j: int| 0 <= j < k ==> #[trigger] layouts@[j]@ != cand,
        decreases layouts@.len() - k,
    {
        if layouts_equal(&layouts[k], &candidate) {
            assert(layouts@[k as int]@ == cand);
            let ghost c2 = Seq::new(
                buses@.len() as nat,
                |b: int| requested_layout(dirs_of(buses@), inputs@, outputs@, b)->0,
            );
            assert(c2 =~= cand);
            assert(layouts@[k as int]@ == c2);
            assert(exists|k2: int| 0 <= k2 < layouts@.len() && #[trigger] layouts@[k2]@ == c2);
            return ArrangementAnswer::Accepted(candidate);
        }
        k = k + 1;
    }
    ArrangementAnswer::Rejected
}

proof fn lemma_count_not_mono(dirs: Seq<BusDir>, excluded: BusDir, a: int, b: int)
    requires
        0 <= a <= b,
    ensures
        count_not(dirs, excluded, a) <= count_not(dirs, excluded, b),
        a < b && dirs[a] != excluded ==> count_not(dirs, excluded, a) < count_not(dirs, excluded, b),
    decreases b - a,
{
    if a < b {
        lemma_count_not_mono(dirs, excluded, a, b - 1);
        if a == b - 1 {
        } else {
            lemma_count_not_mono(dirs, excluded, a + 1, b - 1);
        }
    }
}

/// Whether two lists of layouts are equal.
pub fn layouts_equal(a: &Vec<Layout>, b: &Vec<Layout>) -> (r: bool)
    ensures
        r == (a@ == b@),
{
    if a.len() != b.len() {
        return false;
    }
    let mut i: usize = 0;
    while i < a.len()
        invariant
            i <= a@.len(),
            a@.len() == b@.len(),
            forall|j: int| 0 <= j < i ==> a@[j] == b@[j],
        decreases a@.len() - i,
    {
        if a[i] != b[i] {
            return false;
        }
        i = i + 1;
    }
    assert(a@ =~= b@);
    true
}

/// What a VST3 host is told of one audio bus.
#[derive(Debug, PartialEq, Eq)]
pub struct Vst3BusInfo {
    pub bus_index: usize,
    pub channel_count: usize,
    /// The first bus of each direction is the main bus; the others are auxiliary.
    pub main: bool,
}

/// Answers a VST3 host's `getBusInfo` for the `index`-th input (or output) audio bus under the
/// layout `formats`; `None` is an invalid argument.
pub fn vst3_bus_info(
    bus_map: &[usize],
    buses: &[BusInfo],
    formats: &[Layout],
    index: i32,
) -> (r: Option<Vst3BusInfo>)
    ensures
        ({
            let i = index as usize;
            match r {
                Some(info) => {
                    &&& i < bus_map@.len()
                    &&& info.bus_index == bus_map@[i as int]
                    &&& info.bus_index < buses@.len()
                    &&& info.bus_index < formats@.len()
                    &&& info.channel_count == layout_channels(formats@[info.bus_index as int])
                    &&& info.main == (index == 0)
                },
                None => !(i < bus_map@.len() && bus_map@[i as int] < buses@.len() && bus_map@[i as int]
                    < formats@.len()),
            }
        }),
{
    let i = index as usize;
    if i < bus_map.len() {
        let bus_index = bus_map[i];
        if bus_index < buses.len() && bus_index < formats.len() {
            return Some(Vst3BusInfo {
                bus_index,
                channel_count: formats[bus_index].channel_count(),
                main: index == 0,
            });
        }
    }
    None
}

/// What a CLAP host is told of one audio port.
#[derive(Debug, PartialEq, Eq)]
pub struct AudioPortInfo {
    pub id: u32,
    /// The first port of each direction is the main port.
    pub main: bool,
    pub channel_count: usize,
    pub layout: Layout,
    /// For a port of an in-out bus, the index of the port of the same bus on the other side.
    pub in_place_pair: Option<u32>,
}

/// Answers a CLAP host's `audio_ports_get` for the `index`-th input (or output) port under the
/// layout `formats`; `None` answers false.
pub fn audio_port_info(
    buses: &[BusInfo],
    input_bus_map: &[usize],
    output_bus_map: &[usize],
    formats: &[Layout],
    index: u32,
    is_input: bool,
) -> (r: Option<AudioPortInfo>)
    requires
        bus_map_wf(input_bus_map@, dirs_of(buses@), BusDir::Out),
        bus_map_wf(output_bus_map@, dirs_of(buses@), BusDir::In),
        forall|b: int|
            0 <= b < buses@.len() && buses@[b].dir == BusDir::InOut ==> #[trigger] input_bus_map@.contains(
                b as usize,
            ) && output_bus_map@.contains(b as usize),
        input_bus_map@.len() <= u32::MAX,
        output_bus_map@.len() <= u32::MAX,
    ensures
        ({
            let map = if is_input {
                input_bus_map@
            } else {
                output_bus_map@
            };
            let other = if is_input {
                output_bus_map@
            } else {
                input_bus_map@
            };
            match r {
                Some(info) => {
                    let b = map[index as int];
                    &&& index < map.len()
                    &&& b < formats@.len()
                    &&& info.id == index
                    &&& info.main == (index == 0)
                    &&& info.layout == formats@[b as int]
                    &&& info.channel_count == layout_channels(formats@[b as int])
                    &&& match info.in_place_pair {
                        Some(p) => buses@[b as int].dir == BusDir::InOut && p < other.len()
                            && other[p as int] == b,
                        None => buses@[b as int].dir != BusDir::InOut,
                    }
                },
                None => !(index < map.len() && map[index as int] < formats@.len()),
            }
        }),
{
    let map = if is_input {
        input_bus_map
    } else {
        output_bus_map
    };
    let other = if is_input {
        output_bus_map
    } else {
        input_bus_map
    };
    let i = index as usize;
    if i >= map.len() {
        return None;
    }
    let bus_index = map[i];
    if bus_index >= formats.len() {
        return None;
    }
    let format = formats[bus_index];
    let in_place_pair = if buses[bus_index].dir == BusDir::InOut {
        proof {
            assert(bus_index < buses@.len());
            assert(input_bus_map@.contains(bus_index as usize) && output_bus_map@.contains(bus_index as usize));
            assert(other@.contains(bus_index));
        }
        let mut p: usize = 0;
        while p < other.len() && other[p] != bus_index
            invariant
                p <= other@.len(),
                other@.contains(bus_index),
                forall|j: int| 0 <= j < p ==> other@[j] != bus_index,
            decreases other@.len() - p,
        {
            p = p + 1;
        }
        Some(p as u32)
    } else {
        None
    };
    Some(AudioPortInfo {
        id: index,
        main: index == 0,
        channel_count: format.channel_count(),
        layout: format,
        in_place_pair,
    })
}

/// What a CLAP host is told of one supported configuration.
#[derive(Debug, PartialEq, Eq)]
pub struct PortsConfig {
    pub id: u32,
    pub input_port_count: usize,
    pub output_port_count: usize,
    /// The layout of the first input bus, if there is an input bus.
    pub main_input: Option<Layout>,
    /// The layout of the first output bus, if there is an output bus.
    pub main_output: Option<Layout>,
}

/// Answers a CLAP host's `audio_ports_config_get` for configuration `index`; `None` answers
/// false.
pub fn audio_ports_config(
    layouts: &[Vec<Layout>],
    input_bus_map: &[usize],
    output_bus_map: &[usize],
    index: u32,
) -> (r: Option<PortsConfig>)
    requires
        forall|k: int, i: int|
            0 <= k < layouts@.len() && 0 <= i < input_bus_map@.len() ==> #[trigger] input_bus_map@[i]
                < (#[trigger] layouts@[k])@.len(),
        forall|k: int, i: int|
            0 <= k < layouts@.len() && 0 <= i < output_bus_map@.len() ==> #[trigger] output_bus_map@[i]
                < (#[trigger] layouts@[k])@.len(),
    ensures
        match r {
            Some(c) => {
                let l = layouts@[index as int]@;
                &&& index < layouts@.len()
                &&& c.id == index
                &&& c.input_port_count == input_bus_map@.len()
                &&& c.output_port_count == output_bus_map@.len()
                &&& c.main_input == if input_bus_map@.len() > 0 {
                    Some(l[input_bus_map@[0] as int])
                } else {
                    None
                }
                &&& c.main_output == if output_bus_map@.len() > 0 {
                    Some(l[output_bus_map@[0] as int])
                } else {
                    None
                }
            },
            None => index >= layouts@.len(),
        },
{
    let i = index as usize;
    if i >= layouts.len() {
        return None;
    }
    let layout = &layouts[i];
    let main_input = if input_bus_map.len() > 0 {
        Some(layout[input_bus_map[0]])
    } else {
        None
    };
    let main_output = if output_bus_map.len() > 0 {
        Some(layout[output_bus_map[0]])
    } else {
        None
    };
    Some(PortsConfig {
        id: index,
        input_port_count: input_bus_map.len(),
        output_port_count: output_bus_map.len(),
        main_input,
        main_output,
    })
}

} // verus!
