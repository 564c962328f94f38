use vstd::prelude::*;

verus! {

/// The direction of a bus.
#[derive(Copy, Clone, Eq, PartialEq, Debug, Structural)]
pub enum BusDir {
    In,
    Out,
    InOut,
}

/// A bus as a plugin declares it.
pub struct BusInfo<'a> {
    pub name: &'a str,
    pub dir: BusDir,
}

/// One supported combination of layouts, one per bus.
#[derive(Clone, Default, Eq, PartialEq, Hash)]
pub struct BusConfig<'a> {
    pub layouts: &'a [Layout],
}

/// The channel layout of a bus.
#[derive(Clone, Copy, Eq, PartialEq, Hash, Debug, Structural)]
pub enum Layout {
    Mono,
    Stereo,
}

/// The number of channels of a layout.
pub open spec fn layout_channels(layout: Layout) -> nat {
    match layout {
        Layout::Mono => 1,
        Layout::Stereo => 2,
    }
}

impl Layout {
    pub fn channel_count(&self) -> (r: usize)
        ensures
            r == layout_channels(*self),
    {
        match self {
            Layout::Mono => 1,
            Layout::Stereo => 2,
        }
    }
}

/// What a plugin's `buses` method is handed to declare its buses.
pub trait BuildBuses: Sized {
    fn bus(self, bus: BusInfo) -> Self;
}

/// What a plugin's `bus_configs` method is handed to declare its bus configurations.
pub trait BuildBusConfigs: Sized {
    fn config(self, config: BusConfig) -> Self;
}

/// A bus, with its name owned.
pub struct OwnedBusInfo {
    pub name: String,
    pub dir: BusDir,
}

/// A bus configuration, with its layouts owned.
pub struct OwnedBusConfig {
    pub layouts: Vec<Layout>,
}

/// Why a set of bus configurations does not fit a plugin's buses.
#[derive(Copy, Clone, Eq, PartialEq, Debug)]
pub enum BusConfigError {
    /// Configuration `config` gives `found` input layouts where the plugin has `expected`.
    InputCount { config: usize, found: usize, expected: usize },
    /// Configuration `config` gives `found` output layouts where the plugin has `expected`.
    OutputCount { config: usize, found: usize, expected: usize },
    /// No configuration was given, so there is no default one.
    NoDefault,
}

/// A bus configuration given as the layouts of the input buses and of the output buses.
pub struct IoBusConfig {
    pub inputs: Vec<Layout>,
    pub outputs: Vec<Layout>,
}

/// The first configuration, at or after `from`, whose input count differs from `input_count`
/// or whose output count differs from `output_count`; `configs.len()` if there is none.
pub open spec fn first_mismatch(
    configs: Seq<(nat, nat)>,
    input_count: nat,
    output_count: nat,
    from: int,
) -> int
    decreases configs.len() - from,
{
    if from < 0 || from >= configs.len() {
        configs.len() as int
    } else if configs[from].0 != input_count || configs[from].1 != output_count {
        from
    } else {
        first_mismatch(configs, input_count, output_count, from + 1)
    }
}

/// The input and output counts of each configuration.
pub open spec fn config_counts(configs: Seq<IoBusConfig>) -> Seq<(nat, nat)> {
    Seq::new(configs.len(), |i: int| (configs[i].inputs@.len(), configs[i].outputs@.len()))
}

/// Checks a plugin's bus configurations against its buses: every configuration must give one
/// input layout per input bus and one output layout per output bus, and there must be at least
/// one configuration, the first being the default. The first configuration that fails is
/// reported.
pub fn validate_bus_configs(inputs: &[BusInfo], outputs: &[BusInfo], configs: &[IoBusConfig]) -> (r:
    Result<(), BusConfigError>)
    ensures
        ({
            let input_count = inputs@.len();
            let output_count = outputs@.len();
            let counts = config_counts(configs@);
            let m = first_mismatch(counts, input_count, output_count, 0);
            match r {
                Ok(()) => m == configs@.len() && configs@.len() > 0,
                Err(BusConfigError::InputCount { config, found, expected }) => {
                    &&& m < configs@.len()
                    &&& config == m
                    &&& counts[m].0 != input_count
                    &&& found == counts[m].0
                    &&& expected == input_count
                },
                Err(BusConfigError::OutputCount { config, found, expected }) => {
                    &&& m < configs@.len()
                    &&& config == m
                    &&& counts[m].0 == input_count
                    &&& found == counts[m].1
                    &&& expected == output_count
                },
                Err(BusConfigError::NoDefault) => m == configs@.len() && configs@.len() == 0,
            }
        }),
{
    let input_count = inputs.len();
    let output_count = outputs.len();
    let ghost counts = config_counts(configs@);
    let mut i: usize = 0;
    while i < configs.len()
        invariant
            i <= configs@.len(),
            counts == config_counts(configs@),
            input_count == inputs@.len(),
            output_count == outputs@.len(),
            first_mismatch(counts, input_count as nat, output_count as nat, 0) == first_mismatch(
                counts,
                input_count as nat,
                output_count as nat,
                i as int,
            ),
        decreases configs@.len() - i,
    {
        let found_inputs = configs[i].inputs.len();
        let found_outputs = configs[i].outputs.len();
        if found_inputs != input_count {
            return Err(BusConfigError::InputCount {
                config: i,
                found: found_inputs,
                expected: input_count,
            });
        }
        if found_outputs != output_count {
            return Err(BusConfigError::OutputCount {
                config: i,
                found: found_outputs,
                expected: output_count,
            });
        }
        i = i + 1;
    }
    if configs.len() == 0 {
        return Err(BusConfigError::NoDefault);
    }
    Ok(())
}

} // verus!
