use vstd::prelude::*;

verus! {

/// `CLAP_PARAM_IS_STEPPED`: the parameter takes whole-number values only.
pub const CLAP_PARAM_IS_STEPPED: u32 = 1;

/// `CLAP_PARAM_IS_AUTOMATABLE`: the host may automate the parameter.
pub const CLAP_PARAM_IS_AUTOMATABLE: u32 = 32;

/// The number of steps a host shows for a parameter: one less than its number of values
/// (counting at least two), or 0 for a continuous parameter.
pub open spec fn spec_step_count(steps: Option<u32>) -> nat {
    match steps {
        Some(s) => if s < 2 { 1 } else { (s - 1) as nat },
        None => 0,
    }
}

/// What a parameter reports as its step count: `max(steps, 2) - 1` for one with `steps`
/// values, 0 for a continuous one. It is also the top of a stepped parameter's plain range.
pub fn step_count(steps: Option<u32>) -> (r: u32)
    ensures
        r == spec_step_count(steps),
{
    match steps {
        Some(s) => {
            if s < 2 {
                1
            } else {
                s - 1
            }
        },
        None => 0,
    }
}

/// The CLAP flags of a parameter: automatable, and stepped when it has a number of steps.
pub fn clap_param_flags(steps: Option<u32>) -> (r: u32)
    ensures
        r == (if steps is Some {
            CLAP_PARAM_IS_AUTOMATABLE | CLAP_PARAM_IS_STEPPED
        } else {
            CLAP_PARAM_IS_AUTOMATABLE
        }),
{
    let mut flags: u32 = CLAP_PARAM_IS_AUTOMATABLE;
    if steps.is_some() {
        flags = flags | CLAP_PARAM_IS_STEPPED;
    }
    flags
}

} // verus!
