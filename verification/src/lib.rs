//! The verified core of an audio plugin framework: parameter and gesture bookkeeping shared
//! between threads, bus layouts and the buffers handed to processors, event splitting, and the
//! decisions that the VST3, CLAP and Audio Unit entry points make.
use vstd::prelude::*;

pub mod auv2;
pub mod bits;
pub mod bitset;
pub mod buffers;
pub mod bus;
pub mod clap_events;
pub mod clap_ext;
pub mod collect;
pub mod events;
pub mod float;
pub mod id_map;
pub mod ids;
pub mod key;
pub mod param_gestures;
pub mod param_info;
pub mod params;
pub mod plugin;
pub mod ports;
pub mod scratch;
pub mod strings;
pub mod sync_cell;
pub mod triple_buffer;
pub mod vst3_component;
pub mod vst3_events;
pub mod vst3_params;

verus! {

} // verus!
