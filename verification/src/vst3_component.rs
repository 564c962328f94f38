use vstd::prelude::*;

use crate::bus::{BusDir, Layout};
use crate::clap_ext::StreamError;
use crate::ports::{format_to_speaker_arrangement, spec_speaker_arrangement};
use crate::scratch::ScratchBuffers;

verus! {

/// `MediaTypes::kAudio`.
pub const MEDIA_AUDIO: i32 = 0;

/// `MediaTypes::kEvent`.
pub const MEDIA_EVENT: i32 = 1;

/// `BusDirections::kInput`.
pub const BUS_INPUT: i32 = 0;

/// `BusDirections::kOutput`.
pub const BUS_OUTPUT: i32 = 1;

/// `SymbolicSampleSizes::kSample32`.
pub const SAMPLE_32: i32 = 0;

/// `SymbolicSampleSizes::kSample64`.
pub const SAMPLE_64: i32 = 1;

/// The side of the plugin that a VST3 host's bus request is about.
#[derive(Clone, Copy, PartialEq, Eq, Debug, Structural)]
pub enum BusSide {
    Input,
    Output,
}

/// The side a direction names, if it names one.
pub open spec fn spec_side(dir: i32) -> Option<BusSide> {
    if dir == BUS_INPUT {
        Some(BusSide::Input)
    } else if dir == BUS_OUTPUT {
        Some(BusSide::Output)
    } else {
        None
    }
}

/// The side a direction names, if it names one.
pub fn side(dir: i32) -> (r: Option<BusSide>)
    ensures
        r == spec_side(dir),
{
    if dir == BUS_INPUT {
        Some(BusSide::Input)
    } else if dir == BUS_OUTPUT {
        Some(BusSide::Output)
    } else {
        None
    }
}

/// The side an audio-bus request is about: none for another media type or direction.
pub fn audio_side(media_type: i32, dir: i32) -> (r: Option<BusSide>)
    ensures
        r == (if media_type == MEDIA_AUDIO {
            spec_side(dir)
        } else {
            None
        }),
{
    if media_type == MEDIA_AUDIO {
        side(dir)
    } else {
        None
    }
}

/// Answers `getBusCount`: the number of input (or output) audio buses; 0 for event buses and
/// anything else.
pub fn bus_count(media_type: i32, dir: i32, input_count: usize, output_count: usize) -> (r: i32)
    ensures
        r == (match (if media_type == MEDIA_AUDIO {
            spec_side(dir)
        } else {
            None
        }) {
            Some(BusSide::Input) => input_count as i32,
            Some(BusSide::Output) => output_count as i32,
            None => 0,
        }),
{
    match audio_side(media_type, dir) {
        Some(BusSide::Input) => input_count as i32,
        Some(BusSide::Output) => output_count as i32,
        None => 0,
    }
}

/// The outcome of a VST3 call, before it becomes the platform's `tresult`.
#[derive(Clone, Copy, PartialEq, Eq, Debug, Structural)]
pub enum Vst3Result {
    /// `kResultOk`, which is also `kResultTrue`.
    ResultOk,
    /// `kResultFalse`.
    ResultFalse,
    /// `kInvalidArgument`.
    InvalidArgument,
    /// `kNotInitialized`.
    NotInitialized,
    /// `kNotImplemented`.
    NotImplemented,
}

/// Answers `canProcessSampleSize`: 32-bit samples yes, 64-bit samples no, anything else is an
/// invalid argument.
pub fn can_process_sample_size(symbolic_sample_size: i32) -> (r: Vst3Result)
    ensures
        r == (if symbolic_sample_size == SAMPLE_32 {
            Vst3Result::ResultOk
        } else if symbolic_sample_size == SAMPLE_64 {
            Vst3Result::ResultFalse
        } else {
            Vst3Result::InvalidArgument
        }),
{
    if symbolic_sample_size == SAMPLE_32 {
        Vst3Result::ResultOk
    } else if symbolic_sample_size == SAMPLE_64 {
        Vst3Result::ResultFalse
    } else {
        Vst3Result::InvalidArgument
    }
}

/// Answers `getBusArrangement` for the `index`-th input (or output) bus under the layout
/// `formats`: the speaker arrangement of that bus's format, or `None` (an invalid argument)
/// where the direction, the index or the bus is unknown.
pub fn bus_arrangement(
    dir: i32,
    index: i32,
    input_bus_map: &[usize],
    output_bus_map: &[usize],
    formats: &[Layout],
) -> (r: Option<u64>)
    ensures
        ({
            let i = index as usize;
            let map = match spec_side(dir) {
                Some(BusSide::Input) => Some(input_bus_map@),
                Some(BusSide::Output) => Some(output_bus_map@),
                None => None,
            };
            match map {
                Some(m) => if i < m.len() && m[i as int] < formats@.len() {
                    r == Some(spec_speaker_arrangement(formats@[m[i as int] as int]))
                } else {
                    r is None
                },
                None => r is None,
            }
        }),
{
    let map = match side(dir) {
        Some(BusSide::Input) => input_bus_map,
        Some(BusSide::Output) => output_bus_map,
        None => {
            return None;
        },
    };
    let i = index as usize;
    if i < map.len() {
        let bus_index = map[i];
        if bus_index < formats.len() {
            return Some(format_to_speaker_arrangement(&formats[bus_index]));
        }
    }
    None
}

/// Answers `activateBus`: marks the `index`-th input (or output) audio bus active or not
/// (`state` nonzero means active) and returns true, or returns false (an invalid argument),
/// changing nothing, where the media type, the direction or the index is unknown.
pub fn activate_bus(
    scratch: &mut ScratchBuffers,
    media_type: i32,
    dir: i32,
    index: i32,
    state: u8,
) -> (r: bool)
    ensures
        final(scratch).data() == old(scratch).data(),
        final(scratch).ptrs() == old(scratch).ptrs(),
        final(scratch).capacity() == old(scratch).capacity(),
        final(scratch).scratch_len() == old(scratch).scratch_len(),
        final(scratch).silence_len() == old(scratch).silence_len(),
        forall|d: Seq<BusDir>, f: Seq<Layout>, m: nat|
            old(scratch).laid_out(d, f, m) ==> #[trigger] final(scratch).laid_out(d, f, m),
        ({
            let i = index as usize;
            match (if media_type == MEDIA_AUDIO {
                spec_side(dir)
            } else {
                None
            }) {
                Some(BusSide::Input) => if i < old(scratch).inputs_active().len() {
                    &&& r
                    &&& final(scratch).inputs_active() == old(scratch).inputs_active().update(
                        i as int,
                        state != 0,
                    )
                    &&& final(scratch).outputs_active() == old(scratch).outputs_active()
                } else {
                    !r && *final(scratch) == *old(scratch)
                },
                Some(BusSide::Output) => if i < old(scratch).outputs_active().len() {
                    &&& r
                    &&& final(scratch).outputs_active() == old(scratch).outputs_active().update(
                        i as int,
                        state != 0,
                    )
                    &&& final(scratch).inputs_active() == old(scratch).inputs_active()
                } else {
                    !r && *final(scratch) == *old(scratch)
                },
                None => !r && *final(scratch) == *old(scratch),
            }
        }),
{
    let i = index as usize;
    match audio_side(media_type, dir) {
        Some(BusSide::Input) => {
            if i < scratch.input_count() {
                scratch.set_input_active(i, state != 0);
                return true;
            }
        },
        Some(BusSide::Output) => {
            if i < scratch.output_count() {
                scratch.set_output_active(i, state != 0);
                return true;
            }
        },
        None => {},
    }
    false
}

/// What one VST3 `process` call comes to: no engine to run (`kNotInitialized`), buffers that do
/// not fit (`kInvalidArgument`), a flush of the events for an empty block, or processing a
/// block of the given length (both `kResultOk`).
#[derive(Clone, Copy, PartialEq, Eq, Debug, Structural)]
pub enum ProcessStep {
    NotInitialized,
    InvalidArgument,
    Flush,
    Process(usize),
}

/// Decides a VST3 `process` call from whether the processor is active and what `get_buffers`
/// gave.
pub fn process_step(has_engine: bool, buffers: Result<Option<usize>, ()>) -> (r: ProcessStep)
    ensures
        r == (if !has_engine {
            ProcessStep::NotInitialized
        } else {
            match buffers {
                Err(()) => ProcessStep::InvalidArgument,
                Ok(None) => ProcessStep::Flush,
                Ok(Some(len)) => ProcessStep::Process(len),
            }
        }),
{
    if !has_engine {
        return ProcessStep::NotInitialized;
    }
    match buffers {
        Err(()) => ProcessStep::InvalidArgument,
        Ok(None) => ProcessStep::Flush,
        Ok(Some(len)) => ProcessStep::Process(len),
    }
}

/// The `tresult` a process step answers.
pub fn process_result(step: ProcessStep) -> (r: Vst3Result)
    ensures
        r == match step {
            ProcessStep::NotInitialized => Vst3Result::NotInitialized,
            ProcessStep::InvalidArgument => Vst3Result::InvalidArgument,
            _ => Vst3Result::ResultOk,
        },
{
    match step {
        ProcessStep::NotInitialized => Vst3Result::NotInitialized,
        ProcessStep::InvalidArgument => Vst3Result::InvalidArgument,
        _ => Vst3Result::ResultOk,
    }
}

/// What a VST3 stream's `read` reported, as an I/O result: the bytes it read when the call
/// returned `kResultOk` (`ok`), a failure otherwise.
pub fn read_outcome(ok: bool, bytes: i32) -> (r: Result<usize, StreamError>)
    ensures
        ok ==> r == Ok::<usize, StreamError>(bytes as usize),
        !ok ==> r == Err::<usize, StreamError>(StreamError::ReadFailed),
{
    if ok {
        Ok(bytes as usize)
    } else {
        Err(StreamError::ReadFailed)
    }
}

/// What a VST3 stream's `write` reported, as an I/O result: the bytes it wrote when the call
/// returned `kResultOk` (`ok`), a failure otherwise.
pub fn write_outcome(ok: bool, bytes: i32) -> (r: Result<usize, StreamError>)
    ensures
        ok ==> r == Ok::<usize, StreamError>(bytes as usize),
        !ok ==> r == Err::<usize, StreamError>(StreamError::WriteFailed),
{
    if ok {
        Ok(bytes as usize)
    } else {
        Err(StreamError::WriteFailed)
    }
}

} // verus!
