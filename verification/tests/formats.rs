use coupler::auv2::{lookup, method_status, AuMethod, AUDIO_UNIMPLEMENTED_ERROR, NO_ERR};
use coupler::clap_ext::{
    process_status, ClapProcessStatus,
    extension_for, extension_id, port_type, read_result, write_result, ClapExtension, StreamError,
};
use coupler::param_info::{clap_param_flags, step_count, CLAP_PARAM_IS_AUTOMATABLE, CLAP_PARAM_IS_STEPPED};
use coupler::scratch::ScratchBuffers;
use coupler::vst3_component::{
    activate_bus, bus_arrangement, bus_count, can_process_sample_size, BusSide, Vst3Result,
    BUS_INPUT, BUS_OUTPUT, MEDIA_AUDIO, MEDIA_EVENT,
};
use coupler::vst3_component::{audio_side, process_result, process_step, read_outcome, write_outcome, ProcessStep};
use coupler::bus::Layout;
use coupler::ports::{SPEAKER_ARR_MONO, SPEAKER_ARR_STEREO};

#[test]
fn au_lookup_finds_each_selector() {
    assert_eq!(lookup(1), Some(AuMethod::Initialize));
    assert_eq!(lookup(2), Some(AuMethod::Uninitialize));
    assert_eq!(lookup(14), Some(AuMethod::Render));
    assert_eq!(lookup(0x12), Some(AuMethod::RemovePropertyListenerWithUserData));
    assert_eq!(lookup(0x15), Some(AuMethod::ProcessMultiple));
    assert_eq!(lookup(0), None);
    assert_eq!(lookup(8), None);
    assert_eq!(lookup(0x16), None);
    assert_eq!(lookup(-1), None);
    let mut found = 0;
    for selector in -100..100 {
        if lookup(selector).is_some() {
            found += 1;
        }
    }
    assert_eq!(found, 18);
}

#[test]
fn au_methods_answer_unimplemented_but_for_initialization() {
    assert_eq!(method_status(AuMethod::Initialize), NO_ERR);
    assert_eq!(method_status(AuMethod::Uninitialize), NO_ERR);
    assert_eq!(method_status(AuMethod::Render), AUDIO_UNIMPLEMENTED_ERROR);
    assert_eq!(method_status(AuMethod::GetProperty), -4);
}

#[test]
fn clap_extensions_by_id() {
    assert_eq!(extension_for(b"clap.audio-ports", false), Some(ClapExtension::AudioPorts));
    assert_eq!(extension_for(b"clap.audio-ports-config", false), Some(ClapExtension::AudioPortsConfig));
    assert_eq!(extension_for(b"clap.params", true), Some(ClapExtension::Params));
    assert_eq!(extension_for(b"clap.state", false), Some(ClapExtension::State));
    assert_eq!(extension_for(b"clap.gui", true), Some(ClapExtension::Gui));
    assert_eq!(extension_for(b"clap.gui", false), None);
    assert_eq!(extension_for(b"clap.audio-ports-conf", false), None);
    assert_eq!(extension_for(b"", false), None);
    for ext in [
        ClapExtension::AudioPorts,
        ClapExtension::AudioPortsConfig,
        ClapExtension::Params,
        ClapExtension::State,
        ClapExtension::Gui,
    ] {
        assert_eq!(extension_for(extension_id(ext).as_bytes(), true), Some(ext));
    }
}

#[test]
fn stream_results() {
    assert_eq!(read_result(-1), Err(StreamError::ReadFailed));
    assert_eq!(write_result(-1), Err(StreamError::WriteFailed));
    assert_eq!(read_result(12), Ok(12));
    assert_eq!(write_result(0), Ok(0));
    assert_eq!(StreamError::ReadFailed.message(), "failed to read from stream");
    assert_eq!(StreamError::WriteFailed.message(), "failed to write to stream");
}

#[test]
fn step_counts_and_flags() {
    assert_eq!(step_count(None), 0);
    assert_eq!(step_count(Some(0)), 1);
    assert_eq!(step_count(Some(1)), 1);
    assert_eq!(step_count(Some(2)), 1);
    assert_eq!(step_count(Some(5)), 4);
    assert_eq!(clap_param_flags(None), CLAP_PARAM_IS_AUTOMATABLE);
    assert_eq!(clap_param_flags(Some(3)), CLAP_PARAM_IS_AUTOMATABLE | CLAP_PARAM_IS_STEPPED);
    assert_eq!(clap_param_flags(Some(3)), 33);
}

#[test]
fn vst3_bus_requests() {
    assert_eq!(audio_side(MEDIA_AUDIO, BUS_INPUT), Some(BusSide::Input));
    assert_eq!(audio_side(MEDIA_AUDIO, BUS_OUTPUT), Some(BusSide::Output));
    assert_eq!(audio_side(MEDIA_EVENT, BUS_INPUT), None);
    assert_eq!(audio_side(MEDIA_AUDIO, 2), None);
    assert_eq!(bus_count(MEDIA_AUDIO, BUS_INPUT, 2, 3), 2);
    assert_eq!(bus_count(MEDIA_AUDIO, BUS_OUTPUT, 2, 3), 3);
    assert_eq!(bus_count(MEDIA_EVENT, BUS_OUTPUT, 2, 3), 0);
    assert_eq!(bus_count(MEDIA_AUDIO, 7, 2, 3), 0);
}

#[test]
fn vst3_sample_sizes() {
    assert_eq!(can_process_sample_size(0), Vst3Result::ResultOk);
    assert_eq!(can_process_sample_size(1), Vst3Result::ResultFalse);
    assert_eq!(can_process_sample_size(2), Vst3Result::InvalidArgument);
}

#[test]
fn vst3_bus_arrangement_of_current_layout() {
    let inputs = [0usize];
    let outputs = [1usize];
    let formats = [Layout::Mono, Layout::Stereo];
    assert_eq!(bus_arrangement(BUS_INPUT, 0, &inputs, &outputs, &formats), Some(SPEAKER_ARR_MONO));
    assert_eq!(bus_arrangement(BUS_OUTPUT, 0, &inputs, &outputs, &formats), Some(SPEAKER_ARR_STEREO));
    assert_eq!(bus_arrangement(BUS_OUTPUT, 1, &inputs, &outputs, &formats), None);
    assert_eq!(bus_arrangement(5, 0, &inputs, &outputs, &formats), None);
}

#[test]
fn vst3_activate_bus() {
    let mut scratch = ScratchBuffers::new(1, 2);
    assert!(activate_bus(&mut scratch, MEDIA_AUDIO, BUS_OUTPUT, 1, 0));
    assert!(activate_bus(&mut scratch, MEDIA_AUDIO, BUS_INPUT, 0, 1));
    assert!(!activate_bus(&mut scratch, MEDIA_AUDIO, BUS_INPUT, 1, 1));
    assert!(!activate_bus(&mut scratch, MEDIA_EVENT, BUS_INPUT, 0, 1));
    assert!(!activate_bus(&mut scratch, MEDIA_AUDIO, BUS_INPUT, -1, 1));
}

#[test]
fn clap_port_types() {
    assert_eq!(port_type(Layout::Mono), "mono");
    assert_eq!(port_type(Layout::Stereo), "stereo");
}

#[test]
fn vst3_stream_outcomes() {
    assert_eq!(read_outcome(true, 16), Ok(16));
    assert_eq!(read_outcome(false, 16), Err(StreamError::ReadFailed));
    assert_eq!(write_outcome(true, 0), Ok(0));
    assert_eq!(write_outcome(false, 3), Err(StreamError::WriteFailed));
}

#[test]
fn process_decisions() {
    assert_eq!(process_step(false, Ok(Some(4))), ProcessStep::NotInitialized);
    assert_eq!(process_step(true, Err(())), ProcessStep::InvalidArgument);
    assert_eq!(process_step(true, Ok(None)), ProcessStep::Flush);
    assert_eq!(process_step(true, Ok(Some(4))), ProcessStep::Process(4));
    assert_eq!(process_result(ProcessStep::NotInitialized), Vst3Result::NotInitialized);
    assert_eq!(process_result(ProcessStep::InvalidArgument), Vst3Result::InvalidArgument);
    assert_eq!(process_result(ProcessStep::Flush), Vst3Result::ResultOk);
    assert_eq!(process_result(ProcessStep::Process(4)), Vst3Result::ResultOk);
    assert_eq!(process_status(true, true), ClapProcessStatus::Continue);
    assert_eq!(process_status(false, true), ClapProcessStatus::Error);
    assert_eq!(process_status(true, false), ClapProcessStatus::Error);
}
