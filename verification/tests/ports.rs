use coupler::bus::{BusDir, BusInfo, Layout};
use coupler::ports::{
    audio_port_info, audio_ports_config, format_to_speaker_arrangement, layouts_equal,
    set_bus_arrangements, speaker_arrangement_to_format, vst3_bus_info, ArrangementAnswer,
    AudioPortInfo, PortsConfig, Vst3BusInfo, SPEAKER_ARR_MONO, SPEAKER_ARR_STEREO,
};
use coupler::scratch::bus_maps;

fn bus(name: &str, dir: BusDir) -> BusInfo<'_> {
    BusInfo { name, dir }
}

#[test]
fn speaker_arrangements_round_trip() {
    assert_eq!(format_to_speaker_arrangement(&Layout::Mono), SPEAKER_ARR_MONO);
    assert_eq!(format_to_speaker_arrangement(&Layout::Stereo), SPEAKER_ARR_STEREO);
    for layout in [Layout::Mono, Layout::Stereo] {
        assert_eq!(speaker_arrangement_to_format(format_to_speaker_arrangement(&layout)), Some(layout));
    }
    assert_eq!(speaker_arrangement_to_format(0x7), None);
    assert_eq!(speaker_arrangement_to_format(0), None);
}

#[test]
fn bus_maps_split_buses_by_direction() {
    let buses = [bus("Main", BusDir::InOut), bus("Side", BusDir::In), bus("Aux", BusDir::Out)];
    let (inputs, outputs) = bus_maps(&buses);
    assert_eq!(inputs, vec![0, 1]);
    assert_eq!(outputs, vec![0, 2]);
}

fn stereo_effect() -> Vec<BusInfo<'static>> {
    vec![bus("Input", BusDir::In), bus("Output", BusDir::Out)]
}

#[test]
fn bus_arrangements_accept_a_supported_layout() {
    let buses = stereo_effect();
    let layouts = vec![vec![Layout::Stereo, Layout::Stereo], vec![Layout::Mono, Layout::Mono]];
    assert_eq!(
        set_bus_arrangements(&buses, 1, 1, &[SPEAKER_ARR_MONO], &[SPEAKER_ARR_MONO], &layouts),
        ArrangementAnswer::Accepted(vec![Layout::Mono, Layout::Mono])
    );
}

#[test]
fn bus_arrangements_reject_unsupported_or_unknown_layouts() {
    let buses = stereo_effect();
    let layouts = vec![vec![Layout::Stereo, Layout::Stereo]];
    assert_eq!(
        set_bus_arrangements(&buses, 1, 1, &[SPEAKER_ARR_MONO], &[SPEAKER_ARR_STEREO], &layouts),
        ArrangementAnswer::Rejected
    );
    assert_eq!(
        set_bus_arrangements(&buses, 1, 1, &[0x7], &[SPEAKER_ARR_STEREO], &layouts),
        ArrangementAnswer::Rejected
    );
}

#[test]
fn bus_arrangements_check_the_counts() {
    let buses = stereo_effect();
    let layouts = vec![vec![Layout::Stereo, Layout::Stereo]];
    assert_eq!(
        set_bus_arrangements(&buses, 2, 1, &[SPEAKER_ARR_STEREO, SPEAKER_ARR_STEREO], &[SPEAKER_ARR_STEREO], &layouts),
        ArrangementAnswer::InvalidArgument
    );
    assert_eq!(
        set_bus_arrangements(&buses, 1, 0, &[SPEAKER_ARR_STEREO], &[], &layouts),
        ArrangementAnswer::InvalidArgument
    );
}

#[test]
fn in_out_bus_needs_the_same_arrangement_on_both_sides() {
    let buses = vec![bus("Main", BusDir::InOut)];
    let layouts = vec![vec![Layout::Stereo]];
    assert_eq!(
        set_bus_arrangements(&buses, 1, 1, &[SPEAKER_ARR_MONO], &[SPEAKER_ARR_STEREO], &layouts),
        ArrangementAnswer::Rejected
    );
    assert_eq!(
        set_bus_arrangements(&buses, 1, 1, &[SPEAKER_ARR_STEREO], &[SPEAKER_ARR_STEREO], &layouts),
        ArrangementAnswer::Accepted(vec![Layout::Stereo])
    );
}

#[test]
fn layouts_compare_elementwise() {
    assert!(layouts_equal(&vec![Layout::Mono, Layout::Stereo], &vec![Layout::Mono, Layout::Stereo]));
    assert!(!layouts_equal(&vec![Layout::Mono], &vec![Layout::Stereo]));
    assert!(!layouts_equal(&vec![Layout::Mono], &vec![Layout::Mono, Layout::Mono]));
}

#[test]
fn vst3_bus_info_reports_channels_and_main_bus() {
    let buses = [bus("Main", BusDir::In), bus("Side", BusDir::In), bus("Out", BusDir::Out)];
    let formats = [Layout::Stereo, Layout::Mono, Layout::Stereo];
    let (inputs, _) = bus_maps(&buses);
    assert_eq!(
        vst3_bus_info(&inputs, &buses, &formats, 0),
        Some(Vst3BusInfo { bus_index: 0, channel_count: 2, main: true })
    );
    assert_eq!(
        vst3_bus_info(&inputs, &buses, &formats, 1),
        Some(Vst3BusInfo { bus_index: 1, channel_count: 1, main: false })
    );
    assert_eq!(vst3_bus_info(&inputs, &buses, &formats, 2), None);
    assert_eq!(vst3_bus_info(&inputs, &buses, &formats, -1), None);
}

#[test]
fn clap_port_info_pairs_in_out_buses() {
    let buses = [bus("Main", BusDir::InOut), bus("Side", BusDir::In), bus("Aux", BusDir::Out)];
    let formats = [Layout::Stereo, Layout::Mono, Layout::Mono];
    let (inputs, outputs) = bus_maps(&buses);
    assert_eq!(
        audio_port_info(&buses, &inputs, &outputs, &formats, 0, true),
        Some(AudioPortInfo { id: 0, main: true, channel_count: 2, layout: Layout::Stereo, in_place_pair: Some(0) })
    );
    assert_eq!(
        audio_port_info(&buses, &inputs, &outputs, &formats, 1, true),
        Some(AudioPortInfo { id: 1, main: false, channel_count: 1, layout: Layout::Mono, in_place_pair: None })
    );
    assert_eq!(
        audio_port_info(&buses, &inputs, &outputs, &formats, 1, false),
        Some(AudioPortInfo { id: 1, main: false, channel_count: 1, layout: Layout::Mono, in_place_pair: None })
    );
    assert_eq!(audio_port_info(&buses, &inputs, &outputs, &formats, 2, true), None);
}

#[test]
fn clap_ports_config_reports_main_layouts() {
    let buses = [bus("In", BusDir::In), bus("Out", BusDir::Out)];
    let (inputs, outputs) = bus_maps(&buses);
    let layouts = vec![vec![Layout::Stereo, Layout::Stereo], vec![Layout::Mono, Layout::Stereo]];
    assert_eq!(
        audio_ports_config(&layouts, &inputs, &outputs, 1),
        Some(PortsConfig {
            id: 1,
            input_port_count: 1,
            output_port_count: 1,
            main_input: Some(Layout::Mono),
            main_output: Some(Layout::Stereo),
        })
    );
    assert_eq!(audio_ports_config(&layouts, &inputs, &outputs, 2), None);
}
