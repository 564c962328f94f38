use coupler::bus::{validate_bus_configs, BusConfigError, BusDir, BusInfo, IoBusConfig, Layout};
use coupler::collect::{owned_bus, owned_bus_config};
use coupler::bus::BusConfig;

fn bus(name: &str, dir: BusDir) -> BusInfo<'_> {
    BusInfo { name, dir }
}

#[test]
fn layout_channel_counts() {
    assert_eq!(Layout::Mono.channel_count(), 1);
    assert_eq!(Layout::Stereo.channel_count(), 2);
}

#[test]
fn valid_configs_pass() {
    let inputs = [bus("In", BusDir::In)];
    let outputs = [bus("Out", BusDir::Out)];
    let configs = [
        IoBusConfig { inputs: vec![Layout::Stereo], outputs: vec![Layout::Stereo] },
        IoBusConfig { inputs: vec![Layout::Mono], outputs: vec![Layout::Mono] },
    ];
    assert_eq!(validate_bus_configs(&inputs, &outputs, &configs), Ok(()));
}

#[test]
fn wrong_input_count_is_reported() {
    let inputs = [bus("In", BusDir::In)];
    let outputs = [bus("Out", BusDir::Out)];
    let configs = [
        IoBusConfig { inputs: vec![Layout::Stereo], outputs: vec![Layout::Stereo] },
        IoBusConfig { inputs: vec![], outputs: vec![Layout::Mono] },
    ];
    assert_eq!(
        validate_bus_configs(&inputs, &outputs, &configs),
        Err(BusConfigError::InputCount { config: 1, found: 0, expected: 1 })
    );
}

#[test]
fn output_count_is_checked_against_the_output_buses() {
    let inputs = [bus("In", BusDir::In)];
    let outputs = [bus("Out A", BusDir::Out), bus("Out B", BusDir::Out)];
    let good =
        [IoBusConfig { inputs: vec![Layout::Stereo], outputs: vec![Layout::Stereo, Layout::Mono] }];
    assert_eq!(validate_bus_configs(&inputs, &outputs, &good), Ok(()));
    let bad = [IoBusConfig { inputs: vec![Layout::Stereo], outputs: vec![Layout::Stereo] }];
    assert_eq!(
        validate_bus_configs(&inputs, &outputs, &bad),
        Err(BusConfigError::OutputCount { config: 0, found: 1, expected: 2 })
    );
}

#[test]
fn no_config_has_no_default() {
    let inputs = [bus("In", BusDir::In)];
    let outputs = [bus("Out", BusDir::Out)];
    assert_eq!(validate_bus_configs(&inputs, &outputs, &[]), Err(BusConfigError::NoDefault));
}

#[test]
fn owned_copies_keep_names_and_layouts() {
    let owned = owned_bus(&bus("Sidechain", BusDir::In));
    assert_eq!(owned.name, "Sidechain");
    assert_eq!(owned.dir, BusDir::In);

    let layouts = [Layout::Stereo, Layout::Mono];
    let config = owned_bus_config(&BusConfig { layouts: &layouts });
    assert_eq!(config.layouts, vec![Layout::Stereo, Layout::Mono]);
}
