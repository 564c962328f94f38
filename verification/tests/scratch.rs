use coupler::buffers::{BufferData, BufferType};
use coupler::bus::{BusDir, BusInfo, Layout};
use coupler::scratch::{bus_maps, buffer_layout, clap_buffer_ptrs, ChannelPtr, ClapHostBus, HostBus, ScratchBuffers};

fn bus(name: &str, dir: BusDir) -> BusInfo<'_> {
    BusInfo { name, dir }
}

fn host(channels: &[usize]) -> HostBus {
    HostBus { num_channels: channels.len() as i32, channels: channels.to_vec() }
}

struct Setup {
    buses: Vec<BusInfo<'static>>,
    formats: Vec<Layout>,
    inputs: Vec<usize>,
    outputs: Vec<usize>,
    scratch: ScratchBuffers,
}

fn setup(buses: Vec<BusInfo<'static>>, formats: Vec<Layout>, max: usize) -> Setup {
    let (inputs, outputs) = bus_maps(&buses);
    let mut scratch = ScratchBuffers::new(inputs.len(), outputs.len());
    scratch.resize(&buses, &formats, max);
    Setup { buses, formats, inputs, outputs, scratch }
}

impl Setup {
    fn get(&mut self, len: i32, ins: &[HostBus], outs: &[HostBus]) -> Result<Option<usize>, ()> {
        self.scratch.get_buffers(&self.buses, &self.inputs, &self.outputs, &self.formats, 64, len, ins, outs)
    }
}

#[test]
fn buffer_layout_lays_buses_out_in_order() {
    let buses = [bus("In", BusDir::In), bus("Out", BusDir::Out), bus("Main", BusDir::InOut)];
    let (data, total) = buffer_layout(&buses, &[Layout::Stereo, Layout::Mono, Layout::Stereo]);
    assert_eq!(total, 5);
    assert_eq!(
        data,
        vec![
            BufferData { buffer_type: BufferType::Const, start: 0, end: 2 },
            BufferData { buffer_type: BufferType::Mut, start: 2, end: 3 },
            BufferData { buffer_type: BufferType::Mut, start: 3, end: 5 },
        ]
    );
}

#[test]
fn resize_sizes_scratch_and_silence() {
    let s = setup(vec![bus("In", BusDir::In), bus("Main", BusDir::InOut)], vec![Layout::Stereo, Layout::Stereo], 64);
    // Four channels plus two in-out channels, of 64 samples each.
    assert_eq!(s.scratch.scratch_size(), 64 * 6);
    assert_eq!(s.scratch.silence_size(), 64);
    assert_eq!(s.scratch.channel_ptrs().len(), 4);
    assert_eq!(s.scratch.buffer_data().len(), 2);
}

#[test]
fn host_buffers_are_used_directly() {
    let mut s = setup(vec![bus("In", BusDir::In), bus("Out", BusDir::Out)], vec![Layout::Stereo, Layout::Stereo], 64);
    assert_eq!(s.get(32, &[host(&[100, 101])], &[host(&[200, 201])]), Ok(Some(32)));
    assert_eq!(
        s.scratch.channel_ptrs(),
        &[ChannelPtr::Host(100), ChannelPtr::Host(101), ChannelPtr::Host(200), ChannelPtr::Host(201)]
    );
    assert!(s.scratch.planned_saves().is_empty());
    assert!(s.scratch.planned_moves().is_empty());
}

#[test]
fn input_aliased_by_an_output_is_saved_to_scratch() {
    let mut s = setup(vec![bus("In", BusDir::In), bus("Out", BusDir::Out)], vec![Layout::Stereo, Layout::Stereo], 64);
    assert_eq!(s.get(16, &[host(&[200, 101])], &[host(&[200, 201])]), Ok(Some(16)));
    let ptrs = s.scratch.channel_ptrs();
    assert!(matches!(ptrs[0], ChannelPtr::Scratch(_)));
    assert_eq!(ptrs[1], ChannelPtr::Host(101));
    assert_eq!(&ptrs[2..], &[ChannelPtr::Host(200), ChannelPtr::Host(201)]);
    let saves = s.scratch.planned_saves();
    assert_eq!(saves.len(), 1);
    assert_eq!(saves[0].0, 200);
    assert_eq!(ptrs[0], ChannelPtr::Scratch(saves[0].1));
}

#[test]
fn inactive_output_gets_scratch_and_inactive_input_silence() {
    let mut s = setup(vec![bus("In", BusDir::In), bus("Out", BusDir::Out)], vec![Layout::Stereo, Layout::Mono], 64);
    s.scratch.set_output_active(0, false);
    s.scratch.set_input_active(0, false);
    assert_eq!(s.get(8, &[host(&[100, 101])], &[host(&[200])]), Ok(Some(8)));
    let ptrs = s.scratch.channel_ptrs();
    assert_eq!(&ptrs[0..2], &[ChannelPtr::Silence, ChannelPtr::Silence]);
    assert!(matches!(ptrs[2], ChannelPtr::Scratch(_)));
}

#[test]
fn in_out_bus_with_separate_buffers_copies_input_to_output() {
    let mut s = setup(vec![bus("Main", BusDir::InOut)], vec![Layout::Stereo], 64);
    assert_eq!(s.get(64, &[host(&[100, 101])], &[host(&[200, 201])]), Ok(Some(64)));
    assert_eq!(s.scratch.channel_ptrs(), &[ChannelPtr::Host(200), ChannelPtr::Host(201)]);
    assert_eq!(
        s.scratch.planned_moves(),
        &[(ChannelPtr::Host(100), ChannelPtr::Host(200)), (ChannelPtr::Host(101), ChannelPtr::Host(201))]
    );
}

#[test]
fn in_out_bus_processed_in_place_needs_no_copy() {
    let mut s = setup(vec![bus("Main", BusDir::InOut)], vec![Layout::Stereo], 64);
    assert_eq!(s.get(10, &[host(&[200, 201])], &[host(&[200, 201])]), Ok(Some(10)));
    assert!(s.scratch.planned_moves().is_empty());
}

#[test]
fn inactive_in_out_input_is_silenced_by_copy() {
    let mut s = setup(vec![bus("Main", BusDir::InOut)], vec![Layout::Mono], 64);
    s.scratch.set_input_active(0, false);
    assert_eq!(s.get(10, &[host(&[100])], &[host(&[200])]), Ok(Some(10)));
    assert_eq!(s.scratch.planned_moves(), &[(ChannelPtr::Silence, ChannelPtr::Host(200))]);
}

#[test]
fn get_buffers_errors() {
    let mut s = setup(vec![bus("In", BusDir::In), bus("Out", BusDir::Out)], vec![Layout::Stereo, Layout::Stereo], 64);
    // Too long for the maximum block size.
    assert_eq!(s.get(65, &[host(&[1, 2])], &[host(&[3, 4])]), Err(()));
    // Nothing to process: no buffers, whatever the host passed.
    assert_eq!(s.get(0, &[], &[]), Ok(None));
    // Wrong channel count.
    assert_eq!(s.get(4, &[host(&[1])], &[host(&[3, 4])]), Err(()));
    // Wrong bus count.
    assert_eq!(s.get(4, &[host(&[1, 2])], &[]), Err(()));
}

#[test]
fn clap_buffer_ptrs_point_at_host_buffers_and_list_copies() {
    let buses = [bus("Side", BusDir::In), bus("Main", BusDir::InOut)];
    let formats = [Layout::Mono, Layout::Stereo];
    let (inputs, outputs) = bus_maps(&buses);
    let (data, total) = buffer_layout(&buses, &formats);
    let mut ptrs = vec![0usize; total];
    let ins = [
        ClapHostBus { channel_count: 1, channels: vec![10] },
        ClapHostBus { channel_count: 2, channels: vec![20, 31] },
    ];
    let outs = [ClapHostBus { channel_count: 2, channels: vec![30, 31] }];
    let (moves, ok) = clap_buffer_ptrs(&data, &inputs, &outputs, &buses, &formats, &ins, &outs, &mut ptrs);
    assert!(ok);
    assert_eq!(ptrs, vec![10, 30, 31]);
    assert_eq!(moves, vec![(20, 30)]);

    let bad = [ClapHostBus { channel_count: 1, channels: vec![30] }];
    let (_, ok) = clap_buffer_ptrs(&data, &inputs, &outputs, &buses, &formats, &ins, &bad, &mut ptrs);
    assert!(!ok);
}

#[test]
fn in_out_input_aliased_by_another_output_is_copied_from_its_save() {
    let mut s = setup(vec![bus("Main", BusDir::InOut), bus("Aux", BusDir::Out)], vec![Layout::Stereo, Layout::Mono], 64);
    assert_eq!(s.get(16, &[host(&[300, 201])], &[host(&[200, 201]), host(&[300])]), Ok(Some(16)));
    let saves = s.scratch.planned_saves();
    assert_eq!(saves.len(), 1);
    assert_eq!(saves[0].0, 300);
    // Channel 1 is processed in place: no copy; channel 0 comes from the saved input.
    assert_eq!(s.scratch.planned_moves(), &[(ChannelPtr::Scratch(saves[0].1), ChannelPtr::Host(200))]);
}
