use vstd::prelude::*;

use crate::bus::Layout;
use crate::key::str_bytes;

verus! {

/// The CLAP extensions that a plugin instance offers its host.
#[derive(Clone, Copy, PartialEq, Eq, Debug, Structural)]
pub enum ClapExtension {
    AudioPorts,
    AudioPortsConfig,
    Params,
    State,
    Gui,
}

/// The identifier under which the host asks for each extension.
pub open spec fn spec_extension_id(ext: ClapExtension) -> Seq<u8> {
    match ext {
        ClapExtension::AudioPorts => str_bytes("clap.audio-ports"),
        ClapExtension::AudioPortsConfig => str_bytes("clap.audio-ports-config"),
        ClapExtension::Params => str_bytes("clap.params"),
        ClapExtension::State => str_bytes("clap.state"),
        ClapExtension::Gui => str_bytes("clap.gui"),
    }
}

/// The identifier of an extension, as text.
pub fn extension_id(ext: ClapExtension) -> (r: &'static str)
    ensures
        str_bytes(r) == spec_extension_id(ext),
{
    match ext {
        ClapExtension::AudioPorts => "clap.audio-ports",
        ClapExtension::AudioPortsConfig => "clap.audio-ports-config",
        ClapExtension::Params => "clap.params",
        ClapExtension::State => "clap.state",
        ClapExtension::Gui => "clap.gui",
    }
}

/// The extension a host asks for under `id` (the bytes of its C string), tried in the order
/// audio ports, audio ports configurations, parameters, state, GUI; the GUI is offered only
/// by a plugin that has a view.
pub open spec fn spec_extension_for(id: Seq<u8>, has_view: bool) -> Option<ClapExtension> {
    if id == spec_extension_id(ClapExtension::AudioPorts) {
        Some(ClapExtension::AudioPorts)
    } else if id == spec_extension_id(ClapExtension::AudioPortsConfig) {
        Some(ClapExtension::AudioPortsConfig)
    } else if id == spec_extension_id(ClapExtension::Params) {
        Some(ClapExtension::Params)
    } else if id == spec_extension_id(ClapExtension::State) {
        Some(ClapExtension::State)
    } else if id == spec_extension_id(ClapExtension::Gui) && has_view {
        Some(ClapExtension::Gui)
    } else {
        None
    }
}

/// Whether two byte strings are the same.
pub fn bytes_equal(a: &[u8], b: &[u8]) -> (r: bool)
    ensures
        r == (a@ == b@),
{
    if a.len() != b.len() {
        return false;
    }
    let mut i: usize = 0;
    while i < a.len()
        invariant
            a@.len() == b@.len(),
            i <= a@.len(),
            forall|k: int| 0 <= k < i ==> a@[k] == b@[k],
        decreases a@.len() - i,
    {
        if a[i] != b[i] {
            return false;
        }
        i = i + 1;
    }
    assert(a@ =~= b@);
    true
}

/// Whether `id` names extension `ext`.
fn names(id: &[u8], ext: ClapExtension) -> (r: bool)
    ensures
        r == (id@ == spec_extension_id(ext)),
{
    bytes_equal(id, extension_id(ext).as_bytes())
}

/// The extension a host asks for under `id`; see `spec_extension_for`.
pub fn extension_for(id: &[u8], has_view: bool) -> (r: Option<ClapExtension>)
    ensures
        r == spec_extension_for(id@, has_view),
{
    if names(id, ClapExtension::AudioPorts) {
        Some(ClapExtension::AudioPorts)
    } else if names(id, ClapExtension::AudioPortsConfig) {
        Some(ClapExtension::AudioPortsConfig)
    } else if names(id, ClapExtension::Params) {
        Some(ClapExtension::Params)
    } else if names(id, ClapExtension::State) {
        Some(ClapExtension::State)
    } else if has_view && names(id, ClapExtension::Gui) {
        Some(ClapExtension::Gui)
    } else {
        None
    }
}

/// The CLAP port type of a bus layout.
pub open spec fn spec_port_type(layout: Layout) -> Seq<u8> {
    match layout {
        Layout::Mono => str_bytes("mono"),
        Layout::Stereo => str_bytes("stereo"),
    }
}

/// The CLAP port type of a bus layout, `CLAP_PORT_MONO` or `CLAP_PORT_STEREO`.
pub fn port_type(layout: Layout) -> (r: &'static str)
    ensures
        str_bytes(r) == spec_port_type(layout),
{
    match layout {
        Layout::Mono => "mono",
        Layout::Stereo => "stereo",
    }
}

/// `CLAP_PROCESS_ERROR` and `CLAP_PROCESS_CONTINUE`: what a CLAP `process` call answers.
#[derive(Clone, Copy, PartialEq, Eq, Debug, Structural)]
pub enum ClapProcessStatus {
    Error,
    Continue,
}

/// The status of a CLAP `process` call: an error when the plugin is not active or the host's
/// buses do not fit the layout (see `clap_buffer_ptrs`), else continue.
pub fn process_status(has_engine: bool, buses_match: bool) -> (r: ClapProcessStatus)
    ensures
        r == (if has_engine && buses_match {
            ClapProcessStatus::Continue
        } else {
            ClapProcessStatus::Error
        }),
{
    if has_engine && buses_match {
        ClapProcessStatus::Continue
    } else {
        ClapProcessStatus::Error
    }
}

/// A host stream reported that it could not be read or written.
#[derive(Clone, Copy, PartialEq, Eq, Debug, Structural)]
pub enum StreamError {
    ReadFailed,
    WriteFailed,
}

impl StreamError {
    /// What went wrong, in words.
    pub fn message(&self) -> (r: &'static str)
        ensures
            r@ == (match self {
                StreamError::ReadFailed => "failed to read from stream"@,
                StreamError::WriteFailed => "failed to write to stream"@,
            }),
    {
        match self {
            StreamError::ReadFailed => "failed to read from stream",
            StreamError::WriteFailed => "failed to write to stream",
        }
    }
}

/// What a CLAP input stream's `read` returned, as an I/O result: -1 is a failure, any other
/// value the number of bytes read.
pub fn read_result(result: i64) -> (r: Result<usize, StreamError>)
    ensures
        result == -1 ==> r == Err::<usize, StreamError>(StreamError::ReadFailed),
        result != -1 ==> r == Ok::<usize, StreamError>(result as usize),
{
    if result == -1 {
        Err(StreamError::ReadFailed)
    } else {
        Ok(result as usize)
    }
}

/// What a CLAP output stream's `write` returned, as an I/O result: -1 is a failure, any other
/// value the number of bytes written.
pub fn write_result(result: i64) -> (r: Result<usize, StreamError>)
    ensures
        result == -1 ==> r == Err::<usize, StreamError>(StreamError::WriteFailed),
        result != -1 ==> r == Ok::<usize, StreamError>(result as usize),
{
    if result == -1 {
        Err(StreamError::WriteFailed)
    } else {
        Ok(result as usize)
    }
}

} // verus!
