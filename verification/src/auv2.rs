use vstd::prelude::*;

verus! {

// Component selectors of the Audio Unit API, as the SDK's `AUComponent.h` numbers them.
pub const AUDIO_UNIT_INITIALIZE_SELECT: i16 = 0x0001;
pub const AUDIO_UNIT_UNINITIALIZE_SELECT: i16 = 0x0002;
pub const AUDIO_UNIT_GET_PROPERTY_INFO_SELECT: i16 = 0x0003;
pub const AUDIO_UNIT_GET_PROPERTY_SELECT: i16 = 0x0004;
pub const AUDIO_UNIT_SET_PROPERTY_SELECT: i16 = 0x0005;
pub const AUDIO_UNIT_GET_PARAMETER_SELECT: i16 = 0x0006;
pub const AUDIO_UNIT_SET_PARAMETER_SELECT: i16 = 0x0007;
pub const AUDIO_UNIT_RESET_SELECT: i16 = 0x0009;
pub const AUDIO_UNIT_ADD_PROPERTY_LISTENER_SELECT: i16 = 0x000A;
pub const AUDIO_UNIT_REMOVE_PROPERTY_LISTENER_SELECT: i16 = 0x000B;
pub const AUDIO_UNIT_RENDER_SELECT: i16 = 0x000E;
pub const AUDIO_UNIT_ADD_RENDER_NOTIFY_SELECT: i16 = 0x000F;
pub const AUDIO_UNIT_REMOVE_RENDER_NOTIFY_SELECT: i16 = 0x0010;
pub const AUDIO_UNIT_SCHEDULE_PARAMETERS_SELECT: i16 = 0x0011;
pub const AUDIO_UNIT_REMOVE_PROPERTY_LISTENER_WITH_USER_DATA_SELECT: i16 = 0x0012;
pub const AUDIO_UNIT_COMPLEX_RENDER_SELECT: i16 = 0x0013;
pub const AUDIO_UNIT_PROCESS_SELECT: i16 = 0x0014;
pub const AUDIO_UNIT_PROCESS_MULTIPLE_SELECT: i16 = 0x0015;

/// `noErr`: the call succeeded.
pub const NO_ERR: i32 = 0;

/// `kAudio_UnimplementedError`: the unit does not implement the call.
pub const AUDIO_UNIMPLEMENTED_ERROR: i32 = -4;

/// The entry points that an Audio Unit hands its host through `Lookup`.
#[derive(Clone, Copy, PartialEq, Eq, Debug, Structural)]
pub enum AuMethod {
    Initialize,
    Uninitialize,
    GetPropertyInfo,
    GetProperty,
    SetProperty,
    AddPropertyListener,
    RemovePropertyListener,
    RemovePropertyListenerWithUserData,
    AddRenderNotify,
    RemoveRenderNotify,
    ScheduleParameters,
    Reset,
    ComplexRender,
    Process,
    ProcessMultiple,
    GetParameter,
    SetParameter,
    Render,
}

/// The selector under which the host asks for each entry point.
pub open spec fn method_selector(method: AuMethod) -> i16 {
    match method {
        AuMethod::Initialize => AUDIO_UNIT_INITIALIZE_SELECT,
        AuMethod::Uninitialize => AUDIO_UNIT_UNINITIALIZE_SELECT,
        AuMethod::GetPropertyInfo => AUDIO_UNIT_GET_PROPERTY_INFO_SELECT,
        AuMethod::GetProperty => AUDIO_UNIT_GET_PROPERTY_SELECT,
        AuMethod::SetProperty => AUDIO_UNIT_SET_PROPERTY_SELECT,
        AuMethod::AddPropertyListener => AUDIO_UNIT_ADD_PROPERTY_LISTENER_SELECT,
        AuMethod::RemovePropertyListener => AUDIO_UNIT_REMOVE_PROPERTY_LISTENER_SELECT,
        AuMethod::RemovePropertyListenerWithUserData =>
            AUDIO_UNIT_REMOVE_PROPERTY_LISTENER_WITH_USER_DATA_SELECT,
        AuMethod::AddRenderNotify => AUDIO_UNIT_ADD_RENDER_NOTIFY_SELECT,
        AuMethod::RemoveRenderNotify => AUDIO_UNIT_REMOVE_RENDER_NOTIFY_SELECT,
        AuMethod::ScheduleParameters => AUDIO_UNIT_SCHEDULE_PARAMETERS_SELECT,
        AuMethod::Reset => AUDIO_UNIT_RESET_SELECT,
        AuMethod::ComplexRender => AUDIO_UNIT_COMPLEX_RENDER_SELECT,
        AuMethod::Process => AUDIO_UNIT_PROCESS_SELECT,
        AuMethod::ProcessMultiple => AUDIO_UNIT_PROCESS_MULTIPLE_SELECT,
        AuMethod::GetParameter => AUDIO_UNIT_GET_PARAMETER_SELECT,
        AuMethod::SetParameter => AUDIO_UNIT_SET_PARAMETER_SELECT,
        AuMethod::Render => AUDIO_UNIT_RENDER_SELECT,
    }
}

/// The entry point for a selector: the one whose selector it is, or none where no entry
/// point has it.
pub fn lookup(selector: i16) -> (r: Option<AuMethod>)
    ensures
        match r {
            Some(method) => method_selector(method) == selector,
            None => forall|method: AuMethod| method_selector(method) != selector,
        },
{
    if selector == AUDIO_UNIT_INITIALIZE_SELECT {
        Some(AuMethod::Initialize)
    } else if selector == AUDIO_UNIT_UNINITIALIZE_SELECT {
        Some(AuMethod::Uninitialize)
    } else if selector == AUDIO_UNIT_GET_PROPERTY_INFO_SELECT {
        Some(AuMethod::GetPropertyInfo)
    } else if selector == AUDIO_UNIT_GET_PROPERTY_SELECT {
        Some(AuMethod::GetProperty)
    } else if selector == AUDIO_UNIT_SET_PROPERTY_SELECT {
        Some(AuMethod::SetProperty)
    } else if selector == AUDIO_UNIT_ADD_PROPERTY_LISTENER_SELECT {
        Some(AuMethod::AddPropertyListener)
    } else if selector == AUDIO_UNIT_REMOVE_PROPERTY_LISTENER_SELECT {
        Some(AuMethod::RemovePropertyListener)
    } else if selector == AUDIO_UNIT_REMOVE_PROPERTY_LISTENER_WITH_USER_DATA_SELECT {
        Some(AuMethod::RemovePropertyListenerWithUserData)
    } else if selector == AUDIO_UNIT_ADD_RENDER_NOTIFY_SELECT {
        Some(AuMethod::AddRenderNotify)
    } else if selector == AUDIO_UNIT_REMOVE_RENDER_NOTIFY_SELECT {
        Some(AuMethod::RemoveRenderNotify)
    } else if selector == AUDIO_UNIT_SCHEDULE_PARAMETERS_SELECT {
        Some(AuMethod::ScheduleParameters)
    } else if selector == AUDIO_UNIT_RESET_SELECT {
        Some(AuMethod::Reset)
    } else if selector == AUDIO_UNIT_COMPLEX_RENDER_SELECT {
        Some(AuMethod::ComplexRender)
    } else if selector == AUDIO_UNIT_PROCESS_SELECT {
        Some(AuMethod::Process)
    } else if selector == AUDIO_UNIT_PROCESS_MULTIPLE_SELECT {
        Some(AuMethod::ProcessMultiple)
    } else if selector == AUDIO_UNIT_GET_PARAMETER_SELECT {
        Some(AuMethod::GetParameter)
    } else if selector == AUDIO_UNIT_SET_PARAMETER_SELECT {
        Some(AuMethod::SetParameter)
    } else if selector == AUDIO_UNIT_RENDER_SELECT {
        Some(AuMethod::Render)
    } else {
        None
    }
}

/// What each entry point answers: initializing and uninitializing succeed, everything else is
/// not implemented yet.
pub fn method_status(method: AuMethod) -> (r: i32)
    ensures
        r == (if method == AuMethod::Initialize || method == AuMethod::Uninitialize {
            NO_ERR
        } else {
            AUDIO_UNIMPLEMENTED_ERROR
        }),
{
    match method {
        AuMethod::Initialize | AuMethod::Uninitialize => NO_ERR,
        _ => AUDIO_UNIMPLEMENTED_ERROR,
    }
}

/// No two entry points share a selector, so `lookup` of an entry point's selector gives that
/// entry point back.
pub proof fn law_selectors_distinct(method: AuMethod)
    ensures
        forall|other: AuMethod| method_selector(other) == method_selector(method) ==> other
            == method,
{
}

} // verus!
