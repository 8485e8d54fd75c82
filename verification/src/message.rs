use vstd::prelude::*;

verus! {

/// The methods of the MRCP synthesizer resource, in the order of the
/// server's method identifiers.
#[derive(PartialEq, Eq, Structural, Clone, Copy, Debug)]
pub enum SynthMethod {
    SetParams,
    GetParams,
    Speak,
    Stop,
    Pause,
    Resume,
    BargeInOccurred,
    Control,
    DefineLexicon,
    /// A method identifier outside the synthesizer's methods.
    Other,
}

/// The method that the server's synthesizer method identifier `id` names.
pub open spec fn method_of_id(id: u32) -> SynthMethod {
    if id == 0 {
        SynthMethod::SetParams
    } else if id == 1 {
        SynthMethod::GetParams
    } else if id == 2 {
        SynthMethod::Speak
    } else if id == 3 {
        SynthMethod::Stop
    } else if id == 4 {
        SynthMethod::Pause
    } else if id == 5 {
        SynthMethod::Resume
    } else if id == 6 {
        SynthMethod::BargeInOccurred
    } else if id == 7 {
        SynthMethod::Control
    } else if id == 8 {
        SynthMethod::DefineLexicon
    } else {
        SynthMethod::Other
    }
}

/// The name under which a request of this method is reported.
pub open spec fn method_name(m: SynthMethod) -> Seq<char> {
    match m {
        SynthMethod::SetParams => "SYNTHESIZER_SET_PARAMS"@,
        SynthMethod::GetParams => "SYNTHESIZER_GET_PARAMS"@,
        SynthMethod::Speak => "SYNTHESIZER_SPEAK"@,
        SynthMethod::Stop => "SYNTHESIZER_STOP"@,
        SynthMethod::Pause => "SYNTHESIZER_PAUSE"@,
        SynthMethod::Resume => "SYNTHESIZER_RESUME"@,
        SynthMethod::BargeInOccurred => "SYNTHESIZER_BARGE_IN_OCCURRED"@,
        SynthMethod::Control => "SYNTHESIZER_CONTROL"@,
        SynthMethod::DefineLexicon => "SYNTHESIZER_DEFINE_LEXICON"@,
        SynthMethod::Other => "Other"@,
    }
}

impl SynthMethod {
    /// The method named by the server's synthesizer method identifier.
    pub fn from_id(id: u32) -> (m: SynthMethod)
        ensures
            m == method_of_id(id),
    {
        if id == 0 {
            SynthMethod::SetParams
        } else if id == 1 {
            SynthMethod::GetParams
        } else if id == 2 {
            SynthMethod::Speak
        } else if id == 3 {
            SynthMethod::Stop
        } else if id == 4 {
            SynthMethod::Pause
        } else if id == 5 {
            SynthMethod::Resume
        } else if id == 6 {
            SynthMethod::BargeInOccurred
        } else if id == 7 {
            SynthMethod::Control
        } else if id == 8 {
            SynthMethod::DefineLexicon
        } else {
            SynthMethod::Other
        }
    }

    /// The name under which a request of this method is reported.
    pub fn name(&self) -> (s: &'static str)
        ensures
            s@ == method_name(*self),
    {
        match self {
            SynthMethod::SetParams => "SYNTHESIZER_SET_PARAMS",
            SynthMethod::GetParams => "SYNTHESIZER_GET_PARAMS",
            SynthMethod::Speak => "SYNTHESIZER_SPEAK",
            SynthMethod::Stop => "SYNTHESIZER_STOP",
            SynthMethod::Pause => "SYNTHESIZER_PAUSE",
            SynthMethod::Resume => "SYNTHESIZER_RESUME",
            SynthMethod::BargeInOccurred => "SYNTHESIZER_BARGE_IN_OCCURRED",
            SynthMethod::Control => "SYNTHESIZER_CONTROL",
            SynthMethod::DefineLexicon => "SYNTHESIZER_DEFINE_LEXICON",
            SynthMethod::Other => "Other",
        }
    }

    /// Whether a request of this method has its text synthesized into audio.
    pub fn needs_synthesis(&self) -> (b: bool)
        ensures
            b == (*self == SynthMethod::Speak),
    {
        match self {
            SynthMethod::Speak => true,
            _ => false,
        }
    }
}

/// The state an MRCP response or event reports for its request.
#[derive(PartialEq, Eq, Structural, Clone, Copy, Debug)]
pub enum RequestState {
    Complete,
    InProgress,
    Pending,
}

/// Why a SPEAK request completed, as the synthesizer's Completion-Cause
/// header reports it.
#[derive(PartialEq, Eq, Structural, Clone, Copy, Debug)]
pub enum CompletionCause {
    Normal,
    BargeIn,
    ParseFailure,
    UriFailure,
    Error,
    LanguageUnsupported,
    LangLoadFailure,
    Cancelled,
}

/// The SPEAK-COMPLETE event that ends a SPEAK request.
#[derive(PartialEq, Eq, Structural, Clone, Copy, Debug)]
pub struct CompleteEvent {
    /// The request state that the event reports.
    pub request_state: RequestState,
    /// The Completion-Cause header of the event, when the event has a
    /// synthesizer header to hold it.
    pub completion_cause: Option<CompletionCause>,
}

/// The SPEAK-COMPLETE event for a request whose audio has all been played:
/// the request is complete, and where the event's synthesizer header could
/// be had, it gives the normal completion cause.
pub fn complete_event(header_available: bool) -> (e: CompleteEvent)
    ensures
        e.request_state == RequestState::Complete,
        e.completion_cause == if header_available { Some(CompletionCause::Normal) } else { None },
{
    CompleteEvent {
        request_state: RequestState::Complete,
        completion_cause: if header_available { Some(CompletionCause::Normal) } else { None },
    }
}

/// How the synthesizer header of a message is obtained.
#[derive(PartialEq, Eq, Structural, Clone, Copy, Debug)]
pub enum HeaderAccess {
    /// The message already holds a header: use it.
    Existing,
    /// The header cannot be had: the message has no header vtable, or the
    /// vtable has no allocator.
    Unavailable,
    /// Allocate the header through the vtable's allocator.
    Allocate,
}

/// How to obtain the synthesizer header of a message from what its header
/// accessor holds: a header already there is used as it is; otherwise the
/// header is allocated when the accessor's vtable and its allocator exist.
pub fn header_access(has_data: bool, has_vtable: bool, has_allocator: bool) -> (a: HeaderAccess)
    ensures
        has_data ==> a == HeaderAccess::Existing,
        !has_data && has_vtable && has_allocator ==> a == HeaderAccess::Allocate,
        !has_data && !(has_vtable && has_allocator) ==> a == HeaderAccess::Unavailable,
{
    if has_data {
        HeaderAccess::Existing
    } else if !has_vtable {
        HeaderAccess::Unavailable
    } else if !has_allocator {
        HeaderAccess::Unavailable
    } else {
        HeaderAccess::Allocate
    }
}

} // verus!
