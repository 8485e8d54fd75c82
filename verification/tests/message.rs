use mrcp_synth::message::{
    complete_event, header_access, CompletionCause, HeaderAccess, RequestState, SynthMethod,
};

#[test]
fn method_ids() {
    let expected = [
        (0u32, SynthMethod::SetParams, "SYNTHESIZER_SET_PARAMS"),
        (1, SynthMethod::GetParams, "SYNTHESIZER_GET_PARAMS"),
        (2, SynthMethod::Speak, "SYNTHESIZER_SPEAK"),
        (3, SynthMethod::Stop, "SYNTHESIZER_STOP"),
        (4, SynthMethod::Pause, "SYNTHESIZER_PAUSE"),
        (5, SynthMethod::Resume, "SYNTHESIZER_RESUME"),
        (6, SynthMethod::BargeInOccurred, "SYNTHESIZER_BARGE_IN_OCCURRED"),
        (7, SynthMethod::Control, "SYNTHESIZER_CONTROL"),
        (8, SynthMethod::DefineLexicon, "SYNTHESIZER_DEFINE_LEXICON"),
        (9, SynthMethod::Other, "Other"),
        (u32::MAX, SynthMethod::Other, "Other"),
    ];
    for (id, method, name) in expected {
        let m = SynthMethod::from_id(id);
        assert_eq!(m, method);
        assert_eq!(m.name(), name);
        assert_eq!(m.needs_synthesis(), id == 2);
    }
}

#[test]
fn header_access_cases() {
    assert_eq!(header_access(true, false, false), HeaderAccess::Existing);
    assert_eq!(header_access(true, true, true), HeaderAccess::Existing);
    assert_eq!(header_access(false, false, true), HeaderAccess::Unavailable);
    assert_eq!(header_access(false, true, false), HeaderAccess::Unavailable);
    assert_eq!(header_access(false, true, true), HeaderAccess::Allocate);
}

#[test]
fn speak_complete_event() {
    let e = complete_event(true);
    assert_eq!(e.request_state, RequestState::Complete);
    assert_eq!(e.completion_cause, Some(CompletionCause::Normal));
    let e = complete_event(false);
    assert_eq!(e.request_state, RequestState::Complete);
    assert_eq!(e.completion_cause, None);
}
