use mrcp_synth::channel::{FrameRead, MyChannel};
use mrcp_synth::message::{RequestState, SynthMethod};

fn audio(out: FrameRead<u32>) -> Vec<u8> {
    match out {
        FrameRead::Audio(bytes) => bytes,
        FrameRead::Complete(m) => panic!("unexpected completion of {m}"),
        FrameRead::Idle => panic!("unexpected idle frame"),
    }
}

#[test]
fn new_channel_is_idle() {
    let mut channel: MyChannel<u32> = MyChannel::new();
    assert_eq!(channel.speak_msg, None);
    assert_eq!(channel.speak_bytes, None);
    assert_eq!(channel.have_read_bytes, 0);
    assert!(matches!(channel.read_frame(160), FrameRead::Idle));
    assert_eq!(channel.speak_msg, None);
}

#[test]
fn speak_sets_request_and_audio() {
    let mut channel: MyChannel<u32> = MyChannel::new();
    channel.have_read_bytes = 3;
    let state = channel.speak(7, Some(vec![1, 2, 3, 4, 5]));
    assert_eq!(state, RequestState::InProgress);
    assert_eq!(channel.speak_msg, Some(7));
    assert_eq!(channel.speak_bytes, Some(vec![1, 2, 3, 4, 5]));
    assert_eq!(channel.have_read_bytes, 0);
}

#[test]
fn frames_carry_audio_in_order_then_complete() {
    let mut channel: MyChannel<u32> = MyChannel::new();
    channel.speak(9, Some(vec![10, 11, 12, 13, 14]));
    assert_eq!(audio(channel.read_frame(2)), vec![10, 11]);
    assert_eq!(channel.have_read_bytes, 2);
    assert_eq!(audio(channel.read_frame(2)), vec![12, 13]);
    assert_eq!(channel.have_read_bytes, 4);
    // The last frame is only partly filled; the audio is then dropped.
    assert_eq!(audio(channel.read_frame(2)), vec![14]);
    assert_eq!(channel.speak_bytes, None);
    assert_eq!(channel.have_read_bytes, 0);
    assert_eq!(channel.speak_msg, Some(9));
    assert!(matches!(channel.read_frame(2), FrameRead::Complete(9)));
    assert_eq!(channel.speak_msg, None);
    assert!(matches!(channel.read_frame(2), FrameRead::Idle));
}

#[test]
fn frame_exactly_as_large_as_audio() {
    let mut channel: MyChannel<u32> = MyChannel::new();
    channel.speak(1, Some(vec![5, 6, 7]));
    assert_eq!(audio(channel.read_frame(3)), vec![5, 6, 7]);
    assert_eq!(channel.speak_bytes, None);
    assert!(matches!(channel.read_frame(3), FrameRead::Complete(1)));
}

#[test]
fn empty_frame_makes_no_progress() {
    let mut channel: MyChannel<u32> = MyChannel::new();
    channel.speak(1, Some(vec![5, 6, 7]));
    assert_eq!(audio(channel.read_frame(0)), Vec::<u8>::new());
    assert_eq!(channel.have_read_bytes, 0);
    assert_eq!(channel.speak_bytes, Some(vec![5, 6, 7]));
}

#[test]
fn failed_synthesis_completes_on_next_frame() {
    let mut channel: MyChannel<u32> = MyChannel::new();
    channel.speak(4, None);
    assert!(matches!(channel.read_frame(160), FrameRead::Complete(4)));
    assert!(matches!(channel.read_frame(160), FrameRead::Idle));
}

#[test]
fn reset_speak_drops_request() {
    let mut channel: MyChannel<u32> = MyChannel::new();
    channel.speak(4, Some(vec![1, 2, 3]));
    channel.read_frame(1);
    channel.reset_speak();
    assert_eq!(channel.speak_msg, None);
    assert_eq!(channel.speak_bytes, None);
    assert_eq!(channel.have_read_bytes, 0);
    assert!(matches!(channel.read_frame(1), FrameRead::Idle));
}

#[test]
fn speak_replaces_previous_request() {
    let mut channel: MyChannel<u32> = MyChannel::new();
    channel.speak(1, Some(vec![1, 2, 3]));
    channel.read_frame(2);
    channel.speak(2, Some(vec![8, 9]));
    assert_eq!(audio(channel.read_frame(5)), vec![8, 9]);
    assert!(matches!(channel.read_frame(5), FrameRead::Complete(2)));
}

#[test]
fn process_request_speak() {
    let mut channel: MyChannel<u32> = MyChannel::new();
    let state = channel.process_request(SynthMethod::Speak, 3, Some(vec![1]));
    assert_eq!(state, Some(RequestState::InProgress));
    assert_eq!(channel.speak_msg, Some(3));
    assert_eq!(channel.speak_bytes, Some(vec![1]));
}

#[test]
fn process_request_other_methods_leave_channel() {
    let mut channel: MyChannel<u32> = MyChannel::new();
    channel.speak(3, Some(vec![1, 2]));
    for method in [
        SynthMethod::SetParams,
        SynthMethod::GetParams,
        SynthMethod::Stop,
        SynthMethod::Pause,
        SynthMethod::Resume,
        SynthMethod::BargeInOccurred,
        SynthMethod::Control,
        SynthMethod::DefineLexicon,
        SynthMethod::Other,
    ] {
        let state = channel.process_request(method, 8, Some(vec![7]));
        assert_eq!(state, None);
        assert_eq!(channel.speak_msg, Some(3));
        assert_eq!(channel.speak_bytes, Some(vec![1, 2]));
        assert_eq!(channel.have_read_bytes, 0);
    }
}

#[test]
fn law_audio_in_order_concrete() {
    // Frames of sizes 3, 1, 4, 4 over ten bytes carry them all, in order,
    // and the fifth frame brings the completion.
    let speech: Vec<u8> = (0..10).collect();
    let mut channel: MyChannel<u32> = MyChannel::new();
    channel.speak(5, Some(speech.clone()));
    let mut played = Vec::new();
    for size in [3usize, 1, 4, 4] {
        played.extend(audio(channel.read_frame(size)));
    }
    assert_eq!(played, speech);
    assert!(matches!(channel.read_frame(1), FrameRead::Complete(5)));
    assert!(matches!(channel.read_frame(1), FrameRead::Idle));
}

#[test]
fn law_fixed_size_frames_concrete() {
    // Ten bytes in frames of four: two full frames, a last one of two bytes,
    // then SPEAK-COMPLETE on the very next frame, then idle frames.
    let speech: Vec<u8> = (0..10).collect();
    let mut channel: MyChannel<u32> = MyChannel::new();
    channel.speak(6, Some(speech.clone()));
    assert_eq!(audio(channel.read_frame(4)), vec![0, 1, 2, 3]);
    assert_eq!(audio(channel.read_frame(4)), vec![4, 5, 6, 7]);
    assert_eq!(audio(channel.read_frame(4)), vec![8, 9]);
    assert_eq!(channel.speak_msg, Some(6));
    assert_eq!(channel.speak_bytes, None);
    assert_eq!(channel.have_read_bytes, 0);
    assert!(matches!(channel.read_frame(4), FrameRead::Complete(6)));
    assert_eq!(channel.speak_msg, None);
    for _ in 0..3 {
        assert!(matches!(channel.read_frame(4), FrameRead::Idle));
        assert_eq!(channel.speak_msg, None);
        assert_eq!(channel.speak_bytes, None);
        assert_eq!(channel.have_read_bytes, 0);
    }
}
