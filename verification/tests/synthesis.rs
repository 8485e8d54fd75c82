use mrcp_synth::synthesis::{
    audio_from_fields, audio_from_response, authorization, find_field, request_body,
    SynthesisError, AUDIO_FIELD, SYNTHESIS_URL,
};

#[test]
fn request_body_plain_text() {
    assert_eq!(
        request_body("hello"),
        "{\"audioConfig\":{\"audioEncoding\":\"LINEAR16\",\"sampleRateHertz\":\"48000\"},\"input\":{\"text\":\"hello\"},\"voice\":{\"name\":\"maxim\"}}"
    );
}

#[test]
fn request_body_escapes_text() {
    assert_eq!(
        request_body("say \"hi\"\n\\"),
        "{\"audioConfig\":{\"audioEncoding\":\"LINEAR16\",\"sampleRateHertz\":\"48000\"},\"input\":{\"text\":\"say \\\"hi\\\"\\n\\\\\"},\"voice\":{\"name\":\"maxim\"}}"
    );
}

#[test]
fn authorization_header() {
    assert_eq!(authorization("abc.def"), "Bearer abc.def");
    assert_eq!(authorization(""), "Bearer ");
}

#[test]
fn endpoint_and_field() {
    assert_eq!(SYNTHESIS_URL, "https://api.tinkoff.ai:443/v1/tts:synthesize");
    assert_eq!(AUDIO_FIELD, "audio_content");
}

#[test]
fn find_field_first_match() {
    let fields = vec![
        ("a".to_string(), "1".to_string()),
        ("b".to_string(), "2".to_string()),
        ("b".to_string(), "3".to_string()),
    ];
    assert_eq!(find_field(&fields, "b"), Some(&"2".to_string()));
    assert_eq!(find_field(&fields, "a"), Some(&"1".to_string()));
    assert_eq!(find_field(&fields, "c"), None);
    assert_eq!(find_field(&Vec::new(), "a"), None);
}

#[test]
fn audio_from_fields_cases() {
    let ok = vec![("audio_content".to_string(), "aGVsbG8=".to_string())];
    assert_eq!(audio_from_fields(&ok), Ok(b"hello".to_vec()));
    let missing = vec![("other".to_string(), "aGVsbG8=".to_string())];
    assert_eq!(audio_from_fields(&missing), Err(SynthesisError::MissingAudio));
    let invalid = vec![("audio_content".to_string(), "not base64!".to_string())];
    assert_eq!(audio_from_fields(&invalid), Err(SynthesisError::InvalidAudio));
}

#[test]
fn audio_from_successful_response() {
    let body = br#"{"audio_content":"AAEC/w==","other":"x"}"#;
    assert_eq!(audio_from_response(true, body), Ok(vec![0, 1, 2, 255]));
}

#[test]
fn audio_from_rejected_response() {
    let body = br#"{"audio_content":"AAEC/w=="}"#;
    assert_eq!(audio_from_response(false, body), Err(SynthesisError::Rejected));
}

#[test]
fn audio_from_malformed_response() {
    assert_eq!(audio_from_response(true, b"not json"), Err(SynthesisError::MalformedBody));
    assert_eq!(
        audio_from_response(true, br#"{"audio_content":5}"#),
        Err(SynthesisError::MalformedBody)
    );
    assert_eq!(audio_from_response(true, b"[]"), Err(SynthesisError::MalformedBody));
}

#[test]
fn audio_from_response_without_audio() {
    assert_eq!(
        audio_from_response(true, br#"{"error":"quota"}"#),
        Err(SynthesisError::MissingAudio)
    );
}

#[test]
fn audio_from_response_with_bad_audio() {
    assert_eq!(
        audio_from_response(true, br#"{"audio_content":"@@@"}"#),
        Err(SynthesisError::InvalidAudio)
    );
}

#[test]
fn audio_from_response_duplicate_field_last_wins() {
    let body = br#"{"audio_content":"@@@","audio_content":"aGk="}"#;
    assert_eq!(audio_from_response(true, body), Ok(b"hi".to_vec()));
}

#[test]
fn request_body_escapes_controls() {
    assert_eq!(
        request_body("a\u{1}\u{8}\t\u{c}\r\u{1f}é/"),
        "{\"audioConfig\":{\"audioEncoding\":\"LINEAR16\",\"sampleRateHertz\":\"48000\"},\"input\":{\"text\":\"a\\u0001\\b\\t\\f\\r\\u001fé/\"},\"voice\":{\"name\":\"maxim\"}}"
    );
}

#[test]
fn audio_from_unpadded_base64() {
    assert_eq!(audio_from_response(true, br#"{"audio_content":"aGk"}"#), Ok(b"hi".to_vec()));
}
