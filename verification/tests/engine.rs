use mrcp_synth::engine::MyEngine;

#[test]
fn engine_keeps_token() {
    let engine = MyEngine::new("token-123".to_string());
    assert_eq!(engine.iam_token, "token-123");
}
