use bark_core::config::{default_endpoint, default_model, validate_pipeline, EngineConfig, VadConfig};
use bark_core::engine::TranscriptionError;
use bark_core::transcription::{bearer_header, request_fields, response_text, whisper_response_text};

fn engine(endpoint: &str, api_key: &str) -> EngineConfig {
    EngineConfig {
        endpoint: endpoint.to_string(),
        api_key: api_key.to_string(),
        model: default_model(),
        language: None,
        prompt: None,
    }
}

fn pairs(fields: Vec<(String, String)>) -> Vec<(String, String)> {
    fields
}

#[test]
fn defaults_of_the_engine() {
    assert_eq!(default_model(), "whisper-large-v3-turbo");
    assert_eq!(default_endpoint(), "https://api.groq.com/openai/v1/audio/transcriptions");
    let vad = VadConfig::default();
    assert_eq!(f32::from_bits(vad.threshold_bits), 0.5);
    assert_eq!(
        (vad.min_speech_ms, vad.min_silence_ms, vad.max_silence_ms, vad.attack_ms),
        (100, 150, 500, 150)
    );
}

#[test]
fn groq_without_key_is_rejected() {
    let e = validate_pipeline(&engine(&default_endpoint(), "")).unwrap_err();
    assert_eq!(e, "Groq API key missing; set pipeline.engine.api_key");
    assert!(validate_pipeline(&engine(&default_endpoint(), "key")).is_ok());
    assert!(validate_pipeline(&engine("http://localhost:8080/v1/audio", "")).is_ok());
}

#[test]
fn form_fields_in_order() {
    let mut cfg = engine("http://x", "");
    assert_eq!(
        pairs(request_fields(&cfg)),
        vec![
            ("model".to_string(), "whisper-large-v3-turbo".to_string()),
            ("response_format".to_string(), "text".to_string()),
        ]
    );
    cfg.language = Some("en".to_string());
    cfg.prompt = Some("Bark.".to_string());
    assert_eq!(
        pairs(request_fields(&cfg)),
        vec![
            ("model".to_string(), "whisper-large-v3-turbo".to_string()),
            ("response_format".to_string(), "text".to_string()),
            ("language".to_string(), "en".to_string()),
            ("prompt".to_string(), "Bark.".to_string()),
        ]
    );
}

#[test]
fn authorization_header_only_with_a_key() {
    assert_eq!(bearer_header(&engine("http://x", "")), None);
    assert_eq!(bearer_header(&engine("http://x", "sk-1")), Some("Bearer sk-1".to_string()));
}

#[test]
fn response_success_is_trimmed() {
    assert_eq!(response_text(true, "200 OK", "  hello world \n").unwrap(), "hello world");
}

#[test]
fn response_failure_names_status_and_snippet() {
    assert_eq!(
        response_text(false, "401 Unauthorized", "bad\nkey").unwrap_err(),
        TranscriptionError("HTTP 401 Unauthorized: bad key".to_string())
    );
    let long = "x".repeat(250);
    let e = response_text(false, "500", &long).unwrap_err();
    assert_eq!(e.0, format!("HTTP 500: {}", "x".repeat(200)));
}

#[test]
fn whisper_response_cuts_at_200_bytes() {
    assert_eq!(whisper_response_text(true, "200 OK", "\n text \n"), Ok("text".to_string()));
    let body = "\u{e9}".repeat(150) + "\n" + &"z".repeat(100);
    let expected = format!("HTTP 502 Bad Gateway: {}", "\u{e9}".repeat(100));
    assert_eq!(whisper_response_text(false, "502 Bad Gateway", &body), Err(expected));
    assert_eq!(whisper_response_text(false, "404", "a\nb"), Err("HTTP 404: a b".to_string()));
}
