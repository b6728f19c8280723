//! Pipeline configuration values the library itself reads.

use vstd::prelude::*;
use vstd::string::StringExecFns;

use crate::text::{contains_str, occurs_in};

verus! {

/// Voice-activity detection settings.
#[derive(Debug, Clone, Copy, PartialEq, Eq)]
pub struct VadConfig {
    /// IEEE-754 bit pattern of the speech-probability threshold (0.0–1.0)
    /// that the detector compares its score against.
    pub threshold_bits: u32,
    /// Minimum speech segment duration in ms.
    pub min_speech_ms: u32,
    /// Minimum silence duration to end a speech segment, in ms.
    pub min_silence_ms: u32,
    /// Maximum silence gap preserved between speech segments, in ms.
    pub max_silence_ms: u32,
    /// Pre-speech attack buffer length in ms.
    pub attack_ms: u32,
}

impl Default for VadConfig {
    /// Threshold 0.5, 100 ms minimum speech, 150 ms minimum silence,
    /// 500 ms maximum kept silence, 150 ms attack.
    fn default() -> (c: Self)
        ensures
            c.threshold_bits == 0x3f00_0000,
            c.min_speech_ms == 100,
            c.min_silence_ms == 150,
            c.max_silence_ms == 500,
            c.attack_ms == 150,
    {
        VadConfig {
            threshold_bits: 0x3f00_0000,
            min_speech_ms: 100,
            min_silence_ms: 150,
            max_silence_ms: 500,
            attack_ms: 150,
        }
    }
}

} // verus!

verus! {

/// Post-processing settings (none at present).
#[derive(Debug, Clone, Copy, PartialEq, Eq, Default)]
pub struct PostConfig {}

/// Whisper-compatible transcription endpoint settings.
#[derive(Debug, Clone)]
pub struct EngineConfig {
    /// Full URL of the transcription endpoint.
    pub endpoint: String,
    /// API key, sent as `Authorization: Bearer <key>` when not empty.
    pub api_key: String,
    /// Whisper model name.
    pub model: String,
    /// Language code; `None` lets the service detect it.
    pub language: Option<String>,
    /// Initial prompt for the model.
    pub prompt: Option<String>,
}

/// The model used when the configuration names none.
pub fn default_model() -> (m: String)
    ensures
        m@ == "whisper-large-v3-turbo"@,
{
    String::from_str("whisper-large-v3-turbo")
}

/// The endpoint used when the configuration names none.
pub fn default_endpoint() -> (e: String)
    ensures
        e@ == "https://api.groq.com/openai/v1/audio/transcriptions"@,
{
    String::from_str("https://api.groq.com/openai/v1/audio/transcriptions")
}

} // verus!

verus! {

/// The complaint about a Groq endpoint used without an API key.
pub open spec fn missing_groq_key_message() -> Seq<char> {
    "Groq API key missing; set pipeline.engine.api_key"@
}

/// Rejects a configuration that talks to Groq without an API key.
pub fn validate_pipeline(engine: &EngineConfig) -> (res: Result<(), String>)
    requires
        engine.endpoint@.len() < usize::MAX,
    ensures
        res is Err <==> engine.api_key@.len() == 0 && occurs_in(engine.endpoint@, "groq.com"@),
        res matches Err(m) ==> m@ == missing_groq_key_message(),
{
    if engine.api_key.as_str().is_empty() && contains_str(engine.endpoint.as_str(), "groq.com") {
        return Err(String::from_str("Groq API key missing; set pipeline.engine.api_key"));
    }
    Ok(())
}

} // verus!
