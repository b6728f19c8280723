//! Transcription engine interfaces and their error type.

use vstd::prelude::*;

verus! {

/// A transcription failure, with its message.
#[derive(Debug, Clone, PartialEq, Eq)]
pub struct TranscriptionError(pub String);

/// A voice-activity detection failure, with its message.
#[derive(Debug, Clone, PartialEq, Eq)]
pub struct VadError(pub String);

/// A speech-to-text backend that receives audio incrementally.
pub trait TranscriptionEngine {
    /// Takes more 16 kHz mono PCM.
    fn push_audio(&mut self, audio: &[i16]) -> Result<(), TranscriptionError>;

    /// Finishes the recording and returns its transcription.
    fn finalize(self: Box<Self>) -> Result<String, TranscriptionError>;
}

} // verus!
