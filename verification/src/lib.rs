//! Speech-to-text pipeline library: the Ogg/Opus container writer, the
//! voice-activity state machine, frame chunking, text normalisation and the
//! daemon's decision logic.

use vstd::prelude::*;

pub mod chunker;
pub mod config;
pub mod control;
pub mod crc;
pub mod daemon;
pub mod engine;
pub mod handle;
pub mod legacy_config;
pub mod ogg_opus;
pub mod opus_stream;
pub mod pre_vad;
pub mod resample_plan;
pub mod post;
pub mod postprocessor;
pub mod text;
pub mod transcription;
pub mod typer;
pub mod util;
pub mod vad;
pub mod vad_fsm;

verus! {

/// Sample rate used throughout the pipeline.
pub const SAMPLE_RATE: u32 = 16_000;

/// Samples in one voice-activity frame.
pub const VAD_FRAME_SAMPLES: usize = 512;

} // verus!
