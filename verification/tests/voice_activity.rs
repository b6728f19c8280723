use bark_core::config::VadConfig;
use bark_core::engine::VadError;
use bark_core::pre_vad::{FrameClassifier, VadProcessor as StreamVad};
use bark_core::vad::{VadProcessor, VoiceDetector};
use bark_core::vad_fsm::VadFSM;
use bark_core::VAD_FRAME_SAMPLES;

const F: usize = VAD_FRAME_SAMPLES;

/// Decides by a fixed script, then "silence".
struct Script {
    decisions: Vec<bool>,
    next: usize,
    resets: usize,
}

impl Script {
    fn new(decisions: &[bool]) -> Self {
        Script { decisions: decisions.to_vec(), next: 0, resets: 0 }
    }

    fn decide(&mut self) -> bool {
        let d = self.decisions.get(self.next).copied().unwrap_or(false);
        self.next += 1;
        d
    }
}

impl VoiceDetector<i16> for Script {
    fn is_speech(&mut self, _frame: &[i16]) -> bool {
        self.decide()
    }

    fn reset(&mut self) {
        self.resets += 1;
        self.next = 0;
    }
}

/// Speech wherever the frame's first sample is positive; fails on a
/// frame starting with `i16::MIN`.
struct BySign;

impl FrameClassifier for BySign {
    fn is_speech(&mut self, frame: &[i16]) -> Result<bool, VadError> {
        if frame[0] == i16::MIN {
            return Err(VadError("bad frame".to_string()));
        }
        Ok(frame[0] > 0)
    }

    fn reset(&mut self) {}
}

fn frame(fill: i16) -> Vec<i16> {
    vec![fill; F]
}

/// Two frames of minimum speech, two of minimum silence, one frame of
/// kept silence, two frames of attack.
fn small_config() -> VadConfig {
    VadConfig {
        threshold_bits: 0x3f00_0000,
        min_speech_ms: 64,
        min_silence_ms: 64,
        max_silence_ms: 32,
        attack_ms: 64,
    }
}

#[test]
fn legacy_vad_scenario() {
    let script = Script::new(&[false, false, true, true, true, false, false, false]);
    let mut vad = VadProcessor::new(script, &small_config());
    assert_eq!(vad.process(&frame(1)), frame(0), "first silence is kept as zeros");
    assert!(vad.process(&frame(2)).is_empty(), "silence beyond the cap is dropped");
    assert!(vad.process(&frame(3)).is_empty(), "speech not yet confirmed");
    assert_eq!(vad.process(&frame(4)), [frame(3), frame(4)].concat(), "attack window flushed");
    assert_eq!(vad.process(&frame(5)), frame(5));
    assert_eq!(vad.process(&frame(6)), frame(6), "short pause kept");
    assert_eq!(vad.process(&frame(7)), frame(7), "speech ends");
    assert_eq!(vad.process(&frame(8)), frame(0), "silence after speech");
}

#[test]
fn legacy_vad_buffer_keeps_tail_during_speech() {
    let mut vad = VadProcessor::new(Script::new(&[true; 8]), &VadConfig {
        min_speech_ms: 32,
        ..small_config()
    });
    let audio: Vec<i16> = (0..(3 * F + 100) as i32).map(|i| (i % 1000) as i16).collect();
    assert_eq!(vad.process_buffer(&audio), audio);
}

#[test]
fn legacy_vad_buffer_drops_tail_in_silence() {
    let mut vad = VadProcessor::new(Script::new(&[]), &small_config());
    let audio = vec![9i16; 2 * F + 10];
    assert_eq!(vad.process_buffer(&audio), frame(0));
}

#[test]
fn legacy_vad_reset_restarts_detector() {
    let mut vad = VadProcessor::new(Script::new(&[true, true]), &small_config());
    assert!(vad.process(&frame(1)).is_empty());
    vad.reset();
    assert!(vad.process(&frame(2)).is_empty(), "speech count starts over");
    assert_eq!(vad.process(&frame(3)), [frame(2), frame(3)].concat());
}

#[test]
fn fsm_default_limits() {
    let mut fsm = VadFSM::new(&VadConfig::default());
    // 100 ms of speech is three whole 32 ms frames.
    assert!(fsm.process(true, &frame(1)).is_empty());
    assert!(fsm.process(true, &frame(2)).is_empty());
    assert_eq!(fsm.process(true, &frame(3)), [frame(1), frame(2), frame(3)].concat());
    fsm.reset();
    assert_eq!(fsm.process(false, &frame(4)), frame(0));
}

#[test]
fn stream_vad_frames_across_calls() {
    let mut vad = StreamVad::new(BySign, &VadConfig { min_speech_ms: 32, ..small_config() });
    let speech = frame(5);
    assert!(vad.feed(&speech[..300]).unwrap().is_empty(), "frame not complete yet");
    assert_eq!(vad.feed(&speech[300..]).unwrap(), speech);
    let mut more = frame(6);
    more.extend(vec![7i16; 100]);
    assert_eq!(vad.feed(&more).unwrap(), frame(6));
    let mut padded = vec![7i16; 100];
    padded.extend(vec![0i16; F - 100]);
    assert_eq!(vad.finish().unwrap(), padded, "pending samples flushed, padded");
    assert!(vad.finish().unwrap().is_empty());
}

#[test]
fn stream_vad_reports_classifier_errors() {
    let mut vad = StreamVad::new(BySign, &small_config());
    let mut audio = frame(i16::MIN);
    audio.extend(vec![1i16; 10]);
    assert_eq!(vad.feed(&audio), Err(VadError("bad frame".to_string())));
    assert!(vad.finish().unwrap().is_empty(), "nothing pending after an error");
}

#[test]
fn stream_vad_reset_drops_pending() {
    let mut vad = StreamVad::new(BySign, &VadConfig { min_speech_ms: 32, ..small_config() });
    assert!(vad.feed(&[3i16; 200]).unwrap().is_empty());
    vad.reset();
    assert!(vad.finish().unwrap().is_empty());
}

#[test]
fn stream_vad_output_does_not_depend_on_pieces() {
    let config = VadConfig { min_speech_ms: 64, ..small_config() };
    let audio: Vec<i16> = (0..(7 * F + 77))
        .map(|i| if (i / F) % 3 == 0 { -5 } else { (i % 200) as i16 + 1 })
        .collect();
    let mut whole = StreamVad::new(BySign, &config);
    let mut expected = whole.feed(&audio).unwrap();
    expected.extend(whole.finish().unwrap());
    assert!(!expected.is_empty());
    for piece in [1usize, 100, 511, 513, 2000] {
        let mut vad = StreamVad::new(BySign, &config);
        let mut got = Vec::new();
        for chunk in audio.chunks(piece) {
            got.extend(vad.feed(chunk).unwrap());
        }
        got.extend(vad.finish().unwrap());
        assert_eq!(got, expected, "pieces of {piece}");
    }
}
