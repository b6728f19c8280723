use bark_core::config::VadConfig;
use bark_core::vad_fsm::VadFSM;
use bark_core::{SAMPLE_RATE, VAD_FRAME_SAMPLES};

fn frame_of(fill: i16) -> [i16; VAD_FRAME_SAMPLES] {
    [fill; VAD_FRAME_SAMPLES]
}

fn is_filled_with(frame: &[i16], expected: i16) -> bool {
    (frame.len() == VAD_FRAME_SAMPLES) && frame.iter().all(|&s| s == expected)
}

#[test]
fn state_transitions() {
    const FRAME_MS: u32 = (VAD_FRAME_SAMPLES as u32) * 1000 / SAMPLE_RATE;

    let mut fsm = VadFSM::new(&VadConfig {
        max_silence_ms: 10 * FRAME_MS,
        min_silence_ms: 3 * FRAME_MS,
        min_speech_ms: 4 * FRAME_MS,
        attack_ms: 2 * FRAME_MS,
        threshold_bits: 0.0f32.to_bits(),
    });

    // 1. Silence + truncation
    for i in 0..20 {
        let out = fsm.process(false, &frame_of(42));
        if i < 10 {
            assert!(is_filled_with(&out, 0), "frame {i} should be silenced");
        } else {
            assert!(out.is_empty(), "frame {i} should be truncated");
        }
    }

    // 2. Short speech burst rejected
    let out = fsm.process(true, &frame_of(1));
    assert!(out.is_empty());

    let out = fsm.process(true, &frame_of(2));
    assert!(out.is_empty());

    let out = fsm.process(false, &frame_of(0));
    assert!(out.is_empty()); // still truncated

    // 3. Speech confirmed, attack buffer flushed, one frame discarded
    let out = fsm.process(true, &frame_of(3));
    assert!(out.is_empty());

    let out = fsm.process(true, &frame_of(4));
    assert!(out.is_empty());

    let out = fsm.process(true, &frame_of(5));
    assert!(out.is_empty());

    let out = fsm.process(true, &frame_of(6));
    assert_eq!(out, vec![frame_of(4), frame_of(5), frame_of(6)].concat());

    // 4. Active speech passes through
    let out = fsm.process(true, &frame_of(7));
    assert!(is_filled_with(&out, 7));

    // 5. Short silence passes as-is
    let out = fsm.process(false, &frame_of(8));
    assert!(is_filled_with(&out, 8));

    let out = fsm.process(false, &frame_of(9));
    assert!(is_filled_with(&out, 9));

    let out = fsm.process(false, &frame_of(10));
    assert!(is_filled_with(&out, 10));

    // 6. Speech ends after min_silence, consecutive frames are silenced
    let out = fsm.process(false, &frame_of(11));
    assert!(is_filled_with(&out, 0));
}

#[test]
fn gap_keeps_bounded_silence_and_last_attack_frames() {
    const FRAME_MS: u32 = (VAD_FRAME_SAMPLES as u32) * 1000 / SAMPLE_RATE;
    let mut fsm = VadFSM::new(&VadConfig {
        max_silence_ms: 2 * FRAME_MS,
        min_silence_ms: FRAME_MS,
        min_speech_ms: 3 * FRAME_MS,
        attack_ms: 2 * FRAME_MS,
        threshold_bits: 0.5f32.to_bits(),
    });
    // A speech spike inside the gap does not renew the silence allowance.
    assert!(is_filled_with(&fsm.process(false, &frame_of(1)), 0));
    assert!(fsm.process(true, &frame_of(2)).is_empty());
    assert!(is_filled_with(&fsm.process(false, &frame_of(3)), 0));
    assert!(fsm.process(false, &frame_of(4)).is_empty());
    assert!(fsm.process(true, &frame_of(5)).is_empty());
    assert!(fsm.process(true, &frame_of(6)).is_empty());
    // Confirmation emits the last two frames of the gap, then the frame.
    let out = fsm.process(true, &frame_of(7));
    assert_eq!(out, vec![frame_of(5), frame_of(6), frame_of(7)].concat());
}

#[test]
fn reset_runs_like_a_fresh_machine() {
    const FRAME_MS: u32 = (VAD_FRAME_SAMPLES as u32) * 1000 / SAMPLE_RATE;
    let config = VadConfig {
        max_silence_ms: 2 * FRAME_MS,
        min_silence_ms: FRAME_MS,
        min_speech_ms: 2 * FRAME_MS,
        attack_ms: FRAME_MS,
        threshold_bits: 0.5f32.to_bits(),
    };
    let script = [(true, 1), (false, 2), (true, 3), (true, 4), (false, 5), (false, 6)];
    let mut used = VadFSM::new(&config);
    for (speech, fill) in script {
        used.process(speech, &frame_of(fill));
    }
    used.reset();
    let mut fresh = VadFSM::new(&config);
    for (speech, fill) in script {
        assert_eq!(used.process(speech, &frame_of(fill)), fresh.process(speech, &frame_of(fill)));
    }
}
