use std::path::PathBuf;
use std::time::Duration;

use bark_core::daemon::{
    after_callback, daemon_step, downmix_i16, finish_action, recorder_step, stopper_decision,
    wait_result, CallbackAction, ControlEvent, DaemonAction, DaemonConfig, DaemonEvent, DaemonPhase,
    FinishAction, RecorderEvent, RecorderStep, State, StopReason, StopperDecision,
};

#[test]
fn indicator_texts() {
    assert_eq!(State::Recording.as_str(), "recording");
    assert_eq!(State::Transcribing.as_str(), "transcribing");
}

#[test]
fn recorder_steps() {
    assert_eq!(recorder_step(RecorderEvent::Audio { empty: true }), RecorderStep::Continue);
    assert_eq!(recorder_step(RecorderEvent::Audio { empty: false }), RecorderStep::Deliver);
    assert_eq!(recorder_step(RecorderEvent::Stop), RecorderStep::Finish(StopReason::Stopped));
    assert_eq!(recorder_step(RecorderEvent::Timeout), RecorderStep::Finish(StopReason::Timeout));
    assert_eq!(recorder_step(RecorderEvent::Disconnected), RecorderStep::Finish(StopReason::Stopped));
    assert_eq!(recorder_step(RecorderEvent::StreamError), RecorderStep::Fail);
    assert_eq!(after_callback(CallbackAction::Stop), RecorderStep::Finish(StopReason::Stopped));
    assert_eq!(after_callback(CallbackAction::Continue), RecorderStep::Continue);
}

#[test]
fn stopper_decisions() {
    let refuse = StopperDecision { stop_now: true, keep: false, proceed: false };
    assert_eq!(stopper_decision(true, None), refuse);
    assert_eq!(stopper_decision(true, Some(ControlEvent::Toggle)), refuse);
    assert_eq!(stopper_decision(false, Some(ControlEvent::Shutdown)), refuse);
    assert_eq!(
        stopper_decision(false, Some(ControlEvent::Toggle)),
        StopperDecision { stop_now: true, keep: true, proceed: true }
    );
    assert_eq!(
        stopper_decision(false, None),
        StopperDecision { stop_now: false, keep: true, proceed: true }
    );
    assert!(wait_result(ControlEvent::Toggle));
    assert!(!wait_result(ControlEvent::Shutdown));
}

#[test]
fn finish_actions() {
    assert_eq!(finish_action(StopReason::Timeout, "hello"), FinishAction::Cancelled);
    assert_eq!(finish_action(StopReason::Stopped, " \n\t"), FinishAction::NoSpeech);
    assert_eq!(finish_action(StopReason::Stopped, "  hi there \n"), FinishAction::Type("hi there".to_string()));
}

#[test]
fn downmix_averages_toward_zero() {
    assert_eq!(downmix_i16(&[1, 3, -1, -2, 5], 2), vec![2, -1]);
    assert_eq!(downmix_i16(&[i16::MAX, i16::MAX, i16::MIN, i16::MIN], 2), vec![i16::MAX, i16::MIN]);
    assert_eq!(downmix_i16(&[4, 5, 6], 1), vec![4, 5, 6]);
    assert_eq!(downmix_i16(&[1, 2], 3), Vec::<i16>::new());
}

#[test]
fn daemon_config_requires_a_typer() {
    let res = DaemonConfig::from_raw(Vec::new(), PathBuf::from("/run/user/1"), None, None, Duration::from_secs(300));
    assert_eq!(res.err(), Some("daemon.typer must not be empty".to_string()));
}

#[test]
fn daemon_config_fills_default_paths() {
    let dir = PathBuf::from("/run/user/1000");
    let cfg = DaemonConfig::from_raw(vec!["wtype".to_string(), "-".to_string()], dir.clone(), None, None, Duration::from_secs(300))
        .unwrap();
    assert_eq!(cfg.typer, vec!["wtype".to_string(), "-".to_string()]);
    assert_eq!(cfg.indicator_file, dir.join("barkd.state"));
    assert_eq!(cfg.pidfile, dir.join("barkd.pid"));
    assert_eq!(cfg.timeout, Duration::from_secs(300));

    let given = DaemonConfig::from_raw(
        vec!["cat".to_string()],
        dir,
        Some(PathBuf::from("/tmp/state")),
        Some(PathBuf::from("/tmp/pid")),
        Duration::from_millis(100),
    )
    .unwrap();
    assert_eq!(given.indicator_file, PathBuf::from("/tmp/state"));
    assert_eq!(given.pidfile, PathBuf::from("/tmp/pid"));
}

#[test]
fn fills_defaults_and_parses_native_config() {
    let raw: toml::Table = toml::from_str(
        r#"
[daemon]
typer = ["cat"]

[pipeline.engine]
api_key = "key"

[pipeline.pre.agc]
target_db = -20.0

[pipeline.pre.vad]
threshold = 0.5
"#,
    )
    .unwrap();
    let daemon = raw["daemon"].as_table().unwrap();
    let typer: Vec<String> = daemon["typer"]
        .as_array()
        .unwrap()
        .iter()
        .map(|v| v.as_str().unwrap().to_string())
        .collect();
    let cfg = DaemonConfig::from_raw(typer, PathBuf::from("/tmp"), None, None, Duration::from_secs(300)).unwrap();
    assert_eq!(cfg.typer, vec!["cat".to_string()]);
    assert!(cfg.pidfile.ends_with("barkd.pid"));
    assert!(cfg.indicator_file.ends_with("barkd.state"));
}

#[test]
fn daemon_loop_scenario() {
    let mut phase = DaemonPhase::Waiting;
    let mut actions = Vec::new();
    for event in [
        DaemonEvent::Toggle,
        DaemonEvent::Armed { accepted: true },
        DaemonEvent::Recorded { ok: true },
        DaemonEvent::Toggle,
        DaemonEvent::Armed { accepted: true },
        DaemonEvent::Recorded { ok: false },
        DaemonEvent::Shutdown,
        DaemonEvent::Toggle,
    ] {
        let (next, action) = daemon_step(phase, event);
        phase = next;
        actions.push(action);
    }
    assert_eq!(
        actions,
        vec![
            DaemonAction::InstallStopper,
            DaemonAction::StartRecording,
            DaemonAction::Transcribe,
            DaemonAction::InstallStopper,
            DaemonAction::StartRecording,
            DaemonAction::ReportError,
            DaemonAction::Exit,
            DaemonAction::Exit,
        ]
    );
    assert_eq!(phase, DaemonPhase::Exited);
    assert_eq!(
        daemon_step(DaemonPhase::Arming, DaemonEvent::Armed { accepted: false }),
        (DaemonPhase::Exited, DaemonAction::Exit)
    );
    assert_eq!(
        daemon_step(DaemonPhase::Recording, DaemonEvent::Shutdown),
        (DaemonPhase::Exited, DaemonAction::Exit)
    );
}
