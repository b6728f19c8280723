//! Decisions of the recording daemon: why a recording ended, what the
//! indicator shows, and the command-line switches.

use vstd::prelude::*;
use vstd::string::StringExecFns;

use crate::text::{str_trim, trim_ws};

verus! {

/// Why a recording ended.
#[derive(Debug, Clone, Copy, PartialEq, Eq, Structural)]
pub enum StopReason {
    /// The user (or an error-free end of input) stopped it.
    Stopped,
    /// The configured time limit passed.
    Timeout,
}

/// What the audio callback asks the recorder to do next.
#[derive(Debug, Clone, Copy, PartialEq, Eq, Structural)]
pub enum CallbackAction {
    Continue,
    Stop,
}

/// The state the indicator file announces.
#[derive(Debug, Clone, Copy, PartialEq, Eq, Structural)]
pub enum State {
    Recording,
    Transcribing,
}

impl State {
    /// The text written to the indicator file.
    pub fn as_str(self) -> (s: &'static str)
        ensures
            self == State::Recording ==> s@ == "recording"@,
            self == State::Transcribing ==> s@ == "transcribing"@,
    {
        match self {
            State::Recording => "recording",
            State::Transcribing => "transcribing",
        }
    }
}

/// Switches of the `daemon` subcommand.
#[derive(Debug, Clone, Copy, PartialEq, Eq)]
pub struct DaemonArgs {
    /// Do one transcription cycle then exit; toggle a running daemon instead.
    pub oneshot: bool,
}

/// Switches of the `transcribe` subcommand.
#[derive(Debug, Clone, Copy, PartialEq, Eq)]
pub struct TranscribeArgs {
    /// Play back processed audio instead of transcribing.
    pub preview: bool,
    /// Type the transcription instead of printing it.
    pub type_it: bool,
}

} // verus!

verus! {

/// What the capture loop received.
#[derive(Debug, Clone, Copy, PartialEq, Eq, Structural)]
pub enum RecorderEvent {
    /// A block of audio, with whether it holds any samples.
    Audio { empty: bool },
    /// The stopper was triggered.
    Stop,
    /// The capture stream reported an error.
    StreamError,
    /// The deadline passed while waiting.
    Timeout,
    /// Every sender went away.
    Disconnected,
}

/// What the capture loop does next.
#[derive(Debug, Clone, Copy, PartialEq, Eq, Structural)]
pub enum RecorderStep {
    /// Keep recording.
    Continue,
    /// Hand the audio to the callback, then ask again.
    Deliver,
    /// End the recording for this reason.
    Finish(StopReason),
    /// End the recording with the stream's error.
    Fail,
}

/// The capture loop's decision on an event: audio with samples goes to
/// the callback, empty audio is skipped, a stop request or a vanished
/// sender ends the recording as stopped, the deadline as timed out, and a
/// stream error fails it.
pub fn recorder_step(event: RecorderEvent) -> (step: RecorderStep)
    ensures
        step == match event {
            RecorderEvent::Audio { empty } => if empty {
                RecorderStep::Continue
            } else {
                RecorderStep::Deliver
            },
            RecorderEvent::Stop => RecorderStep::Finish(StopReason::Stopped),
            RecorderEvent::StreamError => RecorderStep::Fail,
            RecorderEvent::Timeout => RecorderStep::Finish(StopReason::Timeout),
            RecorderEvent::Disconnected => RecorderStep::Finish(StopReason::Stopped),
        },
{
    match event {
        RecorderEvent::Audio { empty } => if empty {
            RecorderStep::Continue
        } else {
            RecorderStep::Deliver
        },
        RecorderEvent::Stop => RecorderStep::Finish(StopReason::Stopped),
        RecorderEvent::StreamError => RecorderStep::Fail,
        RecorderEvent::Timeout => RecorderStep::Finish(StopReason::Timeout),
        RecorderEvent::Disconnected => RecorderStep::Finish(StopReason::Stopped),
    }
}

/// After the callback has seen a block: stop when it asks to.
pub fn after_callback(action: CallbackAction) -> (step: RecorderStep)
    ensures
        step == if action == CallbackAction::Stop {
            RecorderStep::Finish(StopReason::Stopped)
        } else {
            RecorderStep::Continue
        },
{
    match action {
        CallbackAction::Stop => RecorderStep::Finish(StopReason::Stopped),
        CallbackAction::Continue => RecorderStep::Continue,
    }
}

/// A control request from the signal listener.
#[derive(Debug, Clone, Copy, PartialEq, Eq, Structural)]
pub enum ControlEvent {
    Toggle,
    Shutdown,
}

/// What installing a stopper for a new recording leads to.
#[derive(Debug, Clone, Copy, PartialEq, Eq, Structural)]
pub struct StopperDecision {
    /// Trigger the stopper at once.
    pub stop_now: bool,
    /// Keep the stopper installed (else remove it again).
    pub keep: bool,
    /// Go on with the recording.
    pub proceed: bool,
}

/// Installing a stopper: on shutdown it fires, is removed and the recording
/// does not go on; a toggle that arrived in the meantime fires it but the
/// recording goes on (and ends at once); a shutdown request fires and
/// removes it; with nothing pending the recording goes on.
pub fn stopper_decision(shutdown: bool, pending: Option<ControlEvent>) -> (d: StopperDecision)
    ensures
        shutdown ==> d == (StopperDecision { stop_now: true, keep: false, proceed: false }),
        !shutdown ==> d == match pending {
            Some(ControlEvent::Toggle) => StopperDecision { stop_now: true, keep: true, proceed: true },
            Some(ControlEvent::Shutdown) => StopperDecision {
                stop_now: true,
                keep: false,
                proceed: false,
            },
            None => StopperDecision { stop_now: false, keep: true, proceed: true },
        },
{
    if shutdown {
        StopperDecision { stop_now: true, keep: false, proceed: false }
    } else {
        match pending {
            Some(ControlEvent::Toggle) => StopperDecision { stop_now: true, keep: true, proceed: true },
            Some(ControlEvent::Shutdown) => StopperDecision {
                stop_now: true,
                keep: false,
                proceed: false,
            },
            None => StopperDecision { stop_now: false, keep: true, proceed: true },
        }
    }
}

/// Whether the daemon's main loop goes on waiting after a control event.
pub fn wait_result(event: ControlEvent) -> (go_on: bool)
    ensures
        go_on == (event == ControlEvent::Toggle),
{
    match event {
        ControlEvent::Toggle => true,
        ControlEvent::Shutdown => false,
    }
}

/// What happens with a finished recording.
#[derive(Debug, Clone, PartialEq, Eq)]
pub enum FinishAction {
    /// The recording hit the time limit and is discarded.
    Cancelled,
    /// The transcription came back empty.
    NoSpeech,
    /// Type this text.
    Type(String),
}

/// After a recording: a timed-out recording is discarded, an empty
/// transcription reports no speech, anything else is typed without its
/// surrounding white space.
pub fn finish_action(stop_reason: StopReason, text: &str) -> (a: FinishAction)
    ensures
        stop_reason == StopReason::Timeout ==> a == FinishAction::Cancelled,
        stop_reason == StopReason::Stopped ==> match a {
            FinishAction::Cancelled => false,
            FinishAction::NoSpeech => trim_ws(text@).len() == 0,
            FinishAction::Type(t) => trim_ws(text@).len() > 0 && t@ == trim_ws(text@),
        },
{
    if stop_reason == StopReason::Timeout {
        return FinishAction::Cancelled;
    }
    let trimmed = str_trim(text);
    if trimmed.is_empty() {
        FinishAction::NoSpeech
    } else {
        FinishAction::Type(String::from_str(trimmed))
    }
}

/// Average of the samples of each frame of `channels` interleaved samples,
/// rounded toward zero; a trailing incomplete frame is ignored.
pub open spec fn downmixed(data: Seq<i16>, channels: nat) -> Seq<i16> {
    Seq::new(
        data.len() / channels,
        |i: int| trunc_div(sum_i16(data.subrange(i * channels, i * channels + channels)), channels as int)
            as i16,
    )
}

/// The sum of the samples.
pub open spec fn sum_i16(s: Seq<i16>) -> int
    decreases s.len(),
{
    if s.len() == 0 {
        0
    } else {
        sum_i16(s.drop_last()) + s.last()
    }
}

/// Integer division rounding toward zero.
pub open spec fn trunc_div(a: int, b: int) -> int {
    if a >= 0 {
        a / b
    } else {
        -((-a) / b)
    }
}

proof fn lemma_sum_bound(s: Seq<i16>)
    ensures
        -32768 * s.len() <= sum_i16(s) <= 32767 * s.len(),
    decreases s.len(),
{
    if s.len() > 0 {
        lemma_sum_bound(s.drop_last());
    }
}

/// Mixes interleaved multi-channel 16-bit audio down to mono by averaging
/// each frame.
pub fn downmix_i16(data: &[i16], channels: usize) -> (out: Vec<i16>)
    requires
        channels > 0,
        channels <= 0x1_0000_0000,
    ensures
        out@ == downmixed(data@, channels as nat),
{
    let dlen: usize = data.len();
    let n: usize = dlen / channels;
    let mut out: Vec<i16> = Vec::with_capacity(n);
    let mut i: usize = 0;
    while i < n
        invariant
            i <= n,
            dlen == data@.len(),
            n == data@.len() / (channels as nat),
            channels > 0,
            channels <= 0x1_0000_0000,
            out@ == downmixed(data@, channels as nat).take(i as int),
        decreases n - i,
    {
        proof {
            assert(channels * i + channels <= channels * n) by (nonlinear_arith)
                requires
                    i < n,
            ;
            assert(channels * n <= data@.len()) by (nonlinear_arith)
                requires
                    n == data@.len() / (channels as nat),
                    channels > 0,
            ;
            assert(i * channels == channels * i) by (nonlinear_arith);
        }
        let start: usize = i * channels;
        proof {
            assert(data@.subrange(start as int, start as int) =~= Seq::<i16>::empty());
        }
        let mut sum: i64 = 0;
        let mut j: usize = 0;
        while j < channels
            invariant
                j <= channels,
                dlen == data@.len(),
                channels <= 0x1_0000_0000,
                start + channels <= data@.len(),
                sum == sum_i16(data@.subrange(start as int, start + j)),
                -32768 * j <= sum <= 32767 * j,
            decreases channels - j,
        {
            proof {
                assert(data@.subrange(start as int, start + j + 1).drop_last() =~= data@.subrange(
                    start as int,
                    start + j,
                ));
            }
            sum = sum + data[start + j] as i64;
            j = j + 1;
        }
        let c: i64 = channels as i64;
        let avg: i64 = if sum >= 0 {
            sum / c
        } else {
            -((-sum) / c)
        };
        proof {
            let si = sum as int;
            let ci = channels as int;
            assert(avg as int == trunc_div(si, ci));
            if si >= 0 {
                assert(si / ci <= 32767) by (nonlinear_arith)
                    requires
                        0 <= si <= 32767 * ci,
                        ci > 0,
                ;
                assert(si / ci >= 0) by (nonlinear_arith)
                    requires
                        0 <= si,
                        ci > 0,
                ;
            } else {
                assert((-si) / ci <= 32768) by (nonlinear_arith)
                    requires
                        0 < -si <= 32768 * ci,
                        ci > 0,
                ;
                assert((-si) / ci >= 0) by (nonlinear_arith)
                    requires
                        0 < -si,
                        ci > 0,
                ;
            }
            assert(start == i * channels);
            assert(i * channels == channels * i) by (nonlinear_arith);
        }
        out.push(avg as i16);
        proof {
            assert(out@ =~= downmixed(data@, channels as nat).take(i + 1));
        }
        i = i + 1;
    }
    proof {
        assert(downmixed(data@, channels as nat).take(n as int) =~= downmixed(
            data@,
            channels as nat,
        ));
    }
    out
}

} // verus!

verus! {

#[verifier::external_type_specification]
#[verifier::external_body]
pub struct ExPathBuf(std::path::PathBuf);

/// The path that `std::path::Path::join` makes of the directory `dir` and
/// the name `name`. It depends on its two arguments alone.
pub uninterp spec fn joined_path(dir: std::path::PathBuf, name: Seq<char>) -> std::path::PathBuf;

/// `dir.join(name)`: the path `name` inside the directory `dir`
/// (`std::path::Path::join`). The result is stated as `joined_path` of the
/// two arguments; what that path holds is not stated, as Verus sees a
/// `PathBuf` only as an opaque value.
#[verifier::external_body]
fn path_join(dir: &std::path::PathBuf, name: &str) -> (p: std::path::PathBuf)
    ensures
        p == joined_path(*dir, name@),
{
    dir.join(name)
}

/// The daemon's own settings, with the defaults filled in.
pub struct DaemonConfig {
    /// The command, with its arguments, that types the transcription.
    pub typer: Vec<String>,
    /// Where the current state is announced.
    pub indicator_file: std::path::PathBuf,
    /// The pidfile that marks the running daemon.
    pub pidfile: std::path::PathBuf,
    /// The longest a recording may last.
    pub timeout: std::time::Duration,
}

/// The complaint about a configuration without a typer command.
pub open spec fn empty_typer_message() -> Seq<char> {
    "daemon.typer must not be empty"@
}

impl DaemonConfig {
    /// Checks the raw daemon settings and fills in the defaults: the
    /// indicator file `barkd.state` and the pidfile `barkd.pid` in
    /// `runtime_dir` where none is given. `timeout` is the recording limit
    /// already taken from the settings.
    pub fn from_raw(
        typer: Vec<String>,
        runtime_dir: std::path::PathBuf,
        indicator_file: Option<std::path::PathBuf>,
        pidfile: Option<std::path::PathBuf>,
        timeout: std::time::Duration,
    ) -> (res: Result<DaemonConfig, String>)
        ensures
            res is Err <==> typer@.len() == 0,
            res matches Err(m) ==> m@ == empty_typer_message(),
            res matches Ok(c) ==> {
                &&& c.typer@ == typer@
                &&& c.timeout == timeout
                &&& indicator_file matches Some(p) ==> c.indicator_file == p
                &&& indicator_file is None ==> c.indicator_file == joined_path(
                    runtime_dir,
                    "barkd.state"@,
                )
                &&& pidfile matches Some(p) ==> c.pidfile == p
                &&& pidfile is None ==> c.pidfile == joined_path(runtime_dir, "barkd.pid"@)
            },
    {
        if typer.len() == 0 {
            return Err(String::from_str("daemon.typer must not be empty"));
        }
        let indicator_file = match indicator_file {
            Some(p) => p,
            None => path_join(&runtime_dir, "barkd.state"),
        };
        let pidfile = match pidfile {
            Some(p) => p,
            None => path_join(&runtime_dir, "barkd.pid"),
        };
        Ok(DaemonConfig { typer, indicator_file, pidfile, timeout })
    }
}

} // verus!

verus! {

/// Where the daemon's main loop stands.
#[derive(Debug, Clone, Copy, PartialEq, Eq, Structural)]
pub enum DaemonPhase {
    /// Idle, waiting for a toggle request.
    Waiting,
    /// A toggle came; the recording's stopper is being installed.
    Arming,
    /// A recording is under way.
    Recording,
    /// The loop has ended.
    Exited,
}

/// What the main loop learned.
#[derive(Debug, Clone, Copy, PartialEq, Eq, Structural)]
pub enum DaemonEvent {
    /// Shutdown was requested (the flag is set or a shutdown request came).
    Shutdown,
    /// A toggle request came.
    Toggle,
    /// Installing the stopper succeeded (`accepted`) or was refused.
    Armed { accepted: bool },
    /// The recording ended, its stopper removed, with or without an error.
    Recorded { ok: bool },
}

/// What the main loop does next.
#[derive(Debug, Clone, Copy, PartialEq, Eq, Structural)]
pub enum DaemonAction {
    /// Wait for the next toggle request.
    WaitForToggle,
    /// Install a stopper for a new recording.
    InstallStopper,
    /// Announce "recording" and record.
    StartRecording,
    /// Announce "transcribing", transcribe and type the result.
    Transcribe,
    /// Report the recording's error and wait again.
    ReportError,
    /// Leave the loop.
    Exit,
}

/// The main loop's transition: a shutdown ends the loop from any phase and
/// the ended loop stays ended; a toggle while waiting arms a recording; a
/// refused stopper ends the loop; an accepted one starts the recording; a
/// finished recording is transcribed, a failed one reported, and either way
/// the loop waits again. An event that does not belong to the phase
/// changes nothing.
pub open spec fn daemon_next(phase: DaemonPhase, event: DaemonEvent) -> (DaemonPhase, DaemonAction) {
    match (phase, event) {
        (DaemonPhase::Exited, _) => (DaemonPhase::Exited, DaemonAction::Exit),
        (_, DaemonEvent::Shutdown) => (DaemonPhase::Exited, DaemonAction::Exit),
        (DaemonPhase::Waiting, DaemonEvent::Toggle) => (DaemonPhase::Arming, DaemonAction::InstallStopper),
        (DaemonPhase::Arming, DaemonEvent::Armed { accepted }) => if accepted {
            (DaemonPhase::Recording, DaemonAction::StartRecording)
        } else {
            (DaemonPhase::Exited, DaemonAction::Exit)
        },
        (DaemonPhase::Recording, DaemonEvent::Recorded { ok }) => if ok {
            (DaemonPhase::Waiting, DaemonAction::Transcribe)
        } else {
            (DaemonPhase::Waiting, DaemonAction::ReportError)
        },
        (DaemonPhase::Waiting, _) => (DaemonPhase::Waiting, DaemonAction::WaitForToggle),
        (DaemonPhase::Arming, _) => (DaemonPhase::Arming, DaemonAction::InstallStopper),
        (DaemonPhase::Recording, _) => (DaemonPhase::Recording, DaemonAction::StartRecording),
    }
}

/// One step of the daemon's main loop.
pub fn daemon_step(phase: DaemonPhase, event: DaemonEvent) -> (r: (DaemonPhase, DaemonAction))
    ensures
        r == daemon_next(phase, event),
{
    match (phase, event) {
        (DaemonPhase::Exited, _) => (DaemonPhase::Exited, DaemonAction::Exit),
        (_, DaemonEvent::Shutdown) => (DaemonPhase::Exited, DaemonAction::Exit),
        (DaemonPhase::Waiting, DaemonEvent::Toggle) => (DaemonPhase::Arming, DaemonAction::InstallStopper),
        (DaemonPhase::Arming, DaemonEvent::Armed { accepted }) => if accepted {
            (DaemonPhase::Recording, DaemonAction::StartRecording)
        } else {
            (DaemonPhase::Exited, DaemonAction::Exit)
        },
        (DaemonPhase::Recording, DaemonEvent::Recorded { ok }) => if ok {
            (DaemonPhase::Waiting, DaemonAction::Transcribe)
        } else {
            (DaemonPhase::Waiting, DaemonAction::ReportError)
        },
        (DaemonPhase::Waiting, _) => (DaemonPhase::Waiting, DaemonAction::WaitForToggle),
        (DaemonPhase::Arming, _) => (DaemonPhase::Arming, DaemonAction::InstallStopper),
        (DaemonPhase::Recording, _) => (DaemonPhase::Recording, DaemonAction::StartRecording),
    }
}

/// The phase after running `events` from `phase`.
pub open spec fn daemon_run(phase: DaemonPhase, events: Seq<DaemonEvent>) -> DaemonPhase
    decreases events.len(),
{
    if events.len() == 0 {
        phase
    } else {
        daemon_next(daemon_run(phase, events.drop_last()), events.last()).0
    }
}

/// A shutdown request ends the loop whatever it was doing, and once ended
/// it stays ended whatever comes after.
pub proof fn lemma_shutdown_is_final(phase: DaemonPhase, events: Seq<DaemonEvent>)
    ensures
        daemon_next(phase, DaemonEvent::Shutdown) == (DaemonPhase::Exited, DaemonAction::Exit),
        daemon_run(DaemonPhase::Exited, events) == DaemonPhase::Exited,
    decreases events.len(),
{
    if events.len() > 0 {
        lemma_shutdown_is_final(phase, events.drop_last());
    }
}

/// A recording starts only right after its stopper was accepted, and a
/// transcription only after a recording that ended without error.
pub proof fn lemma_recording_needs_stopper(phase: DaemonPhase, event: DaemonEvent)
    ensures
        daemon_next(phase, event).1 == DaemonAction::StartRecording && phase != DaemonPhase::Recording
            ==> phase == DaemonPhase::Arming && event == (DaemonEvent::Armed { accepted: true }),
        daemon_next(phase, event).1 == DaemonAction::Transcribe ==> phase == DaemonPhase::Recording
            && event == (DaemonEvent::Recorded { ok: true }),
{
}

} // verus!
