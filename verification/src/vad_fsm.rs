//! Voice-activity state machine: decides, frame by frame, which audio is
//! kept (speech, short pauses, a pre-speech attack window) and which is
//! silenced or dropped.

use std::collections::VecDeque;
use vstd::prelude::*;

use crate::config::VadConfig;
use crate::{SAMPLE_RATE, VAD_FRAME_SAMPLES};

verus! {

broadcast use vstd::seq_lib::group_seq_properties;

/// Number of whole VAD frames in `ms` milliseconds.
pub open spec fn ms_to_frames(ms: u32) -> u32 {
    ((ms as int) * 16000int / 512000int) as u32
}

/// The abstract state of the machine.
pub struct FsmState {
    pub in_speech: bool,
    pub consecutive_speech: u32,
    pub consecutive_silence: u32,
    pub silence_written: u32,
    /// Frames heard before speech was confirmed, oldest first.
    pub attack: Seq<Seq<i16>>,
    pub min_speech_frames: u32,
    pub min_silence_frames: u32,
    pub max_silence_frames: u32,
    pub attack_frames: u32,
}

/// The state right after construction (or a reset) with the given limits.
pub open spec fn initial_state(
    min_speech_frames: u32,
    min_silence_frames: u32,
    max_silence_frames: u32,
    attack_frames: u32,
) -> FsmState {
    FsmState {
        in_speech: false,
        consecutive_speech: 0,
        consecutive_silence: 0,
        silence_written: 0,
        attack: Seq::empty(),
        min_speech_frames,
        min_silence_frames,
        max_silence_frames,
        attack_frames,
    }
}

/// Appends `frame` to the attack window, first dropping the oldest frame
/// when the window already holds `cap` frames.
pub open spec fn roll_attack(attack: Seq<Seq<i16>>, frame: Seq<i16>, cap: u32) -> Seq<Seq<i16>> {
    let kept = if attack.len() == cap as nat && attack.len() > 0 {
        attack.drop_first()
    } else {
        attack
    };
    kept.push(frame)
}

/// `n` zero samples.
pub open spec fn zeros(n: nat) -> Seq<i16> {
    Seq::new(n, |i: int| 0i16)
}

/// Transition on a frame classified as speech; returns the next state and
/// the samples to emit.
pub open spec fn on_speech(s: FsmState, frame: Seq<i16>) -> (FsmState, Seq<i16>) {
    let run = (s.consecutive_speech + 1) as u32;
    if s.in_speech {
        (FsmState { consecutive_speech: run, consecutive_silence: 0, ..s }, frame)
    } else if run >= s.min_speech_frames {
        (
            FsmState {
                in_speech: true,
                consecutive_speech: run,
                consecutive_silence: 0,
                silence_written: 0,
                attack: Seq::empty(),
                ..s
            },
            s.attack.flatten() + frame,
        )
    } else {
        (
            FsmState {
                consecutive_speech: run,
                consecutive_silence: 0,
                attack: roll_attack(s.attack, frame, s.attack_frames),
                ..s
            },
            Seq::empty(),
        )
    }
}

/// Transition on a frame classified as silence; returns the next state and
/// the samples to emit.
pub open spec fn on_silence(s: FsmState, frame: Seq<i16>) -> (FsmState, Seq<i16>) {
    let run = (s.consecutive_silence + 1) as u32;
    if s.in_speech {
        if run >= s.min_silence_frames {
            (
                FsmState {
                    in_speech: false,
                    consecutive_speech: 0,
                    consecutive_silence: run,
                    silence_written: 0,
                    attack: Seq::empty(),
                    ..s
                },
                frame,
            )
        } else {
            (FsmState { consecutive_speech: 0, consecutive_silence: run, ..s }, frame)
        }
    } else {
        let attack = roll_attack(s.attack, frame, s.attack_frames);
        if s.silence_written < s.max_silence_frames {
            (
                FsmState {
                    consecutive_speech: 0,
                    consecutive_silence: run,
                    silence_written: (s.silence_written + 1) as u32,
                    attack,
                    ..s
                },
                zeros(frame.len()),
            )
        } else {
            (
                FsmState { consecutive_speech: 0, consecutive_silence: run, attack, ..s },
                Seq::empty(),
            )
        }
    }
}

/// One transition of the machine.
pub open spec fn fsm_step(s: FsmState, is_speech: bool, frame: Seq<i16>) -> (FsmState, Seq<i16>) {
    if is_speech {
        on_speech(s, frame)
    } else {
        on_silence(s, frame)
    }
}

/// The counters can take one more step without overflowing.
pub open spec fn can_step(s: FsmState, is_speech: bool) -> bool {
    if is_speech {
        s.consecutive_speech < u32::MAX
    } else {
        s.consecutive_silence < u32::MAX
    }
}

/// What holds of every reachable state: the attack window never exceeds its
/// capacity, it is empty while speech is active, and no more leading
/// silence has been emitted than allowed.
pub open spec fn fsm_inv(s: FsmState) -> bool {
    &&& s.attack.len() <= s.attack_frames
    &&& s.in_speech ==> s.attack.len() == 0
    &&& s.silence_written <= s.max_silence_frames
}

/// Every transition keeps `fsm_inv`, provided the attack window has room
/// for at least one frame.
pub proof fn lemma_step_keeps_inv(s: FsmState, is_speech: bool, frame: Seq<i16>)
    requires
        fsm_inv(s),
        s.attack_frames >= 1,
    ensures
        fsm_inv(fsm_step(s, is_speech, frame).0),
{
}

/// The limits never change.
pub proof fn lemma_step_keeps_limits(s: FsmState, is_speech: bool, frame: Seq<i16>)
    ensures
        ({
            let t = fsm_step(s, is_speech, frame).0;
            &&& t.min_speech_frames == s.min_speech_frames
            &&& t.min_silence_frames == s.min_silence_frames
            &&& t.max_silence_frames == s.max_silence_frames
            &&& t.attack_frames == s.attack_frames
        }),
{
}

/// Outside speech, every emitted sample is silence; no frame heard there
/// reaches the output until speech is confirmed.
pub proof fn lemma_no_speech_emits_silence(s: FsmState, frame: Seq<i16>)
    requires
        !s.in_speech,
    ensures
        fsm_step(s, false, frame).1 == zeros(frame.len()) || fsm_step(s, false, frame).1
            == Seq::<i16>::empty(),
{
}

/// Once `max_silence_frames` silent frames have been emitted outside speech,
/// further silence is dropped entirely.
pub proof fn lemma_long_silence_truncated(s: FsmState, frame: Seq<i16>)
    requires
        !s.in_speech,
        s.silence_written >= s.max_silence_frames,
    ensures
        fsm_step(s, false, frame).1 == Seq::<i16>::empty(),
{
}

/// When speech is confirmed, the attack window is emitted in order ahead of
/// the confirming frame.
pub proof fn lemma_onset_recovers_attack(s: FsmState, frame: Seq<i16>)
    requires
        !s.in_speech,
        s.consecutive_speech + 1 >= s.min_speech_frames,
        s.consecutive_speech < u32::MAX,
    ensures
        fsm_step(s, true, frame).0.in_speech,
        fsm_step(s, true, frame).1 == s.attack.flatten() + frame,
{
}

/// While speech is active, every frame passes through unchanged.
pub proof fn lemma_speech_passes_through(s: FsmState, is_speech: bool, frame: Seq<i16>)
    requires
        s.in_speech,
    ensures
        fsm_step(s, is_speech, frame).1 == frame,
{
}

/// A speech frame that does not yet complete `min_speech_frames` outside
/// speech emits nothing and does not open speech: a noise spike is held
/// back.
pub proof fn lemma_spike_held_back(s: FsmState, frame: Seq<i16>)
    requires
        !s.in_speech,
        s.consecutive_speech + 1 < s.min_speech_frames,
    ensures
        !fsm_step(s, true, frame).0.in_speech,
        fsm_step(s, true, frame).1 == Seq::<i16>::empty(),
{
}

/// Inside speech, a pause shorter than `min_silence_frames` is kept as it
/// is and does not end the speech.
pub proof fn lemma_short_pause_kept(s: FsmState, frame: Seq<i16>)
    requires
        s.in_speech,
        s.consecutive_silence + 1 < s.min_silence_frames,
    ensures
        fsm_step(s, false, frame).0.in_speech,
        fsm_step(s, false, frame).1 == frame,
{
}

/// The machine run from `s` over `events` (speech decision and frame, in
/// call order): the state reached and the samples each call emitted.
pub open spec fn run_calls(s: FsmState, events: Seq<(bool, Seq<i16>)>) -> (FsmState, Seq<Seq<i16>>)
    decreases events.len(),
{
    if events.len() == 0 {
        (s, Seq::empty())
    } else {
        let (t, out) = fsm_step(s, events[0].0, events[0].1);
        let (u, outs) = run_calls(t, events.drop_first());
        (u, seq![out] + outs)
    }
}

/// The run from `s` over `events` never enters speech: `s` and every state
/// reached after each call are outside speech.
pub open spec fn stays_out_of_speech(s: FsmState, events: Seq<(bool, Seq<i16>)>) -> bool
    decreases events.len(),
{
    &&& !s.in_speech
    &&& events.len() > 0 ==> stays_out_of_speech(
        fsm_step(s, events[0].0, events[0].1).0,
        events.drop_first(),
    )
}

/// How many of `outs` are non-empty.
pub open spec fn count_nonempty(outs: Seq<Seq<i16>>) -> nat
    decreases outs.len(),
{
    if outs.len() == 0 {
        0
    } else {
        (if outs[0].len() > 0 { 1nat } else { 0nat }) + count_nonempty(outs.drop_first())
    }
}

/// The frames of `events`, in order.
pub open spec fn event_frames(events: Seq<(bool, Seq<i16>)>) -> Seq<Seq<i16>> {
    events.map_values(|e: (bool, Seq<i16>)| e.1)
}

/// The last `cap` frames of `frames` (all of them when there are fewer).
pub open spec fn last_frames(frames: Seq<Seq<i16>>, cap: nat) -> Seq<Seq<i16>> {
    if frames.len() <= cap {
        frames
    } else {
        frames.skip(frames.len() - cap)
    }
}

/// A gap outside speech keeps at most `max_silence_frames` frames of
/// silence: over calls that never enter speech, every call emits nothing
/// or zeros as long as its frame, and no more calls emit anything than the
/// silence still allowed.
pub proof fn lemma_gap_bounded(s: FsmState, events: Seq<(bool, Seq<i16>)>)
    requires
        s.silence_written <= s.max_silence_frames,
        stays_out_of_speech(s, events),
    ensures
        count_nonempty(run_calls(s, events).1) <= s.max_silence_frames - s.silence_written,
        run_calls(s, events).1.len() == events.len(),
        forall|k: int|
            0 <= k < events.len() ==> #[trigger] run_calls(s, events).1[k] == Seq::<i16>::empty()
                || run_calls(s, events).1[k] == zeros(events[k].1.len()),
    decreases events.len(),
{
    if events.len() > 0 {
        let (t, out) = fsm_step(s, events[0].0, events[0].1);
        let rest = events.drop_first();
        assert(stays_out_of_speech(t, rest));
        assert(!t.in_speech);
        lemma_gap_bounded(t, rest);
        let outs = run_calls(s, events).1;
        assert(outs =~= seq![out] + run_calls(t, rest).1);
        assert(outs.drop_first() =~= run_calls(t, rest).1);
        assert forall|k: int|
            0 <= k < events.len() implies #[trigger] outs[k] == Seq::<i16>::empty() || outs[k] == zeros(
                events[k].1.len(),
            ) by {
            if k > 0 {
                assert(outs[k] == run_calls(t, rest).1[k - 1]);
                assert(rest[k - 1] == events[k]);
            } else {
                if out.len() > 0 && !events[0].0 {
                    assert(out =~= zeros(events[0].1.len()));
                }
            }
        }
    }
}

/// Rolling a frame into a window that holds no more than `cap` frames keeps
/// the last `cap` of them.
proof fn lemma_roll_attack_last(attack: Seq<Seq<i16>>, frame: Seq<i16>, cap: u32)
    requires
        attack.len() <= cap,
        cap >= 1,
    ensures
        roll_attack(attack, frame, cap) == last_frames(attack.push(frame), cap as nat),
{
    if attack.len() == cap as nat {
        assert(attack.drop_first().push(frame) =~= attack.push(frame).skip(1));
    }
}

proof fn lemma_last_frames_twice(x: Seq<Seq<i16>>, y: Seq<Seq<i16>>, cap: nat)
    ensures
        last_frames(last_frames(x, cap) + y, cap) == last_frames(x + y, cap),
{
    let lx = last_frames(x, cap);
    if x.len() > cap {
        if lx.len() + y.len() <= cap {
            assert(y.len() == 0);
            assert(lx + y =~= lx);
            assert(x + y =~= x);
        } else {
            assert((lx + y).skip((lx + y).len() - cap) =~= (x + y).skip((x + y).len() - cap));
        }
    } else {
        assert(lx + y =~= x + y);
    }
}

/// While a run stays outside speech, the attack window holds the last
/// `attack_frames` frames it was handed, after those it held already.
pub proof fn lemma_attack_holds_last_frames(s: FsmState, events: Seq<(bool, Seq<i16>)>)
    requires
        s.attack.len() <= s.attack_frames,
        s.attack_frames >= 1,
        stays_out_of_speech(s, events),
    ensures
        run_calls(s, events).0.attack == last_frames(s.attack + event_frames(events), s.attack_frames as nat),
        run_calls(s, events).0.attack_frames == s.attack_frames,
        run_calls(s, events).0.min_speech_frames == s.min_speech_frames,
    decreases events.len(),
{
    if events.len() == 0 {
        assert(s.attack + event_frames(events) =~= s.attack);
    } else {
        let (t, out) = fsm_step(s, events[0].0, events[0].1);
        let rest = events.drop_first();
        assert(stays_out_of_speech(t, rest));
        assert(!t.in_speech);
        lemma_roll_attack_last(s.attack, events[0].1, s.attack_frames);
        assert(t.attack == roll_attack(s.attack, events[0].1, s.attack_frames));
        lemma_attack_holds_last_frames(t, rest);
        lemma_last_frames_twice(s.attack.push(events[0].1), event_frames(rest), s.attack_frames as nat);
        assert(s.attack.push(events[0].1) + event_frames(rest) =~= s.attack + event_frames(events));
    }
}

/// Speech confirmed after a gap that began with an empty attack window
/// (after `new`, `reset` or the end of a speech segment) emits the last
/// `attack_frames` frames heard in the gap, in call order, ahead of the
/// confirming frame.
pub proof fn lemma_onset_after_gap(s: FsmState, events: Seq<(bool, Seq<i16>)>, frame: Seq<i16>)
    requires
        s.attack.len() == 0,
        s.attack_frames >= 1,
        stays_out_of_speech(s, events),
        run_calls(s, events).0.consecutive_speech + 1 >= s.min_speech_frames,
        run_calls(s, events).0.consecutive_speech < u32::MAX,
    ensures
        fsm_step(run_calls(s, events).0, true, frame).1 == last_frames(
            event_frames(events),
            s.attack_frames as nat,
        ).flatten() + frame,
{
    lemma_attack_holds_last_frames(s, events);
    assert(s.attack + event_frames(events) =~= event_frames(events));
    lemma_stays_out_ends_out(s, events);
}

/// A run of calls never changes the limits.
pub proof fn lemma_run_keeps_limits(s: FsmState, events: Seq<(bool, Seq<i16>)>)
    ensures
        ({
            let t = run_calls(s, events).0;
            &&& t.min_speech_frames == s.min_speech_frames
            &&& t.min_silence_frames == s.min_silence_frames
            &&& t.max_silence_frames == s.max_silence_frames
            &&& t.attack_frames == s.attack_frames
        }),
    decreases events.len(),
{
    if events.len() > 0 {
        lemma_run_keeps_limits(fsm_step(s, events[0].0, events[0].1).0, events.drop_first());
    }
}

/// Resetting a machine made from `config`, after any calls, gives back the
/// state a fresh machine made from `config` starts in, so every later run
/// of calls gives what it gives on the fresh machine.
pub proof fn lemma_reset_is_fresh(config: VadConfig, events: Seq<(bool, Seq<i16>)>, later: Seq<(bool, Seq<i16>)>)
    ensures
        ({
            let fresh = initial_state(
                ms_to_frames(config.min_speech_ms),
                ms_to_frames(config.min_silence_ms),
                ms_to_frames(config.max_silence_ms),
                ms_to_frames(config.attack_ms),
            );
            let t = run_calls(fresh, events).0;
            let reset = initial_state(
                t.min_speech_frames,
                t.min_silence_frames,
                t.max_silence_frames,
                t.attack_frames,
            );
            &&& reset == fresh
            &&& run_calls(reset, later) == run_calls(fresh, later)
        }),
{
    let fresh = initial_state(
        ms_to_frames(config.min_speech_ms),
        ms_to_frames(config.min_silence_ms),
        ms_to_frames(config.max_silence_ms),
        ms_to_frames(config.attack_ms),
    );
    lemma_run_keeps_limits(fresh, events);
}

/// Every speech frame ends the current run of silent frames and every
/// silent frame ends the current run of speech frames; each frame lengthens
/// its own run by one.
pub proof fn lemma_runs_reset(s: FsmState, frame: Seq<i16>)
    ensures
        fsm_step(s, true, frame).0.consecutive_silence == 0,
        fsm_step(s, false, frame).0.consecutive_speech == 0,
        s.consecutive_speech < u32::MAX ==> fsm_step(s, true, frame).0.consecutive_speech
            == s.consecutive_speech + 1,
        s.consecutive_silence < u32::MAX ==> fsm_step(s, false, frame).0.consecutive_silence
            == s.consecutive_silence + 1,
{
}

/// The calls that hand `frames`, each decided silent.
pub open spec fn silent_calls(frames: Seq<Seq<i16>>) -> Seq<(bool, Seq<i16>)> {
    frames.map_values(|f: Seq<i16>| (false, f))
}

/// The calls that hand `frames`, each decided speech.
pub open spec fn speech_calls(frames: Seq<Seq<i16>>) -> Seq<(bool, Seq<i16>)> {
    frames.map_values(|f: Seq<i16>| (true, f))
}

proof fn lemma_pause_in_speech(u: FsmState, pause: Seq<Seq<i16>>)
    requires
        u.in_speech,
        u.consecutive_silence + pause.len() < u.min_silence_frames,
    ensures
        run_calls(u, silent_calls(pause)).0.in_speech,
        run_calls(u, silent_calls(pause)).1 == pause,
    decreases pause.len(),
{
    let ev = silent_calls(pause);
    if pause.len() > 0 {
        let t = fsm_step(u, false, pause[0]).0;
        assert(ev[0] == (false, pause[0]));
        assert(ev.drop_first() =~= silent_calls(pause.drop_first()));
        lemma_pause_in_speech(t, pause.drop_first());
        assert(seq![pause[0]] + pause.drop_first() =~= pause);
    } else {
        assert(ev =~= Seq::<(bool, Seq<i16>)>::empty());
    }
}

/// Speech ends only after `min_silence_frames` silent frames in a row: once
/// a speech frame leaves the machine in speech, any shorter run of silent
/// frames that follows keeps it in speech and passes every frame through.
pub proof fn lemma_short_pause_after_speech(s: FsmState, frame: Seq<i16>, pause: Seq<Seq<i16>>)
    requires
        fsm_step(s, true, frame).0.in_speech,
        pause.len() < s.min_silence_frames,
    ensures
        run_calls(fsm_step(s, true, frame).0, silent_calls(pause)).0.in_speech,
        run_calls(fsm_step(s, true, frame).0, silent_calls(pause)).1 == pause,
{
    lemma_pause_in_speech(fsm_step(s, true, frame).0, pause);
}

proof fn lemma_burst_held(u: FsmState, burst: Seq<Seq<i16>>)
    requires
        !u.in_speech,
        u.consecutive_speech + burst.len() < u.min_speech_frames,
    ensures
        !run_calls(u, speech_calls(burst)).0.in_speech,
        forall|i: int| 0 <= i < burst.len() ==> #[trigger] run_calls(u, speech_calls(burst)).1[i]
            == Seq::<i16>::empty(),
        run_calls(u, speech_calls(burst)).1.len() == burst.len(),
    decreases burst.len(),
{
    let ev = speech_calls(burst);
    if burst.len() > 0 {
        let t = fsm_step(u, true, burst[0]).0;
        assert(ev[0] == (true, burst[0]));
        assert(ev.drop_first() =~= speech_calls(burst.drop_first()));
        lemma_burst_held(t, burst.drop_first());
        let outs = run_calls(u, ev).1;
        assert forall|i: int| 0 <= i < burst.len() implies #[trigger] outs[i] == Seq::<i16>::empty() by {
            if i > 0 {
                assert(outs[i] == run_calls(t, speech_calls(burst.drop_first())).1[i - 1]);
            }
        }
    } else {
        assert(ev =~= Seq::<(bool, Seq<i16>)>::empty());
    }
}

/// Speech opens only after `min_speech_frames` speech frames in a row: when
/// a silent frame leaves the machine outside speech, any shorter run of
/// speech frames that follows keeps it outside and emits nothing.
pub proof fn lemma_short_burst_after_silence(s: FsmState, frame: Seq<i16>, burst: Seq<Seq<i16>>)
    requires
        !fsm_step(s, false, frame).0.in_speech,
        burst.len() < s.min_speech_frames,
    ensures
        !run_calls(fsm_step(s, false, frame).0, speech_calls(burst)).0.in_speech,
        run_calls(fsm_step(s, false, frame).0, speech_calls(burst)).1.len() == burst.len(),
        forall|i: int|
            0 <= i < burst.len() ==> #[trigger] run_calls(fsm_step(s, false, frame).0, speech_calls(burst)).1[i]
                == Seq::<i16>::empty(),
{
    lemma_burst_held(fsm_step(s, false, frame).0, burst);
}

proof fn lemma_stays_out_ends_out(s: FsmState, events: Seq<(bool, Seq<i16>)>)
    requires
        stays_out_of_speech(s, events),
    ensures
        !run_calls(s, events).0.in_speech,
    decreases events.len(),
{
    if events.len() > 0 {
        lemma_stays_out_ends_out(fsm_step(s, events[0].0, events[0].1).0, events.drop_first());
    }
}

/// The frame-level voice-activity state machine.
pub struct VadFSM {
    in_speech: bool,
    consecutive_speech: u32,
    consecutive_silence: u32,
    silence_written: u32,
    attack_buffer: VecDeque<Vec<i16>>,
    min_speech_frames: u32,
    min_silence_frames: u32,
    max_silence_frames: u32,
    attack_frames: u32,
}

impl VadFSM {
    /// The abstract state.
    pub closed spec fn state(&self) -> FsmState {
        FsmState {
            in_speech: self.in_speech,
            consecutive_speech: self.consecutive_speech,
            consecutive_silence: self.consecutive_silence,
            silence_written: self.silence_written,
            attack: self.attack_buffer@.map_values(|v: Vec<i16>| v@),
            min_speech_frames: self.min_speech_frames,
            min_silence_frames: self.min_silence_frames,
            max_silence_frames: self.max_silence_frames,
            attack_frames: self.attack_frames,
        }
    }

    /// Creates the machine in the silent state; each duration in `config`
    /// is converted to whole frames of `VAD_FRAME_SAMPLES` samples at
    /// `SAMPLE_RATE`.
    pub fn new(config: &VadConfig) -> (fsm: Self)
        requires
            config.min_speech_ms as int * 16000 <= u32::MAX,
            config.min_silence_ms as int * 16000 <= u32::MAX,
            config.max_silence_ms as int * 16000 <= u32::MAX,
            config.attack_ms as int * 16000 <= u32::MAX,
        ensures
            fsm.state() == initial_state(
                ms_to_frames(config.min_speech_ms),
                ms_to_frames(config.min_silence_ms),
                ms_to_frames(config.max_silence_ms),
                ms_to_frames(config.attack_ms),
            ),
    {
        let attack_frames = frames_in_ms(config.attack_ms);
        let fsm = VadFSM {
            in_speech: false,
            consecutive_speech: 0,
            consecutive_silence: 0,
            silence_written: 0,
            attack_buffer: VecDeque::with_capacity(attack_frames as usize),
            min_speech_frames: frames_in_ms(config.min_speech_ms),
            min_silence_frames: frames_in_ms(config.min_silence_ms),
            max_silence_frames: frames_in_ms(config.max_silence_ms),
            attack_frames,
        };
        proof {
            assert(fsm.state().attack =~= Seq::<Seq<i16>>::empty());
        }
        fsm
    }

    /// Returns to the silent state, forgetting the attack window; the limits
    /// are kept.
    pub fn reset(&mut self)
        ensures
            final(self).state() == initial_state(
                old(self).state().min_speech_frames,
                old(self).state().min_silence_frames,
                old(self).state().max_silence_frames,
                old(self).state().attack_frames,
            ),
    {
        self.in_speech = false;
        self.consecutive_speech = 0;
        self.consecutive_silence = 0;
        self.silence_written = 0;
        self.attack_buffer.clear();
        proof {
            assert(self.state().attack =~= Seq::<Seq<i16>>::empty());
        }
    }

    /// Feeds one frame with its speech decision and returns the samples to
    /// keep.
    pub fn process(&mut self, is_speech: bool, frame: &[i16]) -> (out: Vec<i16>)
        requires
            can_step(old(self).state(), is_speech),
        ensures
            (final(self).state(), out@) == fsm_step(old(self).state(), is_speech, frame@),
    {
        if is_speech {
            self.on_speech_frame(frame)
        } else {
            self.on_silence_frame(frame)
        }
    }

    /// Pushes `frame` onto the attack window, first dropping the oldest
    /// frame when the window is full.
    fn push_attack(&mut self, frame: &[i16])
        ensures
            final(self).state() == (FsmState {
                attack: roll_attack(old(self).state().attack, frame@, old(self).attack_frames),
                ..old(self).state()
            }),
    {
        let ghost before = self.state().attack;
        if self.attack_buffer.len() == self.attack_frames as usize {
            let _ = self.attack_buffer.pop_front();
        }
        let ghost mid = self.attack_buffer@;
        self.attack_buffer.push_back(vstd::slice::slice_to_vec(frame));
        proof {
            let f = |v: Vec<i16>| v@;
            if before.len() == self.attack_frames as nat && before.len() > 0 {
                assert(mid.map_values(f) =~= before.drop_first());
            } else {
                assert(mid.map_values(f) =~= before);
            }
            assert(self.attack_buffer@.map_values(f) =~= mid.map_values(f).push(frame@));
            assert(self.state().attack =~= roll_attack(before, frame@, self.attack_frames));
        }
    }

    fn on_speech_frame(&mut self, frame: &[i16]) -> (out: Vec<i16>)
        requires
            old(self).consecutive_speech < u32::MAX,
        ensures
            (final(self).state(), out@) == on_speech(old(self).state(), frame@),
    {
        self.consecutive_speech = self.consecutive_speech + 1;
        self.consecutive_silence = 0;

        if self.in_speech {
            vstd::slice::slice_to_vec(frame)
        } else if self.consecutive_speech >= self.min_speech_frames {
            self.in_speech = true;
            self.silence_written = 0;
            let ghost attack = self.state().attack;
            let mut out: Vec<i16> = Vec::new();
            let mut i: usize = 0;
            while i < self.attack_buffer.len()
                invariant
                    i <= self.attack_buffer@.len(),
                    attack == self.attack_buffer@.map_values(|v: Vec<i16>| v@),
                    out@ == attack.take(i as int).flatten(),
                decreases self.attack_buffer@.len() - i,
            {
                let buf: &Vec<i16> = &self.attack_buffer[i];
                let ghost before = out@;
                let mut j: usize = 0;
                while j < buf.len()
                    invariant
                        j <= buf@.len(),
                        out@ == before + buf@.take(j as int),
                    decreases buf@.len() - j,
                {
                    out.push(buf[j]);
                    j = j + 1;
                    proof {
                        assert(out@ =~= before + buf@.take(j as int));
                    }
                }
                proof {
                    assert(buf@.take(buf@.len() as int) =~= buf@);
                    assert(attack.take(i + 1) =~= attack.take(i as int).push(buf@));
                    attack.take(i as int).lemma_flatten_push(buf@);
                }
                i = i + 1;
            }
            let ghost flushed = out@;
            let mut j: usize = 0;
            while j < frame.len()
                invariant
                    j <= frame@.len(),
                    out@ == flushed + frame@.take(j as int),
                decreases frame@.len() - j,
            {
                out.push(frame[j]);
                j = j + 1;
                proof {
                    assert(out@ =~= flushed + frame@.take(j as int));
                }
            }
            self.attack_buffer.clear();
            proof {
                assert(attack.take(attack.len() as int) =~= attack);
                assert(frame@.take(frame@.len() as int) =~= frame@);
                assert(self.state().attack =~= Seq::<Seq<i16>>::empty());
            }
            out
        } else {
            self.push_attack(frame);
            Vec::new()
        }
    }

    fn on_silence_frame(&mut self, frame: &[i16]) -> (out: Vec<i16>)
        requires
            old(self).consecutive_silence < u32::MAX,
        ensures
            (final(self).state(), out@) == on_silence(old(self).state(), frame@),
    {
        self.consecutive_silence = self.consecutive_silence + 1;
        self.consecutive_speech = 0;

        if self.in_speech {
            if self.consecutive_silence >= self.min_silence_frames {
                self.in_speech = false;
                self.silence_written = 0;
                self.attack_buffer.clear();
                proof {
                    assert(self.state().attack =~= Seq::<Seq<i16>>::empty());
                }
            }
            vstd::slice::slice_to_vec(frame)
        } else {
            self.push_attack(frame);
            if self.silence_written < self.max_silence_frames {
                self.silence_written = self.silence_written + 1;
                let out = vec![0i16; frame.len()];
                proof {
                    assert(out@ =~= zeros(frame@.len()));
                }
                out
            } else {
                Vec::new()
            }
        }
    }
}

/// `ms` milliseconds in whole VAD frames.
fn frames_in_ms(ms: u32) -> (frames: u32)
    requires
        ms as int * 16000 <= u32::MAX,
    ensures
        frames == ms_to_frames(ms),
{
    ms * SAMPLE_RATE / (VAD_FRAME_SAMPLES as u32 * 1000)
}

} // verus!
