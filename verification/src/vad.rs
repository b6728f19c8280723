//! Frame-by-frame voice-activity processing of the first pipeline
//! generation: a pluggable speech/non-speech classifier drives a state
//! machine with a rolling attack buffer, a minimum-speech threshold, a
//! minimum-silence threshold and a cap on kept silence.

use vstd::prelude::*;

use crate::config::VadConfig;
use crate::vad_fsm::ms_to_frames;
use crate::util::{extend_copy, extend_flatten};
use crate::{SAMPLE_RATE, VAD_FRAME_SAMPLES};

verus! {

broadcast use vstd::seq_lib::group_seq_properties;

/// A binary speech / non-speech classifier over frames of samples of type
/// `S` (`VAD_FRAME_SAMPLES` samples at 16 kHz, mono).
pub trait VoiceDetector<S>: Send {
    /// Whether `frame` contains speech.
    fn is_speech(&mut self, frame: &[S]) -> bool;

    /// Forgets internal state so the detector can be reused on a new
    /// recording.
    fn reset(&mut self);
}

/// The abstract state of a `VadProcessor`.
pub struct VadState<S> {
    pub in_speech: bool,
    pub consecutive_speech: u32,
    pub consecutive_silence: u32,
    pub silence_written: u32,
    /// Frames heard before speech was confirmed, oldest first.
    pub attack: Seq<Seq<S>>,
    pub min_speech_frames: u32,
    pub min_silence_frames: u32,
    pub max_silence_frames: u32,
    pub attack_frames: u32,
}

/// Pushes `frame` onto the attack buffer and drops the oldest frame when
/// the buffer then holds more than `cap` frames.
pub open spec fn push_attack<S>(attack: Seq<Seq<S>>, frame: Seq<S>, cap: u32) -> Seq<Seq<S>> {
    let pushed = attack.push(frame);
    if pushed.len() > cap as nat {
        pushed.drop_first()
    } else {
        pushed
    }
}

/// `n` copies of the silence sample `z`.
pub open spec fn silence_of<S>(n: nat, z: S) -> Seq<S> {
    Seq::new(n, |i: int| z)
}

/// Transition on one frame with the detector's decision; returns the next
/// state and the samples to keep. `z` is the silence sample.
pub open spec fn vad_step<S>(s: VadState<S>, is_speech: bool, frame: Seq<S>, z: S) -> (
    VadState<S>,
    Seq<S>,
) {
    if is_speech {
        let cs = (s.consecutive_speech + 1) as u32;
        if s.in_speech {
            (VadState { consecutive_speech: cs, consecutive_silence: 0, ..s }, frame)
        } else {
            let attack = push_attack(s.attack, frame, s.attack_frames);
            if cs >= s.min_speech_frames {
                (
                    VadState {
                        in_speech: true,
                        consecutive_speech: cs,
                        consecutive_silence: 0,
                        silence_written: 0,
                        attack: Seq::empty(),
                        ..s
                    },
                    attack.flatten(),
                )
            } else {
                (
                    VadState { consecutive_speech: cs, consecutive_silence: 0, attack, ..s },
                    Seq::empty(),
                )
            }
        }
    } else {
        let csil = (s.consecutive_silence + 1) as u32;
        if s.in_speech {
            if csil >= s.min_silence_frames {
                (
                    VadState {
                        in_speech: false,
                        consecutive_speech: 0,
                        consecutive_silence: csil,
                        attack: Seq::empty(),
                        ..s
                    },
                    frame,
                )
            } else {
                (VadState { consecutive_speech: 0, consecutive_silence: csil, ..s }, frame)
            }
        } else {
            let attack = push_attack(s.attack, frame, s.attack_frames);
            if s.silence_written < s.max_silence_frames {
                (
                    VadState {
                        consecutive_speech: 0,
                        consecutive_silence: csil,
                        silence_written: (s.silence_written + 1) as u32,
                        attack,
                        ..s
                    },
                    silence_of(frame.len(), z),
                )
            } else {
                (
                    VadState { consecutive_speech: 0, consecutive_silence: csil, attack, ..s },
                    Seq::empty(),
                )
            }
        }
    }
}

/// Frame-by-frame VAD processor: a detector plus the state machine.
pub struct VadProcessor<S: Copy + Default, D: VoiceDetector<S>> {
    detector: D,
    in_speech: bool,
    consecutive_speech: u32,
    consecutive_silence: u32,
    silence_written: u32,
    attack_buffer: Vec<Vec<S>>,
    silence: S,
    min_speech_frames: u32,
    min_silence_frames: u32,
    max_silence_frames: u32,
    attack_frames: u32,
}

} // verus!

verus! {

/// Processing of whole frames: frame `i` goes through `vad_step` with
/// decision `ds[i]`, in order; the outputs are concatenated.
pub open spec fn vad_run<S>(s: VadState<S>, frames: Seq<Seq<S>>, ds: Seq<bool>, z: S) -> (
    VadState<S>,
    Seq<S>,
)
    decreases frames.len(),
{
    if frames.len() == 0 || ds.len() != frames.len() {
        (s, Seq::empty())
    } else {
        let (s1, o1) = vad_run(s, frames.drop_last(), ds.drop_last(), z);
        let (s2, o2) = vad_step(s1, ds.last(), frames.last(), z);
        (s2, o1 + o2)
    }
}

/// What `process_buffer` emits for a tail shorter than a frame.
pub open spec fn vad_tail<S>(s: VadState<S>, tail: Seq<S>) -> Seq<S> {
    if tail.len() > 0 && s.in_speech {
        tail
    } else {
        Seq::empty()
    }
}

/// The step counters can absorb `k` more frames without overflow.
pub open spec fn counters_fit<S>(s: VadState<S>, k: int) -> bool {
    &&& s.consecutive_speech + k <= u32::MAX
    &&& s.consecutive_silence + k <= u32::MAX
}

/// What holds of every reachable state: the attack buffer never exceeds
/// its capacity, it is empty while speech is active, and no more silence
/// has been emitted outside speech than allowed.
pub open spec fn vad_inv<S>(s: VadState<S>) -> bool {
    &&& s.attack.len() <= s.attack_frames
    &&& s.in_speech ==> s.attack.len() == 0
    &&& s.silence_written <= s.max_silence_frames
}

/// Every transition keeps `vad_inv`, whatever the detector decides.
pub proof fn lemma_vad_step_keeps_inv<S>(s: VadState<S>, is_speech: bool, frame: Seq<S>, z: S)
    requires
        vad_inv(s),
    ensures
        vad_inv(vad_step(s, is_speech, frame, z).0),
{
}

/// While speech is active every whole frame is kept unchanged.
pub proof fn lemma_vad_speech_passes_through<S>(s: VadState<S>, is_speech: bool, frame: Seq<S>, z: S)
    requires
        s.in_speech,
    ensures
        vad_step(s, is_speech, frame, z).1 == frame,
{
}

/// Outside speech, a silent frame yields either nothing or silence of the
/// frame's length; nothing heard is passed on.
pub proof fn lemma_vad_silence_not_passed<S>(s: VadState<S>, frame: Seq<S>, z: S)
    requires
        !s.in_speech,
    ensures
        vad_step(s, false, frame, z).1 == silence_of(frame.len(), z) || vad_step(
            s,
            false,
            frame,
            z,
        ).1 == Seq::<S>::empty(),
{
}

/// When speech is confirmed the attack buffer, which by then ends with the
/// confirming frame, is emitted in order.
pub proof fn lemma_vad_onset_recovers_attack<S>(s: VadState<S>, frame: Seq<S>, z: S)
    requires
        !s.in_speech,
        s.consecutive_speech + 1 >= s.min_speech_frames,
        s.consecutive_speech < u32::MAX,
    ensures
        vad_step(s, true, frame, z).0.in_speech,
        vad_step(s, true, frame, z).1 == push_attack(s.attack, frame, s.attack_frames).flatten(),
{
}

/// A speech frame that does not yet complete `min_speech_frames` outside
/// speech emits nothing and does not open speech.
pub proof fn lemma_vad_spike_held_back<S>(s: VadState<S>, frame: Seq<S>, z: S)
    requires
        !s.in_speech,
        s.consecutive_speech + 1 < s.min_speech_frames,
    ensures
        !vad_step(s, true, frame, z).0.in_speech,
        vad_step(s, true, frame, z).1 == Seq::<S>::empty(),
{
}

/// Inside speech, a pause shorter than `min_silence_frames` is kept as it
/// is and does not end the speech.
pub proof fn lemma_vad_short_pause_kept<S>(s: VadState<S>, frame: Seq<S>, z: S)
    requires
        s.in_speech,
        s.consecutive_silence + 1 < s.min_silence_frames,
    ensures
        vad_step(s, false, frame, z).0.in_speech,
        vad_step(s, false, frame, z).1 == frame,
{
}

/// Outside speech, once `max_silence_frames` silent frames have been
/// emitted, further silence is dropped.
pub proof fn lemma_vad_long_silence_dropped<S>(s: VadState<S>, frame: Seq<S>, z: S)
    requires
        !s.in_speech,
        s.silence_written >= s.max_silence_frames,
    ensures
        vad_step(s, false, frame, z).1 == Seq::<S>::empty(),
{
}

/// Every silent frame ends the current run of speech frames and every
/// speech frame ends the current run of silent frames; each frame lengthens
/// its own run by one.
pub proof fn lemma_vad_runs_reset<S>(s: VadState<S>, frame: Seq<S>, z: S)
    ensures
        vad_step(s, false, frame, z).0.consecutive_speech == 0,
        vad_step(s, true, frame, z).0.consecutive_silence == 0,
        s.consecutive_speech < u32::MAX ==> vad_step(s, true, frame, z).0.consecutive_speech
            == s.consecutive_speech + 1,
        s.consecutive_silence < u32::MAX ==> vad_step(s, false, frame, z).0.consecutive_silence
            == s.consecutive_silence + 1,
{
}

/// `n` decisions, all the same.
pub open spec fn same_decisions(n: nat, d: bool) -> Seq<bool> {
    Seq::new(n, |i: int| d)
}

proof fn lemma_vad_burst_held<S>(u: VadState<S>, burst: Seq<Seq<S>>, z: S)
    requires
        !u.in_speech,
        u.consecutive_speech + burst.len() < u.min_speech_frames,
    ensures
        !vad_run(u, burst, same_decisions(burst.len(), true), z).0.in_speech,
        vad_run(u, burst, same_decisions(burst.len(), true), z).0.consecutive_speech
            == u.consecutive_speech + burst.len(),
        vad_run(u, burst, same_decisions(burst.len(), true), z).0.min_speech_frames
            == u.min_speech_frames,
        vad_run(u, burst, same_decisions(burst.len(), true), z).1 == Seq::<S>::empty(),
    decreases burst.len(),
{
    if burst.len() > 0 {
        let ds = same_decisions(burst.len(), true);
        assert(ds.drop_last() =~= same_decisions((burst.len() - 1) as nat, true));
        lemma_vad_burst_held(u, burst.drop_last(), z);
        assert(ds.last());
    }
}

/// Speech opens only after `min_speech_frames` speech frames in a row: when
/// a silent frame leaves the processor outside speech, any shorter run of
/// speech frames that follows keeps it outside and emits nothing.
pub proof fn lemma_vad_short_burst_after_silence<S>(
    s: VadState<S>,
    frame: Seq<S>,
    burst: Seq<Seq<S>>,
    z: S,
)
    requires
        !vad_step(s, false, frame, z).0.in_speech,
        burst.len() < s.min_speech_frames,
    ensures
        ({
            let t = vad_step(s, false, frame, z).0;
            let r = vad_run(t, burst, same_decisions(burst.len(), true), z);
            &&& !r.0.in_speech
            &&& r.1 == Seq::<S>::empty()
        }),
{
    lemma_vad_burst_held(vad_step(s, false, frame, z).0, burst, z);
}

proof fn lemma_vad_pause_in_speech<S>(u: VadState<S>, pause: Seq<Seq<S>>, z: S)
    requires
        u.in_speech,
        u.consecutive_silence + pause.len() < u.min_silence_frames,
    ensures
        vad_run(u, pause, same_decisions(pause.len(), false), z).0.in_speech,
        vad_run(u, pause, same_decisions(pause.len(), false), z).0.consecutive_silence
            == u.consecutive_silence + pause.len(),
        vad_run(u, pause, same_decisions(pause.len(), false), z).0.min_silence_frames
            == u.min_silence_frames,
        vad_run(u, pause, same_decisions(pause.len(), false), z).1 == pause.flatten(),
    decreases pause.len(),
{
    if pause.len() > 0 {
        let ds = same_decisions(pause.len(), false);
        assert(ds.drop_last() =~= same_decisions((pause.len() - 1) as nat, false));
        lemma_vad_pause_in_speech(u, pause.drop_last(), z);
        assert(!ds.last());
        pause.drop_last().lemma_flatten_push(pause.last());
        assert(pause.drop_last().push(pause.last()) =~= pause);
    } else {
        assert(pause.flatten() =~= Seq::<S>::empty());
    }
}

/// Speech ends only after `min_silence_frames` silent frames in a row: once
/// a speech frame leaves the processor in speech, any shorter run of silent
/// frames that follows keeps it in speech and passes every frame through.
pub proof fn lemma_vad_short_pause_after_speech<S>(
    s: VadState<S>,
    frame: Seq<S>,
    pause: Seq<Seq<S>>,
    z: S,
)
    requires
        vad_step(s, true, frame, z).0.in_speech,
        pause.len() < s.min_silence_frames,
    ensures
        ({
            let t = vad_step(s, true, frame, z).0;
            let r = vad_run(t, pause, same_decisions(pause.len(), false), z);
            &&& r.0.in_speech
            &&& r.1 == pause.flatten()
        }),
{
    lemma_vad_pause_in_speech(vad_step(s, true, frame, z).0, pause, z);
}

impl<S: Copy + Default, D: VoiceDetector<S>> VadProcessor<S, D> {
    /// The abstract state.
    pub closed spec fn state(&self) -> VadState<S> {
        VadState {
            in_speech: self.in_speech,
            consecutive_speech: self.consecutive_speech,
            consecutive_silence: self.consecutive_silence,
            silence_written: self.silence_written,
            attack: self.attack_buffer@.map_values(|v: Vec<S>| v@),
            min_speech_frames: self.min_speech_frames,
            min_silence_frames: self.min_silence_frames,
            max_silence_frames: self.max_silence_frames,
            attack_frames: self.attack_frames,
        }
    }

    /// The sample written for suppressed silence (`S::default()`).
    pub closed spec fn silence_sample(&self) -> S {
        self.silence
    }

    /// A processor around `detector`, in the silent state; durations in
    /// `config` are converted to whole frames.
    pub fn new(detector: D, config: &VadConfig) -> (p: Self)
        requires
            config.min_speech_ms as int * 16000 <= u32::MAX,
            config.min_silence_ms as int * 16000 <= u32::MAX,
            config.max_silence_ms as int * 16000 <= u32::MAX,
            config.attack_ms as int * 16000 <= u32::MAX,
        ensures
            call_ensures(S::default, (), p.silence_sample()),
            p.state() == (VadState::<S> {
                in_speech: false,
                consecutive_speech: 0,
                consecutive_silence: 0,
                silence_written: 0,
                attack: Seq::empty(),
                min_speech_frames: ms_to_frames(config.min_speech_ms),
                min_silence_frames: ms_to_frames(config.min_silence_ms),
                max_silence_frames: ms_to_frames(config.max_silence_ms),
                attack_frames: ms_to_frames(config.attack_ms),
            }),
    {
        let p = VadProcessor {
            detector,
            in_speech: false,
            consecutive_speech: 0,
            consecutive_silence: 0,
            silence_written: 0,
            attack_buffer: Vec::new(),
            silence: S::default(),
            min_speech_frames: frames_in_ms(config.min_speech_ms),
            min_silence_frames: frames_in_ms(config.min_silence_ms),
            max_silence_frames: frames_in_ms(config.max_silence_ms),
            attack_frames: frames_in_ms(config.attack_ms),
        };
        proof {
            assert(p.state().attack =~= Seq::<Seq<S>>::empty());
        }
        p
    }

    /// Classifies one frame and returns the samples to keep (speech and
    /// short silence gaps).
    pub fn process(&mut self, frame: &[S]) -> (out: Vec<S>)
        requires
            counters_fit(old(self).state(), 1),
        ensures
            final(self).silence_sample() == old(self).silence_sample(),
            (final(self).state(), out@) == vad_step(
                old(self).state(),
                true,
                frame@,
                old(self).silence_sample(),
            ) || (final(self).state(), out@) == vad_step(
                old(self).state(),
                false,
                frame@,
                old(self).silence_sample(),
            ),
    {
        let (_decision, out) = self.process_decided(frame);
        out
    }

    /// `process`, also returning the detector's decision.
    fn process_decided(&mut self, frame: &[S]) -> (res: (bool, Vec<S>))
        requires
            counters_fit(old(self).state(), 1),
        ensures
            final(self).silence_sample() == old(self).silence_sample(),
            (final(self).state(), res.1@) == vad_step(
                old(self).state(),
                res.0,
                frame@,
                old(self).silence_sample(),
            ),
    {
        let is_speech = self.detector.is_speech(frame);
        let mut out: Vec<S> = Vec::new();
        if is_speech {
            self.on_speech_frame(frame, &mut out);
        } else {
            self.on_silence_frame(frame, &mut out);
        }
        (is_speech, out)
    }

    /// Processes a whole buffer: every complete frame is classified and
    /// passed through the state machine; a final partial frame is kept only
    /// while speech is active.
    pub fn process_buffer(&mut self, audio: &[S]) -> (out: Vec<S>)
        requires
            counters_fit(old(self).state(), (audio@.len() / 512) as int),
        ensures
            final(self).silence_sample() == old(self).silence_sample(),
            exists|ds: Seq<bool>|
                {
                    let frames = crate::chunker::frames_of(audio@, 512);
                    let run = vad_run(old(self).state(), frames, ds, old(self).silence_sample());
                    &&& #[trigger] ds.len() == frames.len()
                    &&& final(self).state() == run.0
                    &&& out@ == run.1 + vad_tail(
                        run.0,
                        crate::chunker::leftover_of(audio@, 512),
                    )
                },
    {
        let ghost s0 = self.state();
        let ghost z = self.silence;
        let ghost frames = crate::chunker::frames_of(audio@, 512);
        proof {
            crate::chunker::lemma_frames_index(audio@, 512);
        }
        let alen: usize = audio.len();
        let n: usize = alen / VAD_FRAME_SAMPLES;
        let mut result: Vec<S> = Vec::new();
        let mut k: usize = 0;
        let ghost mut ds: Seq<bool> = Seq::empty();
        while k < n
            invariant
                k <= n,
                alen == audio@.len(),
                n == audio@.len() / 512,
                frames.len() == n,
                frames == crate::chunker::frames_of(audio@, 512),
                forall|j: int|
                    0 <= j < frames.len() ==> #[trigger] frames[j] == audio@.subrange(
                        512 * j,
                        512 * j + 512,
                    ),
                ds.len() == k,
                self.silence == z,
                (self.state(), result@) == vad_run(s0, frames.take(k as int), ds, z),
                self.consecutive_speech <= s0.consecutive_speech + k,
                self.consecutive_silence <= s0.consecutive_silence + k,
                counters_fit(s0, n as int),
            decreases n - k,
        {
            proof {
                assert(512 * k + 512 <= 512 * n) by (nonlinear_arith)
                    requires
                        k < n,
                ;
                assert(512 * n <= audio@.len()) by (nonlinear_arith)
                    requires
                        n == audio@.len() / 512,
                ;
            }
            let start: usize = k * VAD_FRAME_SAMPLES;
            let chunk = vstd::slice::slice_subrange(audio, start, start + VAD_FRAME_SAMPLES);
            let ghost before_state = self.state();
            let ghost before_out = result@;
            let (decision, mut out) = self.process_decided(chunk);
            result.append(&mut out);
            proof {
                assert(chunk@ == frames[k as int]);
                let f2 = frames.take(k + 1);
                assert(f2.drop_last() =~= frames.take(k as int));
                assert(f2.last() == frames[k as int]);
                let ds2 = ds.push(decision);
                assert(ds2.drop_last() =~= ds);
                assert(ds2.last() == decision);
                ds = ds2;
            }
            k = k + 1;
        }
        proof {
            assert(frames.take(n as int) =~= frames);
            assert(crate::chunker::leftover_of(audio@, 512) == audio@.skip(512 * n));
        }
        let tail_start: usize = n * VAD_FRAME_SAMPLES;
        if tail_start < audio.len() && self.in_speech {
            let tail = vstd::slice::slice_subrange(audio, tail_start, audio.len());
            extend_copy(&mut result, tail);
            proof {
                assert(tail@ =~= audio@.skip(512 * n));
            }
        }
        proof {
            assert(audio@.skip(512 * n).len() == audio@.len() - 512 * n);
            assert(result@ =~= vad_run(s0, frames, ds, z).1 + vad_tail(
                vad_run(s0, frames, ds, z).0,
                crate::chunker::leftover_of(audio@, 512),
            ));
        }
        result
    }

    /// Returns the detector and the state machine to their initial state.
    pub fn reset(&mut self)
        ensures
            final(self).silence_sample() == old(self).silence_sample(),
            final(self).state() == (VadState::<S> {
                in_speech: false,
                consecutive_speech: 0,
                consecutive_silence: 0,
                silence_written: 0,
                attack: Seq::empty(),
                ..old(self).state()
            }),
    {
        self.detector.reset();
        self.in_speech = false;
        self.consecutive_speech = 0;
        self.consecutive_silence = 0;
        self.silence_written = 0;
        self.attack_buffer.clear();
        proof {
            assert(self.state().attack =~= Seq::<Seq<S>>::empty());
        }
    }

    /// Appends `frame` to the attack buffer, dropping the oldest frame when
    /// the buffer grows past its capacity.
    fn push_attack(&mut self, frame: &[S])
        ensures
            final(self).silence == old(self).silence,
            final(self).state() == (VadState::<S> {
                attack: push_attack(old(self).state().attack, frame@, old(self).attack_frames),
                ..old(self).state()
            }),
    {
        let ghost before = self.state().attack;
        self.attack_buffer.push(vstd::slice::slice_to_vec(frame));
        let ghost mid = self.attack_buffer@;
        if self.attack_buffer.len() > self.attack_frames as usize {
            let _ = self.attack_buffer.remove(0);
        }
        proof {
            let f = |v: Vec<S>| v@;
            assert(mid.map_values(f) =~= before.push(frame@));
            if mid.len() > self.attack_frames as nat {
                assert(self.attack_buffer@ =~= mid.drop_first());
                assert(self.attack_buffer@.map_values(f) =~= before.push(frame@).drop_first());
            }
            assert(self.state().attack =~= push_attack(before, frame@, self.attack_frames));
        }
    }

    fn on_speech_frame(&mut self, frame: &[S], out: &mut Vec<S>)
        requires
            old(self).consecutive_speech < u32::MAX,
            old(out)@ == Seq::<S>::empty(),
        ensures
            final(self).silence == old(self).silence,
            (final(self).state(), final(out)@) == vad_step(
                old(self).state(),
                true,
                frame@,
                old(self).silence,
            ),
    {
        self.consecutive_speech = self.consecutive_speech + 1;
        self.consecutive_silence = 0;

        if self.in_speech {
            extend_copy(out, frame);
        } else {
            self.push_attack(frame);
            if self.consecutive_speech >= self.min_speech_frames {
                self.in_speech = true;
                self.silence_written = 0;
                extend_flatten(out, &self.attack_buffer);
                self.attack_buffer.clear();
                proof {
                    assert(self.state().attack =~= Seq::<Seq<S>>::empty());
                }
            }
        }
    }

    fn on_silence_frame(&mut self, frame: &[S], out: &mut Vec<S>)
        requires
            old(self).consecutive_silence < u32::MAX,
            old(out)@ == Seq::<S>::empty(),
        ensures
            final(self).silence == old(self).silence,
            (final(self).state(), final(out)@) == vad_step(
                old(self).state(),
                false,
                frame@,
                old(self).silence,
            ),
    {
        self.consecutive_silence = self.consecutive_silence + 1;
        self.consecutive_speech = 0;

        if self.in_speech {
            extend_copy(out, frame);
            if self.consecutive_silence >= self.min_silence_frames {
                self.in_speech = false;
                self.attack_buffer.clear();
                proof {
                    assert(self.state().attack =~= Seq::<Seq<S>>::empty());
                }
            }
        } else {
            self.push_attack(frame);
            if self.silence_written < self.max_silence_frames {
                let mut i: usize = 0;
                while i < frame.len()
                    invariant
                        i <= frame@.len(),
                        out@ == silence_of(i as nat, self.silence),
                    decreases frame@.len() - i,
                {
                    out.push(self.silence);
                    i = i + 1;
                    proof {
                        assert(out@ =~= silence_of(i as nat, self.silence));
                    }
                }
                self.silence_written = self.silence_written + 1;
            }
        }
    }
}

/// `ms` milliseconds in whole VAD frames.
fn frames_in_ms(ms: u32) -> (frames: u32)
    requires
        ms as int * 16000 <= u32::MAX,
    ensures
        frames == ms_to_frames(ms),
{
    ms * SAMPLE_RATE / (VAD_FRAME_SAMPLES as u32 * 1000)
}

} // verus!
