//! Streaming voice-activity processing of the current pipeline: incoming
//! audio is cut into `VAD_FRAME_SAMPLES`-sample frames, each frame is
//! classified, and the state machine decides what is kept.

use vstd::prelude::*;

use crate::chunker::{frames_of, leftover_of, Chunker};
use crate::config::VadConfig;
use crate::engine::VadError;
use crate::util::extend_copy;
use crate::vad_fsm::{fsm_step, initial_state, ms_to_frames, FsmState, VadFSM};
use crate::VAD_FRAME_SAMPLES;

verus! {

broadcast use vstd::seq_lib::group_seq_properties;

/// A speech / non-speech classifier over frames of 16-bit PCM.
pub trait FrameClassifier {
    /// Whether `frame` contains speech.
    fn is_speech(&mut self, frame: &[i16]) -> Result<bool, VadError>;

    /// Forgets internal state before a new recording.
    fn reset(&mut self);
}

/// The state machine run over whole frames: frame `i` with decision
/// `ds[i]`, in order; the outputs are concatenated.
pub open spec fn fsm_run(s: FsmState, frames: Seq<Seq<i16>>, ds: Seq<bool>) -> (FsmState, Seq<i16>)
    decreases frames.len(),
{
    if frames.len() == 0 || ds.len() != frames.len() {
        (s, Seq::empty())
    } else {
        let (s1, o1) = fsm_run(s, frames.drop_last(), ds.drop_last());
        let (s2, o2) = fsm_step(s1, ds.last(), frames.last());
        (s2, o1 + o2)
    }
}

/// The machine's counters can absorb `k` more frames without overflow.
pub open spec fn fsm_counters_fit(s: FsmState, k: int) -> bool {
    &&& s.consecutive_speech + k <= u32::MAX
    &&& s.consecutive_silence + k <= u32::MAX
}

/// Running the machine over two runs of frames one after the other is
/// running it over both at once.
pub proof fn lemma_fsm_run_concat(
    s: FsmState,
    f1: Seq<Seq<i16>>,
    d1: Seq<bool>,
    f2: Seq<Seq<i16>>,
    d2: Seq<bool>,
)
    requires
        d1.len() == f1.len(),
        d2.len() == f2.len(),
    ensures
        fsm_run(s, f1 + f2, d1 + d2) == (
            fsm_run(fsm_run(s, f1, d1).0, f2, d2).0,
            fsm_run(s, f1, d1).1 + fsm_run(fsm_run(s, f1, d1).0, f2, d2).1,
        ),
    decreases f2.len(),
{
    let first = fsm_run(s, f1, d1);
    if f2.len() == 0 {
        assert(f1 + f2 =~= f1);
        assert(d1 + d2 =~= d1);
        assert(first.1 + Seq::<i16>::empty() =~= first.1);
    } else {
        lemma_fsm_run_concat(s, f1, d1, f2.drop_last(), d2.drop_last());
        assert((f1 + f2).drop_last() =~= f1 + f2.drop_last());
        assert((d1 + d2).drop_last() =~= d1 + d2.drop_last());
        assert((f1 + f2).last() == f2.last());
        assert((d1 + d2).last() == d2.last());
        let mid = fsm_run(first.0, f2.drop_last(), d2.drop_last());
        let last = fsm_step(mid.0, d2.last(), f2.last());
        assert(first.1 + mid.1 + last.1 =~= first.1 + (mid.1 + last.1));
    }
}

/// Feeding audio in two pieces gives what feeding it at once gives, for
/// the same classifier decisions: the same frames are classified, the
/// machine ends in the same state, the outputs concatenate, and the same
/// samples are left pending.
pub proof fn lemma_feed_in_pieces(
    s: FsmState,
    pending: Seq<i16>,
    a: Seq<i16>,
    b: Seq<i16>,
    d1: Seq<bool>,
    d2: Seq<bool>,
)
    requires
        d1.len() == frames_of(pending + a, 512).len(),
        d2.len() == frames_of(leftover_of(pending + a, 512) + b, 512).len(),
    ensures
        ({
            let first = fsm_run(s, frames_of(pending + a, 512), d1);
            let second = fsm_run(first.0, frames_of(leftover_of(pending + a, 512) + b, 512), d2);
            &&& frames_of(pending + a + b, 512) == frames_of(pending + a, 512) + frames_of(
                leftover_of(pending + a, 512) + b,
                512,
            )
            &&& fsm_run(s, frames_of(pending + a + b, 512), d1 + d2) == (second.0, first.1 + second.1)
            &&& leftover_of(pending + a + b, 512) == leftover_of(leftover_of(pending + a, 512) + b, 512)
        }),
{
    crate::chunker::lemma_frames_concat(pending + a, b, 512);
    lemma_fsm_run_concat(
        s,
        frames_of(pending + a, 512),
        d1,
        frames_of(leftover_of(pending + a, 512) + b, 512),
        d2,
    );
}

/// Classifier, state machine and frame chunker.
pub struct VadProcessor<D: FrameClassifier> {
    vad: D,
    fsm: VadFSM,
    chunker: Chunker<i16, 512>,
}

impl<D: FrameClassifier> VadProcessor<D> {
    /// The state machine's state.
    pub closed spec fn fsm_state(&self) -> FsmState {
        self.fsm.state()
    }

    /// Samples waiting for a frame to fill.
    pub closed spec fn pending(&self) -> Seq<i16> {
        self.chunker.pending()
    }

    /// The internal invariant.
    pub closed spec fn wf(&self) -> bool {
        self.chunker.wf()
    }

    /// A processor around `vad` with the durations of `config`, in the
    /// silent state with nothing pending.
    pub fn new(vad: D, config: &VadConfig) -> (p: Self)
        requires
            config.min_speech_ms as int * 16000 <= u32::MAX,
            config.min_silence_ms as int * 16000 <= u32::MAX,
            config.max_silence_ms as int * 16000 <= u32::MAX,
            config.attack_ms as int * 16000 <= u32::MAX,
        ensures
            p.wf(),
            p.pending() == Seq::<i16>::empty(),
            p.fsm_state() == initial_state(
                ms_to_frames(config.min_speech_ms),
                ms_to_frames(config.min_silence_ms),
                ms_to_frames(config.max_silence_ms),
                ms_to_frames(config.attack_ms),
            ),
    {
        VadProcessor { vad, fsm: VadFSM::new(config), chunker: Chunker::new() }
    }

    /// Takes more audio and returns what the state machine keeps of the
    /// frames completed by it; an incomplete frame stays pending. A
    /// classifier error is returned as it is.
    pub fn feed(&mut self, audio: &[i16]) -> (res: Result<Vec<i16>, VadError>)
        requires
            old(self).wf(),
            fsm_counters_fit(
                old(self).fsm_state(),
                ((old(self).pending().len() + audio@.len()) / 512) as int,
            ),
        ensures
            final(self).wf(),
            res is Ok ==> final(self).pending() == leftover_of(old(self).pending() + audio@, 512),
            res is Err ==> final(self).pending() == Seq::<i16>::empty(),
            old(self).pending().len() + audio@.len() < 512 ==> (res matches Ok(out) && out@.len() == 0
                && final(self).fsm_state() == old(self).fsm_state()),
            res matches Ok(out) ==> exists|ds: Seq<bool>|
                {
                    let frames = frames_of(old(self).pending() + audio@, 512);
                    let run = fsm_run(old(self).fsm_state(), frames, ds);
                    &&& #[trigger] ds.len() == frames.len()
                    &&& final(self).fsm_state() == run.0
                    &&& out@ == run.1
                },
    {
        let ghost s0 = self.fsm.state();
        let ghost all = self.chunker.pending() + audio@;
        let frames = self.chunker.feed_frames(audio);
        let ghost fv = frames@.map_values(|f: Vec<i16>| f@);
        proof {
            crate::chunker::lemma_frames_index(all, 512);
        }
        let mut result: Vec<i16> = Vec::new();
        let mut k: usize = 0;
        let ghost mut ds: Seq<bool> = Seq::empty();
        while k < frames.len()
            invariant
                k <= frames@.len(),
                fv == frames@.map_values(|f: Vec<i16>| f@),
                fv == frames_of(all, 512),
                all == old(self).pending() + audio@,
                forall|j: int| 0 <= j < fv.len() ==> (#[trigger] fv[j]).len() == 512,
                fv.len() == all.len() / 512,
                fsm_counters_fit(s0, fv.len() as int),
                ds.len() == k,
                (self.fsm.state(), result@) == fsm_run(s0, fv.take(k as int), ds),
                self.fsm.state().consecutive_speech <= s0.consecutive_speech + k,
                self.fsm.state().consecutive_silence <= s0.consecutive_silence + k,
                self.chunker.wf(),
                self.chunker.pending() == leftover_of(all, 512),
            decreases frames@.len() - k,
        {
            let frame: &Vec<i16> = &frames[k];
            let is_speech = match self.vad.is_speech(frame.as_slice()) {
                Ok(b) => b,
                Err(e) => {
                    self.chunker.reset();
                    return Err(e);
                },
            };
            let out = self.fsm.process(is_speech, frame.as_slice());
            extend_copy(&mut result, out.as_slice());
            proof {
                let f2 = fv.take(k + 1);
                assert(f2.drop_last() =~= fv.take(k as int));
                assert(f2.last() == fv[k as int]);
                let ds2 = ds.push(is_speech);
                assert(ds2.drop_last() =~= ds);
                ds = ds2;
            }
            k = k + 1;
        }
        proof {
            assert(fv.take(fv.len() as int) =~= fv);
        }
        Ok(result)
    }

    /// Flushes a pending partial frame, padded with zeros to a whole frame,
    /// through the classifier and the state machine; nothing pending gives an
    /// empty result.
    pub fn finish(&mut self) -> (res: Result<Vec<i16>, VadError>)
        requires
            old(self).wf(),
            fsm_counters_fit(old(self).fsm_state(), 1),
        ensures
            final(self).wf(),
            final(self).pending() == Seq::<i16>::empty(),
            old(self).pending().len() == 0 ==> (res matches Ok(out) && out@ == Seq::<i16>::empty()
                && final(self).fsm_state() == old(self).fsm_state()),
            res matches Ok(out) ==> old(self).pending().len() == 0 || exists|b: bool, f: Seq<i16>|
                {
                    &&& f.len() == 512
                    &&& f.take(old(self).pending().len() as int) == old(self).pending()
                    &&& forall|j: int|
                        old(self).pending().len() <= j < 512 ==> #[trigger] f[j] == 0i16
                    &&& (final(self).fsm_state(), out@) == #[trigger] fsm_step(
                        old(self).fsm_state(),
                        b,
                        f,
                    )
                },
    {
        match self.chunker.finish() {
            Some(frame) => {
                let is_speech = match self.vad.is_speech(frame.as_slice()) {
                    Ok(b) => b,
                    Err(e) => {
                        return Err(e);
                    },
                };
                let out = self.fsm.process(is_speech, frame.as_slice());
                Ok(out)
            },
            None => Ok(Vec::new()),
        }
    }

    /// Resets the classifier and the state machine and drops pending audio.
    pub fn reset(&mut self)
        requires
            old(self).wf(),
        ensures
            final(self).wf(),
            final(self).pending() == Seq::<i16>::empty(),
            final(self).fsm_state() == initial_state(
                old(self).fsm_state().min_speech_frames,
                old(self).fsm_state().min_silence_frames,
                old(self).fsm_state().max_silence_frames,
                old(self).fsm_state().attack_frames,
            ),
    {
        self.vad.reset();
        self.fsm.reset();
        self.chunker.reset();
    }
}

} // verus!
