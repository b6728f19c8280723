//! Splits a stream of samples, handed over in pieces of any size, into
//! frames of exactly `N` samples.

use vstd::prelude::*;

verus! {

broadcast use vstd::seq_lib::group_seq_properties;

/// The complete frames of `n` elements at the front of `s`, in order.
pub open spec fn frames_of<T>(s: Seq<T>, n: nat) -> Seq<Seq<T>>
    decreases s.len(),
{
    if n == 0 || s.len() < n {
        Seq::empty()
    } else {
        seq![s.take(n as int)] + frames_of(s.skip(n as int), n)
    }
}

/// What is left of `s` after its complete frames of `n` elements.
pub open spec fn leftover_of<T>(s: Seq<T>, n: nat) -> Seq<T>
    decreases s.len(),
{
    if n == 0 || s.len() < n {
        s
    } else {
        leftover_of(s.skip(n as int), n)
    }
}

/// The frames and the leftover together are exactly the input.
pub proof fn lemma_frames_partition<T>(s: Seq<T>, n: nat)
    requires
        n > 0,
    ensures
        frames_of(s, n).flatten() + leftover_of(s, n) == s,
        leftover_of(s, n).len() < n,
        forall|i: int| 0 <= i < frames_of(s, n).len() ==> (#[trigger] frames_of(s, n)[i]).len() == n,
    decreases s.len(),
{
    if s.len() >= n {
        lemma_frames_partition(s.skip(n as int), n);
        let rest = frames_of(s.skip(n as int), n);
        assert((seq![s.take(n as int)] + rest).flatten() =~= s.take(n as int) + rest.flatten()) by {
            vstd::seq_lib::lemma_flatten_concat(seq![s.take(n as int)], rest);
            seq![s.take(n as int)].lemma_flatten_one_element();
        }
        assert(s.take(n as int) + s.skip(n as int) =~= s);
        let fr = frames_of(s, n);
        assert forall|i: int| 0 <= i < fr.len() implies (#[trigger] fr[i]).len() == n by {
            if i > 0 {
                assert(fr[i] == rest[i - 1]);
            }
        }
    } else {
        assert(frames_of(s, n).flatten() =~= Seq::<T>::empty());
        assert(Seq::<T>::empty() + s =~= s);
    }
}

/// Splitting the input at any point does not change the frames: the frames
/// of `a + b` are the frames of `a` followed by the frames of what `a` left
/// over with `b` appended, and the final leftover is the same.
pub proof fn lemma_frames_concat<T>(a: Seq<T>, b: Seq<T>, n: nat)
    requires
        n > 0,
    ensures
        frames_of(a + b, n) == frames_of(a, n) + frames_of(leftover_of(a, n) + b, n),
        leftover_of(a + b, n) == leftover_of(leftover_of(a, n) + b, n),
    decreases a.len(),
{
    if a.len() >= n {
        assert((a + b).take(n as int) =~= a.take(n as int));
        assert((a + b).skip(n as int) =~= a.skip(n as int) + b);
        lemma_frames_concat(a.skip(n as int), b, n);
        assert(frames_of(a + b, n) =~= frames_of(a, n) + frames_of(leftover_of(a, n) + b, n));
    } else {
        assert(frames_of(a, n) =~= Seq::<Seq<T>>::empty());
        assert(leftover_of(a, n) == a);
        assert(frames_of(a + b, n) =~= frames_of(a, n) + frames_of(leftover_of(a, n) + b, n));
    }
}

/// An element-by-element copy of `v`.
fn copy_vec<T: Copy>(v: &Vec<T>) -> (out: Vec<T>)
    ensures
        out@ == v@,
{
    let mut out: Vec<T> = Vec::with_capacity(v.len());
    let mut i: usize = 0;
    while i < v.len()
        invariant
            i <= v@.len(),
            out@ == v@.take(i as int),
        decreases v@.len() - i,
    {
        out.push(v[i]);
        i = i + 1;
        proof {
            assert(out@ =~= v@.take(i as int));
        }
    }
    proof {
        assert(v@.take(v@.len() as int) =~= v@);
    }
    out
}

/// Frame `k` is the `k`-th block of `n` elements, there are `len / n`
/// frames, and the leftover is what follows the last frame.
pub proof fn lemma_frames_index<T>(s: Seq<T>, n: nat)
    requires
        n > 0,
    ensures
        frames_of(s, n).len() == s.len() / n,
        leftover_of(s, n) == s.skip((n * (s.len() / n)) as int),
        forall|k: int|
            0 <= k < frames_of(s, n).len() ==> #[trigger] frames_of(s, n)[k] == s.subrange(
                n * k,
                n * k + n,
            ),
    decreases s.len(),
{
    if s.len() >= n {
        let t = s.skip(n as int);
        lemma_frames_index(t, n);
        let q = t.len() / n;
        assert(s.len() / n == q + 1) by {
            assert(s.len() == t.len() + n);
            vstd::arithmetic::div_mod::lemma_div_plus_one(t.len() as int, n as int);
            assert((n + t.len()) as int == s.len() as int);
        }
        assert(n * (q + 1) == n * q + n) by (nonlinear_arith);
        vstd::arithmetic::div_mod::lemma_fundamental_div_mod(t.len() as int, n as int);
        assert(n * q <= t.len());
        assert(t.skip((n * q) as int) =~= s.skip((n * (s.len() / n)) as int));
        let fr = frames_of(s, n);
        assert forall|k: int| 0 <= k < fr.len() implies #[trigger] fr[k] == s.subrange(
            n * k,
            n * k + n,
        ) by {
            if k == 0 {
                assert(n * 0 == 0) by (nonlinear_arith);
                assert(fr[0] =~= s.subrange(0, n as int));
            } else {
                assert(fr[k] == frames_of(t, n)[k - 1]);
                assert(n * (k - 1) + n == n * k) by (nonlinear_arith);
                assert(n * (k - 1) <= n * (q - 1)) by (nonlinear_arith)
                    requires
                        1 <= k <= q,
                        n > 0,
                ;
                assert(n * (q - 1) + n == n * q) by (nonlinear_arith);
                assert(t.subrange(n * (k - 1), n * (k - 1) + n) =~= s.subrange(n * k, n * k + n));
            }
        }
    } else {
        assert(s.len() / n == 0) by {
            vstd::arithmetic::div_mod::lemma_basic_div(s.len() as int, n as int);
        }
        assert(n * 0 == 0) by (nonlinear_arith);
        assert(s.skip(0) =~= s);
    }
}

/// What a per-frame callback hands back: success, or a failure that stops
/// the frames that follow.
pub trait CallbackResult: Sized {
    /// Whether this value is a failure.
    spec fn is_failure(&self) -> bool;

    /// The success value.
    fn ok() -> (r: Self)
        ensures
            !r.is_failure(),
    ;

    /// The value itself when it is a failure, `None` otherwise.
    fn err(self) -> (e: Option<Self>)
        ensures
            self.is_failure() ==> e == Some(self),
            !self.is_failure() ==> e is None,
    ;
}

impl<E> CallbackResult for Result<(), E> {
    open spec fn is_failure(&self) -> bool {
        *self is Err
    }

    fn ok() -> (r: Self) {
        Ok(())
    }

    fn err(self) -> (e: Option<Self>) {
        if self.is_err() {
            Some(self)
        } else {
            None
        }
    }
}

impl CallbackResult for () {
    open spec fn is_failure(&self) -> bool {
        false
    }

    fn ok() -> (r: Self) {
    }

    fn err(self) -> (e: Option<Self>) {
        None
    }
}

/// `f` may give back `r` when handed `frame`.
pub open spec fn hands_back<T, R, F: FnMut(&[T]) -> R>(f: F, frame: Seq<T>, r: R) -> bool {
    exists|x: &[T]| #[trigger] call_ensures(f, (x,), r) && x@ == frame
}

/// A per-frame callback, with the record of what it was handed and gave
/// back, call by call.
#[verifier::reject_recursive_types(T)]
#[verifier::reject_recursive_types(R)]
pub struct FrameCallback<T, R, F: FnMut(&[T]) -> R> {
    f: F,
    handed: Ghost<Seq<Seq<T>>>,
    returned: Ghost<Seq<R>>,
}

impl<T, R, F: FnMut(&[T]) -> R> FrameCallback<T, R, F> {
    /// The callback.
    pub closed spec fn callback(&self) -> F {
        self.f
    }

    /// The frames handed to the callback so far, in call order.
    pub closed spec fn handed(&self) -> Seq<Seq<T>> {
        self.handed@
    }

    /// What the callback gave back, in call order.
    pub closed spec fn returned(&self) -> Seq<R> {
        self.returned@
    }

    /// The record is true: one result per frame, each one the callback may
    /// give back for its frame.
    pub closed spec fn wf(&self) -> bool {
        &&& self.handed@.len() == self.returned@.len()
        &&& forall|i: int|
            0 <= i < self.handed@.len() ==> #[trigger] hands_back(self.f, self.handed@[i], self.returned@[i])
    }

    /// Wraps `f`, with nothing handed to it yet.
    pub fn new(f: F) -> (cb: Self)
        ensures
            cb.wf(),
            cb.callback() == f,
            cb.handed() == Seq::<Seq<T>>::empty(),
            cb.returned() == Seq::<R>::empty(),
    {
        FrameCallback { f, handed: Ghost(Seq::empty()), returned: Ghost(Seq::empty()) }
    }

    /// Hands `frame` to the callback and records the call.
    fn call(&mut self, frame: &[T]) -> (r: R)
        requires
            old(self).wf(),
            call_requires(old(self).callback(), (frame,)),
        ensures
            final(self).wf(),
            final(self).callback() == old(self).callback(),
            final(self).handed() == old(self).handed().push(frame@),
            final(self).returned() == old(self).returned().push(r),
            hands_back(old(self).callback(), frame@, r),
    {
        let r = (self.f)(frame);
        proof {
            broadcast use vstd::function::group_function_axioms;
            let ghost rv = r;
            assert(call_ensures(self.f, (frame,), rv));
            assert(hands_back(self.f, frame@, rv));
            let h = self.handed@;
            let rs = self.returned@;
            self.handed@ = h.push(frame@);
            self.returned@ = rs.push(rv);
            assert forall|i: int| 0 <= i < self.handed@.len() implies #[trigger] hands_back(
                self.f,
                self.handed@[i],
                self.returned@[i],
            ) by {
                if i < h.len() {
                    assert(self.handed@[i] == h[i]);
                    assert(self.returned@[i] == rs[i]);
                }
            }
        }
        r
    }
}

/// Buffers samples until a frame of `N` is complete.
#[derive(Clone)]
pub struct Chunker<T: Default + Copy, const N: usize> {
    buf: Vec<T>,
    len: usize,
}

impl<T: Default + Copy, const N: usize> Chunker<T, N> {
    /// The samples held back, waiting for a frame to fill.
    pub closed spec fn pending(&self) -> Seq<T> {
        self.buf@.take(self.len as int)
    }

    /// The internal invariant: the buffer has room for one frame and holds
    /// fewer than `N` pending samples.
    pub closed spec fn wf(&self) -> bool {
        &&& self.buf@.len() == N
        &&& self.len < N
    }

    /// An empty chunker.
    pub fn new() -> (c: Self)
        requires
            N > 0,
        ensures
            c.wf(),
            c.pending() == Seq::<T>::empty(),
    {
        let mut buf: Vec<T> = Vec::with_capacity(N);
        let mut i: usize = 0;
        while i < N
            invariant
                i <= N,
                buf@.len() == i,
            decreases N - i,
        {
            buf.push(T::default());
            i = i + 1;
        }
        Chunker { buf, len: 0 }
    }

    /// Takes `data` in and returns, in order, every frame of `N` samples
    /// that is now complete; the remainder is kept for the next call.
    pub fn feed_frames(&mut self, data: &[T]) -> (frames: Vec<Vec<T>>)
        requires
            old(self).wf(),
        ensures
            final(self).wf(),
            frames@.map_values(|f: Vec<T>| f@) == frames_of(old(self).pending() + data@, N as nat),
            final(self).pending() == leftover_of(old(self).pending() + data@, N as nat),
    {
        let ghost all = self.pending() + data@;
        let dlen: usize = data.len();
        let mut frames: Vec<Vec<T>> = Vec::new();
        let mut pos: usize = 0;
        // 1. Complete a pending partial frame.
        if self.len > 0 {
            let take: usize = if N - self.len < data.len() {
                N - self.len
            } else {
                data.len()
            };
            let ghost before = self.buf@;
            proof {
                assert(all =~= before.take(self.len as int) + data@);
            }
            let mut k: usize = 0;
            while k < take
                invariant
                    k <= take,
                    self.len == old(self).len,
                    self.len < N,
                    take <= data@.len(),
                    self.len + take <= N,
                    self.buf@.len() == N,
                    forall|j: int| 0 <= j < self.len ==> self.buf@[j] == before[j],
                    forall|j: int|
                        0 <= j < k ==> self.buf@[self.len + j] == #[trigger] data@[j],
                decreases take - k,
            {
                let x = data[k];
                self.buf.set(self.len + k, x);
                k = k + 1;
            }
            let ghost old_pending = before.take(self.len as int);
            self.len = self.len + take;
            pos = take;
            proof {
                assert(self.buf@.take(self.len as int) =~= old_pending + data@.take(take as int));
            }
            if self.len == N {
                self.len = 0;
                frames.push(copy_vec(&self.buf));
                proof {
                    assert(all.len() >= N);
                    assert(all.take(N as int) =~= self.buf@);
                    assert(all.skip(N as int) =~= data@.skip(pos as int));
                    assert(frames@.map_values(|f: Vec<T>| f@) =~= seq![all.take(N as int)]);
                }
            } else {
                proof {
                    assert(take == data@.len());
                    assert(all.len() < N);
                    assert(self.pending() =~= all);
                    assert(frames@.map_values(|f: Vec<T>| f@) =~= Seq::<Seq<T>>::empty());
                }
                return frames;
            }
        } else {
            proof {
                assert(all =~= data@);
            }
        }
        // 2. Whole frames straight from the input.
        let ghost done = frames@.map_values(|f: Vec<T>| f@);
        proof {
            assert(frames_of(all, N as nat) == done + frames_of(data@.skip(pos as int), N as nat)) by {
                if done.len() == 1 {
                    reveal_with_fuel(frames_of, 2);
                } else {
                    assert(data@.skip(pos as int) =~= all);
                }
            }
            assert(leftover_of(all, N as nat) == leftover_of(data@.skip(pos as int), N as nat)) by {
                if done.len() == 1 {
                    reveal_with_fuel(leftover_of, 2);
                } else {
                    assert(data@.skip(pos as int) =~= all);
                }
            }
        }
        while dlen - pos >= N
            invariant
                dlen == data@.len(),
                pos <= data@.len(),
                self.buf@.len() == N,
                N > 0,
                frames_of(all, N as nat) == frames@.map_values(|f: Vec<T>| f@) + frames_of(
                    data@.skip(pos as int),
                    N as nat,
                ),
                leftover_of(all, N as nat) == leftover_of(data@.skip(pos as int), N as nat),
            decreases data@.len() - pos,
        {
            let mut frame: Vec<T> = Vec::with_capacity(N);
            let mut k: usize = 0;
            while k < N
                invariant
                    k <= N,
                    dlen == data@.len(),
                    pos + N <= dlen,
                    frame@ == data@.subrange(pos as int, pos + k),
                decreases N - k,
            {
                frame.push(data[pos + k]);
                k = k + 1;
                proof {
                    assert(frame@ =~= data@.subrange(pos as int, pos + k));
                }
            }
            let ghost rest = data@.skip(pos as int);
            proof {
                assert(rest.take(N as int) =~= frame@);
                assert(rest.skip(N as int) =~= data@.skip(pos + N));
                assert(frames_of(rest, N as nat) == seq![frame@] + frames_of(
                    data@.skip(pos + N),
                    N as nat,
                ));
            }
            let ghost prev = frames@.map_values(|f: Vec<T>| f@);
            frames.push(frame);
            pos = pos + N;
            proof {
                assert(frames@.map_values(|f: Vec<T>| f@) =~= prev.push(frame@));
                assert(prev + (seq![frame@] + frames_of(data@.skip(pos as int), N as nat))
                    =~= prev.push(frame@) + frames_of(data@.skip(pos as int), N as nat));
            }
        }
        // 3. Keep the remainder.
        let rem: usize = dlen - pos;
        let mut k: usize = 0;
        while k < rem
            invariant
                k <= rem,
                rem < N,
                dlen == data@.len(),
                pos + rem == dlen,
                self.buf@.len() == N,
                forall|j: int| 0 <= j < k ==> self.buf@[j] == #[trigger] data@[pos + j],
            decreases rem - k,
        {
            let x = data[pos + k];
            self.buf.set(k, x);
            k = k + 1;
        }
        self.len = rem;
        proof {
            let rest = data@.skip(pos as int);
            assert forall|j: int| 0 <= j < rem implies self.buf@[j] == rest[j] by {
                assert(self.buf@[j] == data@[pos + j]);
            }
            assert(rest.len() < N);
            assert(frames_of(rest, N as nat) =~= Seq::<Seq<T>>::empty());
            assert(frames@.map_values(|f: Vec<T>| f@) + Seq::<Seq<T>>::empty()
                =~= frames@.map_values(|f: Vec<T>| f@));
            assert(self.pending() =~= rest);
        }
        frames
    }

    /// Takes `data` in and hands every frame of `N` samples that is now
    /// complete to the callback, once each and in order, stopping at the
    /// first failure it reports, which is returned. After a failure nothing
    /// stays pending: the rest of `data` is dropped. Otherwise the remainder
    /// is kept for the next call.
    pub fn feed<R: CallbackResult, F: FnMut(&[T]) -> R>(
        &mut self,
        data: &[T],
        cb: &mut FrameCallback<T, R, F>,
    ) -> (r: R)
        requires
            old(self).wf(),
            old(cb).wf(),
            forall|x: &[T]| #[trigger] call_requires(old(cb).callback(), (x,)),
        ensures
            final(self).wf(),
            final(cb).wf(),
            final(cb).callback() == old(cb).callback(),
            ({
                let fr = frames_of(old(self).pending() + data@, N as nat);
                let o = old(cb).handed().len() as int;
                let handed = final(cb).handed().skip(o);
                let returned = final(cb).returned().skip(o);
                &&& final(cb).handed().len() >= o
                &&& final(cb).handed().take(o) == old(cb).handed()
                &&& final(cb).returned().take(o) == old(cb).returned()
                &&& handed == fr.take(handed.len() as int)
                &&& forall|i: int| 0 <= i < returned.len() - 1 ==> !(#[trigger] returned[i]).is_failure()
                &&& !r.is_failure() ==> {
                    &&& handed.len() == fr.len()
                    &&& forall|i: int| 0 <= i < returned.len() ==> !(#[trigger] returned[i]).is_failure()
                    &&& final(self).pending() == leftover_of(old(self).pending() + data@, N as nat)
                }
                &&& r.is_failure() ==> {
                    &&& handed.len() >= 1
                    &&& r == returned.last()
                    &&& final(self).pending() == Seq::<T>::empty()
                }
            }),
    {
        let ghost fr = frames_of(self.pending() + data@, N as nat);
        let ghost h0 = cb.handed();
        let ghost r0 = cb.returned();
        let ghost f0 = cb.callback();
        let ghost o = h0.len() as int;
        let frames = self.feed_frames(data);
        let mut k: usize = 0;
        while k < frames.len()
            invariant
                k <= frames@.len(),
                frames@.map_values(|v: Vec<T>| v@) == fr,
                fr == frames_of(old(self).pending() + data@, N as nat),
                cb.wf(),
                cb.callback() == f0,
                f0 == old(cb).callback(),
                forall|x: &[T]| #[trigger] call_requires(f0, (x,)),
                h0 == old(cb).handed(),
                r0 == old(cb).returned(),
                h0.len() == r0.len(),
                o == h0.len(),
                cb.handed() == h0 + fr.take(k as int),
                cb.returned().len() == o + k,
                cb.returned().take(o) == r0,
                forall|i: int| o <= i < o + k ==> !(#[trigger] cb.returned()[i]).is_failure(),
                self.wf(),
                self.pending() == leftover_of(old(self).pending() + data@, N as nat),
            decreases frames@.len() - k,
        {
            let frame: &[T] = frames[k].as_slice();
            let ghost hb = cb.handed();
            let ghost rb = cb.returned();
            let res = cb.call(frame);
            let ghost rv = res;
            proof {
                assert(fr[k as int] == frame@);
                assert(fr.take(k + 1) =~= fr.take(k as int).push(frame@));
                assert(cb.handed() =~= h0 + fr.take(k + 1));
                assert(cb.returned().take(o) =~= r0);
            }
            match res.err() {
                Some(e) => {
                    self.reset();
                    proof {
                        let handed = cb.handed().skip(o);
                        let returned = cb.returned().skip(o);
                        assert(handed =~= fr.take(k + 1));
                        assert(handed.take(handed.len() as int) =~= handed);
                        assert(cb.handed().take(o) =~= h0);
                        assert(returned.last() == rv);
                        assert forall|i: int| 0 <= i < returned.len() - 1 implies !(
                        #[trigger] returned[i]).is_failure() by {
                            assert(returned[i] == cb.returned()[o + i]);
                        }
                    }
                    return e;
                },
                None => {},
            }
            k = k + 1;
        }
        proof {
            let handed = cb.handed().skip(o);
            let returned = cb.returned().skip(o);
            assert(fr.take(fr.len() as int) =~= fr);
            assert(handed =~= fr);
            assert(cb.handed().take(o) =~= h0);
            assert forall|i: int| 0 <= i < returned.len() implies !(#[trigger] returned[i]).is_failure() by {
                assert(returned[i] == cb.returned()[o + i]);
            }
        }
        R::ok()
    }

    /// Flushes a pending partial frame, padded to `N` samples with
    /// `T::default()`; `None` when nothing is pending.
    pub fn finish(&mut self) -> (frame: Option<Vec<T>>)
        requires
            old(self).wf(),
        ensures
            final(self).wf(),
            final(self).pending() == Seq::<T>::empty(),
            old(self).pending().len() < N,
            old(self).pending().len() == 0 <==> frame is None,
            frame matches Some(f) ==> {
                &&& f@.len() == N
                &&& f@.take(old(self).pending().len() as int) == old(self).pending()
                &&& forall|j: int|
                    old(self).pending().len() <= j < N ==> #[trigger] f@[j] == f@[N - 1]
                &&& call_ensures(T::default, (), f@[N - 1])
            },
    {
        if self.len > 0 {
            let pad = T::default();
            let mut k: usize = self.len;
            let ghost before = self.buf@;
            while k < N
                invariant
                    self.len == old(self).len,
                    self.len < N,
                    self.len <= k <= N,
                    self.buf@.len() == N,
                    forall|j: int| 0 <= j < self.len ==> self.buf@[j] == before[j],
                    forall|j: int| self.len <= j < k ==> #[trigger] self.buf@[j] == pad,
                decreases N - k,
            {
                self.buf.set(k, pad);
                k = k + 1;
            }
            let ghost n = self.len;
            self.len = 0;
            let frame = copy_vec(&self.buf);
            proof {
                assert(frame@.take(n as int) =~= before.take(n as int));
                assert(forall|j: int| n <= j < N ==> #[trigger] frame@[j] == pad);
                assert(frame@[N - 1] == pad);
                assert(self.pending() =~= Seq::<T>::empty());
            }
            Some(frame)
        } else {
            proof {
                assert(self.pending() =~= Seq::<T>::empty());
            }
            None
        }
    }

    /// Drops any pending samples.
    pub fn reset(&mut self)
        requires
            old(self).wf(),
        ensures
            final(self).wf(),
            final(self).pending() == Seq::<T>::empty(),
    {
        self.len = 0;
        proof {
            assert(self.pending() =~= Seq::<T>::empty());
        }
    }
}

} // verus!
