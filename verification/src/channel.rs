use vstd::prelude::*;

use crate::message::{RequestState, SynthMethod};

verus! {

/// The abstract state of a synthesizer channel: the SPEAK request being
/// served, the synthesized audio still to be played (if any), and how many
/// bytes of that audio have already gone out in frames.
pub struct SpeakState<M> {
    pub msg: Option<M>,
    pub audio: Option<Seq<u8>>,
    pub played: nat,
}

/// What a read of one audio frame produces, in the abstract.
pub enum FrameOutcome<M> {
    /// The frame is marked as audio and carries these bytes.
    Audio(Seq<u8>),
    /// The audio of the SPEAK request `M` is all out: SPEAK-COMPLETE is due.
    Complete(M),
    /// No SPEAK request is being served: the frame is left alone.
    Idle,
}

/// What a read of one audio frame produces.
pub enum FrameRead<M> {
    /// The frame is marked as audio and carries these bytes.
    Audio(Vec<u8>),
    /// The audio of this SPEAK request is all out: SPEAK-COMPLETE is due.
    Complete(M),
    /// No SPEAK request is being served: the frame is left alone.
    Idle,
}

impl<M> View for FrameRead<M> {
    type V = FrameOutcome<M>;

    open spec fn view(&self) -> FrameOutcome<M> {
        match self {
            FrameRead::Audio(bytes) => FrameOutcome::Audio(bytes@),
            FrameRead::Complete(m) => FrameOutcome::Complete(*m),
            FrameRead::Idle => FrameOutcome::Idle,
        }
    }
}

/// The state a channel is in right after a SPEAK request `msg`, whose text
/// was synthesized into `audio` (`None` when synthesis failed).
pub open spec fn speak_state<M>(msg: M, audio: Option<Seq<u8>>) -> SpeakState<M> {
    SpeakState { msg: Some(msg), audio, played: 0 }
}

/// The state of a channel that serves no SPEAK request.
pub open spec fn idle_state<M>() -> SpeakState<M> {
    SpeakState { msg: None, audio: None, played: 0 }
}

/// A frame can be read from this state without running past the audio:
/// while a SPEAK request holds audio, some of it is still unplayed.
pub open spec fn readable<M>(s: SpeakState<M>) -> bool {
    s.msg is Some && s.audio is Some ==> s.played < s.audio->0.len()
}

pub open spec fn min_nat(a: nat, b: nat) -> nat {
    if a <= b { a } else { b }
}

/// One frame read of `frame_size` bytes: the next state and what the frame gets.
///
/// While audio remains, the frame gets the next `min(unplayed, frame_size)`
/// bytes; once the last byte is out the audio is dropped and the counter goes
/// back to zero. A SPEAK request without audio gets its SPEAK-COMPLETE and
/// the channel becomes idle. An idle channel is left as it is.
pub open spec fn read_step<M>(s: SpeakState<M>, frame_size: nat) -> (SpeakState<M>, FrameOutcome<M>) {
    match s.msg {
        None => (s, FrameOutcome::Idle),
        Some(m) => match s.audio {
            None => (SpeakState { msg: None, ..s }, FrameOutcome::Complete(m)),
            Some(a) => {
                let n = min_nat((a.len() - s.played) as nat, frame_size);
                let next = s.played + n;
                let chunk = a.subrange(s.played as int, next as int);
                if next == a.len() {
                    (SpeakState { audio: None, played: 0, ..s }, FrameOutcome::Audio(chunk))
                } else {
                    (SpeakState { played: next, ..s }, FrameOutcome::Audio(chunk))
                }
            },
        },
    }
}

/// Reads frames of the given sizes one after another, from state `s`: the
/// final state and what each frame got, in order.
pub open spec fn read_frames<M>(s: SpeakState<M>, sizes: Seq<nat>) -> (SpeakState<M>, Seq<FrameOutcome<M>>)
    decreases sizes.len(),
{
    if sizes.len() == 0 {
        (s, Seq::empty())
    } else {
        let (s1, o) = read_step(s, sizes[0]);
        let (s2, rest) = read_frames(s1, sizes.drop_first());
        (s2, seq![o] + rest)
    }
}

/// The audio bytes that a run of frames carried, in order.
pub open spec fn audio_of<M>(outs: Seq<FrameOutcome<M>>) -> Seq<u8>
    decreases outs.len(),
{
    if outs.len() == 0 {
        Seq::empty()
    } else {
        let head = match outs[0] {
            FrameOutcome::Audio(c) => c,
            _ => Seq::empty(),
        };
        head + audio_of(outs.drop_first())
    }
}

/// The total size of a run of frames.
pub open spec fn total_size(sizes: Seq<nat>) -> nat
    decreases sizes.len(),
{
    if sizes.len() == 0 {
        0
    } else {
        sizes[0] + total_size(sizes.drop_first())
    }
}

/// The audio that a channel in state `s` still has to play.
pub open spec fn unplayed<M>(s: SpeakState<M>) -> Seq<u8> {
    match s.msg {
        Some(_) => match s.audio {
            Some(a) => a.subrange(s.played as int, a.len() as int),
            None => Seq::empty(),
        },
        None => Seq::empty(),
    }
}

proof fn lemma_audio_of_cons<M>(o: FrameOutcome<M>, rest: Seq<FrameOutcome<M>>)
    ensures
        audio_of(seq![o] + rest) == match o {
            FrameOutcome::Audio(c) => c,
            _ => Seq::empty(),
        } + audio_of(rest),
{
    assert((seq![o] + rest).drop_first() =~= rest);
    assert((seq![o] + rest)[0] == o);
}

/// A channel that serves no SPEAK request stays so, and every frame read
/// from it is left alone.
proof fn lemma_idle_reads<M>(s: SpeakState<M>, sizes: Seq<nat>)
    requires
        s.msg is None,
    ensures
        read_frames(s, sizes).0 == s,
        read_frames(s, sizes).1.len() == sizes.len(),
        forall|i: int| 0 <= i < sizes.len() ==> #[trigger] read_frames(s, sizes).1[i] == FrameOutcome::<M>::Idle,
        audio_of(read_frames(s, sizes).1) == Seq::<u8>::empty(),
    decreases sizes.len(),
{
    if sizes.len() > 0 {
        lemma_idle_reads(s, sizes.drop_first());
        let rest = read_frames(s, sizes.drop_first()).1;
        lemma_audio_of_cons(FrameOutcome::<M>::Idle, rest);
        assert forall|i: int| 0 <= i < sizes.len() implies #[trigger] read_frames(s, sizes).1[i] == FrameOutcome::<M>::Idle by {
            if i > 0 {
                assert(read_frames(s, sizes).1[i] == rest[i - 1]);
            }
        }
    }
}

/// What a run of frame reads from any readable state does: the frames carry
/// the unplayed audio in order, as much of it as their total size holds; a
/// SPEAK-COMPLETE comes for the request that was being served, only once all
/// of its audio has gone out, and after it every frame is left alone; and
/// when every frame has room for a byte, one frame more than there are
/// unplayed bytes brings the SPEAK-COMPLETE.
proof fn lemma_read_frames<M>(s: SpeakState<M>, sizes: Seq<nat>)
    requires
        readable(s),
    ensures
        ({
            let outs = read_frames(s, sizes).1;
            let u = unplayed(s);
            &&& outs.len() == sizes.len()
            &&& audio_of(outs) == u.subrange(0, min_nat(total_size(sizes), u.len()) as int)
            &&& forall|i: int| 0 <= i < outs.len() && #[trigger] outs[i] is Complete ==> {
                &&& s.msg == Some(outs[i]->Complete_0)
                &&& audio_of(outs.take(i)) == u
                &&& forall|j: int| i < j < outs.len() ==> #[trigger] outs[j] == FrameOutcome::<M>::Idle
            }
            &&& (s.msg is Some && sizes.len() > u.len()
                && (forall|i: int| 0 <= i < sizes.len() ==> #[trigger] sizes[i] > 0))
                ==> exists|i: int| 0 <= i < outs.len() && #[trigger] outs[i] is Complete
        }),
    decreases sizes.len(),
{
    let outs = read_frames(s, sizes).1;
    let u = unplayed(s);
    if sizes.len() == 0 {
        assert(u.subrange(0, 0) =~= Seq::<u8>::empty());
    } else {
        let (s1, o) = read_step(s, sizes[0]);
        let tail = sizes.drop_first();
        let rest = read_frames(s1, tail).1;
        assert(outs == seq![o] + rest);
        lemma_audio_of_cons(o, rest);
        lemma_read_frames(s1, tail);
        let u1 = unplayed(s1);
        assert(total_size(sizes) == sizes[0] + total_size(tail));
        assert forall|i: int| 0 < i < outs.len() implies #[trigger] outs[i] == rest[i - 1] by {}
        match s.msg {
            None => {
                lemma_idle_reads(s, sizes);
            },
            Some(m) => match s.audio {
                None => {
                    // The SPEAK-COMPLETE goes out now; the channel is idle after it.
                    assert(s1.msg is None);
                    lemma_idle_reads(s1, tail);
                    assert(u =~= Seq::<u8>::empty());
                    assert(u.subrange(0, 0) =~= Seq::<u8>::empty());
                    assert(audio_of(outs) =~= Seq::<u8>::empty());
                    assert forall|i: int| 0 <= i < outs.len() && #[trigger] outs[i] is Complete implies {
                        &&& s.msg == Some(outs[i]->Complete_0)
                        &&& audio_of(outs.take(i)) == u
                        &&& forall|j: int| i < j < outs.len() ==> #[trigger] outs[j] == FrameOutcome::<M>::Idle
                    } by {
                        if i > 0 {
                            assert(rest[i - 1] == FrameOutcome::<M>::Idle);
                        }
                        assert(outs.take(0) =~= Seq::<FrameOutcome<M>>::empty());
                        assert forall|j: int| i < j < outs.len() implies #[trigger] outs[j] == FrameOutcome::<M>::Idle by {
                            assert(outs[j] == rest[j - 1]);
                        }
                    }
                    assert(outs[0] is Complete);
                },
                Some(a) => {
                    let p = s.played;
                    let n = min_nat((a.len() - p) as nat, sizes[0]);
                    let chunk = a.subrange(p as int, (p + n) as int);
                    assert(o == FrameOutcome::<M>::Audio(chunk));
                    assert(u =~= a.subrange(p as int, a.len() as int));
                    if p + n == a.len() {
                        // The last of the audio goes out in this frame.
                        assert(u1 =~= Seq::<u8>::empty());
                        assert(u1.subrange(0, 0) =~= Seq::<u8>::empty());
                        assert(min_nat(total_size(sizes), u.len()) == u.len());
                        assert(chunk =~= u);
                        assert(audio_of(outs) =~= u.subrange(0, u.len() as int));
                    } else {
                        assert(n == sizes[0]);
                        assert(u1 =~= a.subrange((p + n) as int, a.len() as int));
                        let k = min_nat(total_size(tail), u1.len());
                        assert(min_nat(total_size(sizes), u.len()) == n + k);
                        assert(chunk + u1.subrange(0, k as int) =~= u.subrange(0, (n + k) as int));
                    }
                    assert forall|i: int| 0 <= i < outs.len() && #[trigger] outs[i] is Complete implies {
                        &&& s.msg == Some(outs[i]->Complete_0)
                        &&& audio_of(outs.take(i)) == u
                        &&& forall|j: int| i < j < outs.len() ==> #[trigger] outs[j] == FrameOutcome::<M>::Idle
                    } by {
                        assert(i > 0);
                        assert(outs[i] == rest[i - 1]);
                        assert(rest[i - 1] is Complete);
                        assert(outs.take(i) =~= seq![o] + rest.take(i - 1));
                        lemma_audio_of_cons(o, rest.take(i - 1));
                        assert(chunk + u1 =~= u);
                        assert forall|j: int| i < j < outs.len() implies #[trigger] outs[j] == FrameOutcome::<M>::Idle by {
                            assert(outs[j] == rest[j - 1]);
                        }
                    }
                    if s.msg is Some && sizes.len() > u.len() && (forall|i: int| 0 <= i < sizes.len() ==> #[trigger] sizes[i] > 0) {
                        assert(n > 0) by {
                            assert(sizes[0] > 0);
                        }
                        assert(u1.len() < u.len());
                        assert forall|i: int| 0 <= i < tail.len() implies #[trigger] tail[i] > 0 by {
                            assert(tail[i] == sizes[i + 1]);
                        }
                        let i = choose|i: int| 0 <= i < rest.len() && #[trigger] rest[i] is Complete;
                        assert(outs[i + 1] is Complete);
                    }
                },
            },
        }
    }
}

/// The audio of a SPEAK request is played in order: the frames read after
/// the request carry a prefix of its synthesized audio, as long as their
/// total size allows, and none of it twice or out of order.
pub proof fn law_speak_plays_audio_in_order<M>(request: M, audio: Option<Seq<u8>>, sizes: Seq<nat>)
    requires
        audio matches Some(a) ==> a.len() > 0,
    ensures
        ({
            let a = match audio { Some(a) => a, None => Seq::<u8>::empty() };
            audio_of(read_frames(speak_state(request, audio), sizes).1)
                == a.subrange(0, min_nat(total_size(sizes), a.len()) as int)
        }),
{
    let s = speak_state(request, audio);
    lemma_read_frames(s, sizes);
    match audio {
        Some(a) => assert(unplayed(s) =~= a),
        None => assert(unplayed(s) =~= Seq::<u8>::empty()),
    }
}

/// A SPEAK request is completed once, after its audio: a SPEAK-COMPLETE that
/// a run of frames brings is for that request and comes after all of its
/// audio has been played, and every frame after it is left alone.
pub proof fn law_speak_completes_after_audio<M>(request: M, audio: Option<Seq<u8>>, sizes: Seq<nat>, i: int)
    requires
        audio matches Some(a) ==> a.len() > 0,
        0 <= i < sizes.len(),
        read_frames(speak_state(request, audio), sizes).1[i] is Complete,
    ensures
        ({
            let a = match audio { Some(a) => a, None => Seq::<u8>::empty() };
            let outs = read_frames(speak_state(request, audio), sizes).1;
            &&& outs[i] == FrameOutcome::Complete(request)
            &&& audio_of(outs.take(i)) == a
            &&& forall|j: int| i < j < outs.len() ==> #[trigger] outs[j] == FrameOutcome::<M>::Idle
        }),
{
    let s = speak_state(request, audio);
    lemma_read_frames(s, sizes);
    match audio {
        Some(a) => assert(unplayed(s) =~= a),
        None => assert(unplayed(s) =~= Seq::<u8>::empty()),
    }
}

/// A SPEAK request is completed: when every frame has room for at least one
/// byte, one frame more than the synthesized audio has bytes brings its
/// SPEAK-COMPLETE.
pub proof fn law_speak_completes<M>(request: M, audio: Option<Seq<u8>>, sizes: Seq<nat>)
    requires
        audio matches Some(a) ==> a.len() > 0,
        forall|i: int| 0 <= i < sizes.len() ==> #[trigger] sizes[i] > 0,
        sizes.len() > (match audio { Some(a) => a.len(), None => 0 }),
    ensures
        exists|i: int| 0 <= i < sizes.len()
            && #[trigger] read_frames(speak_state(request, audio), sizes).1[i] == FrameOutcome::Complete(request),
{
    let s = speak_state(request, audio);
    lemma_read_frames(s, sizes);
    match audio {
        Some(a) => assert(unplayed(s) =~= a),
        None => assert(unplayed(s) =~= Seq::<u8>::empty()),
    }
    let outs = read_frames(s, sizes).1;
    let i = choose|i: int| 0 <= i < outs.len() && #[trigger] outs[i] is Complete;
    assert(outs[i] == FrameOutcome::Complete(request));
}

/// A channel that serves no SPEAK request, as after a reset, leaves every
/// frame alone and stays idle.
pub proof fn law_idle_channel_stays_idle<M>(sizes: Seq<nat>)
    ensures
        read_frames(idle_state::<M>(), sizes).0 == idle_state::<M>(),
        forall|i: int| 0 <= i < sizes.len() ==> #[trigger] read_frames(idle_state::<M>(), sizes).1[i] == FrameOutcome::<M>::Idle,
{
    lemma_idle_reads(idle_state::<M>(), sizes);
}

/// A run of `k` frames, each of `n` bytes.
pub open spec fn fixed_frames(k: nat, n: nat) -> Seq<nat> {
    Seq::new(k, |i: int| n)
}

/// Reading two runs of frames one after the other is reading the joined run.
proof fn lemma_read_frames_concat<M>(s: SpeakState<M>, a: Seq<nat>, b: Seq<nat>)
    ensures
        read_frames(s, a + b) == (
            read_frames(read_frames(s, a).0, b).0,
            read_frames(s, a).1 + read_frames(read_frames(s, a).0, b).1,
        ),
    decreases a.len(),
{
    if a.len() == 0 {
        assert(a + b =~= b);
        assert(Seq::<FrameOutcome<M>>::empty() + read_frames(s, b).1 =~= read_frames(s, b).1);
    } else {
        let (s1, o) = read_step(s, a[0]);
        assert((a + b).drop_first() =~= a.drop_first() + b);
        assert((a + b)[0] == a[0]);
        lemma_read_frames_concat(s1, a.drop_first(), b);
        let mid = read_frames(s1, a.drop_first());
        let tail = read_frames(mid.0, b);
        assert(seq![o] + (mid.1 + tail.1) =~= (seq![o] + mid.1) + tail.1);
    }
}

proof fn lemma_total_fixed(k: nat, n: nat)
    ensures
        total_size(fixed_frames(k, n)) == k * n,
    decreases k,
{
    if k > 0 {
        assert(fixed_frames(k, n).drop_first() =~= fixed_frames((k - 1) as nat, n));
        lemma_total_fixed((k - 1) as nat, n);
        assert(fixed_frames(k, n)[0] == n);
        assert(k * n == n + (k - 1) * n) by (nonlinear_arith);
    } else {
        assert(k * n == 0) by (nonlinear_arith) requires k == 0;
    }
}

/// Frames of a fixed size `n` from a request whose audio is played up to
/// `p`, when `k` of them are needed for the rest: each frame but the last is
/// full, the last takes the rest, and the channel then holds the request
/// without audio.
proof fn lemma_fixed_frames<M>(m: M, b: Seq<u8>, n: nat, p: nat, k: nat)
    requires
        n > 0,
        k >= 1,
        p < b.len(),
        p + (k - 1) * n < b.len() <= p + k * n,
    ensures
        ({
            let (st, outs) = read_frames(SpeakState { msg: Some(m), audio: Some(b), played: p }, fixed_frames(k, n));
            &&& st == SpeakState::<M> { msg: Some(m), audio: None, played: 0 }
            &&& outs.len() == k
            &&& forall|i: int| 0 <= i < k - 1 ==> #[trigger] outs[i]
                == FrameOutcome::<M>::Audio(b.subrange(p + i * n, p + i * n + n))
            &&& outs[k - 1] == FrameOutcome::<M>::Audio(b.subrange(p + (k - 1) * n, b.len() as int))
        }),
    decreases k,
{
    let s = SpeakState { msg: Some(m), audio: Some(b), played: p };
    let sizes = fixed_frames(k, n);
    let (s1, o) = read_step(s, sizes[0]);
    let tail = sizes.drop_first();
    assert(tail =~= fixed_frames((k - 1) as nat, n));
    let rest = read_frames(s1, tail);
    let outs = read_frames(s, sizes).1;
    assert(outs == seq![o] + rest.1);
    if k == 1 {
        assert((k - 1) * n == 0) by (nonlinear_arith) requires k == 1;
        assert(k * n == n) by (nonlinear_arith) requires k == 1;
        assert(tail.len() == 0);
        assert(outs =~= seq![o]);
    } else {
        assert((k - 1) * n >= n) by (nonlinear_arith) requires k > 1;
        assert((k - 1) * n == n + (k - 2) * n) by (nonlinear_arith) requires k > 1;
        assert(k * n == n + (k - 1) * n) by (nonlinear_arith);
        assert(s1 == SpeakState { msg: Some(m), audio: Some(b), played: (p + n) as nat });
        assert(o == FrameOutcome::<M>::Audio(b.subrange(p as int, (p + n) as int)));
        lemma_fixed_frames(m, b, n, (p + n) as nat, (k - 1) as nat);
        assert forall|i: int| 0 <= i < k - 1 implies #[trigger] outs[i]
            == FrameOutcome::<M>::Audio(b.subrange(p + i * n, p + i * n + n)) by {
            if i == 0 {
                assert(p + i * n == p) by (nonlinear_arith) requires i == 0;
            } else {
                assert(outs[i] == rest.1[i - 1]);
                assert(p + n + (i - 1) * n == p + i * n) by (nonlinear_arith);
            }
        }
        assert(outs[k - 1] == rest.1[k - 2]);
    }
}

/// Frames of one fixed size `n`, `k` of them where `k` is the number that
/// the audio fills (`(k - 1) * n < |audio| <= k * n`): every frame but the
/// last is full, the last takes the rest, together they carry the audio
/// once and in order, and after the last the channel still holds the
/// request, with no audio and a counter of zero. The frame right after the
/// last audio frame brings the request's SPEAK-COMPLETE, the channel is then
/// idle, and every later frame is left alone.
pub proof fn law_fixed_size_frames<M>(request: M, audio: Seq<u8>, n: nat, k: nat, extra: nat)
    requires
        audio.len() > 0,
        n > 0,
        (k - 1) * n < audio.len() <= k * n,
    ensures
        ({
            let s = speak_state(request, Some(audio));
            let (after, outs) = read_frames(s, fixed_frames(k, n));
            &&& outs.len() == k
            &&& forall|i: int| 0 <= i < k - 1 ==> #[trigger] outs[i]
                == FrameOutcome::<M>::Audio(audio.subrange(i * n, i * n + n))
            &&& outs[k - 1] == FrameOutcome::<M>::Audio(audio.subrange((k - 1) * n, audio.len() as int))
            &&& audio_of(outs) == audio
            &&& after == SpeakState::<M> { msg: Some(request), audio: None, played: 0 }
        }),
        ({
            let s = speak_state(request, Some(audio));
            let (end, more) = read_frames(s, fixed_frames(k + 1 + extra, n));
            &&& more.len() == k + 1 + extra
            &&& more.subrange(0, k as int) == read_frames(s, fixed_frames(k, n)).1
            &&& more[k as int] == FrameOutcome::Complete(request)
            &&& forall|j: int| k < j < k + 1 + extra ==> #[trigger] more[j] == FrameOutcome::<M>::Idle
            &&& end == idle_state::<M>()
        }),
{
    assert(k >= 1) by (nonlinear_arith) requires audio.len() > 0, audio.len() <= k * n, n > 0;
    let s = speak_state(request, Some(audio));
    lemma_fixed_frames(request, audio, n, 0, k);
    let (after, outs) = read_frames(s, fixed_frames(k, n));
    // All of the audio, in order.
    lemma_total_fixed(k, n);
    law_speak_plays_audio_in_order(request, Some(audio), fixed_frames(k, n));
    assert(audio.subrange(0, audio.len() as int) =~= audio);
    // Then SPEAK-COMPLETE, then idle.
    let tail = fixed_frames((1 + extra) as nat, n);
    assert(fixed_frames(k + 1 + extra, n) =~= fixed_frames(k, n) + tail);
    lemma_read_frames_concat(s, fixed_frames(k, n), tail);
    let (s2, o) = read_step(after, tail[0]);
    assert(o == FrameOutcome::Complete(request));
    assert(s2 == idle_state::<M>());
    assert(tail.drop_first() =~= fixed_frames(extra, n));
    lemma_idle_reads(s2, fixed_frames(extra, n));
    let tail_outs = read_frames(after, tail).1;
    assert(tail_outs == seq![o] + read_frames(s2, fixed_frames(extra, n)).1);
    let more = read_frames(s, fixed_frames(k + 1 + extra, n)).1;
    assert(more == outs + tail_outs);
    assert(more.subrange(0, k as int) =~= outs);
    assert(more[k as int] == tail_outs[0]);
    assert forall|j: int| k < j < k + 1 + extra implies #[trigger] more[j] == FrameOutcome::<M>::Idle by {
        assert(more[j] == tail_outs[j - k]);
        assert(tail_outs[j - k] == read_frames(s2, fixed_frames(extra, n)).1[j - k - 1]);
    }
}

/// The state of a synthesizer channel. `M` identifies the SPEAK request that
/// is being served (the server's message handle).
pub struct MyChannel<M> {
    pub speak_msg: Option<M>,
    pub speak_bytes: Option<Vec<u8>>,
    pub have_read_bytes: usize,
}

impl<M> View for MyChannel<M> {
    type V = SpeakState<M>;

    open spec fn view(&self) -> SpeakState<M> {
        SpeakState {
            msg: self.speak_msg,
            audio: self.speak_bytes.deep_view(),
            played: self.have_read_bytes as nat,
        }
    }
}

impl<M: Copy> MyChannel<M> {
    /// A channel that serves no SPEAK request.
    pub fn new() -> (channel: Self)
        ensures
            channel@ == idle_state::<M>(),
    {
        MyChannel { speak_msg: None, speak_bytes: None, have_read_bytes: 0 }
    }

    /// Drops the SPEAK request being served, with its audio.
    pub fn reset_speak(&mut self)
        ensures
            final(self)@ == idle_state::<M>(),
    {
        self.speak_msg = None;
        self.speak_bytes = None;
        self.have_read_bytes = 0;
    }

    /// Starts serving the SPEAK request `request`, whose text was synthesized
    /// into `speech` (`None` when synthesis failed), in place of whatever the
    /// channel served before. The response to the request reports it in
    /// progress: the request completes when its audio has been played.
    pub fn speak(&mut self, request: M, speech: Option<Vec<u8>>) -> (state: RequestState)
        ensures
            final(self)@ == speak_state(request, speech.deep_view()),
            final(self).speak_msg == Some(request),
            final(self).speak_bytes == speech,
            final(self).have_read_bytes == 0,
            state == RequestState::InProgress,
    {
        self.speak_msg = Some(request);
        self.speak_bytes = speech;
        self.have_read_bytes = 0;
        RequestState::InProgress
    }

    /// Handles a request of `method` on this channel; `speech` is the audio
    /// synthesized from its text, used for a SPEAK request only. Every request
    /// is answered with its response; the result is the request state that
    /// the response reports in place of the one it was created with, if any.
    pub fn process_request(&mut self, method: SynthMethod, request: M, speech: Option<Vec<u8>>) -> (state: Option<RequestState>)
        ensures
            method == SynthMethod::Speak ==> final(self)@ == speak_state(request, speech.deep_view())
                && state == Some(RequestState::InProgress),
            method != SynthMethod::Speak ==> final(self)@ == old(self)@ && state is None,
    {
        if method.needs_synthesis() {
            Some(self.speak(request, speech))
        } else {
            None
        }
    }

    /// Feeds one audio frame of `frame_size` bytes from the channel.
    pub fn read_frame(&mut self, frame_size: usize) -> (out: FrameRead<M>)
        requires
            readable(old(self)@),
        ensures
            final(self)@ == read_step(old(self)@, frame_size as nat).0,
            out@ == read_step(old(self)@, frame_size as nat).1,
            readable(final(self)@),
    {
        match self.speak_msg {
            None => FrameRead::Idle,
            Some(msg) => {
                match &self.speak_bytes {
                    None => {
                        self.speak_msg = None;
                        FrameRead::Complete(msg)
                    },
                    Some(speech) => {
                        let speech_len = speech.len();
                        let have_read = self.have_read_bytes;
                        let remaining = speech_len - have_read;
                        let n = if remaining < frame_size { remaining } else { frame_size };
                        let mut chunk: Vec<u8> = Vec::with_capacity(n);
                        let mut i: usize = have_read;
                        while i < have_read + n
                            invariant
                                have_read <= i <= have_read + n <= speech_len == speech@.len(),
                                chunk@ == speech@.subrange(have_read as int, i as int),
                                old(self)@.audio == Some(speech@),
                            decreases have_read + n - i,
                        {
                            chunk.push(speech[i]);
                            i = i + 1;
                        }
                        let next = have_read + n;
                        if next == speech_len {
                            self.speak_bytes = None;
                            self.have_read_bytes = 0;
                        } else {
                            self.have_read_bytes = next;
                        }
                        FrameRead::Audio(chunk)
                    },
                }
            },
        }
    }
}

} // verus!
