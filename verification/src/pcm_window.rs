//! Fixed-size windows of interleaved stereo PCM: the most recent
//! `AUDIO_WINDOW_FRAMES` frames, published once each time new frames have
//! arrived since the last window.
//!
//! The assembler is generic in the sample type; the daemon instantiates it
//! with `f32` and replaces non-finite samples with silence before they come
//! in.

use vstd::prelude::*;

verus! {

pub const AUDIO_SAMPLE_RATE_HZ: u32 = 48_000;

pub const AUDIO_CHANNELS: u32 = 2;

pub const AUDIO_WINDOW_FRAMES: usize = 4096;

/// `AUDIO_WINDOW_FRAMES * AUDIO_CHANNELS`.
pub const AUDIO_SAMPLE_COUNT: usize = 8192;

pub const AUDIO_WINDOW_END_OF_STREAM: u32 = 1;

/// One published window: `frames` frames of `channels` interleaved
/// samples, oldest first.
#[derive(Debug, Clone, PartialEq)]
pub struct AudioPcmWindow<S> {
    pub generation: u64,
    pub sequence: u64,
    pub captured_at_ns: u64,
    pub end_sample_frame: u64,
    pub sample_rate_hz: u32,
    pub channels: u32,
    pub frames: u32,
    pub samples: Vec<S>,
}

/// The stereo frames in an interleaved buffer; a trailing odd sample is
/// not a frame.
pub open spec fn frames_of<S>(samples: Seq<S>) -> Seq<(S, S)> {
    Seq::new(samples.len() / 2, |k: int| (samples[2 * k], samples[2 * k + 1]))
}

/// The frames laid out as interleaved samples.
pub open spec fn interleaved<S>(frames: Seq<(S, S)>) -> Seq<S> {
    Seq::new(2 * frames.len(), |k: int| if k % 2 == 0 { frames[k / 2].0 } else { frames[k / 2].1 })
}

/// The last `n` elements of `s` (all of it when shorter).
pub open spec fn keep_last<A>(s: Seq<A>, n: nat) -> Seq<A> {
    if s.len() <= n {
        s
    } else {
        s.skip(s.len() - n)
    }
}

/// `a + b`, stopping at `u64::MAX`.
pub open spec fn saturating_sum(a: u64, b: nat) -> u64 {
    if a + b > u64::MAX {
        u64::MAX
    } else {
        (a + b) as u64
    }
}

/// Abstract state of an assembler.
pub struct AssemblerView<S> {
    /// The frames held, oldest first: the last `AUDIO_WINDOW_FRAMES` at most.
    pub held: Seq<(S, S)>,
    pub generation: Option<u64>,
    pub sequence: u64,
    pub end_sample_frame: u64,
    pub last_snapshot_end: u64,
}

impl<S> AssemblerView<S> {
    /// The state after `samples` came in for `generation`: a new generation
    /// starts from nothing; then each complete frame is appended, the
    /// oldest falling out beyond the window, and counted.
    pub open spec fn ingested(self, generation: u64, samples: Seq<S>) -> AssemblerView<S> {
        let base = if self.generation == Some(generation) {
            self
        } else {
            AssemblerView {
                held: Seq::empty(),
                generation: Some(generation),
                sequence: 0,
                end_sample_frame: 0,
                last_snapshot_end: 0,
            }
        };
        let frames = frames_of(samples);
        AssemblerView {
            held: keep_last(base.held + frames, AUDIO_WINDOW_FRAMES as nat),
            end_sample_frame: saturating_sum(base.end_sample_frame, frames.len()),
            ..base
        }
    }

    /// Whether a snapshot now publishes a window: the window is full and
    /// frames came in since the last one.
    pub open spec fn publishes(self) -> bool {
        self.held.len() == AUDIO_WINDOW_FRAMES && self.end_sample_frame != self.last_snapshot_end
    }
}

/// Rolling buffer of the most recent stereo frames of one capture
/// generation.
pub struct PcmWindowAssembler<S> {
    ring: Vec<S>,
    silence: S,
    head: usize,
    filled: usize,
    generation: Option<u64>,
    sequence: u64,
    end_sample_frame: u64,
    last_snapshot_end: u64,
}

/// The ring slot of the `k`-th of `filled` frames held, oldest first, when
/// the next frame goes to `head`.
pub open spec fn slot_of(head: int, filled: int, k: int) -> int {
    (head + AUDIO_WINDOW_FRAMES - filled + k) % (AUDIO_WINDOW_FRAMES as int)
}

/// The frames a ring holds.
pub open spec fn ring_frames<S>(ring: Seq<S>, head: int, filled: int) -> Seq<(S, S)> {
    Seq::new(
        filled as nat,
        |k: int| (ring[2 * slot_of(head, filled, k)], ring[2 * slot_of(head, filled, k) + 1]),
    )
}

impl<S> View for PcmWindowAssembler<S> {
    type V = AssemblerView<S>;

    closed spec fn view(&self) -> AssemblerView<S> {
        AssemblerView {
            held: ring_frames(self.ring@, self.head as int, self.filled as int),
            generation: self.generation,
            sequence: self.sequence,
            end_sample_frame: self.end_sample_frame,
            last_snapshot_end: self.last_snapshot_end,
        }
    }
}

/// Ring slots hold two samples each.
proof fn lemma_slot_in_ring(head: int, filled: int, k: int)
    requires
        0 <= head < AUDIO_WINDOW_FRAMES,
        0 <= filled <= AUDIO_WINDOW_FRAMES,
        0 <= k < filled,
    ensures
        0 <= slot_of(head, filled, k) < AUDIO_WINDOW_FRAMES,
        0 <= 2 * slot_of(head, filled, k) + 1 < AUDIO_SAMPLE_COUNT,
{
}

/// Writing frame `f` at `head` and moving on appends `f`, the oldest frame
/// falling out once the ring is full.
proof fn lemma_ring_push<S>(ring: Seq<S>, head: int, filled: int, a: S, b: S)
    requires
        ring.len() == AUDIO_SAMPLE_COUNT,
        0 <= head < AUDIO_WINDOW_FRAMES,
        0 <= filled <= AUDIO_WINDOW_FRAMES,
    ensures
        ({
            let next = ring.update(2 * head, a).update(2 * head + 1, b);
            let head2 = (head + 1) % (AUDIO_WINDOW_FRAMES as int);
            let filled2 = if filled < AUDIO_WINDOW_FRAMES { filled + 1 } else { filled };
            ring_frames(next, head2, filled2) == keep_last(
                ring_frames(ring, head, filled).push((a, b)),
                AUDIO_WINDOW_FRAMES as nat,
            )
        }),
{
    let w = AUDIO_WINDOW_FRAMES as int;
    let next = ring.update(2 * head, a).update(2 * head + 1, b);
    let head2 = (head + 1) % w;
    let filled2 = if filled < w { filled + 1 } else { filled };
    let old_frames = ring_frames(ring, head, filled);
    let pushed = old_frames.push((a, b));
    let new_frames = ring_frames(next, head2, filled2);
    let expect = keep_last(pushed, w as nat);
    if filled < w {
        assert forall|k: int| 0 <= k < filled2 implies new_frames[k] == expect[k] by {
            assert(slot_of(head2, filled2, k) == if k == filled { head } else { slot_of(head, filled, k) });
            if k < filled {
                assert(slot_of(head, filled, k) != head);
            }
        }
        assert(new_frames =~= expect);
    } else {
        assert forall|k: int| 0 <= k < filled2 implies new_frames[k] == expect[k] by {
            assert(expect[k] == pushed[k + 1]);
            if k + 1 < w {
                assert(slot_of(head2, filled2, k) == slot_of(head, filled, k + 1));
                assert(slot_of(head, filled, k + 1) != head);
            } else {
                assert(slot_of(head2, filled2, k) == head);
            }
        }
        assert(new_frames =~= expect);
    }
}

impl<S> PcmWindowAssembler<S> {
    #[verifier::type_invariant]
    spec fn well_formed(&self) -> bool {
        &&& self.ring@.len() == AUDIO_SAMPLE_COUNT
        &&& self.head < AUDIO_WINDOW_FRAMES
        &&& self.filled <= AUDIO_WINDOW_FRAMES
    }
}

impl<S: Copy> PcmWindowAssembler<S> {
    /// An empty assembler; `silence` is the sample a cleared ring holds.
    pub fn new(silence: S) -> (r: Self)
        ensures
            r@.held == Seq::<(S, S)>::empty(),
            r@.generation is None,
            r@.sequence == 0,
            r@.end_sample_frame == 0,
            r@.last_snapshot_end == 0,
    {
        let mut ring: Vec<S> = Vec::new();
        while ring.len() < AUDIO_SAMPLE_COUNT
            invariant
                ring@.len() <= AUDIO_SAMPLE_COUNT,
            decreases AUDIO_SAMPLE_COUNT - ring@.len(),
        {
            ring.push(silence);
        }
        let r = PcmWindowAssembler {
            ring,
            silence,
            head: 0,
            filled: 0,
            generation: None,
            sequence: 0,
            end_sample_frame: 0,
            last_snapshot_end: 0,
        };
        assert(r@.held =~= Seq::<(S, S)>::empty());
        r
    }

    /// Sets every ring sample back to silence.
    fn clear_ring(&mut self)
        ensures
            final(self).silence == old(self).silence,
            final(self).ring@ == Seq::new(AUDIO_SAMPLE_COUNT as nat, |i: int| old(self).silence),
            final(self).head == old(self).head,
            final(self).filled == old(self).filled,
            final(self).generation == old(self).generation,
            final(self).sequence == old(self).sequence,
            final(self).end_sample_frame == old(self).end_sample_frame,
            final(self).last_snapshot_end == old(self).last_snapshot_end,
    {
        proof {
            use_type_invariant(&*self);
        }
        let mut i: usize = 0;
        while i < AUDIO_SAMPLE_COUNT
            invariant
                0 <= i <= AUDIO_SAMPLE_COUNT,
                self.ring@.len() == AUDIO_SAMPLE_COUNT,
                self.silence == old(self).silence,
                forall|k: int| 0 <= k < i ==> self.ring@[k] == old(self).silence,
                self.head == old(self).head,
                self.filled == old(self).filled,
                self.generation == old(self).generation,
                self.sequence == old(self).sequence,
                self.end_sample_frame == old(self).end_sample_frame,
                self.last_snapshot_end == old(self).last_snapshot_end,
            decreases AUDIO_SAMPLE_COUNT - i,
        {
            proof {
                use_type_invariant(&*self);
            }
            let s = self.silence;
            self.ring[i] = s;
            i = i + 1;
        }
        assert(self.ring@ =~= Seq::new(AUDIO_SAMPLE_COUNT as nat, |i: int| old(self).silence));
    }

    /// Starts `generation` from an empty window.
    fn reset(&mut self, generation: u64)
        ensures
            final(self)@ == (AssemblerView::<S> {
                held: Seq::empty(),
                generation: Some(generation),
                sequence: 0,
                end_sample_frame: 0,
                last_snapshot_end: 0,
            }),
    {
        proof {
            use_type_invariant(&*self);
        }
        self.clear_ring();
        proof {
            use_type_invariant(&*self);
        }
        self.head = 0;
        self.filled = 0;
        self.generation = Some(generation);
        self.sequence = 0;
        self.end_sample_frame = 0;
        self.last_snapshot_end = 0;
        assert(self@.held =~= Seq::<(S, S)>::empty());
    }

    /// Takes in interleaved stereo samples of `generation`; a trailing odd
    /// sample is ignored.
    pub fn ingest_interleaved(&mut self, generation: u64, samples: &[S])
        ensures
            final(self)@ == old(self)@.ingested(generation, samples@),
    {
        proof {
            use_type_invariant(&*self);
        }
        if self.generation != Some(generation) {
            self.reset(generation);
        }
        proof {
            use_type_invariant(&*self);
        }
        let ghost base = self@;
        let len = samples.len();
        let frames = len / 2;
        let mut i: usize = 0;
        while i < frames
            invariant
                len == samples@.len(),
                frames == len / 2,
                0 <= i <= frames,
                self@.generation == base.generation,
                self@.sequence == base.sequence,
                self@.last_snapshot_end == base.last_snapshot_end,
                self@.held == keep_last(base.held + frames_of(samples@).take(i as int), AUDIO_WINDOW_FRAMES as nat),
                self@.end_sample_frame == saturating_sum(base.end_sample_frame, i as nat),
                base.held.len() <= AUDIO_WINDOW_FRAMES,
            decreases frames - i,
        {
            proof {
                use_type_invariant(&*self);
            }
            assert(2 * i + 1 < samples@.len()) by (nonlinear_arith)
                requires
                    i < frames,
                    frames == len / 2,
                    len == samples@.len(),
            ;
            let a = samples[2 * i];
            let b = samples[2 * i + 1];
            let ghost before = self@.held;
            proof {
                lemma_ring_push(self.ring@, self.head as int, self.filled as int, a, b);
                lemma_keep_last_push(base.held + frames_of(samples@).take(i as int), (a, b), AUDIO_WINDOW_FRAMES as nat);
                assert(frames_of(samples@).take(i + 1) =~= frames_of(samples@).take(i as int).push((a, b)));
                assert(base.held + frames_of(samples@).take(i + 1) =~= (base.held + frames_of(samples@).take(i as int)).push((a, b)));
            }
            let offset = self.head * 2;
            self.ring[offset] = a;
            self.ring[offset + 1] = b;
            self.head = (self.head + 1) % AUDIO_WINDOW_FRAMES;
            if self.filled < AUDIO_WINDOW_FRAMES {
                self.filled = self.filled + 1;
            }
            self.end_sample_frame = self.end_sample_frame.saturating_add(1);
            i = i + 1;
        }
        proof {
            assert(frames_of(samples@).take(frames as int) =~= frames_of(samples@));
        }
    }

    /// Publishes the current window, oldest frame first, if it is full and
    /// frames came in since the last one; otherwise nothing changes.
    pub fn snapshot(&mut self, captured_at_ns: u64) -> (r: Option<AudioPcmWindow<S>>)
        ensures
            r is None <==> !old(self)@.publishes(),
            r is None ==> final(self)@ == old(self)@,
            r matches Some(w) ==> {
                &&& w.samples@ == interleaved(old(self)@.held)
                &&& w.generation == match old(self)@.generation { Some(g) => g, None => 0 }
                &&& w.sequence == saturating_sum(old(self)@.sequence, 1)
                &&& w.captured_at_ns == captured_at_ns
                &&& w.end_sample_frame == old(self)@.end_sample_frame
                &&& w.sample_rate_hz == AUDIO_SAMPLE_RATE_HZ
                &&& w.channels == AUDIO_CHANNELS
                &&& w.frames == AUDIO_WINDOW_FRAMES
                &&& final(self)@ == (AssemblerView {
                    sequence: w.sequence,
                    last_snapshot_end: old(self)@.end_sample_frame,
                    ..old(self)@
                })
            },
    {
        proof {
            use_type_invariant(&*self);
        }
        if self.filled < AUDIO_WINDOW_FRAMES || self.end_sample_frame == self.last_snapshot_end {
            return None;
        }
        let ghost held = self@.held;
        let mut samples: Vec<S> = Vec::new();
        let mut index: usize = 0;
        while index < AUDIO_WINDOW_FRAMES
            invariant
                self.filled == AUDIO_WINDOW_FRAMES,
                held == self@.held,
                0 <= index <= AUDIO_WINDOW_FRAMES,
                samples@ == interleaved(held.take(index as int)),
            decreases AUDIO_WINDOW_FRAMES - index,
        {
            proof {
                use_type_invariant(&*self);
            }
            let source = ((self.head + index) % AUDIO_WINDOW_FRAMES) * 2;
            proof {
                assert(slot_of(self.head as int, AUDIO_WINDOW_FRAMES as int, index as int)
                    == (self.head + index) % (AUDIO_WINDOW_FRAMES as int));
                lemma_slot_in_ring(self.head as int, AUDIO_WINDOW_FRAMES as int, index as int);
            }
            samples.push(self.ring[source]);
            samples.push(self.ring[source + 1]);
            proof {
                assert(interleaved(held.take(index + 1)) =~= interleaved(held.take(index as int)).push(
                    held[index as int].0,
                ).push(held[index as int].1));
            }
            index = index + 1;
        }
        proof {
            assert(held.take(AUDIO_WINDOW_FRAMES as int) =~= held);
        }
        self.sequence = self.sequence.saturating_add(1);
        self.last_snapshot_end = self.end_sample_frame;
        let generation = match self.generation {
            Some(g) => g,
            None => 0,
        };
        Some(AudioPcmWindow {
            generation,
            sequence: self.sequence,
            captured_at_ns,
            end_sample_frame: self.end_sample_frame,
            sample_rate_hz: AUDIO_SAMPLE_RATE_HZ,
            channels: AUDIO_CHANNELS,
            frames: 4096,
            samples,
        })
    }

    /// Drops the frames held; the frame count stands, so nothing is
    /// published until a full window of new frames has come in.
    pub fn discard(&mut self)
        ensures
            final(self)@ == (AssemblerView {
                held: Seq::empty(),
                last_snapshot_end: old(self)@.end_sample_frame,
                ..old(self)@
            }),
    {
        proof {
            use_type_invariant(&*self);
        }
        self.clear_ring();
        proof {
            use_type_invariant(&*self);
        }
        self.head = 0;
        self.filled = 0;
        self.last_snapshot_end = self.end_sample_frame;
        assert(self@.held =~= Seq::<(S, S)>::empty());
    }
}


impl<S: Copy + Default> Default for PcmWindowAssembler<S> {
    /// An empty assembler whose silence is the sample type's default.
    fn default() -> (r: Self)
        ensures
            r@.held == Seq::<(S, S)>::empty(),
            r@.generation is None,
            r@.sequence == 0,
            r@.end_sample_frame == 0,
            r@.last_snapshot_end == 0,
    {
        Self::new(S::default())
    }
}

/// Keeping the last `n` twice around an append is keeping them once.
proof fn lemma_keep_last_append<A>(s: Seq<A>, t: Seq<A>, n: nat)
    ensures
        keep_last(keep_last(s, n) + t, n) == keep_last(s + t, n),
{
    if s.len() > n {
        let k = keep_last(s, n);
        if k.len() + t.len() > n {
            assert(keep_last(k + t, n) =~= keep_last(s + t, n));
        } else {
            assert(keep_last(k + t, n) =~= keep_last(s + t, n));
        }
    }
}

/// How the samples arrive, in one buffer or split at a frame boundary,
/// changes nothing: same frames held, same count, same window.
pub proof fn law_chunking_does_not_change_the_window<S>(
    v: AssemblerView<S>,
    generation: u64,
    a: Seq<S>,
    b: Seq<S>,
)
    requires
        a.len() % 2 == 0,
    ensures
        v.ingested(generation, a).ingested(generation, b) == v.ingested(generation, a + b),
{
    let w = AUDIO_WINDOW_FRAMES as nat;
    assert(frames_of(a + b) =~= frames_of(a) + frames_of(b)) by {
        assert((a + b).len() / 2 == a.len() / 2 + b.len() / 2);
        assert forall|k: int| 0 <= k < frames_of(a + b).len() implies frames_of(a + b)[k] == (frames_of(a) + frames_of(b))[k] by {
            if k >= a.len() / 2 {
                assert(2 * k >= a.len());
                assert(2 * (k - a.len() / 2) == 2 * k - a.len());
            }
        }
    }
    let base = if v.generation == Some(generation) {
        v
    } else {
        AssemblerView {
            held: Seq::empty(),
            generation: Some(generation),
            sequence: 0,
            end_sample_frame: 0,
            last_snapshot_end: 0,
        }
    };
    lemma_keep_last_append(base.held + frames_of(a), frames_of(b), w);
    assert(base.held + frames_of(a) + frames_of(b) =~= base.held + (frames_of(a) + frames_of(b)));
}

/// A new generation starts from an empty window: what it holds afterwards
/// comes from its own samples only, and its count starts at zero.
pub proof fn law_generation_change_cannot_mix_samples<S>(v: AssemblerView<S>, generation: u64, samples: Seq<S>)
    requires
        v.generation != Some(generation),
    ensures
        v.ingested(generation, samples).held == keep_last(frames_of(samples), AUDIO_WINDOW_FRAMES as nat),
        v.ingested(generation, samples).sequence == 0,
        v.ingested(generation, samples).end_sample_frame == saturating_sum(0, frames_of(samples).len()),
        v.ingested(generation, samples).generation == Some(generation),
{
    assert(Seq::<(S, S)>::empty() + frames_of(samples) =~= frames_of(samples));
}

/// Keeping the last `n` after a push is pushing onto the last `n` and
/// keeping the last `n` again.
proof fn lemma_keep_last_push<A>(s: Seq<A>, x: A, n: nat)
    requires
        n > 0,
    ensures
        keep_last(s.push(x), n) == keep_last(keep_last(s, n).push(x), n),
{
    if s.len() <= n {
    } else {
        assert(keep_last(s.push(x), n) =~= keep_last(keep_last(s, n).push(x), n));
    }
}

} // verus!
