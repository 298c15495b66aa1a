//! Voice-activity gating for the head of a stream.
//!
//! Streaming model families are fed audio the moment it arrives, which makes
//! the first thing they ever see part of their state, and some never recover
//! from a stream that opens on silence. So the audio the model sees has to
//! *start* on speech. The voice gate discards everything until a detector says that a
//! frame is voiced, and everything from that point on flows straight through.
//!
//! Audio the detector rejects is dropped as soon as it has been classified. Only
//! a short preroll is retained, so the attack of the first word is not clipped
//! off and memory stays flat no matter how long the wait. There is deliberately
//! no deadline: a timer that fires part-way through a long lead-in hands the
//! model exactly the silence the voice gate exists to keep out.
//!
//! The voice gate never rewrites, resamples or reorders anything: it only decides
//! which sample is the first the model sees, and reports its position.
//!
//! Samples and scores are single-precision numbers in their IEEE 754 bit
//! patterns.
use crate::detector::Ear;
use std::collections::VecDeque;
use vstd::prelude::*;

verus! {

/// The detector consumes exactly this many samples per call, at 16 kHz.
pub const FRAME: usize = 256;

/// Score above which a frame counts as voice: the bits of 0.6.
///
/// The detector documents 0.5 as the generic threshold; the voice gate leans slightly
/// stricter because a false open is the exact failure it exists to prevent.
pub const DEFAULT_THRESHOLD: u32 = 0x3f19_999a;

/// Consecutive voiced frames required to open. One frame is 16ms, so this is
/// long enough to reject a click or a codec artifact, and short enough to sit
/// inside the onset of the first word.
pub const DEFAULT_HANGOVER_FRAMES: u32 = 3;

/// How much audio to keep behind the frame that opens the voice gate.
///
/// The detector needs a few frames to become confident, and a plosive is
/// loudest before it is recognisable, so releasing exactly at the deciding frame
/// would clip the attack off the first word.
pub const PREROLL_MS: u64 = 500;

/// Amplitude below which a sample carries no signal at all: the bits of 1e-6.
///
/// Real capture always has a noise floor, so anything under this is synthetic.
pub const SILENCE_EPSILON: u32 = 0x3586_37bd;

/// Digital silence handed to the model before the first speech, as its own
/// chunk: a deliberate priming signal, much shorter than an opening silence that
/// the model would have to normalise against.
pub const WARMUP_PAD_MS: u64 = 80;

/// The magnitude bits of a number.
pub open spec fn magnitude(bits: u32) -> int {
    bits as int % 0x8000_0000
}

/// Whether the bits are not a number.
pub open spec fn is_nan(bits: u32) -> bool {
    magnitude(bits) > 0x7f80_0000
}

/// Where a number stands among the others; both zeros stand at zero.
pub open spec fn rank(bits: u32) -> int {
    if bits >= 0x8000_0000 {
        -magnitude(bits)
    } else {
        magnitude(bits)
    }
}

/// Whether one number is less than another; what is not a number never is.
pub open spec fn is_less(left: u32, right: u32) -> bool {
    !is_nan(left) && !is_nan(right) && rank(left) < rank(right)
}

/// Whether a sample carries any signal.
pub open spec fn is_audible(sample: u32) -> bool {
    !is_nan(sample) && magnitude(sample) > SILENCE_EPSILON
}

/// Whether a sample lies between -1 and 1, as the detector asks.
pub open spec fn in_unit_range(sample: u32) -> bool {
    magnitude(sample) <= 0x3f80_0000
}

/// Whether all samples lie between -1 and 1.
pub open spec fn all_in_unit_range(samples: Seq<u32>) -> bool {
    forall|i: int| 0 <= i < samples.len() ==> in_unit_range(#[trigger] samples[i])
}

/// The bits of one, the highest score.
pub const ONE: u32 = 0x3f80_0000;

/// Whether a number is a score: between zero and one.
pub open spec fn is_score(score: u32) -> bool {
    !is_nan(score) && 0 <= rank(score) <= ONE
}

/// Whether one number is less than another.
fn less_than(left: u32, right: u32) -> (less: bool)
    ensures
        less == is_less(left, right),
{
    let left_magnitude: u32 = left % 0x8000_0000;
    let right_magnitude: u32 = right % 0x8000_0000;
    if left_magnitude > 0x7f80_0000 || right_magnitude > 0x7f80_0000 {
        return false;
    }
    let left_rank: i64 = if left >= 0x8000_0000 {
        -(left_magnitude as i64)
    } else {
        left_magnitude as i64
    };
    let right_rank: i64 = if right >= 0x8000_0000 {
        -(right_magnitude as i64)
    } else {
        right_magnitude as i64
    };
    left_rank < right_rank
}

/// Whether all samples lie between -1 and 1, as the detector asks.
pub fn samples_in_unit_range(samples: &[u32]) -> (inside: bool)
    ensures
        inside == all_in_unit_range(samples@),
{
    let mut index: usize = 0;
    while index < samples.len()
        invariant
            index <= samples@.len(),
            forall|i: int| 0 <= i < index ==> in_unit_range(#[trigger] samples@[i]),
        decreases samples@.len() - index,
    {
        if samples[index] % 0x8000_0000 > 0x3f80_0000 {
            assert(!in_unit_range(samples@[index as int]));
            return false;
        }
        index = index + 1;
    }
    true
}

/// What [`Gate::push`] decided about a buffer.
#[derive(Debug, PartialEq, Eq)]
pub enum Decision {
    /// No speech yet. The samples were classified and discarded.
    Withhold,
    /// Speech started. Feed `audio`, whose first sample sits `skipped_samples`
    /// after the point the voice gate was armed.
    ///
    /// The audio reaches back into buffers already seen, because the onset that
    /// opened the voice gate is a few frames old by the time it is certain.
    Open {
        skipped_samples: u64,
        audio: Vec<u32>,
        /// Zero-filled priming chunk to feed *before* `audio`, which occupies no
        /// time on the timeline.
        warmup: Vec<u32>,
    },
    /// The voice gate is already open; feed the buffer untouched.
    Passthrough,
}

/// What was decided about a buffer, as a mathematical value.
pub enum Verdict {
    Withhold,
    Open { skipped_samples: int, audio: Seq<u32>, warmup: Seq<u32> },
    Passthrough,
}

impl View for Decision {
    type V = Verdict;

    open spec fn view(&self) -> Verdict {
        match *self {
            Decision::Withhold => Verdict::Withhold,
            Decision::Open { skipped_samples, audio, warmup } => Verdict::Open {
                skipped_samples: skipped_samples as int,
                audio: audio@,
                warmup: warmup@,
            },
            Decision::Passthrough => Verdict::Passthrough,
        }
    }
}

/// Samples that a time takes at a rate. The product saturates.
pub open spec fn samples_in(ms: u64, rate: u64) -> usize {
    let product = if ms * rate <= u64::MAX {
        ms * rate
    } else {
        u64::MAX as int
    };
    ((product / 1000) as u64) as usize
}

/// How many samples in front carry no signal.
pub open spec fn silent_lead(samples: Seq<u32>) -> nat
    decreases samples.len(),
{
    if samples.len() == 0 || is_audible(samples[0]) {
        0
    } else {
        1 + silent_lead(samples.drop_first())
    }
}

/// The state of the voice gate, as a mathematical value.
pub struct Gating {
    /// The frames that the detector was handed since the voice gate was armed,
    /// oldest first, and what it scored each.
    pub heard: Seq<(Seq<u32>, u32)>,
    pub preroll: Seq<u32>,
    pub pending: Seq<u32>,
    pub seen: int,
    pub voiced_run: int,
    pub open: bool,
    pub rate: u64,
    pub threshold: u32,
    pub hangover_frames: u32,
    pub warmup_pad_ms: u64,
}

impl Gating {
    /// Samples of rejected audio that are kept.
    pub open spec fn capacity(self) -> int {
        samples_in(PREROLL_MS, self.rate) as int
    }

    /// What every gate keeps: the retained audio fits its window, fewer samples
    /// than a frame are unclassified, everything retained was seen, and a run
    /// long enough to open has opened.
    pub open spec fn wf(self) -> bool {
        &&& self.preroll.len() <= self.capacity()
        &&& self.pending.len() < FRAME
        &&& self.preroll.len() + self.pending.len() <= self.seen
        &&& 0 <= self.voiced_run
        &&& !self.open ==> self.voiced_run < self.hangover_frames
        &&& self.hangover_frames >= 1
        &&& self.rate >= 1
        &&& all_in_unit_range(self.pending)
        &&& self.open ==> self.preroll.len() == 0 && self.pending.len() == 0
    }

    /// The retained audio once a frame was rejected: the most recent samples,
    /// as many as the window holds.
    pub open spec fn retained(self, frame: Seq<u32>) -> Seq<u32> {
        let all = self.preroll + frame;
        if self.capacity() == 0 {
            self.preroll
        } else if all.len() > self.capacity() {
            all.skip(all.len() - self.capacity())
        } else {
            all
        }
    }

    /// The audio to open on: the retained audio from its first signal on, then
    /// the rest of the buffer. Leading digital silence is never carried in.
    pub open spec fn opening(self, tail: Seq<u32>) -> Seq<u32> {
        self.preroll.skip(silent_lead(self.preroll) as int) + tail
    }

    /// The voice gate once it has taken in what a frame scored.
    pub open spec fn judged(self, frame: Seq<u32>, score: u32) -> Gating {
        Gating {
            preroll: self.retained(frame),
            pending: Seq::empty(),
            voiced_run: if is_less(score, self.threshold) {
                0
            } else {
                self.voiced_run + 1
            },
            ..self
        }
    }

    /// The voice gate once the detector has scored a frame.
    pub open spec fn scored(self, frame: Seq<u32>, score: u32) -> Gating {
        Gating { heard: self.heard.push((frame, score)), ..self.judged(frame, score) }
    }

    /// The voice gate once it has opened.
    pub open spec fn opened(self) -> Gating {
        Gating { preroll: Seq::empty(), pending: Seq::empty(), open: true, ..self }
    }

    /// What opening with the rest of a buffer hands over.
    pub open spec fn open_verdict(self, tail: Seq<u32>) -> Verdict {
        let audio = self.opening(tail);
        Verdict::Open {
            skipped_samples: self.seen - audio.len(),
            audio,
            warmup: Seq::new(samples_in(self.warmup_pad_ms, self.rate) as nat, |i: int| 0u32),
        }
    }

    /// What becomes of the rest of a buffer: frames are scored one after another
    /// until enough voiced ones in a row open the voice gate, and a remainder shorter
    /// than a frame waits for the next buffer.
    pub open spec fn classified(self, rest: Seq<u32>, scores: Seq<u32>) -> (Gating, Verdict)
        decreases rest.len(),
    {
        let want = FRAME - self.pending.len();
        if rest.len() < want || want <= 0 {
            (Gating { pending: self.pending + rest, ..self }, Verdict::Withhold)
        } else {
            let frame = self.pending + rest.take(want);
            let tail = rest.skip(want);
            let next = self.scored(frame, scores[0]);
            if next.voiced_run >= self.hangover_frames {
                (next.opened(), next.open_verdict(tail))
            } else {
                next.classified(tail, scores.drop_first())
            }
        }
    }

    /// The voice gate armed anew, as it was made.
    pub open spec fn armed(self) -> Gating {
        Gating {
            heard: Seq::empty(),
            preroll: Seq::empty(),
            pending: Seq::empty(),
            seen: 0,
            voiced_run: 0,
            open: false,
            ..self
        }
    }

    /// The voice gate with another count of what it has seen.
    pub open spec fn counting(self, seen: int) -> Gating {
        Gating { seen, ..self }
    }

    /// What becomes of a buffer, given the scores of its frames.
    pub open spec fn pushed(self, samples: Seq<u32>, scores: Seq<u32>) -> (Gating, Verdict) {
        if self.open {
            (self, Verdict::Passthrough)
        } else {
            self.counting(self.seen + samples.len()).classified(samples, scores)
        }
    }
}

/// Frames that a buffer completes.
pub open spec fn frames_completed(gate: Gating, samples: Seq<u32>) -> int {
    (gate.pending.len() + samples.len()) as int / 256
}

/// What the detector scored the frames that it was handed between two states.
pub open spec fn scores_since(before: Gating, after: Gating) -> Seq<u32> {
    after.heard.skip(before.heard.len() as int).map_values(|asked: (Seq<u32>, u32)| asked.1)
}

/// Whether a buffer leaves a gate like that and is decided on like that: with what
/// the detector scored the frames that it was handed meanwhile, it does.
pub open spec fn becomes(gate: Gating, samples: Seq<u32>, after: Gating, verdict: Verdict) -> bool {
    let scores = scores_since(gate, after);
    &&& gate.heard.is_prefix_of(after.heard)
    &&& forall|i: int| 0 <= i < scores.len() ==> is_score(#[trigger] scores[i])
    &&& (after, verdict) == gate.pushed(samples, scores)
}

/// Withholds audio until speech starts, then gets out of the way.
pub struct Gate {
    ear: Ear,
    /// The most recent rejected audio, oldest first: the only audio the voice gate
    /// retains.
    preroll: VecDeque<u32>,
    /// Samples not yet classified, always fewer than one frame. The detector is
    /// frame-locked and buffer boundaries do not line up with frames.
    pending: Vec<u32>,
    /// Total samples seen since the voice gate was armed. The timeline is rebuilt from
    /// this, so it counts discarded audio too.
    seen: u64,
    voiced_run: u32,
    open: bool,
    rate: u64,
    threshold: u32,
    hangover_frames: u32,
    /// Priming silence fed ahead of the first speech. Zero disables it.
    warmup_pad_ms: u64,
}

impl View for Gate {
    type V = Gating;

    closed spec fn view(&self) -> Gating {
        Gating {
            heard: self.ear@,
            preroll: self.preroll@,
            pending: self.pending@,
            seen: self.seen as int,
            voiced_run: self.voiced_run as int,
            open: self.open,
            rate: self.rate,
            threshold: self.threshold,
            hangover_frames: self.hangover_frames,
            warmup_pad_ms: self.warmup_pad_ms,
        }
    }
}

/// Samples that a time takes at a rate.
fn ms_to_samples(ms: u64, rate: u64) -> (samples: usize)
    ensures
        samples == samples_in(ms, rate),
{
    let product: u64 = match ms.checked_mul(rate) {
        Some(product) => product,
        None => u64::MAX,
    };
    (product / 1000) as usize
}

impl Gate {
    /// A closed gate for audio at `rate` samples per second.
    pub fn new(rate: u64) -> (gate: Self)
        ensures
            gate@ == (Gating {
                heard: Seq::empty(),
                preroll: Seq::empty(),
                pending: Seq::empty(),
                seen: 0,
                voiced_run: 0,
                open: false,
                rate: if rate >= 1 {
                    rate
                } else {
                    1
                },
                threshold: DEFAULT_THRESHOLD,
                hangover_frames: DEFAULT_HANGOVER_FRAMES,
                warmup_pad_ms: WARMUP_PAD_MS,
            }),
            gate@.wf(),
            gate@.threshold == 0x3f19_999a && gate@.hangover_frames == 3 && gate@.warmup_pad_ms
                == 80,
    {
        Gate {
            ear: Ear::new(),
            preroll: VecDeque::new(),
            pending: Vec::with_capacity(FRAME),
            seen: 0,
            voiced_run: 0,
            open: false,
            rate: if rate >= 1 {
                rate
            } else {
                1
            },
            threshold: DEFAULT_THRESHOLD,
            hangover_frames: DEFAULT_HANGOVER_FRAMES,
            warmup_pad_ms: WARMUP_PAD_MS,
        }
    }

    /// Set the score a frame must reach to count as voice, as its bits.
    pub fn set_threshold(&mut self, threshold: u32)
        ensures
            final(self)@ == (Gating { threshold, ..old(self)@ }),
            old(self)@.wf() ==> final(self)@.wf(),
    {
        self.threshold = threshold;
    }

    /// Set the priming pad, in milliseconds. Zero disables it.
    pub fn set_warmup_pad_ms(&mut self, ms: u64)
        ensures
            final(self)@ == (Gating { warmup_pad_ms: ms, ..old(self)@ }),
            old(self)@.wf() ==> final(self)@.wf(),
    {
        self.warmup_pad_ms = ms;
    }

    /// Re-arm for a new stream, which is cold in exactly the way the voice gate guards
    /// against.
    pub fn reset(&mut self)
        ensures
            final(self)@ == old(self)@.armed(),
            old(self)@.wf() ==> final(self)@.wf(),
    {
        self.ear.reset();
        self.preroll = VecDeque::new();
        self.pending.clear();
        self.seen = 0;
        self.voiced_run = 0;
        self.open = false;
    }

    /// Whether speech has started.
    pub fn is_open(&self) -> (open: bool)
        ensures
            open == self@.open,
    {
        self.open
    }

    /// How many samples of rejected audio are retained.
    pub fn preroll_len(&self) -> (len: usize)
        ensures
            len == self@.preroll.len(),
    {
        self.preroll.len()
    }

    /// Whether a buffer of `count` samples can be counted, and the priming chunk
    /// be allocated.
    pub fn has_room(&self, count: usize) -> (room: bool)
        ensures
            room == (self@.seen + count <= u64::MAX && samples_in(self@.warmup_pad_ms, self@.rate)
                <= isize::MAX / 4),
    {
        count as u64 <= u64::MAX - self.seen && ms_to_samples(self.warmup_pad_ms, self.rate)
            <= isize::MAX as usize / 4
    }

    /// Whether the priming chunk can be allocated.
    pub fn pad_fits(&self) -> (fits: bool)
        ensures
            fits == (samples_in(self@.warmup_pad_ms, self@.rate) <= isize::MAX / 4),
    {
        ms_to_samples(self.warmup_pad_ms, self.rate) <= isize::MAX as usize / 4
    }

    /// Whether the time that everything seen takes, with `count` samples more,
    /// can be expressed.
    pub fn span_is_measurable(&self, count: usize) -> (measurable: bool)
        requires
            self@.wf(),
            self@.seen + count <= u64::MAX,
        ensures
            measurable == (1_000_000_000 * (self@.seen + count) / (self@.rate as int) <= u64::MAX),
    {
        let seen: u64 = self.seen + count as u64;
        proof {
            assert(0 <= 1_000_000_000 * seen <= u128::MAX) by (nonlinear_arith)
                requires
                    seen <= u64::MAX,
            ;
        }
        1_000_000_000u128 * seen as u128 / self.rate as u128 <= u64::MAX as u128
    }

    /// Keep a frame of rejected audio, dropping whatever no longer fits in the
    /// preroll window.
    fn retain(&mut self, frame: &Vec<u32>)
        requires
            old(self)@.preroll.len() <= old(self)@.capacity(),
        ensures
            final(self)@ == (Gating { preroll: old(self)@.retained(frame@), ..old(self)@ }),
            final(self)@.preroll.len() <= final(self)@.capacity(),
    {
        let ghost before = self@;
        let capacity: usize = ms_to_samples(PREROLL_MS, self.rate);
        if capacity == 0 {
            return ;
        }
        let mut index: usize = 0;
        let ghost all = before.preroll + frame@;
        assert(all.take(before.preroll.len() as int) =~= before.preroll);
        while index < frame.len()
            invariant
                index <= frame@.len(),
                capacity == before.capacity(),
                all == before.preroll + frame@,
                before.preroll.len() <= capacity,
                self@ == (Gating {
                    preroll: all.take(before.preroll.len() + index),
                    ..before
                }),
            decreases frame@.len() - index,
        {
            self.preroll.push_back(frame[index]);
            assert(all.take(before.preroll.len() + index).push(frame@[index as int]) =~= all.take(
                before.preroll.len() + index + 1,
            ));
            index = index + 1;
        }
        assert(all.take(all.len() as int) =~= all);
        let ghost mut dropped: int = 0;
        assert(all.skip(0) =~= all);
        while self.preroll.len() > capacity
            invariant
                0 <= dropped <= all.len(),
                self@ == (Gating { preroll: all.skip(dropped), ..before }),
                dropped > 0 ==> all.len() - dropped >= capacity,
            decreases self.preroll@.len(),
        {
            self.preroll.pop_front();
            proof {
                assert(all.skip(dropped).subrange(1, all.len() - dropped) =~= all.skip(dropped + 1));
                dropped = dropped + 1;
            }
        }
        proof {
            if all.len() > capacity {
                assert(dropped == all.len() - capacity);
            } else {
                assert(dropped == 0);
            }
        }
    }

    /// Build the audio to open on: the retained preroll, then `tail`.
    ///
    /// Leading digital silence is trimmed out of the preroll: room tone gives
    /// the model context before the first phoneme, but digital zeros are the
    /// very thing that poisons a cold stream.
    fn open_on(&mut self, tail: &[u32]) -> (decision: Decision)
        requires
            old(self)@.preroll.len() + tail@.len() <= old(self)@.seen,
            samples_in(old(self)@.warmup_pad_ms, old(self)@.rate) <= isize::MAX / 4,
        ensures
            final(self)@ == old(self)@.opened(),
            decision@ == old(self)@.open_verdict(tail@),
    {
        let ghost before = self@;
        let count: usize = self.preroll.len();
        let mut lead: usize = 0;
        assert(before.preroll.skip(0) =~= before.preroll);
        while lead < count && !audible(self.preroll[lead])
            invariant
                self@ == before,
                count == self.preroll@.len(),
                lead <= count,
                silent_lead(before.preroll) == lead + silent_lead(
                    before.preroll.skip(lead as int),
                ),
            decreases count - lead,
        {
            assert(before.preroll.skip(lead as int).drop_first() =~= before.preroll.skip(lead + 1));
            lead = lead + 1;
        }
        proof {
            silence_is_bounded(before.preroll);
        }
        let mut audio: Vec<u32> = Vec::new();
        let mut index: usize = lead;
        while index < count
            invariant
                self@ == before,
                count == self.preroll@.len(),
                lead <= index <= count,
                audio@ == before.preroll.subrange(lead as int, index as int),
            decreases count - index,
        {
            audio.push(self.preroll[index]);
            index = index + 1;
            assert(audio@ =~= before.preroll.subrange(lead as int, index as int));
        }
        audio.extend_from_slice(tail);
        assert(audio@ =~= before.opening(tail@));

        self.open = true;
        self.preroll = VecDeque::new();
        self.pending.clear();

        // Everything seen but not handed over was dropped, and the timeline is
        // rebuilt from exactly that count.
        let skipped_samples: u64 = self.seen - audio.len() as u64;
        let warmup: Vec<u32> = vec![0u32; ms_to_samples(self.warmup_pad_ms, self.rate)];
        assert(warmup@ =~= Seq::new(
            samples_in(before.warmup_pad_ms, before.rate) as nat,
            |i: int| 0u32,
        ));
        Decision::Open { skipped_samples, audio, warmup }
    }

    /// Hand over what is retained although no speech was detected, for a stream
    /// that ends before the voice gate opened. `None` where the voice gate is open already,
    /// or where nothing that carries signal is retained.
    pub fn take_held(&mut self) -> (decision: Option<Decision>)
        requires
            old(self)@.wf(),
            samples_in(old(self)@.warmup_pad_ms, old(self)@.rate) <= isize::MAX / 4,
        ensures
            old(self)@.open || old(self)@.opening(old(self)@.pending).len() == 0 ==> decision
                is None && final(self)@ == old(self)@,
            !old(self)@.open && old(self)@.opening(old(self)@.pending).len() > 0 ==> {
                &&& decision matches Some(opening) && opening@ == old(self)@.open_verdict(
                    old(self)@.pending,
                )
                &&& final(self)@ == old(self)@.opened()
            },
            final(self)@.wf(),
    {
        let ghost before = self@;
        if self.open {
            return None;
        }
        let mut heard = self.pending.len() > 0;
        let mut index: usize = 0;
        let count: usize = self.preroll.len();
        assert(before.preroll.skip(0) =~= before.preroll);
        while index < count && !heard
            invariant
                self@ == before,
                count == self.preroll@.len(),
                index <= count,
                !heard ==> before.pending.len() == 0 && silent_lead(before.preroll) == index
                    + silent_lead(before.preroll.skip(index as int)),
                heard ==> before.pending.len() > 0 || silent_lead(before.preroll) < count,
            decreases count - index, !heard as int,
        {
            if audible(self.preroll[index]) {
                heard = true;
            } else {
                assert(before.preroll.skip(index as int).drop_first() =~= before.preroll.skip(
                    index + 1,
                ));
                index = index + 1;
            }
        }
        proof {
            silence_is_bounded(before.preroll);
        }
        if !heard {
            assert(before.preroll.skip(count as int) =~= Seq::empty());
            return None;
        }
        let mut tail: Vec<u32> = Vec::new();
        core::mem::swap(&mut tail, &mut self.pending);
        let decision = self.open_on(tail.as_slice());
        assert(self@ =~= before.opened());
        Some(decision)
    }

    /// Take in the score of one whole frame: enough voiced frames in a row open
    /// the voice gate on what is retained and the `tail` of the buffer.
    pub fn judge(&mut self, frame: &Vec<u32>, score: u32, tail: &[u32]) -> (decision: Option<
        Decision,
    >)
        requires
            old(self)@.wf(),
            !old(self)@.open,
            old(self)@.pending.len() == 0,
            frame@.len() == FRAME,
            old(self)@.preroll.len() + FRAME + tail@.len() <= old(self)@.seen,
            samples_in(old(self)@.warmup_pad_ms, old(self)@.rate) <= isize::MAX / 4,
        ensures
            ({
                let next = old(self)@.judged(frame@, score);
                if next.voiced_run >= old(self)@.hangover_frames {
                    &&& decision matches Some(opening) && opening@ == next.open_verdict(tail@)
                    &&& final(self)@ == next.opened()
                } else {
                    decision is None && final(self)@ == next
                }
            }),
    {
        let ghost before = self@;
        if less_than(score, self.threshold) {
            self.voiced_run = 0;
            self.retain(frame);
            assert(self@.pending =~= Seq::empty());
            return None;
        }
        self.voiced_run = self.voiced_run + 1;
        // Whether or not the run is long enough yet, this frame may be carrying
        // the onset, so it belongs in the preroll either way.
        self.retain(frame);
        assert(self@.pending =~= Seq::empty());
        if self.voiced_run < self.hangover_frames {
            return None;
        }
        // Speech. The frames that formed the run are already retained, so
        // opening on the preroll plus the rest of this buffer keeps the attack of
        // the word intact.
        Some(self.open_on(tail))
    }

    /// Classify one buffer of mono audio at the model's native rate.
    ///
    /// The detector is handed each frame that the buffer completes, in order, until
    /// the voice gate opens, and decides what it scores; whatever it says, the buffer
    /// is dealt with as [`Gating::pushed`] has it. A threshold above every score
    /// never lets anything through. An open gate looks at no sample and asks
    /// nothing.
    pub fn push(&mut self, samples: &[u32]) -> (decision: Decision)
        requires
            old(self)@.wf(),
            !old(self)@.open ==> {
                &&& all_in_unit_range(samples@)
                &&& old(self)@.seen + samples@.len() <= u64::MAX
                &&& samples_in(old(self)@.warmup_pad_ms, old(self)@.rate) <= isize::MAX / 4
            },
        ensures
            becomes(old(self)@, samples@, final(self)@, decision@),
            old(self)@.open ==> decision is Passthrough && final(self)@ == old(self)@,
            !old(self)@.open && is_less(ONE, old(self)@.threshold) ==> decision is Withhold,
            !old(self)@.open && old(self)@.pending.len() + samples@.len() < FRAME ==> decision
                is Withhold,
            !old(self)@.open ==> final(self)@.seen == old(self)@.seen + samples@.len(),
            decision matches Decision::Open { skipped_samples, audio, .. } ==> skipped_samples
                + audio@.len() == final(self)@.seen,
            final(self)@.wf(),
            final(self)@.open <==> !(decision is Withhold),
            final(self)@.rate == old(self)@.rate,
    {
        let ghost armed = self@;
        if self.open {
            assert(scores_since(armed, self@) =~= Seq::empty());
            return Decision::Passthrough;
        }
        self.seen = self.seen + samples.len() as u64;
        let ghost start = self@;
        let ghost mut scores: Seq<u32> = Seq::empty();
        let mut cursor: usize = 0;
        assert(samples@.skip(0) =~= samples@);
        assert(self@.heard.take(armed.heard.len() as int) =~= armed.heard);
        while cursor < samples.len()
            invariant
                armed == old(self)@,
                cursor <= samples@.len(),
                all_in_unit_range(samples@),
                start == (Gating { seen: armed.seen + samples@.len(), ..armed }),
                !armed.open,
                self@.wf(),
                !self@.open,
                self@.seen == start.seen,
                self@.warmup_pad_ms == armed.warmup_pad_ms && self@.rate == armed.rate,
                self@.threshold == armed.threshold,
                self@.hangover_frames == armed.hangover_frames,
                is_less(ONE, armed.threshold) ==> self@.voiced_run <= armed.voiced_run,
                records(armed, self@, scores),
                samples_in(armed.warmup_pad_ms, armed.rate) <= isize::MAX / 4,
                self@.preroll.len() + self@.pending.len() + (samples@.len() - cursor)
                    <= self@.seen,
                armed.pending.len() + samples@.len() < FRAME ==> cursor == 0 && self@ == start,
                forall|more: Seq<u32>|
                    #![trigger start.classified(samples@, scores + more)]
                    start.classified(samples@, scores + more) == self@.classified(
                        samples@.skip(cursor as int),
                        more,
                    ),
            decreases samples@.len() - cursor,
        {
            let ghost gate = self@;
            let ghost rest = samples@.skip(cursor as int);
            let want: usize = FRAME - self.pending.len();
            let left: usize = samples.len() - cursor;
            let take: usize = if want <= left {
                want
            } else {
                left
            };
            let piece = vstd::slice::slice_subrange(samples, cursor, cursor + take);
            self.pending.extend_from_slice(piece);
            assert(self.pending@ =~= gate.pending + rest.take(take as int));
            cursor = cursor + take;

            if self.pending.len() < FRAME {
                proof {
                    assert(rest.take(take as int) =~= rest);
                    let none = Seq::<u32>::empty();
                    assert(start.classified(samples@, scores + none) == gate.classified(rest, none));
                    assert(scores + none =~= scores);
                    records_are_the_scores(armed, self@, scores);
                }
                return Decision::Withhold;
            }
            let mut frame: Vec<u32> = Vec::with_capacity(FRAME);
            core::mem::swap(&mut frame, &mut self.pending);
            let score: u32 = self.ear.predict(&frame);
            let tail = vstd::slice::slice_subrange(samples, cursor, samples.len());
            assert(tail@ =~= rest.skip(take as int));
            let ghost asked = self@;
            let decision = self.judge(&frame, score, tail);
            proof {
                assert(asked =~= (Gating {
                    heard: gate.heard.push((frame@, score)),
                    pending: Seq::empty(),
                    ..gate
                }));
                assert(asked.judged(frame@, score) == gate.scored(frame@, score));
                assert(asked.heard.take(armed.heard.len() as int) =~= gate.heard.take(
                    armed.heard.len() as int,
                ));
                assert forall|more: Seq<u32>|
                    #![trigger start.classified(samples@, scores.push(score) + more)]
                    start.classified(samples@, scores.push(score) + more) == gate.classified(
                        rest,
                        seq![score] + more,
                    ) by {
                    assert(scores.push(score) + more =~= scores + (seq![score] + more));
                    assert(start.classified(samples@, scores + (seq![score] + more))
                        == gate.classified(rest, seq![score] + more));
                }
                assert forall|more: Seq<u32>|
                    (seq![score] + more)[0] == score && #[trigger] (seq![score]
                        + more).drop_first() == more by {
                    assert((seq![score] + more).drop_first() =~= more);
                }
                scores = scores.push(score);
            }
            if let Some(opening) = decision {
                proof {
                    let none = Seq::<u32>::empty();
                    assert(start.classified(samples@, scores + none) == gate.classified(
                        rest,
                        seq![score] + none,
                    ));
                    assert(scores + none =~= scores);
                    let next = gate.scored(frame@, score);
                    silence_is_bounded(next.preroll);
                    records_are_the_scores(armed, self@, scores);
                }
                return opening;
            }
            proof {
                assert(samples@.skip(cursor as int) =~= rest.skip(take as int));
                assert forall|more: Seq<u32>|
                    #![trigger start.classified(samples@, scores + more)]
                    start.classified(samples@, scores + more) == self@.classified(
                        samples@.skip(cursor as int),
                        more,
                    ) by {
                    assert(start.classified(samples@, scores + more) == gate.classified(
                        rest,
                        seq![score] + more,
                    ));
                    assert((seq![score] + more).drop_first() =~= more);
                }
            }
        }
        proof {
            let none = Seq::<u32>::empty();
            assert(samples@.skip(cursor as int) =~= none);
            assert(self@.pending + none =~= self@.pending);
            assert(start.classified(samples@, scores + none) == self@.classified(
                samples@.skip(cursor as int),
                none,
            ));
            assert(scores + none =~= scores);
            records_are_the_scores(armed, self@, scores);
        }
        Decision::Withhold
    }
}

/// Whether these are what the detector scored the frames that it was handed
/// between two states.
spec fn records(before: Gating, after: Gating, scores: Seq<u32>) -> bool {
    &&& after.heard.len() == before.heard.len() + scores.len()
    &&& after.heard.take(before.heard.len() as int) == before.heard
    &&& forall|i: int|
        0 <= i < scores.len() ==> is_score(#[trigger] scores[i]) && after.heard[before.heard.len()
            + i].1 == scores[i]
}

proof fn records_are_the_scores(before: Gating, after: Gating, scores: Seq<u32>)
    requires
        records(before, after, scores),
    ensures
        scores_since(before, after) == scores,
        before.heard.is_prefix_of(after.heard),
{
    assert(scores_since(before, after) =~= scores);
    assert(before.heard =~= after.heard.subrange(0, before.heard.len() as int));
}

/// Whether a sample carries any signal.
fn audible(sample: u32) -> (audible: bool)
    ensures
        audible == is_audible(sample),
{
    let size: u32 = sample % 0x8000_0000;
    size <= 0x7f80_0000 && size > SILENCE_EPSILON
}

/// Leading silence is no longer than what there is, and signal follows it.
pub proof fn silence_is_bounded(samples: Seq<u32>)
    ensures
        silent_lead(samples) <= samples.len(),
        silent_lead(samples) < samples.len() ==> is_audible(samples[silent_lead(samples) as int]),
    decreases samples.len(),
{
    if samples.len() > 0 && !is_audible(samples[0]) {
        silence_is_bounded(samples.drop_first());
    }
}

/// The model never opens on digital silence out of the retained audio: where
/// any of it carries signal, the first sample handed over does.
pub proof fn the_gate_opens_on_signal(gate: Gating, tail: Seq<u32>)
    requires
        exists|i: int| 0 <= i < gate.preroll.len() && is_audible(#[trigger] gate.preroll[i]),
    ensures
        gate.opening(tail).len() > 0,
        is_audible(gate.opening(tail)[0]),
{
    silence_is_bounded(gate.preroll);
    let heard = choose|i: int| 0 <= i < gate.preroll.len() && is_audible(
        #[trigger] gate.preroll[i],
    );
    silence_ends_at_signal(gate.preroll, heard);
}

proof fn silence_ends_at_signal(samples: Seq<u32>, at: int)
    requires
        0 <= at < samples.len(),
        is_audible(samples[at]),
    ensures
        silent_lead(samples) <= at,
    decreases samples.len(),
{
    if at > 0 && !is_audible(samples[0]) {
        assert(samples.drop_first()[at - 1] == samples[at]);
        silence_ends_at_signal(samples.drop_first(), at - 1);
    }
}

/// The threshold genuinely gates: while every frame scores below it, nothing is
/// ever handed over, however long that lasts.
pub proof fn quiet_frames_never_open(gate: Gating, samples: Seq<u32>, scores: Seq<u32>)
    requires
        !gate.open,
        gate.pending.len() < FRAME,
        gate.hangover_frames >= 1,
        scores.len() >= frames_completed(gate, samples),
        forall|i: int|
            0 <= i < scores.len() ==> is_less(#[trigger] scores[i], gate.threshold),
    ensures
        gate.classified(samples, scores).1 == Verdict::Withhold,
        !gate.classified(samples, scores).0.open,
        gate.pushed(samples, scores).1 == Verdict::Withhold,
{
    quiet_frames_stay_closed(gate, samples, scores);
    let counted = Gating { seen: gate.seen + samples.len(), ..gate };
    quiet_frames_stay_closed(counted, samples, scores);
}

proof fn quiet_frames_stay_closed(gate: Gating, samples: Seq<u32>, scores: Seq<u32>)
    requires
        !gate.open,
        gate.pending.len() < FRAME,
        gate.hangover_frames >= 1,
        scores.len() >= frames_completed(gate, samples),
        forall|i: int|
            0 <= i < scores.len() ==> is_less(#[trigger] scores[i], gate.threshold),
    ensures
        gate.classified(samples, scores).1 == Verdict::Withhold,
        !gate.classified(samples, scores).0.open,
    decreases samples.len(),
{
    let want = FRAME - gate.pending.len();
    if samples.len() >= want {
        let frame = gate.pending + samples.take(want);
        let next = gate.scored(frame, scores[0]);
        let rest = scores.drop_first();
        assert(is_less(scores[0], gate.threshold));
        assert forall|i: int| 0 <= i < rest.len() implies is_less(
            #[trigger] rest[i],
            gate.threshold,
        ) by {
            assert(rest[i] == scores[i + 1]);
        }
        quiet_frames_stay_closed(next, samples.skip(want), rest);
    }
}

/// Buffer boundaries do not matter: audio cut in two gives the same decision
/// and leaves the same gate as the whole, as long as the first part does not
/// open it.
pub proof fn buffer_boundaries_do_not_matter(
    gate: Gating,
    first: Seq<u32>,
    second: Seq<u32>,
    scores: Seq<u32>,
)
    requires
        !gate.open,
        gate.pending.len() < FRAME,
        scores.len() >= frames_completed(gate, first + second),
        gate.pushed(first, scores).1 == Verdict::Withhold,
    ensures
        gate.pushed(first + second, scores) == gate.pushed(first, scores).0.pushed(
            second,
            scores.skip(frames_completed(gate, first)),
        ),
{
    let once = Gating { seen: gate.seen + first.len(), ..gate };
    let total = gate.seen + (first + second).len();
    let whole = Gating { seen: total, ..gate };
    counting_is_carried(once, first, scores, total);
    boundaries_within(whole, first, second, scores);
    let between = once.classified(first, scores).0;
    assert(between.seen + second.len() == total);
}

/// Until the voice gate opens, what it has seen only matters as a count.
proof fn counting_is_carried(gate: Gating, samples: Seq<u32>, scores: Seq<u32>, seen: int)
    requires
        !gate.open,
        gate.classified(samples, scores).1 == Verdict::Withhold,
    ensures
        gate.counting(seen).classified(samples, scores) == (
            gate.classified(samples, scores).0.counting(seen),
            Verdict::Withhold,
        ),
        gate.classified(samples, scores).0.seen == gate.seen,
        !gate.classified(samples, scores).0.open,
    decreases samples.len(),
{
    let want = FRAME - gate.pending.len();
    if samples.len() >= want && want > 0 {
        let frame = gate.pending + samples.take(want);
        let next = gate.scored(frame, scores[0]);
        let counted = Gating { seen, ..gate };
        assert(counted.scored(frame, scores[0]) == (Gating { seen, ..next }));
        counting_is_carried(next, samples.skip(want), scores.drop_first(), seen);
    }
}

proof fn boundaries_within(gate: Gating, first: Seq<u32>, second: Seq<u32>, scores: Seq<u32>)
    requires
        !gate.open,
        gate.pending.len() < FRAME,
        scores.len() >= frames_completed(gate, first + second),
        gate.classified(first, scores).1 == Verdict::Withhold,
    ensures
        gate.classified(first + second, scores) == gate.classified(first, scores).0.classified(
            second,
            scores.skip(frames_completed(gate, first)),
        ),
    decreases first.len(),
{
    let want = FRAME - gate.pending.len();
    let all = first + second;
    if first.len() >= want {
        let frame = gate.pending + first.take(want);
        let next = gate.scored(frame, scores[0]);
        assert(all.take(want) =~= first.take(want));
        assert(all.skip(want) =~= first.skip(want) + second);
        let rest = scores.drop_first();
        boundaries_within(next, first.skip(want), second, rest);
        let count = frames_completed(gate, first);
        assert(frames_completed(next, first.skip(want)) == count - 1);
        assert(rest.skip(count - 1) =~= scores.skip(count));
    } else {
        let between = Gating { pending: gate.pending + first, ..gate };
        assert(scores.skip(0) =~= scores);
        assert(frames_completed(gate, first) == 0);
        let left = FRAME - between.pending.len();
        if all.len() >= want {
            assert(gate.pending + all.take(want) =~= between.pending + second.take(left));
            assert(all.skip(want) =~= second.skip(left));
            let frame = gate.pending + all.take(want);
            assert(gate.scored(frame, scores[0]) == between.scored(frame, scores[0]));
        } else {
            assert(gate.pending + all =~= between.pending + second);
        }
    }
}

/// The detector is handed what is waiting and the buffer, cut into whole frames,
/// in order and each once: all of them while the voice gate stays closed, and none
/// behind the frame that opens it. What is no whole frame waits.
pub proof fn the_detector_hears_whole_frames(gate: Gating, samples: Seq<u32>, scores: Seq<u32>)
    requires
        !gate.open,
        gate.pending.len() < FRAME,
        scores.len() >= frames_completed(gate, samples),
    ensures
        ({
            let all = gate.pending + samples;
            let (after, verdict) = gate.pushed(samples, scores);
            let asked = after.heard.len() - gate.heard.len();
            &&& gate.heard.is_prefix_of(after.heard)
            &&& 0 <= asked <= frames_completed(gate, samples)
            &&& forall|i: int|
                0 <= i < asked ==> #[trigger] after.heard[gate.heard.len() + i] == (
                    all.subrange(FRAME * i, FRAME * i + FRAME),
                    scores[i],
                )
            &&& verdict is Withhold ==> asked == frames_completed(gate, samples) && after.pending
                == all.skip(FRAME * asked)
        }),
{
    frames_are_heard(gate.counting(gate.seen + samples.len()), samples, scores);
}

proof fn frames_are_heard(gate: Gating, samples: Seq<u32>, scores: Seq<u32>)
    requires
        !gate.open,
        gate.pending.len() < FRAME,
        scores.len() >= frames_completed(gate, samples),
    ensures
        ({
            let all = gate.pending + samples;
            let (after, verdict) = gate.classified(samples, scores);
            let asked = after.heard.len() - gate.heard.len();
            &&& gate.heard.is_prefix_of(after.heard)
            &&& 0 <= asked <= frames_completed(gate, samples)
            &&& forall|i: int|
                0 <= i < asked ==> #[trigger] after.heard[gate.heard.len() + i] == (
                    all.subrange(FRAME * i, FRAME * i + FRAME),
                    scores[i],
                )
            &&& verdict is Withhold ==> asked == frames_completed(gate, samples) && after.pending
                == all.skip(FRAME * asked)
        }),
    decreases samples.len(),
{
    let all = gate.pending + samples;
    let (after, verdict) = gate.classified(samples, scores);
    let want = FRAME - gate.pending.len();
    if samples.len() < want {
        assert(all.skip(0) =~= all);
        assert(gate.heard.is_prefix_of(gate.heard));
    } else {
        let frame = gate.pending + samples.take(want);
        let tail = samples.skip(want);
        let next = gate.scored(frame, scores[0]);
        assert(frame =~= all.subrange(0, FRAME as int));
        if next.voiced_run >= gate.hangover_frames {
            assert(after.heard == next.heard);
        } else {
            let rest = scores.drop_first();
            frames_are_heard(next, tail, rest);
            let asked = after.heard.len() - gate.heard.len();
            assert(next.pending + tail =~= all.skip(FRAME as int));
            assert(frames_completed(next, tail) == frames_completed(gate, samples) - 1);
            assert forall|i: int| 0 <= i < asked implies #[trigger] after.heard[gate.heard.len()
                + i] == (all.subrange(FRAME * i, FRAME * i + FRAME), scores[i]) by {
                if i == 0 {
                    assert(after.heard[gate.heard.len() as int] == next.heard[gate.heard.len() as int]);
                } else {
                    assert(after.heard[next.heard.len() + (i - 1)] == (
                        (next.pending + tail).subrange(FRAME * (i - 1), FRAME * (i - 1) + FRAME),
                        rest[i - 1],
                    ));
                    assert((next.pending + tail).subrange(FRAME * (i - 1), FRAME * (i - 1) + FRAME)
                        =~= all.subrange(FRAME * i, FRAME * i + FRAME));
                }
            }
            if verdict is Withhold {
                assert(after.pending =~= all.skip(FRAME * asked));
            }
        }
        assert(gate.heard.is_prefix_of(after.heard)) by {
            assert(gate.heard =~= next.heard.take(gate.heard.len() as int));
            assert(gate.heard =~= after.heard.take(gate.heard.len() as int));
        }
    }
}

/// Buffers one after another.
pub open spec fn joined(buffers: Seq<Seq<u32>>) -> Seq<u32>
    decreases buffers.len(),
{
    if buffers.len() == 0 {
        Seq::empty()
    } else {
        joined(buffers.drop_last()) + buffers.last()
    }
}

/// The voice gate once it was handed buffers one after another, given what the
/// frames of each score.
pub open spec fn after_buffers(
    gate: Gating,
    buffers: Seq<Seq<u32>>,
    scores: Seq<Seq<u32>>,
) -> Gating
    decreases buffers.len(),
{
    if buffers.len() == 0 {
        gate
    } else {
        after_buffers(gate, buffers.drop_last(), scores.drop_last()).pushed(
            buffers.last(),
            scores.last(),
        ).0
    }
}

/// What is decided about one of several buffers handed over one after another.
pub open spec fn verdict_on(
    gate: Gating,
    buffers: Seq<Seq<u32>>,
    scores: Seq<Seq<u32>>,
    index: int,
) -> Verdict {
    after_buffers(gate, buffers.take(index), scores.take(index)).pushed(
        buffers[index],
        scores[index],
    ).1
}

/// Whether a gate is closed, and what it keeps, retained or waiting, is the end of
/// what it was handed, in order and unaltered, with all of that counted.
pub open spec fn waits_on(gate: Gating, past: Seq<u32>) -> bool {
    let kept = gate.preroll + gate.pending;
    &&& !gate.open
    &&& gate.preroll.len() <= gate.capacity()
    &&& gate.pending.len() < FRAME
    &&& gate.seen == past.len()
    &&& kept.len() <= past.len()
    &&& kept == past.skip(past.len() - kept.len())
}

/// One buffer either leaves a closed gate waiting on all that it was handed, or
/// opens it, and then the end of all that it was handed is handed over, this buffer
/// included: in order, unaltered, and behind as many samples as it says were
/// skipped.
pub proof fn a_buffer_is_kept_or_handed_over(
    gate: Gating,
    past: Seq<u32>,
    samples: Seq<u32>,
    scores: Seq<u32>,
)
    requires
        waits_on(gate, past),
    ensures
        ({
            let (after, verdict) = gate.pushed(samples, scores);
            let all = past + samples;
            match verdict {
                Verdict::Withhold => waits_on(after, all),
                Verdict::Open { skipped_samples, audio, .. } => {
                    &&& after.open
                    &&& 0 <= skipped_samples
                    &&& skipped_samples + audio.len() == all.len()
                    &&& audio == all.skip(skipped_samples)
                },
                Verdict::Passthrough => false,
            }
        }),
{
    rest_is_kept_or_handed_over(
        gate.counting(gate.seen + samples.len()),
        past,
        samples,
        scores,
    );
}

proof fn rest_is_kept_or_handed_over(
    gate: Gating,
    past: Seq<u32>,
    rest: Seq<u32>,
    scores: Seq<u32>,
)
    requires
        waits_on(gate.counting(past.len() as int), past),
        gate.seen == past.len() + rest.len(),
    ensures
        ({
            let (after, verdict) = gate.classified(rest, scores);
            let all = past + rest;
            match verdict {
                Verdict::Withhold => waits_on(after, all),
                Verdict::Open { skipped_samples, audio, .. } => {
                    &&& after.open
                    &&& 0 <= skipped_samples
                    &&& skipped_samples + audio.len() == all.len()
                    &&& audio == all.skip(skipped_samples)
                },
                Verdict::Passthrough => false,
            }
        }),
    decreases rest.len(),
{
    let all = past + rest;
    let kept = gate.preroll + gate.pending;
    let want = FRAME - gate.pending.len();
    if rest.len() < want {
        let after = gate.classified(rest, scores).0;
        let kept_after = after.preroll + after.pending;
        assert(kept_after =~= kept + rest);
        assert(kept_after =~= all.skip(all.len() - kept_after.len()));
    } else {
        let frame = gate.pending + rest.take(want);
        let tail = rest.skip(want);
        let next = gate.scored(frame, scores[0]);
        let longer = past + rest.take(want);
        assert(gate.preroll + frame =~= kept + rest.take(want));
        assert(gate.preroll + frame =~= longer.skip(longer.len() - (gate.preroll + frame).len()));
        assert(next.preroll =~= longer.skip(longer.len() - next.preroll.len()));
        assert(longer + tail =~= all);
        assert(next.preroll + next.pending =~= next.preroll);
        if next.voiced_run >= gate.hangover_frames {
            silence_is_bounded(next.preroll);
            let audio = next.opening(tail);
            assert(audio =~= all.skip(all.len() - audio.len()));
        } else {
            rest_is_kept_or_handed_over(next, longer, tail, scores.drop_first());
        }
    }
}

/// The timeline accounts for every sample. Of the buffers handed over one after
/// another from when the voice gate was armed, some at first are withheld, at most
/// one opens it, and all behind that one pass through. What opening hands over is
/// the end of everything so far, in order and unaltered, and with what it says was
/// skipped it makes up everything so far.
pub proof fn every_sample_is_accounted_for(
    gate: Gating,
    buffers: Seq<Seq<u32>>,
    scores: Seq<Seq<u32>>,
)
    requires
        gate == gate.armed(),
        buffers.len() == scores.len(),
    ensures
        forall|i: int, j: int|
            #![trigger verdict_on(gate, buffers, scores, i), verdict_on(gate, buffers, scores, j)]
            0 <= i < j < buffers.len() ==> verdict_on(gate, buffers, scores, i) is Withhold
                || verdict_on(gate, buffers, scores, j) is Passthrough,
        forall|j: int|
            0 <= j < buffers.len() && (#[trigger] verdict_on(gate, buffers, scores, j))
                is Passthrough ==> exists|i: int|
                0 <= i < j && (#[trigger] verdict_on(gate, buffers, scores, i)) is Open,
        forall|i: int|
            0 <= i < buffers.len() ==> {
                let all = joined(buffers.take(i + 1));
                (#[trigger] verdict_on(gate, buffers, scores, i)) matches Verdict::Open {
                    skipped_samples,
                    audio,
                    ..
                } ==> {
                    &&& 0 <= skipped_samples
                    &&& skipped_samples + audio.len() == all.len()
                    &&& audio == all.skip(skipped_samples)
                }
            },
{
    assert forall|i: int, j: int|
        #![trigger verdict_on(gate, buffers, scores, i), verdict_on(gate, buffers, scores, j)]
        0 <= i < j < buffers.len() implies verdict_on(gate, buffers, scores, i) is Withhold
        || verdict_on(gate, buffers, scores, j) is Passthrough by {
        let firsts = buffers.take(j);
        let their_scores = scores.take(j);
        buffers_open_once(gate, firsts, their_scores);
        assert(firsts.take(i) =~= buffers.take(i));
        assert(their_scores.take(i) =~= scores.take(i));
        assert(verdict_on(gate, firsts, their_scores, i) == verdict_on(gate, buffers, scores, i));
    }
    assert forall|j: int|
        0 <= j < buffers.len() && (#[trigger] verdict_on(gate, buffers, scores, j))
            is Passthrough implies exists|i: int|
        0 <= i < j && (#[trigger] verdict_on(gate, buffers, scores, i)) is Open by {
        let firsts = buffers.take(j);
        let their_scores = scores.take(j);
        buffers_open_once(gate, firsts, their_scores);
        let before = after_buffers(gate, firsts, their_scores);
        if !before.open {
            a_buffer_is_kept_or_handed_over(before, joined(firsts), buffers[j], scores[j]);
        }
        let i = choose|i: int|
            0 <= i < j && (#[trigger] verdict_on(gate, firsts, their_scores, i)) is Open;
        assert(firsts.take(i) =~= buffers.take(i));
        assert(their_scores.take(i) =~= scores.take(i));
        assert(verdict_on(gate, buffers, scores, i) is Open);
    }
    assert forall|i: int| 0 <= i < buffers.len() implies {
        let all = joined(buffers.take(i + 1));
        (#[trigger] verdict_on(gate, buffers, scores, i)) matches Verdict::Open {
            skipped_samples,
            audio,
            ..
        } ==> {
            &&& 0 <= skipped_samples
            &&& skipped_samples + audio.len() == all.len()
            &&& audio == all.skip(skipped_samples)
        }
    } by {
        let firsts = buffers.take(i);
        buffers_open_once(gate, firsts, scores.take(i));
        let before = after_buffers(gate, firsts, scores.take(i));
        assert(buffers.take(i + 1).drop_last() =~= firsts);
        if !before.open {
            a_buffer_is_kept_or_handed_over(before, joined(firsts), buffers[i], scores[i]);
        }
    }
}

proof fn buffers_open_once(gate: Gating, buffers: Seq<Seq<u32>>, scores: Seq<Seq<u32>>)
    requires
        gate == gate.armed(),
        buffers.len() == scores.len(),
    ensures
        ({
            let after = after_buffers(gate, buffers, scores);
            &&& !after.open ==> waits_on(after, joined(buffers)) && forall|i: int|
                0 <= i < buffers.len() ==> (#[trigger] verdict_on(gate, buffers, scores, i))
                    is Withhold
            &&& after.open ==> exists|i: int|
                0 <= i < buffers.len() && (#[trigger] verdict_on(gate, buffers, scores, i)) is Open
        }),
    decreases buffers.len(),
{
    let after = after_buffers(gate, buffers, scores);
    if buffers.len() == 0 {
        assert(gate.preroll + gate.pending =~= joined(buffers).skip(0));
    } else {
        let last = buffers.len() - 1;
        let firsts = buffers.drop_last();
        let their_scores = scores.drop_last();
        assert(buffers.take(last) =~= firsts);
        assert(scores.take(last) =~= their_scores);
        buffers_open_once(gate, firsts, their_scores);
        let before = after_buffers(gate, firsts, their_scores);
        assert forall|i: int| 0 <= i < last implies #[trigger] verdict_on(gate, buffers, scores, i)
            == verdict_on(gate, firsts, their_scores, i) by {
            assert(firsts.take(i) =~= buffers.take(i));
            assert(their_scores.take(i) =~= scores.take(i));
        }
        if before.open {
            let i = choose|i: int|
                0 <= i < last && (#[trigger] verdict_on(gate, firsts, their_scores, i)) is Open;
            assert(verdict_on(gate, buffers, scores, i) is Open);
        } else {
            a_buffer_is_kept_or_handed_over(before, joined(firsts), buffers.last(), scores.last());
            assert(verdict_on(gate, buffers, scores, last) == before.pushed(
                buffers.last(),
                scores.last(),
            ).1);
        }
    }
}

/// Whether the frame at `at` completes a run of voiced frames that is long enough:
/// the last frames up to it reach the threshold, as many as a run needs, where those in
/// front of the first one count as far as the run had got by then.
pub open spec fn completes_a_run(gate: Gating, scores: Seq<u32>, at: int) -> bool {
    ||| at + 1 >= gate.hangover_frames && forall|i: int|
        at - gate.hangover_frames < i <= at ==> !is_less(#[trigger] scores[i], gate.threshold)
    ||| at + 1 + gate.voiced_run >= gate.hangover_frames && forall|i: int|
        0 <= i <= at ==> !is_less(#[trigger] scores[i], gate.threshold)
}

/// Speech opens a gate exactly where enough frames in a row reach the threshold, and at
/// the frame that completes the first such run: a gate never opens on fewer, and never
/// waits for more.
pub proof fn enough_voiced_frames_in_a_row_open(gate: Gating, samples: Seq<u32>, scores: Seq<u32>)
    requires
        !gate.open,
        gate.pending.len() < FRAME,
        0 <= gate.voiced_run < gate.hangover_frames,
        scores.len() >= frames_completed(gate, samples),
    ensures
        ({
            let (after, verdict) = gate.pushed(samples, scores);
            let asked = after.heard.len() - gate.heard.len();
            let frames = (gate.pending.len() + samples.len()) as int / 256;
            &&& verdict is Open <==> exists|k: int|
                0 <= k < frames && #[trigger] completes_a_run(gate, scores, k)
            &&& verdict is Open ==> asked >= 1 && completes_a_run(gate, scores, asked - 1)
                && forall|k: int| 0 <= k < asked - 1 ==> !(#[trigger] completes_a_run(
                gate,
                scores,
                k,
            ))
            &&& after.open <==> verdict is Open
            &&& !(verdict is Passthrough)
        }),
{
    let counted = gate.counting(gate.seen + samples.len());
    runs_open(counted, samples, scores);
    assert forall|k: int|
        #![trigger completes_a_run(gate, scores, k)]
        #![trigger completes_a_run(counted, scores, k)]
        completes_a_run(gate, scores, k) == completes_a_run(counted, scores, k) by {}
}

proof fn runs_open(gate: Gating, samples: Seq<u32>, scores: Seq<u32>)
    requires
        !gate.open,
        gate.pending.len() < FRAME,
        0 <= gate.voiced_run < gate.hangover_frames,
        scores.len() >= frames_completed(gate, samples),
    ensures
        ({
            let (after, verdict) = gate.classified(samples, scores);
            let asked = after.heard.len() - gate.heard.len();
            let frames = frames_completed(gate, samples);
            &&& verdict is Open <==> exists|k: int|
                0 <= k < frames && #[trigger] completes_a_run(gate, scores, k)
            &&& verdict is Open ==> 1 <= asked <= frames && completes_a_run(
                gate,
                scores,
                asked - 1,
            ) && forall|k: int| 0 <= k < asked - 1 ==> !(#[trigger] completes_a_run(
                gate,
                scores,
                k,
            ))
            &&& after.open <==> verdict is Open
            &&& !(verdict is Passthrough)
        }),
    decreases samples.len(),
{
    let want = FRAME - gate.pending.len();
    let (after, verdict) = gate.classified(samples, scores);
    let frames = frames_completed(gate, samples);
    if samples.len() >= want {
        let frame = gate.pending + samples.take(want);
        let tail = samples.skip(want);
        let next = gate.scored(frame, scores[0]);
        let rest = scores.drop_first();
        assert(frames >= 1);
        assert(completes_a_run(gate, scores, 0) <==> next.voiced_run >= gate.hangover_frames);
        if next.voiced_run >= gate.hangover_frames {
            assert(after.heard.len() == gate.heard.len() + 1);
        } else {
            assert(frames_completed(next, tail) == frames - 1);
            runs_open(next, tail, rest);
            assert forall|k: int| 0 <= k < frames - 1 implies (#[trigger] completes_a_run(
                next,
                rest,
                k,
            ) <==> completes_a_run(gate, scores, k + 1)) by {
                a_run_goes_on(gate, next, scores, k);
            }
            if exists|k: int| 0 <= k < frames && #[trigger] completes_a_run(gate, scores, k) {
                let k = choose|k: int|
                    0 <= k < frames && #[trigger] completes_a_run(gate, scores, k);
                assert(k >= 1);
                assert(completes_a_run(next, rest, k - 1));
            }
            if verdict is Open {
                let asked = after.heard.len() - gate.heard.len();
                assert(completes_a_run(next, rest, asked - 2));
                assert(completes_a_run(gate, scores, asked - 1));
                assert forall|k: int| 0 <= k < asked - 1 implies !(#[trigger] completes_a_run(
                    gate,
                    scores,
                    k,
                )) by {
                    if k >= 1 {
                        assert(!completes_a_run(next, rest, k - 1));
                    }
                }
            }
        }
    }
}

proof fn a_run_goes_on(gate: Gating, next: Gating, scores: Seq<u32>, k: int)
    requires
        0 <= k < scores.len() - 1,
        0 <= gate.voiced_run < gate.hangover_frames,
        next.hangover_frames == gate.hangover_frames,
        next.threshold == gate.threshold,
        next.voiced_run == if is_less(scores[0], gate.threshold) {
            0
        } else {
            gate.voiced_run + 1
        },
    ensures
        completes_a_run(next, scores.drop_first(), k) <==> completes_a_run(gate, scores, k + 1),
{
    let rest = scores.drop_first();
    let need = gate.hangover_frames as int;
    assert forall|i: int| 0 <= i < rest.len() implies #[trigger] rest[i] == scores[i + 1] by {}
    assert forall|i: int| 1 <= i < scores.len() implies #[trigger] scores[i] == rest[i - 1] by {}
    if completes_a_run(next, rest, k) {
        if k + 1 >= need && forall|i: int|
            k - need < i <= k ==> !is_less(#[trigger] rest[i], gate.threshold) {
            assert forall|i: int| k + 1 - need < i <= k + 1 implies !is_less(
                #[trigger] scores[i],
                gate.threshold,
            ) by {
                assert(rest[i - 1] == scores[i]);
            }
        } else {
            assert forall|i: int| 1 <= i <= k + 1 implies !is_less(
                #[trigger] scores[i],
                gate.threshold,
            ) by {
                assert(rest[i - 1] == scores[i]);
            }
        }
    }
    if completes_a_run(gate, scores, k + 1) {
        if k + 2 >= need && forall|i: int|
            k + 1 - need < i <= k + 1 ==> !is_less(#[trigger] scores[i], gate.threshold) {
            assert forall|i: int| k - need < i <= k && 0 <= i implies !is_less(
                #[trigger] rest[i],
                gate.threshold,
            ) by {
                assert(scores[i + 1] == rest[i]);
            }
            if k + 1 < need {
                assert(!is_less(scores[0], gate.threshold));
            }
        } else {
            assert(!is_less(scores[0], gate.threshold));
            assert forall|i: int| 0 <= i <= k implies !is_less(
                #[trigger] rest[i],
                gate.threshold,
            ) by {
                assert(scores[i + 1] == rest[i]);
            }
        }
    }
}

/// Whether a closed gate keeps of what it was handed all that it can: what makes no
/// whole frame yet, and in front of it as much as its window holds.
pub open spec fn keeps_all_it_can(gate: Gating, past: Seq<u32>) -> bool {
    let framed = past.len() - gate.pending.len();
    &&& waits_on(gate, past)
    &&& gate.preroll.len() == if gate.capacity() < framed {
        gate.capacity()
    } else {
        framed
    }
}

/// Of the audio up to a place, the last that a window of some size holds.
pub open spec fn last_of(all: Seq<u32>, place: int, size: int) -> Seq<u32> {
    all.subrange(
        if place > size {
            place - size
        } else {
            0
        },
        place,
    )
}

/// A gate that keeps all it can goes on to, and what it hands over when it opens is all
/// of that: the last of the whole frames it was handed, as many samples as its window
/// holds, without the silence in front, and then the rest of the buffer. The priming
/// chunk is all zeros.
pub proof fn opening_hands_over_all_that_was_kept(
    gate: Gating,
    past: Seq<u32>,
    samples: Seq<u32>,
    scores: Seq<u32>,
)
    requires
        keeps_all_it_can(gate, past),
    ensures
        ({
            let (after, verdict) = gate.pushed(samples, scores);
            let all = past + samples;
            let framed = past.len() - gate.pending.len() + 256 * (after.heard.len()
                - gate.heard.len());
            let kept = last_of(all, framed, gate.capacity());
            &&& verdict is Withhold ==> keeps_all_it_can(after, all)
            &&& verdict matches Verdict::Open { audio, warmup, .. } ==> {
                &&& 0 <= framed <= all.len()
                &&& audio == kept.skip(silent_lead(kept) as int) + all.skip(framed)
                &&& warmup.len() == samples_in(gate.warmup_pad_ms, gate.rate)
                &&& forall|i: int| 0 <= i < warmup.len() ==> #[trigger] warmup[i] == 0
            }
        }),
{
    let counted = gate.counting(gate.seen + samples.len());
    rest_is_kept_whole(counted, past, samples, scores);
}

proof fn rest_is_kept_whole(gate: Gating, past: Seq<u32>, rest: Seq<u32>, scores: Seq<u32>)
    requires
        keeps_all_it_can(gate.counting(past.len() as int), past),
        gate.seen == past.len() + rest.len(),
    ensures
        ({
            let (after, verdict) = gate.classified(rest, scores);
            let all = past + rest;
            let framed = past.len() - gate.pending.len() + 256 * (after.heard.len()
                - gate.heard.len());
            let kept = last_of(all, framed, gate.capacity());
            &&& verdict is Withhold ==> keeps_all_it_can(after, all)
            &&& verdict matches Verdict::Open { audio, warmup, .. } ==> {
                &&& 0 <= framed <= all.len()
                &&& audio == kept.skip(silent_lead(kept) as int) + all.skip(framed)
                &&& warmup.len() == samples_in(gate.warmup_pad_ms, gate.rate)
                &&& forall|i: int| 0 <= i < warmup.len() ==> #[trigger] warmup[i] == 0
            }
        }),
    decreases rest.len(),
{
    rest_is_kept_or_handed_over(gate, past, rest, scores);
    let all = past + rest;
    let want = FRAME - gate.pending.len();
    if rest.len() >= want {
        let frame = gate.pending + rest.take(want);
        let tail = rest.skip(want);
        let next = gate.scored(frame, scores[0]);
        let longer = past + rest.take(want);
        let kept = gate.preroll + gate.pending;
        assert(longer + tail =~= all);
        assert(gate.preroll + frame =~= kept + rest.take(want));
        assert(gate.preroll + frame =~= longer.skip(longer.len() - (gate.preroll + frame).len()));
        assert(next.preroll =~= longer.skip(longer.len() - next.preroll.len()));
        assert(next.preroll + next.pending =~= next.preroll);
        if next.voiced_run >= gate.hangover_frames {
            let framed = longer.len() as int;
            assert(next.preroll =~= last_of(all, framed, gate.capacity()));
            assert(all.skip(framed) =~= tail);
            let warmup = next.open_verdict(tail)->warmup;
            assert(gate.classified(rest, scores) == (next.opened(), next.open_verdict(tail)));
        } else {
            rest_is_kept_whole(next, longer, tail, scores.drop_first());
        }
    }
}

/// What lies in front of the first signal carries none.
pub proof fn leading_silence_is_silent(samples: Seq<u32>)
    ensures
        forall|i: int| 0 <= i < silent_lead(samples) ==> !is_audible(#[trigger] samples[i]),
        silent_lead(samples) < samples.len() ==> is_audible(samples[silent_lead(samples) as int]),
        silent_lead(samples) <= samples.len(),
    decreases samples.len(),
{
    if samples.len() > 0 && !is_audible(samples[0]) {
        let rest = samples.drop_first();
        leading_silence_is_silent(rest);
        assert forall|i: int| 0 <= i < silent_lead(samples) implies !is_audible(
            #[trigger] samples[i],
        ) by {
            if i > 0 {
                assert(rest[i - 1] == samples[i]);
            }
        }
    }
}

/// Samples that a time takes are the time at the rate, rounded down.
pub proof fn a_time_takes_its_samples(ms: u64, rate: u64)
    requires
        ms * rate <= u64::MAX,
        ms * rate < 1000 * usize::MAX,
    ensures
        samples_in(ms, rate) * 1000 <= ms * rate < (samples_in(ms, rate) + 1) * 1000,
{
    let product = ms * rate;
    assert(0 <= product) by (nonlinear_arith)
        requires
            product == ms * rate,
            ms >= 0,
            rate >= 0,
    ;
}

/// A gate keeps half a second behind the frame that opens it.
pub proof fn half_a_second_is_kept(gate: Gating)
    requires
        500 * gate.rate < 1000 * usize::MAX,
        500 * gate.rate <= u64::MAX,
    ensures
        gate.capacity() * 1000 <= 500 * gate.rate < (gate.capacity() + 1) * 1000,
{
    a_time_takes_its_samples(500, gate.rate);
}

/// Bit patterns compare as the numbers that they stand for: by magnitude where both are
/// positive, the other way round where both are negative, a negative below a positive,
/// the two zeros alike, and what is no number not at all.
pub proof fn patterns_compare_as_numbers(left: u32, right: u32)
    ensures
        left < 0x7f80_0001 && right < 0x7f80_0001 ==> (is_less(left, right) <==> left < right),
        0x8000_0000 <= left < 0xff80_0001 && 0x8000_0000 <= right < 0xff80_0001 ==> (is_less(
            left,
            right,
        ) <==> left > right),
        0x8000_0000 <= left < 0xff80_0001 && right < 0x7f80_0001 ==> (is_less(left, right) <==> !(
        left == 0x8000_0000 && right == 0)),
        left < 0x7f80_0001 && 0x8000_0000 <= right < 0xff80_0001 ==> !is_less(left, right),
        0x7f80_0000 < left < 0x8000_0000 || 0xff80_0000 < left ==> !is_less(left, right),
        0x7f80_0000 < right < 0x8000_0000 || 0xff80_0000 < right ==> !is_less(left, right),
{
}

/// A sample carries signal where it is a number further from zero than a millionth, on
/// either side, and lies in range where it is no further from zero than one.
pub proof fn signal_is_further_from_zero_than_a_millionth(sample: u32)
    requires
        sample < 0x8000_0000,
    ensures
        is_audible(sample) <==> 0x3586_37bd < sample <= 0x7f80_0000,
        is_audible((sample + 0x8000_0000) as u32) == is_audible(sample),
        in_unit_range(sample) <==> sample <= 0x3f80_0000,
        in_unit_range((sample + 0x8000_0000) as u32) == in_unit_range(sample),
        is_score(sample) <==> sample <= 0x3f80_0000,
{
}

/// A gate that is armed has heard, kept and counted nothing and is closed; how it is
/// configured stays.
pub proof fn an_armed_gate_starts_from_nothing(gate: Gating)
    ensures
        ({
            let armed = gate.armed();
            &&& armed.heard.len() == 0 && armed.preroll.len() == 0 && armed.pending.len() == 0
            &&& armed.seen == 0 && armed.voiced_run == 0 && !armed.open
            &&& armed.rate == gate.rate && armed.threshold == gate.threshold
                && armed.hangover_frames == gate.hangover_frames && armed.warmup_pad_ms
                == gate.warmup_pad_ms
            &&& keeps_all_it_can(armed, Seq::empty())
        }),
{
    let armed = gate.armed();
    assert(armed.preroll + armed.pending =~= Seq::<u32>::empty().skip(0));
}


/// A buffer passes exactly where speech had started before. Where it starts with this
/// one, what is handed over and what was skipped make up all that was seen; else all of
/// the buffer is counted and kept back.
pub proof fn no_sample_goes_uncounted(gate: &mut Gate, samples: &[u32], decision: Decision)
    requires
        call_ensures(Gate::push, (gate, samples), decision),
        old(gate)@.wf(),
    ensures
        decision is Passthrough <==> old(gate)@.open,
        final(gate)@.open <==> old(gate)@.open || decision is Open,
        old(gate)@.open ==> final(gate)@ == old(gate)@,
        decision is Withhold ==> final(gate)@.seen == old(gate)@.seen + samples@.len(),
        decision matches Decision::Open { skipped_samples, audio, .. } ==> skipped_samples
            + audio@.len() == old(gate)@.seen + samples@.len(),
{
    if !old(gate)@.open {
        let kept = old(gate)@.preroll + old(gate)@.pending;
        let past = Seq::new((old(gate)@.seen - kept.len()) as nat, |i: int| 0u32) + kept;
        assert(past.skip(past.len() - kept.len()) =~= kept);
        a_buffer_is_kept_or_handed_over(
            old(gate)@,
            past,
            samples@,
            scores_since(old(gate)@, final(gate)@),
        );
    }
}

/// A frame that does not reach the threshold ends a run of voiced frames; one that does
/// carries it on, and speech has started once the run is as long as it has to be.
pub proof fn a_frame_counts_by_its_score(
    gate: &mut Gate,
    frame: Vec<u32>,
    score: u32,
    tail: &[u32],
    decision: Option<Decision>,
)
    requires
        call_ensures(Gate::judge, (gate, &frame, score, tail), decision),
        !old(gate)@.open,
        old(gate)@.hangover_frames > 0,
    ensures
        is_less(score, old(gate)@.threshold) ==> decision is None && final(gate)@.voiced_run == 0,
        !is_less(score, old(gate)@.threshold) ==> final(gate)@.voiced_run == old(gate)@.voiced_run
            + 1 && (decision is Some <==> old(gate)@.voiced_run + 1 >= old(gate)@.hangover_frames),
        final(gate)@.open <==> decision is Some,
{
}

/// What is held is handed over once, in the order in which it came and all of it behind
/// leading silence, where there is any such audio; and then speech is taken to have
/// started.
pub proof fn what_is_held_is_handed_over(gate: &mut Gate, decision: Option<Decision>)
    requires
        call_ensures(Gate::take_held, (gate,), decision),
        old(gate)@.wf(),
    ensures
        old(gate)@.open ==> decision is None && final(gate)@ == old(gate)@,
        !old(gate)@.open && old(gate)@.pending.len() > 0 ==> decision is Some,
        decision is None ==> final(gate)@ == old(gate)@,
        decision is Some ==> final(gate)@.open,
        decision matches Some(Decision::Open { audio, .. }) ==> audio@.len() > 0 && audio@
            == old(gate)@.preroll.skip(silent_lead(old(gate)@.preroll) as int) + old(gate)@.pending,
        decision is Some ==> decision->0 is Open,
{
}

/// A gate that is armed anew has seen nothing and keeps nothing, and stays as it was
/// configured.
pub proof fn a_gate_is_armed_anew(gate: &mut Gate)
    requires
        call_ensures(Gate::reset, (gate,), ()),
    ensures
        !final(gate)@.open,
        final(gate)@.seen == 0 && final(gate)@.voiced_run == 0,
        final(gate)@.preroll.len() == 0 && final(gate)@.pending.len() == 0,
        final(gate)@.threshold == old(gate)@.threshold,
        final(gate)@.hangover_frames == old(gate)@.hangover_frames,
        final(gate)@.warmup_pad_ms == old(gate)@.warmup_pad_ms,
        final(gate)@.rate == old(gate)@.rate,
{
}


/// All samples are looked at: one that lies outside of minus one to one, or is not a
/// number, is enough to be out of range.
pub proof fn one_sample_is_enough_to_be_out_of_range(samples: &[u32], inside: bool)
    requires
        call_ensures(samples_in_unit_range, (samples,), inside),
    ensures
        inside <==> forall|i: int|
            0 <= i < samples@.len() ==> -0x3f80_0000 <= rank(#[trigger] samples@[i])
                <= 0x3f80_0000,
{
    if inside {
        assert forall|i: int| 0 <= i < samples@.len() implies -0x3f80_0000 <= rank(
            #[trigger] samples@[i],
        ) <= 0x3f80_0000 by {
            assert(in_unit_range(samples@[i]));
        }
    }
    if forall|i: int|
        0 <= i < samples@.len() ==> -0x3f80_0000 <= rank(#[trigger] samples@[i]) <= 0x3f80_0000 {
        assert forall|i: int| 0 <= i < samples@.len() implies in_unit_range(
            #[trigger] samples@[i],
        ) by {
            assert(-0x3f80_0000 <= rank(samples@[i]) <= 0x3f80_0000);
        }
    }
}

} // verus!
