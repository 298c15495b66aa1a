//! What the transcriber element decides.
//!
//! Audio comes in timestamped; a gate holds the head of a stream back until
//! someone speaks; the inference thread is fed and reports words and progress;
//! and those go out as timed text with every hole an explicit gap. The element
//! around this reads its pads and the thread's reports, and carries out what is
//! decided. Times are running times in nanoseconds.
use crate::commit;
use crate::commit::{TimedWord, TimestampKind};
use crate::plan;
use crate::plan::{place, plan_timed_text, samples_duration, timed_text_fits, PlannedOutput};
use crate::text::same_text;
use crate::vad;
use crate::vad::{samples_in_unit_range, Decision, Gate};
use crate::worker;
use crate::worker::{Cmd, Ev, Mode, ModelInfo};
use byte_slice_cast::AsSliceOf;
use vstd::prelude::*;

verus! {

/// How much audio to average over before judging real-time performance.
pub const REALTIME_WINDOW_MS: u64 = 5_000;

/// Smallest advance worth a gap. One per incoming buffer would be pure noise
/// downstream.
pub const GAP_GRANULARITY: u64 = 200_000_000;

/// How many buffers of audio may be queued for inference, unless configured.
pub const DEFAULT_QUEUE_SIZE: u32 = 32;

/// How long the queue to the inference thread is: at least one buffer.
pub fn queue_len(queue_size: u32) -> (len: usize)
    ensures
        len == if queue_size >= 1 {
            queue_size as int
        } else {
            1
        },
{
    if queue_size >= 1 {
        queue_size as usize
    } else {
        1
    }
}

/// What to do when inference cannot keep up with a live source.
#[derive(Clone, Copy, Debug, PartialEq, Eq, Structural)]
pub enum Overrun {
    /// Block the streaming thread, propagating backpressure upstream.
    Block,
    /// Drop the incoming audio and keep going.
    Drop,
}

impl Default for Overrun {
    fn default() -> (overrun: Self)
        ensures
            overrun == Overrun::Block,
    {
        Overrun::Block
    }
}

/// The timing configuration, in milliseconds.
#[derive(Clone, Copy, Debug, PartialEq, Eq, Structural)]
pub struct Timing {
    pub latency_ms: u32,
    pub chunk_duration_ms: u32,
    pub live_edge_offset_ms: u32,
    pub discont_threshold_ms: u32,
    /// Withhold audio until speech is detected. Zero disables the voice gate.
    pub vad_max_wait_ms: u32,
    /// Zero-filled priming chunk fed before the first speech. Zero disables it.
    pub warmup_pad_ms: u32,
}

impl Default for Timing {
    fn default() -> (timing: Self)
        ensures
            timing == (Timing {
                latency_ms: 1_000,
                chunk_duration_ms: 4_000,
                live_edge_offset_ms: 1_000,
                discont_threshold_ms: 500,
                vad_max_wait_ms: 30_000,
                warmup_pad_ms: 80,
            }),
    {
        Timing {
            latency_ms: 1_000,
            chunk_duration_ms: 4_000,
            live_edge_offset_ms: 1_000,
            discont_threshold_ms: 500,
            vad_max_wait_ms: 30_000,
            warmup_pad_ms: 80,
        }
    }
}

/// Why the element cannot get ready.
#[derive(Clone, Copy, Debug, PartialEq, Eq, Structural)]
pub enum PrepareError {
    /// The path of the model must be set.
    MissingModelPath,
    /// The chunk must be longer than what is withheld of it.
    ChunkTooShort,
    /// The family options name no known family.
    UnknownFamily,
}

/// Where a family's own options go.
#[derive(Clone, Copy, Debug, PartialEq, Eq, Structural)]
pub enum Family {
    Whisper,
    ParakeetStream,
    ParakeetBuffered,
    MoonshineStreaming,
    VoxtralRealtime,
}

impl Family {
    /// The name that selects a family's options.
    pub open spec fn spelling(self) -> Seq<char> {
        match self {
            Family::Whisper => "whisper"@,
            Family::ParakeetStream => "parakeet-stream"@,
            Family::ParakeetBuffered => "parakeet-buffered"@,
            Family::MoonshineStreaming => "moonshine-streaming"@,
            Family::VoxtralRealtime => "voxtral-realtime"@,
        }
    }

    /// Whether the options belong to a run; the others belong to a stream.
    pub fn is_run_slot(self) -> (run: bool)
        ensures
            run == (self == Family::Whisper),
    {
        match self {
            Family::Whisper => true,
            _ => false,
        }
    }

    /// The family of a name, if it is one.
    pub fn from_name(name: &str) -> (family: Option<Family>)
        ensures
            family matches Some(found) ==> found.spelling() == name@,
            family is None ==> forall|other: Family| #[trigger] other.spelling() != name@,
    {
        if same_text(name, "whisper") {
            Some(Family::Whisper)
        } else if same_text(name, "parakeet-stream") {
            Some(Family::ParakeetStream)
        } else if same_text(name, "parakeet-buffered") {
            Some(Family::ParakeetBuffered)
        } else if same_text(name, "moonshine-streaming") {
            Some(Family::MoonshineStreaming)
        } else if same_text(name, "voxtral-realtime") {
            Some(Family::VoxtralRealtime)
        } else {
            None
        }
    }
}

/// Check the configuration before a model is loaded; returns the family whose
/// options are set, if any.
pub fn check_configuration(
    has_model_path: bool,
    timing: &Timing,
    family_name: Option<&str>,
) -> (result: Result<Option<Family>, PrepareError>)
    ensures
        !has_model_path ==> result == Err::<Option<Family>, _>(PrepareError::MissingModelPath),
        has_model_path && timing.live_edge_offset_ms >= timing.chunk_duration_ms ==> result
            == Err::<Option<Family>, _>(PrepareError::ChunkTooShort),
        has_model_path && timing.live_edge_offset_ms < timing.chunk_duration_ms ==> match result {
            Ok(Some(family)) => family_name matches Some(name) && family.spelling() == name@,
            Ok(None) => family_name is None,
            Err(error) => error == PrepareError::UnknownFamily && (family_name matches Some(name)
                && forall|other: Family| #[trigger] other.spelling() != name@),
        },
{
    if !has_model_path {
        return Err(PrepareError::MissingModelPath);
    }
    if timing.live_edge_offset_ms >= timing.chunk_duration_ms {
        return Err(PrepareError::ChunkTooShort);
    }
    match family_name {
        None => Ok(None),
        Some(name) => match Family::from_name(name) {
            Some(family) => Ok(Some(family)),
            None => Err(PrepareError::UnknownFamily),
        },
    }
}

/// The latency that the element adds, in milliseconds.
pub open spec fn added_latency_ms(timing: Timing, streaming: bool) -> int {
    if streaming {
        timing.latency_ms as int
    } else {
        timing.latency_ms + timing.chunk_duration_ms + timing.live_edge_offset_ms
    }
}

/// Whether streaming is assumed: what the model resolved to, or what the mode
/// says before the model is loaded.
pub open spec fn assumed_streaming(resolved: Option<bool>, mode: Mode) -> bool {
    match resolved {
        Some(streaming) => streaming,
        None => mode != Mode::Chunked,
    }
}

/// The latency this element adds.
///
/// In chunked mode the window itself dominates. In streaming mode the commit lag
/// is data-dependent, so the latency is the declared budget.
pub fn our_latency(timing: &Timing, resolved: Option<bool>, mode: Mode) -> (latency: u64)
    requires
        added_latency_ms(*timing, assumed_streaming(resolved, mode)) <= u32::MAX,
    ensures
        latency == added_latency_ms(*timing, assumed_streaming(resolved, mode)) * 1_000_000,
{
    let streaming = match resolved {
        Some(streaming) => streaming,
        None => mode != Mode::Chunked,
    };
    let ms: u32 = if streaming {
        timing.latency_ms
    } else {
        timing.latency_ms + timing.chunk_duration_ms + timing.live_edge_offset_ms
    };
    ms as u64 * 1_000_000
}

/// Whether the latency this element adds can be expressed.
pub fn latency_fits(timing: &Timing, resolved: Option<bool>, mode: Mode) -> (fits: bool)
    ensures
        fits == (added_latency_ms(*timing, assumed_streaming(resolved, mode)) <= u32::MAX),
{
    let streaming = match resolved {
        Some(streaming) => streaming,
        None => mode != Mode::Chunked,
    };
    streaming || timing.latency_ms as u64 + timing.chunk_duration_ms as u64
        + timing.live_edge_offset_ms as u64 <= u32::MAX as u64
}

/// What to answer a latency query: nothing of our own where upstream is not
/// live, else ours on top of upstream's.
pub fn latency_answer(live: bool, min: u64, max: Option<u64>, ours: u64) -> (answer: (
    bool,
    u64,
    Option<u64>,
))
    requires
        live ==> min + ours <= u64::MAX,
        live && max is Some ==> max->0 + ours <= u64::MAX,
    ensures
        !live ==> answer == (false, 0u64, None::<u64>),
        live ==> answer == (
            true,
            (min + ours) as u64,
            match max {
                Some(limit) => Some((limit + ours) as u64),
                None => None,
            },
        ),
{
    if !live {
        return (false, 0, None);
    }
    let limit: Option<u64> = match max {
        Some(limit) => Some(limit + ours),
        None => None,
    };
    (true, min + ours, limit)
}

/// Whether a command may be dropped when the queue is full: audio only, and only
/// where the policy says so. Control commands are never dropped.
pub fn drops_on_overrun(cmd: &Cmd, overrun: Overrun) -> (drops: bool)
    ensures
        drops == (cmd is Feed && overrun == Overrun::Drop),
{
    match cmd {
        Cmd::Feed(_) => overrun == Overrun::Drop,
        _ => false,
    }
}

/// Whether a buffer does not follow on the audio before it.
pub open spec fn is_discontinuous(next_pts: Option<u64>, pts: u64, threshold: u64, flag: bool) -> bool {
    next_pts matches Some(expected) && (pts > expected + threshold || pts + threshold < expected
        || flag)
}

/// A stretch of silence to declare.
#[derive(Clone, Copy, Debug, PartialEq, Eq, Structural)]
pub struct Silence {
    pub pts: u64,
    pub duration: u64,
}

/// How inference tracks against real time, when that changes.
#[derive(Clone, Copy, Debug, PartialEq, Eq, Structural)]
pub struct Pace {
    pub behind: bool,
    pub compute_ms: u64,
    pub audio_ms: u64,
}

/// What waits for an answer from the inference thread.
#[derive(Clone, Copy, Debug, PartialEq, Eq, Structural)]
pub enum Marker {
    Drained,
    Restarted,
}

/// What to do about a report of the inference thread.
#[derive(Debug)]
pub enum DrainStep {
    /// Push words.
    Words { words: Vec<TimedWord>, is_final: bool },
    /// Announce the volatile suffix.
    Partial(String),
    /// Close the timeline.
    Advance { committed_ms: i64 },
    /// Take note of the cost of a call.
    Compute { compute_ms: u64, audio_ms: u64 },
    /// Nothing.
    Ignore,
    /// What was waited for has come.
    Done,
    /// The thread failed.
    Failed(String),
}

/// Decide what to do about a report. `until` is what is waited for, and
/// `discard` throws results away where nothing can be pushed.
pub fn drain_step(event: Ev, until: Option<Marker>, discard: bool) -> (step: DrainStep)
    ensures
        match event {
            Ev::Words { words, is_final } => step == if discard {
                DrainStep::Ignore
            } else {
                DrainStep::Words { words, is_final }
            },
            Ev::Partial(text) => step == if discard || text@.len() == 0 {
                DrainStep::Ignore
            } else {
                DrainStep::Partial(text)
            },
            Ev::Progress { committed_ms } => step == if discard {
                DrainStep::Ignore
            } else {
                DrainStep::Advance { committed_ms }
            },
            Ev::Compute { compute_ms, audio_ms } => step == (DrainStep::Compute {
                compute_ms,
                audio_ms,
            }),
            Ev::Drained => step == if until == Some(Marker::Drained) {
                DrainStep::Done
            } else {
                DrainStep::Ignore
            },
            Ev::Restarted => step == if until == Some(Marker::Restarted) {
                DrainStep::Done
            } else {
                DrainStep::Ignore
            },
            Ev::Ready(_) => step == DrainStep::Ignore,
            Ev::Error(message) => step == DrainStep::Failed(message),
        },
{
    match event {
        Ev::Words { words, is_final } => if discard {
            DrainStep::Ignore
        } else {
            DrainStep::Words { words, is_final }
        },
        Ev::Partial(text) => if discard || text.as_str().is_empty() {
            DrainStep::Ignore
        } else {
            DrainStep::Partial(text)
        },
        Ev::Progress { committed_ms } => if discard {
            DrainStep::Ignore
        } else {
            DrainStep::Advance { committed_ms }
        },
        Ev::Compute { compute_ms, audio_ms } => DrainStep::Compute { compute_ms, audio_ms },
        Ev::Drained => match until {
            Some(Marker::Drained) => DrainStep::Done,
            _ => DrainStep::Ignore,
        },
        Ev::Restarted => match until {
            Some(Marker::Restarted) => DrainStep::Done,
            _ => DrainStep::Ignore,
        },
        Ev::Ready(_) => DrainStep::Ignore,
        Ev::Error(message) => DrainStep::Failed(message),
    }
}

/// What goes out downstream.
#[derive(Debug, PartialEq, Eq)]
pub enum Output {
    Gap { pts: u64, duration: u64 },
    /// A text buffer; `end` is where the output has got to once it is pushed.
    Word { pts: u64, duration: u64, end: u64, text: String },
    /// The transcript up to here will not change.
    FinalTranscript,
}

/// What goes out downstream, as a mathematical value.
pub enum Sent {
    Gap { pts: u64, duration: u64 },
    Word { pts: u64, duration: u64, end: u64, text: Seq<char> },
    FinalTranscript,
}

impl View for Output {
    type V = Sent;

    open spec fn view(&self) -> Sent {
        match *self {
            Output::Gap { pts, duration } => Sent::Gap { pts, duration },
            Output::Word { pts, duration, end, text } => Sent::Word {
                pts,
                duration,
                end,
                text: text@,
            },
            Output::FinalTranscript => Sent::FinalTranscript,
        }
    }
}

/// Outputs as mathematical values.
pub open spec fn sent(outputs: Seq<Output>) -> Seq<Sent> {
    outputs.map_values(|output: Output| output@)
}

/// What a planned item sends: a gap, or a word with the end of an utterance
/// announced right behind it.
pub open spec fn sent_for(item: plan::Planned) -> Seq<Sent> {
    match item {
        plan::Planned::Gap { pts, duration } => seq![Sent::Gap { pts, duration }],
        plan::Planned::Word { pts, duration, text, ends_utterance } => {
            let word = Sent::Word { pts, duration, end: (pts + duration) as u64, text };
            if ends_utterance {
                seq![word, Sent::FinalTranscript]
            } else {
                seq![word]
            }
        },
    }
}

/// What a plan sends.
pub open spec fn sent_for_all(items: Seq<plan::Planned>) -> Seq<Sent>
    decreases items.len(),
{
    if items.len() == 0 {
        Seq::empty()
    } else {
        sent_for_all(items.drop_last()) + sent_for(items.last())
    }
}

/// The state of the element, as a mathematical value.
pub struct Tracking {
    pub streaming: Option<bool>,
    pub untimed: bool,
    pub rate: u64,
    pub base_pts: Option<u64>,
    pub out_pts: Option<u64>,
    pub committed_ms: i64,
    pub next_pts: Option<u64>,
    pub dropped: u64,
    pub behind: bool,
    pub compute_ms: u64,
    pub audio_ms: u64,
    pub gate: Option<vad::Gating>,
}

impl Tracking {
    /// Where the output has got to, once the stream has a start.
    pub open spec fn out_or(self, start: u64) -> u64 {
        match self.out_pts {
            Some(out) => out,
            None => start,
        }
    }

    /// What goes out for words.
    pub open spec fn word_outputs(self, rows: Seq<commit::Row>, is_final: bool) -> Seq<Sent> {
        let last = if is_final {
            seq![Sent::FinalTranscript]
        } else {
            Seq::empty()
        };
        if rows.len() == 0 {
            last
        } else {
            match self.base_pts {
                None => Seq::empty(),
                Some(base) => sent_for_all(plan::plan(base, self.out_or(base), rows)) + last,
            }
        }
    }

    /// The silence to declare once the stream is decided up to `committed_ms`,
    /// and the state then.
    pub open spec fn advanced(self, committed_ms: i64) -> (Tracking, Option<Silence>) {
        if self.untimed || committed_ms <= self.committed_ms {
            (self, None)
        } else {
            let noted = Tracking { committed_ms, ..self };
            match self.base_pts {
                None => (noted, None),
                Some(base) => {
                    let frontier = plan::placed(base, committed_ms);
                    let out = self.out_or(base);
                    if frontier < out + GAP_GRANULARITY {
                        (noted, None)
                    } else {
                        (
                            Tracking { out_pts: Some(frontier as u64), ..noted },
                            Some(Silence { pts: out, duration: (frontier - out) as u64 }),
                        )
                    }
                },
            }
        }
    }

    /// The silence to declare over audio that the voice gate withholds, and the state
    /// then.
    pub open spec fn gate_advanced(self, start: u64, position: u64) -> (Tracking, Option<Silence>) {
        if self.untimed {
            (self, None)
        } else {
            let from = self.out_or(start);
            if position < from + GAP_GRANULARITY {
                (Tracking { out_pts: Some(from), ..self }, None)
            } else {
                (
                    Tracking { out_pts: Some(position), ..self },
                    Some(Silence { pts: from, duration: (position - from) as u64 }),
                )
            }
        }
    }

    /// The state with the model's first sample at a time, behind a priming chunk
    /// that takes no time on the timeline, unless the stream has its start.
    pub open spec fn anchored(self, first: u64, warmup: u64) -> Tracking {
        if self.base_pts is Some {
            self
        } else {
            let pad = plan::spanned(warmup, self.rate);
            let out = self.out_or(first);
            Tracking {
                base_pts: Some(
                    if pad <= first {
                        (first - pad) as u64
                    } else {
                        0
                    },
                ),
                out_pts: Some(
                    if out > first {
                        out
                    } else {
                        first
                    },
                ),
                ..self
            }
        }
    }

    /// Where the first sample that the voice gate hands over lies, given where the
    /// buffer ends: the voice gate reaches back into buffers it already withheld.
    pub open spec fn opening_at(self, buffer_end: u64, skipped: u64, delivered: u64) -> int {
        let seen = plan::spanned((skipped + delivered) as u64, self.rate);
        let armed = if seen <= buffer_end {
            buffer_end - seen
        } else {
            0
        };
        armed + plan::spanned(skipped, self.rate)
    }

    /// The state once the voice gate has decided on a buffer, and what that leads to.
    ///
    /// Input timing is tracked whatever the voice gate decides, so a discontinuity is
    /// judged against the audio that actually arrived.
    pub open spec fn settled(self, verdict: vad::Verdict, pts: u64, samples: Seq<u32>) -> (
        Tracking,
        Admitted,
    ) {
        let end = (pts + plan::spanned(samples.len() as u64, self.rate)) as u64;
        let next = Tracking { next_pts: Some(end), ..self };
        match verdict {
            vad::Verdict::Withhold => {
                let (after, silence) = next.gate_advanced(pts, end);
                (after, Admitted::Withheld(silence))
            },
            vad::Verdict::Passthrough => (next.anchored(pts, 0), fed(Seq::empty(), samples)),
            vad::Verdict::Open { skipped_samples, audio, warmup } => (
                next.anchored(
                    self.opening_at(end, skipped_samples as u64, audio.len() as u64) as u64,
                    warmup.len() as u64,
                ),
                fed(warmup, audio),
            ),
        }
    }

    /// Whether all times of a decision on a buffer can be expressed.
    pub open spec fn settling_fits(self, verdict: vad::Verdict, pts: u64, samples: Seq<u32>) -> bool {
        let end = pts + plan::spanned(samples.len() as u64, self.rate);
        &&& samples.len() <= u64::MAX
        &&& end <= u64::MAX
        &&& match verdict {
            vad::Verdict::Withhold => self.out_or(pts) + GAP_GRANULARITY <= u64::MAX,
            vad::Verdict::Passthrough => true,
            vad::Verdict::Open { skipped_samples, audio, warmup } => {
                &&& 0 <= skipped_samples
                &&& skipped_samples + audio.len() <= u64::MAX
                &&& warmup.len() <= u64::MAX
                &&& self.opening_at(end as u64, skipped_samples as u64, audio.len() as u64)
                    <= u64::MAX
            },
        }
    }

    /// Whether a buffer can be taken, whatever the voice gate makes of it.
    pub open spec fn admits(self, pts: u64, samples: Seq<u32>) -> bool {
        &&& samples.len() <= u64::MAX
        &&& pts + plan::spanned(samples.len() as u64, self.rate) <= u64::MAX
        &&& self.gate matches Some(gate) ==> {
            !gate.open ==> {
                &&& vad::all_in_unit_range(samples)
                &&& gate.seen + samples.len() <= u64::MAX
                &&& vad::samples_in(gate.warmup_pad_ms, gate.rate) <= isize::MAX / 4
                &&& self.out_or(pts) + GAP_GRANULARITY <= u64::MAX
                &&& plan::SECOND * (gate.seen + samples.len()) / (self.rate as int) <= u64::MAX
            }
        }
    }

    /// The state once the stream ended before anyone spoke, and the audio to
    /// feed: what the voice gate retains, on a timeline that starts where it does.
    pub open spec fn released(self) -> (Tracking, Option<Seq<u32>>) {
        match self.gate {
            None => (self, None),
            Some(gate) => {
                let audio = gate.opening(gate.pending);
                if gate.open || audio.len() == 0 {
                    (self, None)
                } else {
                    let end = match self.next_pts {
                        Some(end) => end,
                        None => 0,
                    };
                    let span = plan::spanned(audio.len() as u64, self.rate);
                    let start = if span <= end {
                        (end - span) as u64
                    } else {
                        0
                    };
                    (
                        Tracking { gate: Some(gate.opened()), ..self.anchored(start, 0) },
                        Some(audio),
                    )
                }
            },
        }
    }

    /// The state once the cost of a call was added up, and the pace where the
    /// verdict on it changed.
    pub open spec fn paced(self, live: bool, compute_ms: u64, audio_ms: u64) -> (
        Tracking,
        Option<Pace>,
    ) {
        if !live {
            (self, None)
        } else {
            let compute = (self.compute_ms + compute_ms) as u64;
            let audio = (self.audio_ms + audio_ms) as u64;
            if audio < REALTIME_WINDOW_MS {
                (Tracking { compute_ms: compute, audio_ms: audio, ..self }, None)
            } else {
                let behind = compute > audio;
                (
                    Tracking { compute_ms: 0, audio_ms: 0, behind, ..self },
                    if behind != self.behind {
                        Some(Pace { behind, compute_ms: compute, audio_ms: audio })
                    } else {
                        None
                    },
                )
            }
        }
    }

    /// The state at the start of a fresh stream; what is known of the model and
    /// of the pace stays.
    pub open spec fn restarted(self) -> Tracking {
        Tracking {
            base_pts: None,
            out_pts: None,
            next_pts: None,
            committed_ms: 0,
            gate: match self.gate {
                None => None,
                Some(gate) => Some(gate.armed()),
            },
            ..self
        }
    }

    /// What every state keeps.
    pub open spec fn wf(self) -> bool {
        &&& self.rate >= 1
        &&& self.gate matches Some(gate) ==> gate.wf() && gate.rate == self.rate
    }
}

/// What a buffer of audio leads to.
#[derive(Debug)]
pub enum Admission {
    /// The voice gate keeps it; silence may be declared over it.
    Withheld(Option<Silence>),
    /// There is nothing to feed.
    Empty,
    /// Feed the priming chunk, where there is one, and then the audio.
    Feed { warmup: Option<Vec<u32>>, pcm: Vec<u32> },
}

/// What a buffer of audio leads to, as a mathematical value.
pub enum Admitted {
    Withheld(Option<Silence>),
    Empty,
    Feed { warmup: Option<Seq<u32>>, pcm: Seq<u32> },
}

impl View for Admission {
    type V = Admitted;

    open spec fn view(&self) -> Admitted {
        match *self {
            Admission::Withheld(silence) => Admitted::Withheld(silence),
            Admission::Empty => Admitted::Empty,
            Admission::Feed { warmup, pcm } => Admitted::Feed {
                warmup: match warmup {
                    Some(warmup) => Some(warmup@),
                    None => None,
                },
                pcm: pcm@,
            },
        }
    }
}

/// What audio that the voice gate lets through leads to.
pub open spec fn fed(warmup: Seq<u32>, pcm: Seq<u32>) -> Admitted {
    if pcm.len() == 0 {
        Admitted::Empty
    } else {
        Admitted::Feed {
            warmup: if warmup.len() == 0 {
                None
            } else {
                Some(warmup)
            },
            pcm,
        }
    }
}

/// The state of the element.
pub struct State {
    streaming: Option<bool>,
    untimed: bool,
    rate: u64,
    /// Running time of the first sample of the current stream. Word times are
    /// relative to it.
    base_pts: Option<u64>,
    /// End of the last buffer or gap that went out.
    out_pts: Option<u64>,
    /// Stream-relative milliseconds the family has finalized. Only ever moves
    /// forward within one stream.
    committed_ms: i64,
    /// Where the next input buffer is expected, for discontinuity detection.
    next_pts: Option<u64>,
    /// Buffers of audio that were dropped.
    dropped: u64,
    /// Whether inference is currently slower than real time, and the running
    /// totals the verdict is drawn from.
    behind: bool,
    compute_ms: u64,
    audio_ms: u64,
    /// Withholds audio until speech starts; `None` when the voice gate is disabled.
    gate: Option<Gate>,
}

impl View for State {
    type V = Tracking;

    closed spec fn view(&self) -> Tracking {
        Tracking {
            streaming: self.streaming,
            untimed: self.untimed,
            rate: self.rate,
            base_pts: self.base_pts,
            out_pts: self.out_pts,
            committed_ms: self.committed_ms,
            next_pts: self.next_pts,
            dropped: self.dropped,
            behind: self.behind,
            compute_ms: self.compute_ms,
            audio_ms: self.audio_ms,
            gate: match self.gate {
                Some(gate) => Some(gate@),
                None => None,
            },
        }
    }
}

impl Default for State {
    fn default() -> (state: Self)
        ensures
            state@ == (Tracking {
                streaming: None,
                untimed: false,
                rate: 1,
                base_pts: None,
                out_pts: None,
                committed_ms: 0,
                next_pts: None,
                dropped: 0,
                behind: false,
                compute_ms: 0,
                audio_ms: 0,
                gate: None,
            }),
            state@.wf(),
    {
        State {
            streaming: None,
            untimed: false,
            rate: 1,
            base_pts: None,
            out_pts: None,
            committed_ms: 0,
            next_pts: None,
            dropped: 0,
            behind: false,
            compute_ms: 0,
            audio_ms: 0,
            gate: None,
        }
    }
}

/// Running time that a number of samples takes grows with the number.
proof fn longer_audio_takes_longer(fewer: u64, more: u64, rate: u64)
    requires
        fewer <= more,
        rate >= 1,
        plan::SECOND * more / (rate as int) <= u64::MAX,
    ensures
        plan::spanned(fewer, rate) <= plan::spanned(more, rate),
        plan::spanned(more, rate) == plan::SECOND * more / (rate as int),
{
    assert(plan::SECOND * fewer / (rate as int) <= plan::SECOND * more / (rate as int))
        by (nonlinear_arith)
        requires
            fewer <= more,
            rate >= 1,
            plan::SECOND == 1_000_000_000,
    ;
    assert(0 <= plan::SECOND * fewer / (rate as int)) by (nonlinear_arith)
        requires
            fewer >= 0,
            rate >= 1,
            plan::SECOND == 1_000_000_000,
    ;
}

impl State {
    /// Take note of the model that was loaded. Returns whether the latency that
    /// was reported before is now wrong.
    ///
    /// The voice gate needs the native rate, which only the loaded model can supply.
    /// Chunked inference re-reads its whole window every run and does not carry
    /// the cold-start damage, so it is left ungated. Until the model was loaded
    /// the latency had to be guessed, and the guess is streaming; nothing
    /// re-queries a latency that changed on its own.
    pub fn on_ready(&mut self, info: &ModelInfo, timing: &Timing) -> (latency_changed: bool)
        ensures
            latency_changed == (!info.streaming && old(self)@.streaming != Some(false)),
            final(self)@ == (Tracking {
                streaming: Some(info.streaming),
                untimed: info.max_timestamp_kind == TimestampKind::Untimed,
                rate: if info.native_sample_rate >= 1 {
                    info.native_sample_rate as u64
                } else {
                    1
                },
                gate: if info.streaming && timing.vad_max_wait_ms > 0 {
                    Some(
                        vad::Gating {
                            heard: Seq::empty(),
                            preroll: Seq::empty(),
                            pending: Seq::empty(),
                            seen: 0,
                            voiced_run: 0,
                            open: false,
                            rate: final(self)@.rate,
                            threshold: vad::DEFAULT_THRESHOLD,
                            hangover_frames: vad::DEFAULT_HANGOVER_FRAMES,
                            warmup_pad_ms: timing.warmup_pad_ms as u64,
                        },
                    )
                } else {
                    None
                },
                ..old(self)@
            }),
            final(self)@.wf(),
    {
        let latency_changed = !info.streaming && match self.streaming {
            Some(streaming) => streaming,
            None => true,
        };
        self.streaming = Some(info.streaming);
        self.untimed = match info.max_timestamp_kind {
            TimestampKind::Untimed => true,
            _ => false,
        };
        self.rate = if info.native_sample_rate >= 1 {
            info.native_sample_rate as u64
        } else {
            1
        };
        self.gate = if info.streaming && timing.vad_max_wait_ms > 0 {
            let mut gate = Gate::new(self.rate);
            gate.set_warmup_pad_ms(timing.warmup_pad_ms as u64);
            Some(gate)
        } else {
            None
        };
        latency_changed
    }

    /// What the loaded model resolved to, if it is loaded.
    pub fn resolved_streaming(&self) -> (streaming: Option<bool>)
        ensures
            streaming == self@.streaming,
    {
        self.streaming
    }

    /// Whether the current stream has a start, so that there is something to
    /// flush.
    pub fn has_stream(&self) -> (has: bool)
        ensures
            has == (self@.base_pts is Some),
    {
        self.base_pts.is_some()
    }

    /// Whether a buffer does not follow on the audio before it: its timestamp
    /// jumps by more than the threshold, or it says so itself. Only meaningful
    /// once a stream is running.
    pub fn is_discont(&self, pts: u64, threshold: u64, flag: bool) -> (discont: bool)
        requires
            self@.next_pts matches Some(expected) ==> expected + threshold <= u64::MAX && pts
                + threshold <= u64::MAX,
        ensures
            discont == is_discontinuous(self@.next_pts, pts, threshold, flag),
    {
        match self.next_pts {
            Some(expected) => pts > expected + threshold || pts + threshold < expected || flag,
            None => false,
        }
    }

    /// Where the next buffer is expected.
    pub fn expected_pts(&self) -> (next_pts: Option<u64>)
        ensures
            next_pts == self@.next_pts,
    {
        self.next_pts
    }

    /// Close the timeline up to what the family has finalized.
    ///
    /// Text is sparse: a pause produces no buffers at all, and a muxer has
    /// nothing to advance on unless silence is declared. A family that aligns
    /// nothing tiles the timeline with its own buffers and declares none.
    pub fn advance_timeline(&mut self, committed_ms: i64) -> (silence: Option<Silence>)
        requires
            old(self).advance_fits(committed_ms),
        ensures
            (final(self)@, silence) == old(self)@.advanced(committed_ms),
            old(self)@.wf() ==> final(self)@.wf(),
    {
        if self.untimed {
            return None;
        }
        if committed_ms <= self.committed_ms {
            return None;
        }
        self.committed_ms = committed_ms;
        let base: u64 = match self.base_pts {
            None => {
                return None;
            },
            Some(base) => base,
        };
        let frontier: u64 = match place(base, committed_ms) {
            Some(frontier) => frontier,
            None => {
                assert(false);
                return None;
            },
        };
        let out: u64 = match self.out_pts {
            Some(out) => out,
            None => base,
        };
        if frontier < out + GAP_GRANULARITY {
            return None;
        }
        self.out_pts = Some(frontier);
        Some(Silence { pts: out, duration: frontier - out })
    }

    /// Whether the timeline can be closed up to a time.
    pub open spec fn advance_fits(&self, committed_ms: i64) -> bool {
        self@.base_pts matches Some(base) ==> plan::placed(base, committed_ms) <= u64::MAX
            && self@.out_or(base) + GAP_GRANULARITY <= u64::MAX
    }

    /// Whether the timeline can be closed up to a time.
    pub fn can_advance(&self, committed_ms: i64) -> (can: bool)
        ensures
            can == self.advance_fits(committed_ms),
    {
        match self.base_pts {
            None => true,
            Some(base) => {
                let out: u64 = match self.out_pts {
                    Some(out) => out,
                    None => base,
                };
                place(base, committed_ms).is_some() && out <= u64::MAX - GAP_GRANULARITY
            },
        }
    }

    /// Declare silence over audio that the voice gate withholds. Holding audio back
    /// must not turn into holding the timeline back.
    fn advance_gate_timeline(&mut self, start: u64, position: u64) -> (silence: Option<Silence>)
        requires
            old(self)@.out_or(start) + GAP_GRANULARITY <= u64::MAX,
        ensures
            (final(self)@, silence) == old(self)@.gate_advanced(start, position),
    {
        if self.untimed {
            return None;
        }
        let from: u64 = match self.out_pts {
            Some(out) => out,
            None => start,
        };
        if position < from + GAP_GRANULARITY {
            self.out_pts = Some(from);
            return None;
        }
        self.out_pts = Some(position);
        Some(Silence { pts: from, duration: position - from })
    }

    /// Anchor the timeline to the first sample that the model sees, behind the
    /// priming chunk by exactly its length: without that every word would be
    /// reported one chunk late.
    fn anchor(&mut self, first: u64, warmup: u64)
        ensures
            final(self)@ == old(self)@.anchored(first, warmup),
    {
        if self.base_pts.is_some() {
            return ;
        }
        let pad: u64 = samples_duration(warmup, self.rate);
        self.base_pts = Some(
            if pad <= first {
                first - pad
            } else {
                0
            },
        );
        self.out_pts = Some(
            match self.out_pts {
                Some(out) => if out > first {
                    out
                } else {
                    first
                },
                None => first,
            },
        );
    }

    /// Deal with what the voice gate decided on a buffer.
    pub fn settle(&mut self, decision: Decision, pts: u64, samples: &[u32]) -> (
        admission: Admission)
        requires
            old(self)@.settling_fits(decision@, pts, samples@),
        ensures
            (final(self)@, admission@) == old(self)@.settled(decision@, pts, samples@),
            old(self)@.wf() ==> final(self)@.wf(),
    {
        let buffer_end: u64 = pts + samples_duration(samples.len() as u64, self.rate);
        self.next_pts = Some(buffer_end);
        match decision {
            Decision::Withhold => Admission::Withheld(self.advance_gate_timeline(pts, buffer_end)),
            Decision::Passthrough => {
                self.anchor(pts, 0);
                feed(Vec::new(), vstd::slice::slice_to_vec(samples))
            },
            Decision::Open { skipped_samples, audio, warmup } => {
                // The voice gate can reach back into buffers it already withheld, so
                // the audio it releases starts before this buffer does. Anchor to
                // where the voice gate was armed and let the skip carry the rest.
                let seen: u64 = samples_duration(skipped_samples + audio.len() as u64, self.rate);
                let armed_at: u64 = if seen <= buffer_end {
                    buffer_end - seen
                } else {
                    0
                };
                self.anchor(
                    armed_at + samples_duration(skipped_samples, self.rate),
                    warmup.len() as u64,
                );
                feed(warmup, audio)
            },
        }
    }

    /// Whether a buffer can be taken, whatever the voice gate makes of it.
    pub fn can_take_buffer(&self, pts: u64, samples: &[u32]) -> (can: bool)
        requires
            self@.wf(),
        ensures
            can == self@.admits(pts, samples@),
    {
        let span: u64 = samples_duration(samples.len() as u64, self.rate);
        if pts > u64::MAX - span {
            return false;
        }
        match &self.gate {
            None => true,
            Some(gate) => {
                if gate.is_open() {
                    return true;
                }
                if !samples_in_unit_range(samples) || !gate.has_room(samples.len()) {
                    return false;
                }
                let out: u64 = match self.out_pts {
                    Some(out) => out,
                    None => pts,
                };
                out <= u64::MAX - GAP_GRANULARITY && gate.span_is_measurable(samples.len())
            },
        }
    }

    /// Take in one buffer of mono audio at the model's native rate.
    ///
    /// Feeding a streaming family silence as its very first audio can poison the
    /// stream for far longer than the silence itself, so the head of the stream
    /// is held back until someone speaks. Everything after the voice gate opens flows
    /// straight through, and everything does where there is no gate.
    pub fn take_buffer(&mut self, pts: u64, samples: &[u32]) -> (admission: Admission)
        requires
            old(self)@.wf(),
            old(self)@.admits(pts, samples@),
        ensures
            old(self)@.gate is None ==> (final(self)@, admission@) == old(self)@.settled(
                vad::Verdict::Passthrough,
                pts,
                samples@,
            ),
            old(self)@.gate matches Some(gate) ==> final(self)@.gate matches Some(next) && ({
                let verdict = gate.pushed(samples@, vad::scores_since(gate, next)).1;
                &&& vad::becomes(gate, samples@, next, verdict)
                &&& (final(self)@, admission@) == (Tracking {
                    gate: Some(next),
                    ..old(self)@
                }).settled(verdict, pts, samples@)
            }),
            final(self)@.wf(),
    {
        let ghost before = self@;
        let mut held: Option<Gate> = None;
        core::mem::swap(&mut held, &mut self.gate);
        match held {
            None => {
                assert(self@ == before);
                assert(self@.wf());
                self.settle(Decision::Passthrough, pts, samples)
            },
            Some(gate) => {
                let mut gate = gate;
                let ghost armed = gate@;
                let decision = gate.push(samples);
                self.gate = Some(gate);
                proof {
                    assert(self@ == (Tracking { gate: Some(gate@), ..before }));
                    if decision is Open {
                        longer_audio_takes_longer(
                            decision->skipped_samples,
                            gate@.seen as u64,
                            self.rate,
                        );
                        assert(decision->skipped_samples + decision->audio@.len() == gate@.seen);
                        assert(decision->warmup.len() <= u64::MAX);
                    }
                    assert(vad::becomes(armed, samples@, gate@, decision@));
                }
                self.settle(decision, pts, samples)
            },
        }
    }

    /// Hand over the audio that the voice gate withholds, if it is still waiting.
    ///
    /// Called wherever a stream ends: quiet audio is still audio that a
    /// transcript is wanted for. No speech was ever detected, so the timeline
    /// starts where the withheld audio does, and never before what went out.
    pub fn release_gate(&mut self) -> (audio: Option<Vec<u32>>)
        requires
            old(self)@.wf(),
            old(self)@.gate matches Some(gate) ==> vad::samples_in(gate.warmup_pad_ms, gate.rate)
                <= isize::MAX / 4,
        ensures
            final(self)@ == old(self)@.released().0,
            audio is Some <==> old(self)@.released().1 is Some,
            audio matches Some(samples) ==> Some(samples@) == old(self)@.released().1,
            final(self)@.wf(),
    {
        let ghost before = self@;
        let mut held: Option<Gate> = None;
        core::mem::swap(&mut held, &mut self.gate);
        let gate = match held {
            None => {
                return None;
            },
            Some(gate) => gate,
        };
        let mut gate = gate;
        let decision = gate.take_held();
        self.gate = Some(gate);
        match decision {
            Some(Decision::Open { audio, .. }) => {
                let end: u64 = match self.next_pts {
                    Some(end) => end,
                    None => 0,
                };
                let span: u64 = samples_duration(audio.len() as u64, self.rate);
                let start: u64 = if span <= end {
                    end - span
                } else {
                    0
                };
                self.anchor(start, 0);
                proof {
                    no_audio_takes_no_time(self.rate);
                }
                Some(audio)
            },
            _ => {
                assert(self@ == before);
                None
            },
        }
    }

    /// Whether the priming chunk can be allocated, so that a waiting gate can be
    /// released.
    pub fn can_release(&self) -> (can: bool)
        requires
            self@.wf(),
        ensures
            can == (self@.gate matches Some(gate) ==> vad::samples_in(
                gate.warmup_pad_ms,
                gate.rate,
            ) <= isize::MAX / 4),
    {
        match &self.gate {
            None => true,
            Some(gate) => gate.pad_fits(),
        }
    }

    /// What goes out for newly committed words.
    ///
    /// Holes between words become gaps so that downstream can advance its clock,
    /// and utterance boundaries become final-transcript marks. Words that come
    /// before the stream has a start are dropped.
    pub fn plan_words(&self, words: Vec<TimedWord>, is_final: bool) -> (outputs: Vec<Output>)
        requires
            words@.len() > 0 ==> (self@.base_pts matches Some(base) ==> plan::plan_fits(
                base,
                self@.out_or(base),
                commit::timed_rows(words@),
            )),
        ensures
            sent(outputs@) == self@.word_outputs(commit::timed_rows(words@), is_final),
    {
        let mut outputs: Vec<Output> = Vec::new();
        let ghost rows = commit::timed_rows(words@);
        if words.len() > 0 {
            let base: u64 = match self.base_pts {
                None => {
                    assert(sent(outputs@) =~= Seq::empty());
                    return outputs;
                },
                Some(base) => base,
            };
            let out: u64 = match self.out_pts {
                Some(out) => out,
                None => base,
            };
            let planned = plan_timed_text(base, out, words);
            proof {
                plan::a_plan_tiles_the_timeline(base, out, rows);
                let items = plan::plan(base, out, rows);
                assert forall|i: int| 0 <= i < planned@.len() implies plan::item_start(
                    (#[trigger] planned@[i])@,
                ) + plan::item_duration(planned@[i]@) <= u64::MAX by {
                    assert(items[i] == planned@[i]@);
                }
            }
            outputs = spell_out(planned);
        }
        let ghost planned = sent(outputs@);
        if is_final {
            outputs.push(Output::FinalTranscript);
            assert(sent(outputs@) =~= planned + seq![Sent::FinalTranscript]);
        }
        assert(planned + Seq::empty() =~= planned);
        assert(Seq::<Sent>::empty() + seq![Sent::FinalTranscript] =~= seq![Sent::FinalTranscript]);
        outputs
    }

    /// Whether all times of what goes out for words can be expressed.
    pub fn can_plan(&self, words: &Vec<TimedWord>) -> (can: bool)
        ensures
            can == (self@.base_pts matches Some(base) ==> plan::plan_fits(
                base,
                self@.out_or(base),
                commit::timed_rows(words@),
            )),
    {
        match self.base_pts {
            None => true,
            Some(base) => {
                let out: u64 = match self.out_pts {
                    Some(out) => out,
                    None => base,
                };
                timed_text_fits(base, out, words)
            },
        }
    }

    /// Take note that the output has got to a time.
    pub fn mark_pushed(&mut self, end: u64)
        ensures
            final(self)@ == (Tracking { out_pts: Some(end), ..old(self)@ }),
            old(self)@.wf() ==> final(self)@.wf(),
    {
        self.out_pts = Some(end);
    }

    /// Take note of a gap in the input.
    pub fn on_gap(&mut self, pts: u64, duration: Option<u64>)
        requires
            duration matches Some(length) ==> pts + length <= u64::MAX,
        ensures
            final(self)@ == (Tracking {
                out_pts: Some(
                    (pts + (match duration {
                        Some(length) => length,
                        None => 0,
                    })) as u64,
                ),
                ..old(self)@
            }),
            old(self)@.wf() ==> final(self)@.wf(),
    {
        self.out_pts = Some(
            match duration {
                Some(length) => pts + length,
                None => pts,
            },
        );
    }

    /// Reset everything tied to the current stream, keeping what is known of the
    /// model.
    ///
    /// A fresh stream is cold in exactly the way the voice gate exists to protect
    /// against, so the voice gate is armed again; and its committed milliseconds begin
    /// again from zero.
    pub fn reset_timeline(&mut self)
        ensures
            final(self)@ == old(self)@.restarted(),
            old(self)@.wf() ==> final(self)@.wf(),
    {
        let ghost before = self@;
        self.base_pts = None;
        self.out_pts = None;
        self.next_pts = None;
        let mut held: Option<Gate> = None;
        core::mem::swap(&mut held, &mut self.gate);
        self.gate = match held {
            Some(gate) => {
                let mut gate = gate;
                gate.reset();
                Some(gate)
            },
            None => None,
        };
        self.committed_ms = 0;
    }

    /// Reset for a flush, which forgets the dropped audio too.
    pub fn flush(&mut self)
        ensures
            final(self)@ == (Tracking { dropped: 0, ..old(self)@.restarted() }),
            old(self)@.wf() ==> final(self)@.wf(),
    {
        self.reset_timeline();
        self.dropped = 0;
    }

    /// Count a dropped buffer; returns how many there are by now.
    pub fn count_dropped(&mut self) -> (dropped: u64)
        requires
            old(self)@.dropped < u64::MAX,
        ensures
            dropped == old(self)@.dropped + 1,
            final(self)@ == (Tracking { dropped, ..old(self)@ }),
            old(self)@.wf() ==> final(self)@.wf(),
    {
        self.dropped = self.dropped + 1;
        self.dropped
    }

    /// Take note of the cost of one inference call; returns the pace when the
    /// verdict on it changes.
    ///
    /// Spending more time than the audio is long means that a live pipeline falls
    /// behind without bound. It is only worth a word in aggregate, since the
    /// overhead of a call makes any single short buffer look catastrophic: so
    /// the costs are accumulated over a few seconds of audio.
    pub fn report_compute(&mut self, live: bool, compute_ms: u64, audio_ms: u64) -> (pace: Option<
        Pace,
    >)
        requires
            live ==> old(self)@.compute_ms + compute_ms <= u64::MAX && old(self)@.audio_ms + audio_ms
                <= u64::MAX,
        ensures
            (final(self)@, pace) == old(self)@.paced(live, compute_ms, audio_ms),
            old(self)@.wf() ==> final(self)@.wf(),
    {
        if !live {
            return None;
        }
        self.compute_ms = self.compute_ms + compute_ms;
        self.audio_ms = self.audio_ms + audio_ms;
        if self.audio_ms < REALTIME_WINDOW_MS {
            return None;
        }
        let pace = Pace {
            behind: self.compute_ms > self.audio_ms,
            compute_ms: self.compute_ms,
            audio_ms: self.audio_ms,
        };
        let was_behind = self.behind;
        self.compute_ms = 0;
        self.audio_ms = 0;
        self.behind = pace.behind;
        if pace.behind != was_behind {
            Some(pace)
        } else {
            None
        }
    }

    /// Whether the cost of a call can be added up.
    pub fn can_report(&self, compute_ms: u64, audio_ms: u64) -> (can: bool)
        ensures
            can == (self@.compute_ms + compute_ms <= u64::MAX && self@.audio_ms + audio_ms
                <= u64::MAX),
    {
        compute_ms <= u64::MAX - self.compute_ms && audio_ms <= u64::MAX - self.audio_ms
    }
}

/// What to feed of audio that the voice gate lets through.
fn feed(warmup: Vec<u32>, pcm: Vec<u32>) -> (admission: Admission)
    ensures
        admission@ == fed(warmup@, pcm@),
{
    if pcm.len() == 0 {
        return Admission::Empty;
    }
    Admission::Feed {
        warmup: if warmup.len() == 0 {
            None
        } else {
            Some(warmup)
        },
        pcm,
    }
}

/// What goes out for planned items: an utterance that ends is announced right
/// behind its word.
fn spell_out(planned: Vec<PlannedOutput>) -> (outputs: Vec<Output>)
    requires
        forall|i: int|
            0 <= i < planned@.len() ==> plan::item_start((#[trigger] planned@[i])@)
                + plan::item_duration(planned@[i]@) <= u64::MAX,
    ensures
        sent(outputs@) == sent_for_all(plan::planned(planned@)),
{
    let mut outputs: Vec<Output> = Vec::new();
    let ghost items = plan::planned(planned@);
    assert(sent(outputs@) =~= sent_for_all(items.take(0)));
    for item in it: planned
        invariant
            it.seq() == planned@,
            items == plan::planned(planned@),
            forall|i: int|
                0 <= i < planned@.len() ==> plan::item_start((#[trigger] planned@[i])@)
                    + plan::item_duration(planned@[i]@) <= u64::MAX,
            sent(outputs@) == sent_for_all(items.take(it.index() as int)),
    {
        let ghost before = sent(outputs@);
        let ghost index = it.index() as int;
        assert(item == planned@[index]);
        assert(items[index] == item@);
        let ghost next = item@;
        match item {
            PlannedOutput::Gap { pts, duration } => {
                outputs.push(Output::Gap { pts, duration });
                assert(sent(outputs@) =~= before + sent_for(next));
            },
            PlannedOutput::Word { pts, duration, text, ends_utterance } => {
                let end: u64 = pts + duration;
                outputs.push(Output::Word { pts, duration, end, text });
                if ends_utterance {
                    outputs.push(Output::FinalTranscript);
                }
                assert(sent(outputs@) =~= before + sent_for(next));
            },
        }
        assert(items.take(index + 1).drop_last() =~= items.take(index));
        assert(items.take(index + 1).last() == next);
    }
    assert(items.take(items.len() as int) =~= items);
    outputs
}

/// The loading of the model, as the element waits for it.
#[derive(Debug)]
pub enum LoadStep {
    /// The model is loaded.
    Loaded(ModelInfo),
    /// It could not be.
    Failed(String),
    /// Keep waiting; nothing else can come first.
    Wait,
}

/// Decide what a report means while the model is loading.
pub fn load_step(event: Ev) -> (step: LoadStep)
    ensures
        step == (match event {
            Ev::Ready(info) => LoadStep::Loaded(info),
            Ev::Error(message) => LoadStep::Failed(message),
            _ => LoadStep::Wait,
        }),
{
    match event {
        Ev::Ready(info) => LoadStep::Loaded(info),
        Ev::Error(message) => LoadStep::Failed(message),
        _ => LoadStep::Wait,
    }
}

/// An event on the sink pad.
#[derive(Clone, Copy, Debug, PartialEq, Eq, Structural)]
pub enum SinkEvent {
    Caps,
    FlushStart,
    FlushStop,
    Eos,
    SegmentDone,
    Segment,
    Gap,
    Other,
}

/// What follows from an event, in the order of the fields.
#[derive(Clone, Copy, Debug, PartialEq, Eq, Structural)]
pub struct EventPlan {
    /// Hold the caps against the model's rate, and answer with those of the
    /// source pad.
    pub negotiate: bool,
    /// Abort any inference in flight.
    pub cancel: bool,
    /// Let inference go on again, and forget the stream that was flushed.
    pub resume: bool,
    /// Flush the model's buffered audio and push what it gives.
    pub finalize: bool,
    /// Throw away model state and rebase the timeline.
    pub restart: bool,
    /// Results produced before the restart are stale; drop them.
    pub discard: bool,
    /// Move the output behind the gap.
    pub gap: bool,
    /// Hand the event on.
    pub forward: bool,
}

/// An event that is only handed on.
pub open spec fn handed_on() -> EventPlan {
    EventPlan {
        negotiate: false,
        cancel: false,
        resume: false,
        finalize: false,
        restart: false,
        discard: false,
        gap: false,
        forward: true,
    }
}

/// What follows from an event.
///
/// A stream that ends is finalized, so that what the model still holds goes out;
/// and where the audio on either side is unrelated the model starts over.
pub open spec fn event_plan(event: SinkEvent) -> EventPlan {
    match event {
        SinkEvent::Caps => EventPlan { negotiate: true, forward: false, ..handed_on() },
        SinkEvent::FlushStart => EventPlan { cancel: true, ..handed_on() },
        SinkEvent::FlushStop => EventPlan {
            resume: true,
            restart: true,
            discard: true,
            ..handed_on()
        },
        SinkEvent::Eos | SinkEvent::SegmentDone => EventPlan { finalize: true, ..handed_on() },
        SinkEvent::Segment => EventPlan { finalize: true, restart: true, ..handed_on() },
        SinkEvent::Gap => EventPlan { finalize: true, restart: true, gap: true, ..handed_on() },
        SinkEvent::Other => handed_on(),
    }
}

/// Decide what follows from an event on the sink pad.
pub fn on_sink_event(event: SinkEvent) -> (plan: EventPlan)
    ensures
        plan == event_plan(event),
{
    let mut plan = EventPlan {
        negotiate: false,
        cancel: false,
        resume: false,
        finalize: false,
        restart: false,
        discard: false,
        gap: false,
        forward: true,
    };
    match event {
        SinkEvent::Caps => {
            plan.negotiate = true;
            plan.forward = false;
        },
        SinkEvent::FlushStart => {
            plan.cancel = true;
        },
        SinkEvent::FlushStop => {
            plan.resume = true;
            plan.restart = true;
            plan.discard = true;
        },
        SinkEvent::Eos | SinkEvent::SegmentDone => {
            plan.finalize = true;
        },
        SinkEvent::Segment => {
            plan.finalize = true;
            plan.restart = true;
        },
        SinkEvent::Gap => {
            plan.finalize = true;
            plan.restart = true;
            plan.gap = true;
        },
        SinkEvent::Other => {},
    }
    plan
}

/// Whether a property is part of the latency that is reported, so that a change
/// of it has to be announced.
pub fn affects_latency(property: &str) -> (affects: bool)
    ensures
        affects == (property@ == "latency"@ || property@ == "chunk-duration"@ || property@
            == "live-edge-offset"@),
{
    same_text(property, "latency") || same_text(property, "chunk-duration") || same_text(
        property,
        "live-edge-offset",
    )
}

/// Whether audio at a rate is what the model wants. Exactly one rate works.
pub fn accepts_rate(rate: u32, native_sample_rate: i32) -> (accepts: bool)
    requires
        rate <= i32::MAX,
    ensures
        accepts == (rate == native_sample_rate),
{
    rate as i32 == native_sample_rate
}

/// Four bytes as one sample, first byte lowest.
pub open spec fn low_first(data: Seq<u8>, index: int) -> int {
    data[4 * index] + data[4 * index + 1] * 0x100 + data[4 * index + 2] * 0x1_0000 + data[4 * index
        + 3] * 0x100_0000
}

/// Four bytes as one sample, first byte highest.
pub open spec fn high_first(data: Seq<u8>, index: int) -> int {
    data[4 * index] * 0x100_0000 + data[4 * index + 1] * 0x1_0000 + data[4 * index + 2] * 0x100
        + data[4 * index + 3]
}

/// Whether samples are what bytes hold, in the one byte order or in the other.
pub open spec fn holds_samples(data: Seq<u8>, samples: Seq<u32>) -> bool {
    &&& data.len() == 4 * samples.len()
    &&& {
        ||| forall|i: int| 0 <= i < samples.len() ==> #[trigger] samples[i] == low_first(data, i)
        ||| forall|i: int| 0 <= i < samples.len() ==> #[trigger] samples[i] == high_first(data, i)
    }
}

/// `byte_slice_cast::Error`, which says whether the alignment or the length of
/// the bytes is at fault.
#[verifier::external_type_specification]
#[verifier::external_body]
pub struct ExCastError(byte_slice_cast::Error);

/// `byte_slice_cast::AsSliceOf::as_slice_of`, to 32-bit words.
///
/// The result is the same memory: as many words as four bytes each make, all in
/// the machine's byte order. Bytes that make no whole number of words are
/// refused, and no bytes at all are accepted. Which byte order it is, and
/// whether the bytes are aligned, depends on the machine; misaligned bytes are
/// refused.
#[verifier::external_body]
fn cast_words(data: &[u8]) -> (result: Result<&[u32], byte_slice_cast::Error>)
    ensures
        result matches Ok(words) ==> holds_samples(data@, words@),
        data@.len() % 4 != 0 ==> result is Err,
        data@.len() == 0 ==> result is Ok,
{
    data.as_slice_of::<u32>()
}

/// The bytes of a buffer cannot be read as samples where they lie.
#[derive(Clone, Copy, Debug, PartialEq, Eq, Structural)]
pub struct MisalignedBuffer;

/// Read the bytes of a buffer as samples in the machine's byte order.
///
/// Fails where the bytes make no whole number of samples, or where they lie
/// across the boundaries of samples in memory.
pub fn read_samples(data: &[u8]) -> (result: Result<&[u32], MisalignedBuffer>)
    ensures
        result matches Ok(samples) ==> holds_samples(data@, samples@),
        data@.len() % 4 != 0 ==> result == Err::<&[u32], _>(MisalignedBuffer),
        data@.len() == 0 ==> result is Ok,
{
    match cast_words(data) {
        Ok(samples) => Ok(samples),
        Err(_) => Err(MisalignedBuffer),
    }
}

/// Time spans of no samples are empty.
proof fn no_audio_takes_no_time(rate: u64)
    requires
        rate >= 1,
    ensures
        plan::spanned(0, rate) == 0,
{
    assert(plan::SECOND * 0 / (rate as int) == 0) by (nonlinear_arith)
        requires
            rate >= 1,
    ;
}

/// Silence that is declared starts where the output had got to and ends where it
/// then has, so it never covers what went out already, and it is long enough to
/// be worth declaring. Without any, the output stays where it was.
pub proof fn silence_extends_the_output(state: Tracking, committed_ms: i64)
    requires
        state.out_pts is Some,
        state.base_pts matches Some(base) ==> plan::placed(base, committed_ms) <= u64::MAX,
    ensures
        ({
            let (after, silence) = state.advanced(committed_ms);
            match silence {
                Some(gap) => gap.pts == state.out_pts->0 && gap.duration >= GAP_GRANULARITY
                    && after.out_pts == Some((gap.pts + gap.duration) as u64),
                None => after.out_pts == state.out_pts,
            }
        }),
{
}

/// Silence is never declared over a word that has yet to go out: closing the
/// timeline as far as a stream with a waiting row allows leaves the place of that
/// row's word as it was.
pub proof fn silence_leaves_waiting_words_alone(
    state: Tracking,
    tracker: commit::Tracker,
    audio_ms: i64,
    row: commit::Row,
)
    requires
        state.base_pts is Some,
        tracker.pending == Some((row.t0_ms, row.t1_ms)),
        plan::placed(state.base_pts->0, row.t0_ms) <= u64::MAX,
    ensures
        ({
            let base = state.base_pts->0;
            let (after, _) = state.advanced(worker::frontier_of(tracker, audio_ms));
            plan::word_pts(base, after.out_or(base), row) == plan::word_pts(
                base,
                state.out_or(base),
                row,
            )
        }),
{
}

/// Progress that was reported once declares nothing again.
pub proof fn repeated_progress_is_silent(state: Tracking, committed_ms: i64)
    ensures
        ({
            let (after, _) = state.advanced(committed_ms);
            after.advanced(committed_ms) == (after, None::<Silence>)
        }),
{
}

/// Whatever becomes of a buffer, the output never goes back.
pub proof fn the_output_never_goes_back(
    state: Tracking,
    verdict: vad::Verdict,
    pts: u64,
    samples: Seq<u32>,
)
    requires
        state.out_pts is Some,
        state.settling_fits(verdict, pts, samples),
    ensures
        ({
            let (after, _) = state.settled(verdict, pts, samples);
            after.out_pts is Some && after.out_pts->0 >= state.out_pts->0
        }),
        ({
            let (after, _) = state.released();
            after.out_pts is Some && after.out_pts->0 >= state.out_pts->0
        }),
{
}

/// The priming chunk does not shift the timeline: the first sample behind it is
/// placed where that sample lies in the input, unless the chunk is longer than
/// the time before it.
pub proof fn priming_does_not_shift_the_timeline(
    state: Tracking,
    skipped: u64,
    audio: Seq<u32>,
    warmup: Seq<u32>,
    pts: u64,
    samples: Seq<u32>,
)
    requires
        state.base_pts is None,
        ({
            let verdict = vad::Verdict::Open { skipped_samples: skipped as int, audio, warmup };
            state.settling_fits(verdict, pts, samples)
        }),
        ({
            let end = (pts + plan::spanned(samples.len() as u64, state.rate)) as u64;
            plan::spanned(warmup.len() as u64, state.rate) <= state.opening_at(
                end,
                skipped,
                audio.len() as u64,
            )
        }),
    ensures
        ({
            let verdict = vad::Verdict::Open { skipped_samples: skipped as int, audio, warmup };
            let end = (pts + plan::spanned(samples.len() as u64, state.rate)) as u64;
            let (after, _) = state.settled(verdict, pts, samples);
            after.base_pts is Some && after.base_pts->0 + plan::spanned(
                warmup.len() as u64,
                state.rate,
            ) == state.opening_at(end, skipped, audio.len() as u64)
        }),
{
}

/// After a restart nothing is discontinuous, nothing is decided, and the voice gate is
/// closed and has heard nothing: a fresh stream starts as the first one did.
pub proof fn a_restart_starts_afresh(state: Tracking, pts: u64, threshold: u64, flag: bool)
    requires
        state.wf(),
    ensures
        !is_discontinuous(state.restarted().next_pts, pts, threshold, flag),
        state.restarted().base_pts is None && state.restarted().out_pts is None,
        state.restarted().committed_ms == 0,
        state.restarted().gate matches Some(gate) ==> gate == gate.armed(),
        state.restarted().wf(),
        state.restarted().restarted() == state.restarted(),
{
}

/// A buffer breaks the stream exactly where one is running and the buffer says so
/// itself or lies more than the threshold away from where it was expected, on either
/// side.
pub proof fn a_jump_breaks_a_running_stream(expected: u64, pts: u64, threshold: u64, flag: bool)
    ensures
        !is_discontinuous(None, pts, threshold, flag),
        is_discontinuous(Some(expected), pts, threshold, true),
        is_discontinuous(Some(expected), pts, threshold, false) <==> pts - expected > threshold
            || expected - pts > threshold,
{
}

/// The latency that is added is the declared budget while streaming, and on top of it a
/// whole chunk and what is withheld of it otherwise. Until the model is loaded it is
/// taken to stream unless it was told not to.
pub proof fn what_latency_is_added(timing: Timing, mode: Mode, resolved: bool)
    ensures
        added_latency_ms(timing, true) == timing.latency_ms,
        added_latency_ms(timing, false) - added_latency_ms(timing, true)
            == timing.chunk_duration_ms + timing.live_edge_offset_ms,
        assumed_streaming(Some(resolved), mode) == resolved,
        assumed_streaming(None, mode) <==> mode == Mode::Auto || mode == Mode::Stream,
{
}

/// The names of families are the documented ones.
pub proof fn families_are_named_as_documented(family: Family)
    ensures
        family == Family::Whisper ==> family.spelling() == "whisper"@,
        family == Family::ParakeetStream ==> family.spelling() == "parakeet-stream"@,
        family == Family::ParakeetBuffered ==> family.spelling() == "parakeet-buffered"@,
        family == Family::MoonshineStreaming ==> family.spelling() == "moonshine-streaming"@,
        family == Family::VoxtralRealtime ==> family.spelling() == "voxtral-realtime"@,
{
}

/// What a plan sends: each gap as it is, each word as it is and where it ends, and a
/// mark that the transcript is final right behind a word that ends an utterance and
/// nowhere else.
pub proof fn a_mark_follows_each_utterance(items: Seq<plan::Planned>, item: plan::Planned)
    ensures
        sent_for_all(Seq::empty()).len() == 0,
        ({
            let before = sent_for_all(items);
            let after = sent_for_all(items.push(item));
            match item {
                plan::Planned::Gap { pts, duration } => after == before.push(
                    Sent::Gap { pts, duration },
                ),
                plan::Planned::Word { pts, duration, text, ends_utterance } => {
                    let word = Sent::Word { pts, duration, end: (pts + duration) as u64, text };
                    &&& ends_utterance ==> after == before.push(word).push(Sent::FinalTranscript)
                    &&& !ends_utterance ==> after == before.push(word)
                },
            }
        }),
{
    assert(items.push(item).drop_last() =~= items);
    let before = sent_for_all(items);
    let after = sent_for_all(items.push(item));
    match item {
        plan::Planned::Gap { pts, duration } => {
            assert(after =~= before.push(Sent::Gap { pts, duration }));
        },
        plan::Planned::Word { pts, duration, text, ends_utterance } => {
            let word = Sent::Word { pts, duration, end: (pts + duration) as u64, text };
            if ends_utterance {
                assert(after =~= before.push(word).push(Sent::FinalTranscript));
            } else {
                assert(after =~= before.push(word));
            }
        },
    }
}

/// Words go out as they are planned from the start of the stream and from where the
/// output has got to; final ones are followed by one more mark, which also stands alone
/// where there are none. Words from before the stream has a start are dropped.
pub proof fn words_go_out_as_planned(state: Tracking, rows: Seq<commit::Row>, is_final: bool)
    ensures
        ({
            let out = state.word_outputs(rows, is_final);
            &&& rows.len() == 0 && !is_final ==> out.len() == 0
            &&& rows.len() == 0 && is_final ==> out.len() == 1 && out[0] == Sent::FinalTranscript
            &&& rows.len() > 0 && state.base_pts is None ==> out.len() == 0
            &&& rows.len() > 0 && state.base_pts is Some ==> {
                let base = state.base_pts->0;
                let from = if state.out_pts is Some {
                    state.out_pts->0
                } else {
                    base
                };
                let planned = sent_for_all(plan::plan(base, from, rows));
                &&& !is_final ==> out == planned
                &&& is_final ==> out == planned.push(Sent::FinalTranscript)
            }
        }),
{
    if let Some(base) = state.base_pts {
        let planned = sent_for_all(plan::plan(base, state.out_or(base), rows));
        if rows.len() > 0 {
            if is_final {
                assert(state.word_outputs(rows, true) =~= planned.push(Sent::FinalTranscript));
            } else {
                assert(state.word_outputs(rows, false) =~= planned);
            }
        }
    }
}

/// Silence is declared exactly where a family that aligns has decided at least two
/// tenths of a second more than the output covers, and then over all of that. Progress
/// is taken note of in any case, and nothing else changes.
pub proof fn silence_is_declared_once_it_is_worth_it(state: Tracking, committed_ms: i64)
    requires
        state.base_pts is Some ==> plan::lies_at(state.base_pts->0, committed_ms) <= u64::MAX,
    ensures
        ({
            let (after, silence) = state.advanced(committed_ms);
            let news = !state.untimed && committed_ms > state.committed_ms;
            let base = state.base_pts->0;
            let from = if state.out_pts is Some {
                state.out_pts->0
            } else {
                base
            };
            let to = plan::lies_at(base, committed_ms);
            &&& !news ==> after == state && silence is None
            &&& news ==> after.committed_ms == committed_ms
            &&& silence is Some <==> news && state.base_pts is Some && to - from >= 200_000_000
            &&& silence is Some ==> silence->0.pts == from && silence->0.pts + silence->0.duration
                == to && after.out_pts == Some(to as u64)
            &&& silence is None ==> after.out_pts == state.out_pts
            &&& after.base_pts == state.base_pts && after.next_pts == state.next_pts && after.gate
                == state.gate && after.untimed == state.untimed && after.rate == state.rate
        }),
{
}

/// Audio that is withheld still moves the output on: silence is declared over it once it
/// is two tenths of a second more than the output covers, and the output starts where
/// the audio does. A family that aligns nothing declares none.
pub proof fn withheld_audio_becomes_silence(state: Tracking, start: u64, position: u64)
    ensures
        ({
            let (after, silence) = state.gate_advanced(start, position);
            let from = if state.out_pts is Some {
                state.out_pts->0
            } else {
                start
            };
            &&& state.untimed ==> after == state && silence is None
            &&& silence is Some <==> !state.untimed && position - from >= 200_000_000
            &&& silence is Some ==> silence->0.pts == from && silence->0.pts + silence->0.duration
                == position && after.out_pts == Some(position)
            &&& silence is None && !state.untimed ==> after.out_pts == Some(from)
            &&& after.base_pts == state.base_pts && after.next_pts == state.next_pts && after.gate
                == state.gate && after.committed_ms == state.committed_ms
        }),
{
}

/// The timeline is anchored once: at the first sample that the model sees, less the time
/// of the priming chunk in front of it, and not before zero. The output starts there or
/// where it has got to already.
pub proof fn the_timeline_is_anchored_once(state: Tracking, first: u64, warmup: u64)
    ensures
        ({
            let after = state.anchored(first, warmup);
            let pad = plan::spanned(warmup, state.rate);
            &&& state.base_pts is Some ==> after == state
            &&& state.base_pts is None ==> {
                &&& after.base_pts is Some
                &&& pad <= first ==> after.base_pts->0 + pad == first
                &&& pad > first ==> after.base_pts->0 == 0
                &&& after.out_pts is Some
                &&& after.out_pts->0 >= first
                &&& state.out_pts is Some ==> after.out_pts->0 >= state.out_pts->0
                &&& after.out_pts->0 == first || after.out_pts == state.out_pts
            }
            &&& after.anchored(first, warmup) == after
            &&& after.next_pts == state.next_pts && after.gate == state.gate && after.committed_ms
                == state.committed_ms && after.rate == state.rate && after.untimed == state.untimed
        }),
{
}

/// Audio that a gate hands over late is placed where it was heard: its first sample lies
/// as far in front of the end of the buffer as the audio is long, up to the rounding of
/// one nanosecond.
pub proof fn late_audio_is_placed_where_it_was_heard(
    state: Tracking,
    buffer_end: u64,
    skipped: u64,
    delivered: u64,
)
    requires
        state.rate >= 1,
        skipped + delivered <= u64::MAX,
        plan::SECOND * (skipped + delivered) / (state.rate as int) <= buffer_end,
    ensures
        ({
            let at = state.opening_at(buffer_end, skipped, delivered);
            let long = plan::spanned(delivered, state.rate);
            buffer_end - long - 1 <= at <= buffer_end - long
        }),
{
    let rate = state.rate as int;
    let total = (skipped + delivered) as u64;
    longer_audio_takes_longer(skipped, total, state.rate);
    longer_audio_takes_longer(delivered, total, state.rate);
    let a = plan::SECOND * skipped;
    let b = plan::SECOND * delivered;
    assert(plan::SECOND * total == a + b) by (nonlinear_arith)
        requires
            total == skipped + delivered,
            a == plan::SECOND * skipped,
            b == plan::SECOND * delivered,
    ;
    assert(a / rate + b / rate <= (a + b) / rate <= a / rate + b / rate + 1) by (nonlinear_arith)
        requires
            a >= 0,
            b >= 0,
            rate >= 1,
    ;
}

/// Audio that takes longer than has passed is placed as if it had been heard from zero
/// on: what was skipped of it lies in front of what is handed over.
pub proof fn early_audio_is_placed_from_zero(
    state: Tracking,
    buffer_end: u64,
    skipped: u64,
    delivered: u64,
)
    requires
        skipped + delivered <= u64::MAX,
        plan::spanned((skipped + delivered) as u64, state.rate) > buffer_end,
    ensures
        state.opening_at(buffer_end, skipped, delivered) == plan::spanned(skipped, state.rate),
{
}

/// What becomes of a buffer. One that passes is fed as it is, from its own timestamp on;
/// one that opens a gate is fed as what that gate hands over, behind the priming chunk
/// where there is one; one that is withheld is not fed. In any case the next buffer is
/// expected where this one ends.
pub proof fn what_is_fed_of_a_buffer(
    state: Tracking,
    pts: u64,
    samples: Seq<u32>,
    skipped: int,
    audio: Seq<u32>,
    warmup: Seq<u32>,
)
    requires
        pts + plan::spanned(samples.len() as u64, state.rate) <= u64::MAX,
    ensures
        ({
            let (after, done) = state.settled(vad::Verdict::Passthrough, pts, samples);
            &&& samples.len() == 0 ==> done is Empty
            &&& samples.len() > 0 ==> done is Feed && done->pcm == samples && done->warmup is None
            &&& after.next_pts is Some
            &&& after.next_pts->0 == pts + plan::spanned(samples.len() as u64, state.rate)
            &&& state.base_pts is None ==> after.base_pts is Some
            &&& state.base_pts is None && state.rate >= 1 ==> after.base_pts == Some(pts)
        }),
        ({
            let (after, done) = state.settled(vad::Verdict::Withhold, pts, samples);
            &&& done is Withheld
            &&& after.base_pts == state.base_pts
            &&& after.next_pts is Some
            &&& after.next_pts->0 == pts + plan::spanned(samples.len() as u64, state.rate)
        }),
        ({
            let verdict = vad::Verdict::Open { skipped_samples: skipped, audio, warmup };
            let (after, done) = state.settled(verdict, pts, samples);
            &&& audio.len() == 0 ==> done is Empty
            &&& audio.len() > 0 ==> done is Feed && done->pcm == audio && (done->warmup is Some
                <==> warmup.len() > 0) && (warmup.len() > 0 ==> done->warmup == Some(warmup))
            &&& after.next_pts is Some
            &&& after.next_pts->0 == pts + plan::spanned(samples.len() as u64, state.rate)
        }),
{
    if state.rate >= 1 {
        no_audio_takes_no_time(state.rate);
    }
}

/// A stream that ends before anyone spoke gives what its gate still holds, once, placed
/// so that it ends where the audio did; and then its gate is open.
pub proof fn held_audio_goes_out_at_the_end(state: Tracking)
    requires
        state.wf(),
    ensures
        ({
            let (after, audio) = state.released();
            &&& state.gate is None ==> audio is None && after == state
            &&& state.gate is Some && state.gate->0.open ==> audio is None && after == state
            &&& audio is Some ==> {
                &&& audio->0.len() > 0
                &&& audio->0 == state.gate->0.opening(state.gate->0.pending)
                &&& after.gate is Some && after.gate->0.open
                &&& state.base_pts is None && state.next_pts is Some && plan::spanned(
                    audio->0.len() as u64,
                    state.rate,
                ) <= state.next_pts->0 ==> after.base_pts is Some && after.base_pts->0
                    + plan::spanned(audio->0.len() as u64, state.rate) == state.next_pts->0
                &&& state.base_pts is None && (state.next_pts is None || plan::spanned(
                    audio->0.len() as u64,
                    state.rate,
                ) > state.next_pts->0) ==> after.base_pts == Some(0u64)
            }
            &&& audio is None ==> after == state
            &&& state.gate is Some && !state.gate->0.open && state.gate->0.opening(
                state.gate->0.pending,
            ).len() > 0 ==> audio is Some
        }),
        state.released().0.released().1 is None,
{
    no_audio_takes_no_time(state.rate);
}

/// Inference is judged over five seconds of audio at least, and only on a live source:
/// it is behind where it took longer than the audio is long. A word is said exactly
/// where that verdict changes, and then counting starts over.
pub proof fn the_pace_is_judged_over_five_seconds(
    state: Tracking,
    live: bool,
    compute_ms: u64,
    audio_ms: u64,
)
    requires
        state.compute_ms + compute_ms <= u64::MAX,
        state.audio_ms + audio_ms <= u64::MAX,
    ensures
        ({
            let (after, pace) = state.paced(live, compute_ms, audio_ms);
            let compute = state.compute_ms + compute_ms;
            let audio = state.audio_ms + audio_ms;
            &&& !live ==> after == state && pace is None
            &&& live && audio < 5_000 ==> after.compute_ms == compute && after.audio_ms == audio
                && after.behind == state.behind && pace is None
            &&& live && audio >= 5_000 ==> after.compute_ms == 0 && after.audio_ms == 0
                && after.behind == (compute > audio)
            &&& pace is Some <==> after.behind != state.behind
            &&& pace is Some ==> pace->0.behind == after.behind && pace->0.compute_ms == compute
                && pace->0.audio_ms == audio
            &&& after.out_pts == state.out_pts && after.base_pts == state.base_pts && after.gate
                == state.gate && after.committed_ms == state.committed_ms
        }),
{
}

/// A restart keeps what is known of the model, of the pace and of the audio that was
/// dropped.
pub proof fn a_restart_keeps_what_is_known(state: Tracking)
    ensures
        ({
            let after = state.restarted();
            &&& after.streaming == state.streaming && after.untimed == state.untimed && after.rate
                == state.rate
            &&& after.compute_ms == state.compute_ms && after.audio_ms == state.audio_ms
                && after.behind == state.behind && after.dropped == state.dropped
            &&& after.gate is Some <==> state.gate is Some
            &&& after.next_pts is None
        }),
{
}

/// What follows from an event: what ends a stream finalizes it, what makes the audio
/// behind it unrelated restarts the model, only a flush cancels, resumes or throws
/// results away, only caps are negotiated, and everything but caps is handed on.
pub proof fn events_lead_to_what_they_mean(event: SinkEvent)
    ensures
        ({
            let plan = event_plan(event);
            &&& plan.finalize <==> event == SinkEvent::Eos || event == SinkEvent::SegmentDone
                || event == SinkEvent::Segment || event == SinkEvent::Gap
            &&& plan.restart <==> event == SinkEvent::FlushStop || event == SinkEvent::Segment
                || event == SinkEvent::Gap
            &&& plan.cancel <==> event == SinkEvent::FlushStart
            &&& plan.resume <==> event == SinkEvent::FlushStop
            &&& plan.discard <==> event == SinkEvent::FlushStop
            &&& plan.gap <==> event == SinkEvent::Gap
            &&& plan.negotiate <==> event == SinkEvent::Caps
            &&& plan.forward <==> event != SinkEvent::Caps
        }),
{
}

/// A sample is four bytes, and which of them counts most is the only choice there is.
pub proof fn a_sample_is_four_bytes(data: Seq<u8>, samples: Seq<u32>)
    requires
        holds_samples(data, samples),
    ensures
        data.len() == 4 * samples.len(),
        forall|i: int|
            0 <= i < samples.len() ==> (#[trigger] samples[i]) == data[4 * i] + 256 * (data[4 * i
                + 1] + 256 * (data[4 * i + 2] + 256 * data[4 * i + 3])) || samples[i] == data[4 * i
                + 3] + 256 * (data[4 * i + 2] + 256 * (data[4 * i + 1] + 256 * data[4 * i])),
{
}


/// A report leads to what it says, with its own words, text and times. Nothing is pushed
/// while results are thrown away; an error is never passed over; and a wait ends exactly
/// with the answer that is waited for.
pub proof fn reports_lead_to_what_they_say(
    event: Ev,
    until: Option<Marker>,
    discard: bool,
    step: DrainStep,
)
    requires
        call_ensures(drain_step, (event, until, discard), step),
    ensures
        discard ==> !(step is Words) && !(step is Partial) && !(step is Advance),
        !discard ==> (event matches Ev::Words { words, is_final } ==> step == (DrainStep::Words {
            words,
            is_final,
        })),
        !discard ==> (event matches Ev::Progress { committed_ms } ==> step == (
        DrainStep::Advance { committed_ms })),
        !discard ==> (event matches Ev::Partial(text) ==> text@.len() > 0 ==> step
            == DrainStep::Partial(text)),
        step is Words ==> event is Words,
        step is Partial ==> event is Partial && step->Partial_0@.len() > 0,
        step is Advance ==> event is Progress,
        step is Compute <==> event is Compute,
        event matches Ev::Compute { compute_ms, audio_ms } ==> step == (DrainStep::Compute {
            compute_ms,
            audio_ms,
        }),
        step is Failed <==> event is Error,
        event matches Ev::Error(message) ==> step == DrainStep::Failed(message),
        step is Done <==> (event is Drained && until == Some(Marker::Drained)) || (event
            is Restarted && until == Some(Marker::Restarted)),
{
}

/// While the model is loading, only that it is loaded or could not be ends the wait.
pub proof fn only_the_model_ends_its_loading(event: Ev, step: LoadStep)
    requires
        call_ensures(load_step, (event,), step),
    ensures
        step is Loaded <==> event is Ready,
        step is Failed <==> event is Error,
        event matches Ev::Ready(info) ==> step == LoadStep::Loaded(info),
        event matches Ev::Error(message) ==> step == LoadStep::Failed(message),
{
}

/// Audio alone is dropped when the queue is full, and only where that was asked for.
pub proof fn only_audio_is_dropped(cmd: Cmd, overrun: Overrun, drops: bool)
    requires
        call_ensures(drops_on_overrun, (&cmd, overrun), drops),
    ensures
        !(cmd is Feed) ==> !drops,
        overrun == Overrun::Block ==> !drops,
        cmd is Feed && overrun == Overrun::Drop ==> drops,
{
}

/// A latency of our own is added where upstream is live, to both its bounds and by the
/// same amount, and a bound that is missing stays so; nothing is claimed where it is not.
pub proof fn latency_is_added_to_both_bounds(
    live: bool,
    min: u64,
    max: Option<u64>,
    ours: u64,
    answer: (bool, u64, Option<u64>),
)
    requires
        live ==> min + ours <= u64::MAX,
        live && max is Some ==> max->0 + ours <= u64::MAX,
        call_ensures(latency_answer, (live, min, max, ours), answer),
    ensures
        answer.0 == live,
        live ==> answer.1 - min == ours,
        live ==> (answer.2 is Some <==> max is Some),
        live && max is Some ==> answer.2->0 - max->0 == ours,
        !live ==> answer.1 == 0 && answer.2 is None,
{
}

/// The latency is what was declared; a window adds its own length and the live edge. A
/// model that is not loaded yet is taken to stream unless windows were asked for.
pub proof fn our_latency_is_what_was_declared(
    timing: Timing,
    resolved: Option<bool>,
    mode: Mode,
    latency: u64,
)
    requires
        call_ensures(our_latency, (&timing, resolved, mode), latency),
    ensures
        resolved == Some(true) || (resolved is None && mode != Mode::Chunked) ==> latency
            == timing.latency_ms * 1_000_000,
        resolved == Some(false) || (resolved is None && mode == Mode::Chunked) ==> latency == (
        timing.latency_ms + timing.chunk_duration_ms + timing.live_edge_offset_ms) * 1_000_000,
{
}

/// A configuration is refused for want of a model, else for a chunk that does not reach
/// behind the live edge, else for options of a family that is not known; and for nothing
/// else.
pub proof fn what_is_wrong_with_a_configuration(
    has_model_path: bool,
    timing: Timing,
    family_name: Option<&str>,
    result: Result<Option<Family>, PrepareError>,
)
    requires
        call_ensures(check_configuration, (has_model_path, &timing, family_name), result),
    ensures
        result == Err::<Option<Family>, _>(PrepareError::MissingModelPath) <==> !has_model_path,
        result == Err::<Option<Family>, _>(PrepareError::ChunkTooShort) <==> has_model_path
            && timing.chunk_duration_ms <= timing.live_edge_offset_ms,
        result is Ok <==> has_model_path && timing.live_edge_offset_ms < timing.chunk_duration_ms
            && (family_name matches Some(name) ==> exists|family: Family|
            (#[trigger] family.spelling()) == name@),
        result matches Ok(found) ==> (found is Some <==> family_name is Some),
        result matches Ok(Some(family)) ==> family.spelling() == family_name->0@,
{
}

/// A buffer breaks the stream where its timestamp is off by more than the threshold
/// either way, or where it says so; and never before there is a stream.
pub proof fn what_breaks_a_stream(
    state: State,
    pts: u64,
    threshold: u64,
    flag: bool,
    expected: Option<u64>,
    discont: bool,
)
    requires
        call_ensures(State::expected_pts, (&state,), expected),
        call_ensures(State::is_discont, (&state, pts, threshold, flag), discont),
    ensures
        expected is None ==> !discont,
        expected matches Some(next) ==> (discont <==> flag || pts - next > threshold || next - pts
            > threshold),
{
}

/// A loaded model says how to go on: whether it streams, whether it aligns anything, and
/// at what rate. Only a stream is gated, and only where waiting was allowed. The latency
/// has to be told anew exactly where streaming had been taken for granted and is not to
/// be had. Where the stream stands is left alone.
pub proof fn a_loaded_model_is_noted(
    state: &mut State,
    info: ModelInfo,
    timing: Timing,
    latency_changed: bool,
)
    requires
        call_ensures(State::on_ready, (state, &info, &timing), latency_changed),
    ensures
        final(state)@.streaming == Some(info.streaming),
        final(state)@.untimed <==> info.max_timestamp_kind == TimestampKind::Untimed,
        info.native_sample_rate > 0 ==> final(state)@.rate == info.native_sample_rate,
        final(state)@.rate > 0,
        final(state)@.gate is Some <==> info.streaming && timing.vad_max_wait_ms > 0,
        final(state)@.gate is Some ==> !final(state)@.gate->0.open && final(state)@.gate->0.rate
            == final(state)@.rate && final(state)@.gate->0.warmup_pad_ms == timing.warmup_pad_ms,
        latency_changed <==> !info.streaming && (old(state)@.streaming is None || old(state)@.streaming->0),
        final(state)@.base_pts == old(state)@.base_pts && final(state)@.out_pts == old(state)@.out_pts && final(state)@.next_pts == old(state)@.next_pts && final(state)@.committed_ms
            == old(state)@.committed_ms && final(state)@.dropped == old(state)@.dropped,
{
}

/// A flush forgets where the stream stood and what was dropped, and keeps what is known
/// of the model.
pub proof fn a_flush_forgets_the_stream(state: &mut State)
    requires
        call_ensures(State::flush, (state,), ()),
    ensures
        final(state)@.base_pts is None && final(state)@.out_pts is None && final(state)@.next_pts
            is None,
        final(state)@.committed_ms == 0 && final(state)@.dropped == 0,
        final(state)@.streaming == old(state)@.streaming,
        final(state)@.untimed == old(state)@.untimed,
        final(state)@.rate == old(state)@.rate,
        final(state)@.gate is Some <==> old(state)@.gate is Some,
        final(state)@.gate is Some ==> !final(state)@.gate->0.open
            && final(state)@.gate->0.preroll.len() == 0,
{
}

/// A gap moves the output to where the gap ends, and nothing else.
pub proof fn a_gap_moves_the_output(state: &mut State, pts: u64, duration: Option<u64>)
    requires
        duration matches Some(length) ==> pts + length <= u64::MAX,
        call_ensures(State::on_gap, (state, pts, duration), ()),
    ensures
        duration is None ==> final(state)@.out_pts == Some(pts),
        duration is Some ==> final(state)@.out_pts is Some && final(state)@.out_pts->0 - pts
            == duration->0,
        final(state)@ == (Tracking { out_pts: final(state)@.out_pts, ..old(state)@ }),
{
}

/// An event is handed on unless it is answered here. The audio so far is finalized
/// wherever it comes to an end, and the model starts over wherever what follows is
/// unrelated; a flush alone throws results away.
pub proof fn what_an_event_asks_for(event: SinkEvent, plan: EventPlan)
    requires
        call_ensures(on_sink_event, (event,), plan),
    ensures
        plan.forward <==> event != SinkEvent::Caps,
        plan.negotiate <==> event == SinkEvent::Caps,
        plan.cancel <==> event == SinkEvent::FlushStart,
        plan.resume <==> event == SinkEvent::FlushStop,
        plan.discard <==> event == SinkEvent::FlushStop,
        plan.finalize <==> event == SinkEvent::Eos || event == SinkEvent::SegmentDone || event
            == SinkEvent::Segment || event == SinkEvent::Gap,
        plan.restart <==> event == SinkEvent::FlushStop || event == SinkEvent::Segment || event
            == SinkEvent::Gap,
        plan.gap <==> event == SinkEvent::Gap,
{
}

/// The queue holds as many buffers as was asked, and at least one; and audio is taken at
/// the model's own rate alone.
pub proof fn queue_and_rate_are_as_asked(
    queue_size: u32,
    len: usize,
    rate: u32,
    native: i32,
    accepts: bool,
)
    requires
        call_ensures(queue_len, (queue_size,), len),
        call_ensures(accepts_rate, (rate, native), accepts),
    ensures
        queue_size > 0 ==> len == queue_size,
        queue_size == 0 ==> len == 1,
        accepts <==> rate == native,
{
}


/// Without a gate, or with one that is open, a buffer is fed as it is; and whatever
/// becomes of it, the next one is expected where it ends.
pub proof fn an_ungated_buffer_is_fed(
    state: &mut State,
    pts: u64,
    samples: &[u32],
    admission: Admission,
)
    requires
        call_ensures(State::take_buffer, (state, pts, samples), admission),
        old(state)@.wf(),
        old(state)@.admits(pts, samples@),
    ensures
        old(state)@.gate is None ==> {
            &&& samples@.len() > 0 ==> (admission matches Admission::Feed { warmup, pcm } && pcm@
                == samples@ && warmup is None)
            &&& samples@.len() == 0 ==> admission is Empty
            &&& old(state)@.base_pts is None ==> final(state)@.base_pts == Some(pts)
        },
        old(state)@.gate is Some && old(state)@.gate->0.open && samples@.len() > 0 ==> (
        admission matches Admission::Feed { warmup, pcm } && pcm@ == samples@ && warmup is None),
        final(state)@.next_pts is Some && final(state)@.next_pts->0 == pts + plan::spanned(
            samples@.len() as u64,
            old(state)@.rate,
        ),
{
    what_is_fed_of_a_buffer(old(state)@, pts, samples@, 0, Seq::empty(), Seq::empty());
    if let Some(gate) = old(state)@.gate {
        let next = final(state)@.gate->0;
        let verdict = gate.pushed(samples@, vad::scores_since(gate, next)).1;
        let held = Tracking { gate: Some(next), ..old(state)@ };
        if let vad::Verdict::Open { skipped_samples, audio, warmup } = verdict {
            what_is_fed_of_a_buffer(held, pts, samples@, skipped_samples, audio, warmup);
        } else {
            what_is_fed_of_a_buffer(held, pts, samples@, 0, Seq::empty(), Seq::empty());
        }
    }
}

/// Silence is declared from where the output is to where the family is done, where that
/// is at least a fifth of a second on, and the output is there then; a family that does
/// not align, or has nothing new, declares none.
pub proof fn silence_reaches_to_what_is_done(
    state: &mut State,
    committed_ms: i64,
    silence: Option<Silence>,
)
    requires
        call_ensures(State::advance_timeline, (state, committed_ms), silence),
        old(state)@.base_pts is Some,
        old(state).advance_fits(committed_ms),
    ensures
        ({
            let base = old(state)@.base_pts->0;
            let from = if old(state)@.out_pts is Some {
                old(state)@.out_pts->0
            } else {
                base
            };
            let to = plan::lies_at(base, committed_ms);
            &&& silence is Some <==> !old(state)@.untimed && committed_ms
                > old(state)@.committed_ms && to - from >= 200_000_000
            &&& silence is Some ==> silence->0.pts == from && silence->0.pts + silence->0.duration
                == to && final(state)@.out_pts == Some(to as u64)
            &&& silence is None ==> final(state)@.out_pts == old(state)@.out_pts
        }),
{
    silence_is_declared_once_it_is_worth_it(old(state)@, committed_ms);
}

/// Inference is reported to fall behind, or to catch up, when that changes over five
/// seconds of live audio, and never otherwise.
pub proof fn a_change_of_pace_is_reported(
    state: &mut State,
    live: bool,
    compute_ms: u64,
    audio_ms: u64,
    pace: Option<Pace>,
)
    requires
        call_ensures(State::report_compute, (state, live, compute_ms, audio_ms), pace),
        old(state)@.compute_ms + compute_ms <= u64::MAX,
        old(state)@.audio_ms + audio_ms <= u64::MAX,
    ensures
        ({
            let compute = old(state)@.compute_ms + compute_ms;
            let audio = old(state)@.audio_ms + audio_ms;
            &&& pace is Some <==> live && audio >= 5_000 && old(state)@.behind != (compute > audio)
            &&& pace is Some ==> pace->0.behind == (compute > audio) && pace->0.compute_ms
                == compute && pace->0.audio_ms == audio
            &&& live && audio >= 5_000 ==> final(state)@.behind == (compute > audio)
                && final(state)@.compute_ms == 0 && final(state)@.audio_ms == 0
            &&& live && audio < 5_000 ==> final(state)@.compute_ms == compute
                && final(state)@.audio_ms == audio
        }),
{
    the_pace_is_judged_over_five_seconds(old(state)@, live, compute_ms, audio_ms);
}

/// What was held back is given once: a second time there is nothing left.
pub proof fn held_audio_is_given_once(
    first: &mut State,
    audio: Option<Vec<u32>>,
    then: &mut State,
    again: Option<Vec<u32>>,
)
    requires
        call_ensures(State::release_gate, (first,), audio),
        call_ensures(State::release_gate, (then,), again),
        old(first)@.wf(),
        old(then)@ == final(first)@,
    ensures
        again is None,
        audio is Some ==> audio->0@.len() > 0,
        old(first)@.gate is None || old(first)@.gate->0.open ==> audio is None,
        old(first)@.gate is Some && !old(first)@.gate->0.open
            && old(first)@.gate->0.pending.len() > 0 ==> audio is Some,
{
    held_audio_goes_out_at_the_end(old(first)@);
}

/// Words that come before the stream has a start are dropped.
pub proof fn words_wait_for_a_start(
    state: State,
    words: Vec<TimedWord>,
    is_final: bool,
    outputs: Vec<Output>,
)
    requires
        call_ensures(State::plan_words, (&state, words, is_final), outputs),
        words@.len() > 0,
        state@.base_pts is None,
    ensures
        outputs@.len() == 0,
{
    assert(sent(outputs@).len() == outputs@.len());
}


/// A fresh element knows of no model and no stream, so that no buffer breaks anything,
/// no word has a place and nothing is held back.
pub proof fn a_fresh_element_has_no_stream(
    state: State,
    streaming: Option<bool>,
    started: bool,
    pts: u64,
    threshold: u64,
    flag: bool,
    discont: bool,
)
    requires
        call_ensures(State::default, (), state),
        call_ensures(State::resolved_streaming, (&state,), streaming),
        call_ensures(State::has_stream, (&state,), started),
        call_ensures(State::is_discont, (&state, pts, threshold, flag), discont),
    ensures
        streaming is None,
        !started,
        !discont,
        state@.out_pts is None && state@.next_pts is None && state@.gate is None,
        state@.committed_ms == 0 && state@.dropped == 0 && state@.compute_ms == 0 && state@.audio_ms
            == 0,
        !state@.behind && !state@.untimed,
{
}

} // verus!
