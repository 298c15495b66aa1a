//! What the inference thread decides.
//!
//! The thread itself receives commands and calls the model; what it makes of
//! them is decided here. Streaming families are fed every buffer and report a
//! stable prefix, which a [`CommitTracker`] turns into words. Other families run
//! over a sliding [`Window`].
use crate::commit;
use crate::commit::{units, CommitTracker, TimedWord, TimestampKind, Transcript};
use crate::text;
use crate::text::{prefixed, trim};
use vstd::prelude::*;

verus! {

/// Window ceiling for a family that reports no maximum audio length.
pub const DEFAULT_MAX_WINDOW_MS: i64 = 30_000;

/// How the element drives inference.
#[derive(Clone, Copy, Debug, PartialEq, Eq, Structural)]
pub enum Mode {
    /// Pick `Stream` when the model advertises streaming support, else `Chunked`.
    Auto,
    /// Native streaming: feed every buffer, let the family commit a stable prefix.
    Stream,
    /// Sliding-window offline inference, for families without streaming support.
    Chunked,
}

impl Default for Mode {
    fn default() -> (mode: Self)
        ensures
            mode == Mode::Auto,
    {
        Mode::Auto
    }
}

/// Streaming was asked of a model that does not support it.
#[derive(Clone, Copy, Debug, PartialEq, Eq, Structural)]
pub struct StreamingUnsupported;

impl StreamingUnsupported {
    /// The error in words, for the model at a path and of an architecture.
    pub fn message(self, model_path: &str, arch: &str) -> (text: String)
        ensures
            text@ == "mode=stream requested but model "@ + model_path@ + " ("@ + arch@
                + ") does not support streaming"@,
    {
        let mut text = prefixed("mode=stream requested but model ", model_path);
        text.append(" (");
        text.append(arch);
        text.append(") does not support streaming");
        text
    }
}

/// Whether to stream: what was asked for, where the model can do it.
pub fn resolve_mode(mode: Mode, supports_streaming: bool) -> (result: Result<
    bool,
    StreamingUnsupported,
>)
    ensures
        result == match mode {
            Mode::Auto => Ok(supports_streaming),
            Mode::Stream => if supports_streaming {
                Ok(true)
            } else {
                Err(StreamingUnsupported)
            },
            Mode::Chunked => Ok(false),
        },
{
    let streaming = match mode {
        Mode::Auto => supports_streaming,
        Mode::Stream => true,
        Mode::Chunked => false,
    };
    if streaming && !supports_streaming {
        return Err(StreamingUnsupported);
    }
    Ok(streaming)
}

/// The longest window to run: what the family accepts, or a ceiling where it
/// reports no limit, since an unbounded window would grow through silence.
pub fn max_window_ms(max_audio_ms: i64) -> (max_ms: i64)
    ensures
        max_ms == if max_audio_ms > 0 {
            max_audio_ms
        } else {
            DEFAULT_MAX_WINDOW_MS
        },
        max_ms > 0,
{
    if max_audio_ms > 0 {
        max_audio_ms
    } else {
        DEFAULT_MAX_WINDOW_MS
    }
}

/// The rate to count samples by: what the model reports, and never zero.
pub fn sample_rate(native_sample_rate: i32) -> (rate: i64)
    ensures
        rate == if native_sample_rate >= 1 {
            native_sample_rate as int
        } else {
            1
        },
{
    if native_sample_rate >= 1 {
        native_sample_rate as i64
    } else {
        1
    }
}

impl TimestampKind {
    /// How the kind is spelled where it is reported.
    pub open spec fn spelling(self) -> Seq<char> {
        match self {
            TimestampKind::Untimed => "none"@,
            TimestampKind::Auto => "auto"@,
            TimestampKind::Segment => "segment"@,
            TimestampKind::Word => "word"@,
            TimestampKind::Token => "token"@,
        }
    }

    /// How the kind is spelled where it is reported.
    pub fn name(self) -> (name: &'static str)
        ensures
            name@ == self.spelling(),
    {
        match self {
            TimestampKind::Untimed => "none",
            TimestampKind::Auto => "auto",
            TimestampKind::Segment => "segment",
            TimestampKind::Word => "word",
            TimestampKind::Token => "token",
        }
    }
}

/// What was learned about the model once it was loaded.
#[derive(Debug)]
pub struct ModelInfo {
    pub native_sample_rate: i32,
    pub arch: String,
    pub variant: String,
    pub backend: String,
    pub languages: Vec<String>,
    pub max_audio_ms: i64,
    /// The finest alignment this family will ever emit. `Untimed` means that
    /// spans have to be synthesized from the family's audio progress.
    pub max_timestamp_kind: TimestampKind,
    pub supports_streaming: bool,
    pub supports_translate: bool,
    /// Whether the element ended up streaming, after resolving [`Mode::Auto`].
    pub streaming: bool,
}

/// What the inference thread is told. Audio is in the bit patterns of mono
/// single-precision samples, at the model's native rate.
#[derive(Debug)]
pub enum Cmd {
    Feed(Vec<u32>),
    /// Flush buffered audio, emit the final text, then start a fresh stream.
    Finalize,
    /// Throw away the stream and start over (flush, seek).
    Restart,
    Stop,
}

/// What the inference thread reports.
#[derive(Debug)]
pub enum Ev {
    Ready(ModelInfo),
    /// Newly committed words, in stream-relative milliseconds.
    Words { words: Vec<TimedWord>, is_final: bool },
    /// The volatile suffix, for UI. Never pushed downstream.
    Partial(String),
    /// How far into the stream the family has finalized its decision, in
    /// stream-relative milliseconds. Text is sparse; this is what lets the
    /// element emit gaps instead of nothing.
    Progress { committed_ms: i64 },
    /// Wall-clock cost of one native call against the audio it consumed.
    Compute { compute_ms: u64, audio_ms: u64 },
    /// Answers [`Cmd::Restart`]: everything before it is stale.
    Restarted,
    /// Answers [`Cmd::Finalize`]: the stream is fully drained.
    Drained,
    Error(String),
}

/// What is reported, as a mathematical value.
pub enum Report {
    Words { rows: Seq<commit::Row>, is_final: bool },
    Partial(Seq<char>),
    Progress { committed_ms: i64 },
    Compute { compute_ms: u64, audio_ms: u64 },
    Restarted,
    Drained,
    Error(Seq<char>),
    Ready(ModelInfo),
}

impl View for Ev {
    type V = Report;

    open spec fn view(&self) -> Report {
        match *self {
            Ev::Words { words, is_final } => Report::Words {
                rows: commit::timed_rows(words@),
                is_final,
            },
            Ev::Partial(text) => Report::Partial(text@),
            Ev::Progress { committed_ms } => Report::Progress { committed_ms },
            Ev::Compute { compute_ms, audio_ms } => Report::Compute { compute_ms, audio_ms },
            Ev::Restarted => Report::Restarted,
            Ev::Drained => Report::Drained,
            Ev::Error(text) => Report::Error(text@),
            Ev::Ready(info) => Report::Ready(info),
        }
    }
}

/// Reports as mathematical values.
pub open spec fn reports(events: Seq<Ev>) -> Seq<Report> {
    events.map_values(|event: Ev| event@)
}

/// A drained stream in timeline order.
///
/// Final words precede the final frontier: once downstream receives the
/// progress it is entitled to treat every earlier instant as decided silence.
/// The marker that the stream is drained comes last.
pub open spec fn final_reports(rows: Seq<commit::Row>, drained_ms: i64) -> Seq<Report> {
    seq![
        Report::Words { rows, is_final: true },
        Report::Progress { committed_ms: drained_ms },
        Report::Drained,
    ]
}

/// A drained stream in timeline order: final words, the final frontier, and the
/// marker that the stream is drained.
pub fn final_output(words: Vec<TimedWord>, drained_ms: i64) -> (events: Vec<Ev>)
    ensures
        reports(events@) == final_reports(commit::timed_rows(words@), drained_ms),
{
    let ghost rows = commit::timed_rows(words@);
    let mut events: Vec<Ev> = Vec::new();
    events.push(Ev::Words { words, is_final: true });
    events.push(Ev::Progress { committed_ms: drained_ms });
    events.push(Ev::Drained);
    assert(reports(events@) =~= final_reports(rows, drained_ms));
    events
}

/// Milliseconds of audio in a buffer that is fed, at a rate.
pub fn fed_ms(samples: usize, rate: i64) -> (audio_ms: u64)
    requires
        rate >= 1,
        samples * 1000 <= u64::MAX,
    ensures
        audio_ms == samples as int * 1000 / rate as int,
{
    samples as u64 * 1000 / rate as u64
}

/// What a streaming family reports after it was fed or finalized.
#[derive(Clone, Copy, Debug, PartialEq, Eq, Structural)]
pub struct StreamUpdate {
    pub committed_changed: bool,
    pub tentative_changed: bool,
    pub audio_committed_ms: i64,
    pub input_received_ms: i64,
}

/// How a call into the model ended.
#[derive(Debug)]
pub enum Called<T> {
    Done(T),
    /// It was cancelled: the element is flushing, and a restart is on its way.
    Aborted,
    /// It failed; the text says how.
    Failed(String),
}

/// What to do about a command while streaming.
#[derive(Debug)]
pub enum StreamStep {
    /// Feed audio, so much of it in milliseconds.
    Feed { pcm: Vec<u32>, audio_ms: u64 },
    /// Finalize the stream, and start a fresh one.
    Finalize,
    /// Throw the stream away, and start a fresh one.
    Reset,
    Stop,
}

/// Decide what to do about a command while streaming.
pub fn stream_step(cmd: Cmd, rate: i64) -> (step: StreamStep)
    requires
        rate >= 1,
        cmd matches Cmd::Feed(pcm) ==> pcm@.len() * 1000 <= u64::MAX,
    ensures
        match cmd {
            Cmd::Feed(pcm) => step == (StreamStep::Feed {
                pcm,
                audio_ms: (pcm@.len() as int * 1000 / rate as int) as u64,
            }),
            Cmd::Finalize => step == StreamStep::Finalize,
            Cmd::Restart => step == StreamStep::Reset,
            Cmd::Stop => step == StreamStep::Stop,
        },
{
    match cmd {
        Cmd::Feed(pcm) => {
            let audio_ms: u64 = fed_ms(pcm.len(), rate);
            StreamStep::Feed { pcm, audio_ms }
        },
        Cmd::Finalize => StreamStep::Finalize,
        Cmd::Restart => StreamStep::Reset,
        Cmd::Stop => StreamStep::Stop,
    }
}

/// What to do about a command while running over windows.
#[derive(Debug)]
pub enum ChunkStep {
    /// Enough new audio has come in, so much of it in milliseconds: run over the
    /// window.
    Run { consumed_ms: u64 },
    /// Wait for the next command.
    Wait,
    /// Run over the window for the last time.
    Finalize,
    /// Report this: the window was thrown away.
    Restarted(Vec<Ev>),
    Stop,
}

/// What follows from having fed audio.
#[derive(Debug)]
pub enum Fed {
    /// Nothing.
    Skip,
    /// Report the cost first. Then report what the stream says: look at its text
    /// and its rows where `snapshot`, and at its volatile suffix where
    /// `tentative`.
    Report { cost: Ev, snapshot: bool, tentative: bool },
    /// Stop with an error.
    Fail(String),
}

/// What a stream says once it was finalized.
#[derive(Debug)]
pub struct Finalized {
    pub update: StreamUpdate,
    pub committed: String,
    pub transcript: Transcript,
}

/// One stream of a streaming family: what has been emitted of it.
#[derive(Debug)]
pub struct Streaming {
    tracker: CommitTracker,
}

impl View for Streaming {
    type V = commit::Tracker;

    closed spec fn view(&self) -> commit::Tracker {
        self.tracker@
    }
}

/// Where the timeline may be closed, given what is waiting.
pub open spec fn frontier_of(tracker: commit::Tracker, audio_ms: i64) -> i64 {
    match tracker.pending {
        Some((t0_ms, _)) => if t0_ms < audio_ms {
            t0_ms
        } else {
            audio_ms
        },
        None => audio_ms,
    }
}

/// What is reported after a buffer was fed: new words if there are any, always
/// how far the stream is decided, and the volatile suffix if it changed.
pub open spec fn feed_reports(
    rows: Seq<commit::Row>,
    frontier_ms: i64,
    tentative: Option<Seq<char>>,
) -> Seq<Report> {
    (if rows.len() > 0 {
        seq![Report::Words { rows, is_final: false }]
    } else {
        Seq::empty()
    }) + seq![Report::Progress { committed_ms: frontier_ms }] + (match tentative {
        Some(text) => seq![Report::Partial(text)],
        None => Seq::empty(),
    })
}

impl Streaming {
    /// A fresh stream.
    pub fn new() -> (stream: Self)
        ensures
            stream@ == commit::Tracker::initial(),
    {
        Streaming { tracker: CommitTracker::default() }
    }

    /// Whether the time since the text last grew can be expressed.
    pub fn measurable(&self, audio_committed_ms: i64) -> (measurable: bool)
        ensures
            measurable == self@.settle_fits(audio_committed_ms),
    {
        self.tracker.settle_is_measurable(audio_committed_ms)
    }

    /// Whether the stream's text and rows are to be looked at after a feed: the
    /// committed text changed, or a row is waiting that silence has settled.
    ///
    /// Silence never changes the committed *text*, so without the second the row
    /// held back behind the last spoken word would sit there for the whole
    /// pause, and pin the timeline with it.
    pub fn wants_snapshot(&self, update: &StreamUpdate) -> (wants: bool)
        requires
            !update.committed_changed && self@.pending is Some ==> self@.settle_fits(
                update.audio_committed_ms,
            ),
        ensures
            wants == (update.committed_changed || (self@.pending is Some && self@.has_settled(
                update.audio_committed_ms,
            ))),
    {
        update.committed_changed || self.tracker.pending_is_settled(update.audio_committed_ms)
    }

    /// Audio was fed, at a cost.
    pub fn on_fed(&self, called: &Called<StreamUpdate>, compute_ms: u64, audio_ms: u64) -> (fed:
        Fed)
        requires
            called matches Called::Done(update) ==> (!update.committed_changed && self@.pending
                is Some ==> self@.settle_fits(update.audio_committed_ms)),
        ensures
            match *called {
                Called::Done(update) => {
                    &&& fed matches Fed::Report { cost, snapshot, tentative }
                    &&& cost@ == (Report::Compute { compute_ms, audio_ms })
                    &&& snapshot == (update.committed_changed || (self@.pending is Some
                        && self@.has_settled(update.audio_committed_ms)))
                    &&& tentative == update.tentative_changed
                },
                Called::Aborted => fed == Fed::Skip,
                Called::Failed(error) => fed matches Fed::Fail(text) && text@ == "feed failed: "@
                    + error@,
            },
    {
        match called {
            Called::Done(update) => Fed::Report {
                cost: Ev::Compute { compute_ms, audio_ms },
                snapshot: self.wants_snapshot(update),
                tentative: update.tentative_changed,
            },
            Called::Aborted => Fed::Skip,
            Called::Failed(error) => Fed::Fail(prefixed("feed failed: ", error.as_str())),
        }
    }

    /// The stream was finalized, or that was cancelled. A fresh stream follows.
    pub fn on_finalized(&mut self, called: &Called<Finalized>) -> (result: Result<Vec<Ev>, String>)
        ensures
            match *called {
                Called::Done(found) => {
                    let drained_ms = commit::later(
                        found.update.audio_committed_ms,
                        found.update.input_received_ms,
                    );
                    let rows = commit::finest_rows(found.transcript);
                    result matches Ok(events) && reports(events@) == final_reports(
                        old(self)@.out(found.committed@, rows, drained_ms, true),
                        drained_ms,
                    )
                },
                Called::Aborted => result matches Ok(events) && reports(events@) == seq![
                    Report::Drained,
                ],
                Called::Failed(error) => result matches Err(text) && text@ == "finalize failed: "@
                    + error@,
            },
            final(self)@ == commit::Tracker::initial(),
    {
        let result = match called {
            Called::Done(found) => Ok(
                self.after_finalize(&found.update, found.committed.as_str(), &found.transcript),
            ),
            Called::Aborted => {
                let mut events: Vec<Ev> = Vec::new();
                events.push(Ev::Drained);
                assert(reports(events@) =~= seq![Report::Drained]);
                Ok(events)
            },
            Called::Failed(error) => Err(prefixed("finalize failed: ", error.as_str())),
        };
        self.tracker = CommitTracker::default();
        result
    }

    /// The stream was thrown away. A fresh one follows.
    pub fn on_reset(&mut self) -> (events: Vec<Ev>)
        ensures
            reports(events@) == seq![Report::Restarted],
            final(self)@ == commit::Tracker::initial(),
    {
        self.tracker = CommitTracker::default();
        let mut events: Vec<Ev> = Vec::new();
        events.push(Ev::Restarted);
        assert(reports(events@) =~= seq![Report::Restarted]);
        events
    }

    /// What to report after a feed, in order. `snapshot` is the committed text
    /// and the timed rows, where they were asked for; `tentative` is the
    /// volatile suffix, where it changed.
    pub fn after_feed(
        &mut self,
        update: &StreamUpdate,
        snapshot: Option<(&str, &Transcript)>,
        tentative: Option<String>,
    ) -> (events: Vec<Ev>)
        requires
            snapshot matches Some((committed, _)) ==> (update.audio_committed_ms > 0 ==> old(
                self,
            )@.observing(committed@, update.audio_committed_ms).settle_fits(
                update.audio_committed_ms,
            )),
        ensures
            ({
                let audio_ms = update.audio_committed_ms;
                let (after, rows) = match snapshot {
                    Some((committed, transcript)) => {
                        let found = commit::finest_rows(*transcript);
                        (
                            old(self)@.after(committed@, found, audio_ms, false),
                            old(self)@.out(committed@, found, audio_ms, false),
                        )
                    },
                    None => (old(self)@, Seq::<commit::Row>::empty()),
                };
                &&& final(self)@ == after
                &&& reports(events@) == feed_reports(
                    rows,
                    frontier_of(after, audio_ms),
                    match tentative {
                        Some(text) => Some(text@),
                        None => None,
                    },
                )
            }),
    {
        let mut events: Vec<Ev> = Vec::new();
        if let Some((committed, transcript)) = snapshot {
            let rows = units(transcript);
            let words = self.tracker.take_new(
                committed,
                rows.as_slice(),
                update.audio_committed_ms,
            );
            if words.len() > 0 {
                events.push(Ev::Words { words, is_final: false });
            }
        }
        // Text is sparse; the timeline is not. Report how far the stream is
        // decided so the gap can be closed even when nobody is speaking.
        let committed_ms: i64 = self.tracker.frontier(update.audio_committed_ms);
        events.push(Ev::Progress { committed_ms });
        if let Some(text) = tentative {
            events.push(Ev::Partial(text));
        }
        proof {
            let audio_ms = update.audio_committed_ms;
            let rows = match snapshot {
                Some((committed, transcript)) => old(self)@.out(
                    committed@,
                    commit::finest_rows(*transcript),
                    audio_ms,
                    false,
                ),
                None => Seq::<commit::Row>::empty(),
            };
            assert(reports(events@) =~= feed_reports(
                rows,
                frontier_of(self@, audio_ms),
                match tentative {
                    Some(text) => Some(text@),
                    None => None,
                },
            ));
        }
        events
    }

    /// What to report once the stream was finalized. All the audio is consumed
    /// by then, so the drain point is what gives the last row a real duration.
    pub fn after_finalize(
        &mut self,
        update: &StreamUpdate,
        committed: &str,
        transcript: &Transcript,
    ) -> (events: Vec<Ev>)
        ensures
            ({
                let drained_ms = commit::later(
                    update.audio_committed_ms,
                    update.input_received_ms,
                );
                let rows = commit::finest_rows(*transcript);
                &&& final(self)@ == old(self)@.after(committed@, rows, drained_ms, true)
                &&& reports(events@) == final_reports(
                    old(self)@.out(committed@, rows, drained_ms, true),
                    drained_ms,
                )
            }),
    {
        let drained_ms: i64 = if update.audio_committed_ms >= update.input_received_ms {
            update.audio_committed_ms
        } else {
            update.input_received_ms
        };
        let rows = units(transcript);
        let words = self.tracker.take_final(committed, rows.as_slice(), drained_ms);
        final_output(words, drained_ms)
    }
}

/// Sliding-window offline inference, for families without a streaming path.
///
/// The window always begins exactly where the last emitted text ended.
/// Re-transcribing audio that already gave text would let the model segment it
/// differently the second time, and a row straddling the boundary would then be
/// silently lost. A row extending past the live edge is withheld, and the next
/// run simply sees a longer window.
#[derive(Debug)]
pub struct Window {
    pub samples: Vec<u32>,
    /// How far this window proves nothing more will be emitted, so the timeline
    /// can be closed over silence.
    pub frontier_ms: i64,
    /// Stream-relative time of the first sample.
    pub start_ms: i64,
    /// End of the last row emitted; the low water mark for new text.
    pub emitted_up_to_ms: i64,
    pub pending_ms: i64,
    pub rate: i64,
    /// Longest window the family accepts in one run.
    pub max_ms: i64,
}

/// Milliseconds that samples take at a rate.
pub open spec fn ms_of(samples: int, rate: i64) -> int {
    samples * 1000 / rate as int
}

/// Samples that milliseconds take at a rate.
pub open spec fn samples_of(ms: int, rate: i64) -> int {
    (if ms > 0 {
        ms
    } else {
        0
    }) * rate / 1000
}

/// Harvest so far: what went out, up to where, and what is withheld from where.
pub struct Harvest {
    pub out: Seq<commit::Row>,
    pub emitted_up_to_ms: i64,
    pub withheld_from_ms: Option<i64>,
}

/// What one more row adds to a harvest. Blank rows carry nothing; a row past
/// the cutoff is withheld; a row that starts before the watermark is old.
pub open spec fn harvest_one(
    harvest: Harvest,
    row: commit::Row,
    start_ms: i64,
    cutoff: i64,
) -> Harvest {
    let t0_ms = (start_ms + row.t0_ms) as i64;
    let t1_ms = commit::later((start_ms + row.t1_ms) as i64, t0_ms);
    if commit::is_blank_text(row.text) {
        harvest
    } else if t1_ms > cutoff {
        Harvest {
            withheld_from_ms: Some(
                match harvest.withheld_from_ms {
                    Some(from_ms) => if from_ms < t0_ms {
                        from_ms
                    } else {
                        t0_ms
                    },
                    None => t0_ms,
                },
            ),
            ..harvest
        }
    } else if t0_ms < harvest.emitted_up_to_ms {
        harvest
    } else {
        Harvest {
            out: harvest.out.push(
                commit::Row { text: text::trimmed(row.text), t0_ms, t1_ms },
            ),
            emitted_up_to_ms: t1_ms,
            ..harvest
        }
    }
}

/// What rows give, one after another.
pub open spec fn harvest_all(
    rows: Seq<commit::Row>,
    start_ms: i64,
    emitted_up_to_ms: i64,
    cutoff: i64,
) -> Harvest
    decreases rows.len(),
{
    if rows.len() == 0 {
        Harvest { out: Seq::empty(), emitted_up_to_ms, withheld_from_ms: None }
    } else {
        harvest_one(
            harvest_all(rows.drop_last(), start_ms, emitted_up_to_ms, cutoff),
            rows.last(),
            start_ms,
            cutoff,
        )
    }
}

/// Whether the times of a row with text can be expressed in the stream.
pub open spec fn row_fits(row: commit::Row, start_ms: i64) -> bool {
    !commit::is_blank_text(row.text) ==> i64::MIN <= start_ms + row.t0_ms <= i64::MAX && i64::MIN
        <= start_ms + row.t1_ms <= i64::MAX
}

/// Whether the times of all rows can be expressed in the stream.
pub open spec fn rows_fit(rows: Seq<commit::Row>, start_ms: i64) -> bool {
    forall|i: int| 0 <= i < rows.len() ==> row_fits(#[trigger] rows[i], start_ms)
}

impl Window {
    /// Milliseconds of audio in the window.
    pub open spec fn length_ms(self) -> int {
        ms_of(self.samples@.len() as int, self.rate)
    }

    /// Stream-relative time behind the last sample.
    pub open spec fn spec_end_ms(self) -> int {
        self.start_ms + self.length_ms()
    }

    /// What every window keeps, so that its times can be expressed.
    pub open spec fn wf(self) -> bool {
        &&& self.rate >= 1
        &&& self.samples@.len() * 1000 <= i64::MAX
        &&& i64::MIN <= self.spec_end_ms() <= i64::MAX
        &&& self.max_ms >= 0
    }

    /// Where new text stops being stable.
    pub open spec fn cutoff(self, live_edge_offset_ms: i64, drain: bool) -> i64 {
        if drain {
            i64::MAX
        } else {
            (self.spec_end_ms() - live_edge_offset_ms) as i64
        }
    }

    /// The window without text, from a time on.
    pub open spec fn cleared(self, at_ms: i64) -> Window {
        Window {
            samples: self.samples,
            frontier_ms: at_ms,
            start_ms: at_ms,
            emitted_up_to_ms: at_ms,
            pending_ms: 0,
            ..self
        }
    }

    /// What a transcript of the window gives.
    pub open spec fn harvest_out(
        self,
        transcript: Transcript,
        live_edge_offset_ms: i64,
        drain: bool,
    ) -> Seq<commit::Row> {
        let rows = commit::finest_rows(transcript);
        let whole = text::trimmed(transcript.text@);
        if rows.len() > 0 {
            harvest_all(
                rows,
                self.start_ms,
                self.emitted_up_to_ms,
                self.cutoff(live_edge_offset_ms, drain),
            ).out
        } else if whole.len() == 0 || !drain {
            Seq::empty()
        } else {
            let t0_ms = commit::later(self.emitted_up_to_ms, self.start_ms);
            seq![
                commit::Row {
                    text: whole,
                    t0_ms,
                    t1_ms: commit::later(self.spec_end_ms() as i64, t0_ms),
                },
            ]
        }
    }

    /// The window's watermark and frontier after a transcript of it.
    ///
    /// A window in which the model found nothing is silence, and is advanced
    /// past. Text without alignment is only safe to emit at the end. Otherwise
    /// the timeline is closeable up to the live edge, or to the first row that
    /// waits for a longer window.
    pub open spec fn harvest_marks(
        self,
        transcript: Transcript,
        live_edge_offset_ms: i64,
        drain: bool,
    ) -> (i64, i64) {
        let rows = commit::finest_rows(transcript);
        let whole = text::trimmed(transcript.text@);
        let cutoff = self.cutoff(live_edge_offset_ms, drain);
        if rows.len() > 0 {
            let harvest = harvest_all(rows, self.start_ms, self.emitted_up_to_ms, cutoff);
            let limit = match harvest.withheld_from_ms {
                Some(from_ms) => if from_ms < cutoff {
                    from_ms
                } else {
                    cutoff
                },
                None => cutoff,
            };
            (
                harvest.emitted_up_to_ms,
                if drain {
                    self.frontier_ms
                } else {
                    commit::later(self.frontier_ms, limit)
                },
            )
        } else if whole.len() == 0 {
            if drain {
                (self.emitted_up_to_ms, self.frontier_ms)
            } else {
                (
                    commit::later(self.emitted_up_to_ms, cutoff),
                    commit::later(self.frontier_ms, cutoff),
                )
            }
        } else if !drain {
            (self.emitted_up_to_ms, self.frontier_ms)
        } else {
            let t0_ms = commit::later(self.emitted_up_to_ms, self.start_ms);
            (commit::later(self.spec_end_ms() as i64, t0_ms), self.frontier_ms)
        }
    }

    /// How much audio a trim drops: what text was emitted for, and whatever
    /// exceeds the longest window.
    pub open spec fn trim_ms(self) -> int {
        let emitted = if self.emitted_up_to_ms > self.start_ms {
            self.emitted_up_to_ms - self.start_ms
        } else {
            0
        };
        if self.length_ms() - emitted > self.max_ms {
            self.length_ms() - self.max_ms
        } else {
            emitted
        }
    }

    /// How many samples a trim drops.
    pub open spec fn trim_samples(self) -> int {
        let wanted = samples_of(self.trim_ms(), self.rate);
        if wanted < self.samples@.len() {
            wanted
        } else {
            self.samples@.len() as int
        }
    }

    /// An empty window at the start of a stream.
    pub fn new(rate: i64, max_ms: i64) -> (window: Self)
        ensures
            window.samples@.len() == 0,
            window.start_ms == 0,
            window.emitted_up_to_ms == 0,
            window.frontier_ms == 0,
            window.pending_ms == 0,
            window.rate == rate,
            window.max_ms == max_ms,
            rate >= 1 && max_ms >= 0 ==> window.wf(),
    {
        Window {
            samples: Vec::new(),
            frontier_ms: 0,
            start_ms: 0,
            emitted_up_to_ms: 0,
            pending_ms: 0,
            rate,
            max_ms,
        }
    }

    /// Milliseconds that samples take at the window's rate.
    pub fn samples_to_ms(&self, samples: usize) -> (ms: i64)
        requires
            self.rate >= 1,
            samples * 1000 <= i64::MAX,
        ensures
            ms == ms_of(samples as int, self.rate),
    {
        samples as i64 * 1000 / self.rate
    }

    /// Samples that milliseconds take at the window's rate.
    fn ms_to_samples(&self, ms: i64) -> (samples: usize)
        requires
            self.rate >= 1,
            0 <= samples_of(ms as int, self.rate) <= usize::MAX,
            (if ms > 0 {
                ms as int
            } else {
                0
            }) * self.rate <= i64::MAX,
        ensures
            samples == samples_of(ms as int, self.rate),
    {
        let ms: i64 = if ms > 0 {
            ms
        } else {
            0
        };
        proof {
            assert(0 <= ms * self.rate) by (nonlinear_arith)
                requires
                    ms >= 0,
                    self.rate >= 1,
            ;
        }
        (ms * self.rate / 1000) as usize
    }

    /// Take in audio.
    pub fn push(&mut self, pcm: &[u32])
        requires
            old(self).rate >= 1,
            pcm@.len() * 1000 <= i64::MAX,
            old(self).pending_ms + ms_of(pcm@.len() as int, old(self).rate) <= i64::MAX,
        ensures
            final(self).samples@ == old(self).samples@ + pcm@,
            final(self).pending_ms == old(self).pending_ms + ms_of(
                pcm@.len() as int,
                old(self).rate,
            ),
            *final(self) == (Window {
                samples: final(self).samples,
                pending_ms: final(self).pending_ms,
                ..*old(self)
            }),
    {
        proof {
            length_is_not_negative(pcm@.len() as int, self.rate);
        }
        self.pending_ms = self.pending_ms + self.samples_to_ms(pcm.len());
        self.samples.extend_from_slice(pcm);
    }

    /// Stream-relative time behind the last sample.
    pub fn end_ms(&self) -> (end: i64)
        requires
            self.wf(),
        ensures
            end == self.spec_end_ms(),
    {
        self.start_ms + self.samples_to_ms(self.samples.len())
    }

    /// Whether the times that a transcript of the window gives can be expressed.
    pub fn harvest_fits(&self, transcript: &Transcript, live_edge_offset_ms: i64) -> (fits: bool)
        requires
            self.wf(),
        ensures
            fits == (rows_fit(commit::finest_rows(*transcript), self.start_ms) && i64::MIN
                <= self.spec_end_ms() - live_edge_offset_ms <= i64::MAX),
    {
        if self.end_ms().checked_sub(live_edge_offset_ms).is_none() {
            return false;
        }
        let rows = units(transcript);
        let ghost views = commit::unit_rows(rows@);
        let mut index: usize = 0;
        while index < rows.len()
            invariant
                index <= rows@.len(),
                views == commit::unit_rows(rows@),
                views == commit::finest_rows(*transcript),
                forall|i: int| 0 <= i < index ==> row_fits(#[trigger] views[i], self.start_ms),
            decreases rows@.len() - index,
        {
            let row = &rows[index];
            assert(views[index as int] == row@);
            if !trim(row.text.as_str()).is_empty() && (self.start_ms.checked_add(
                row.t0_ms,
            ).is_none() || self.start_ms.checked_add(row.t1_ms).is_none()) {
                assert(!row_fits(views[index as int], self.start_ms));
                return false;
            }
            index = index + 1;
        }
        true
    }

    /// Rows from `transcript` that are new and stable enough to emit.
    pub fn harvest(
        &mut self,
        transcript: &Transcript,
        live_edge_offset_ms: i64,
        drain: bool,
    ) -> (words: Vec<TimedWord>)
        requires
            old(self).wf(),
            rows_fit(commit::finest_rows(*transcript), old(self).start_ms),
            !drain ==> i64::MIN <= old(self).spec_end_ms() - live_edge_offset_ms <= i64::MAX,
        ensures
            commit::timed_rows(words@) == old(self).harvest_out(
                *transcript,
                live_edge_offset_ms,
                drain,
            ),
            (final(self).emitted_up_to_ms, final(self).frontier_ms) == old(self).harvest_marks(
                *transcript,
                live_edge_offset_ms,
                drain,
            ),
            *final(self) == (Window {
                emitted_up_to_ms: final(self).emitted_up_to_ms,
                frontier_ms: final(self).frontier_ms,
                ..*old(self)
            }),
            final(self).wf(),
    {
        let ghost before = *self;
        let cutoff: i64 = if drain {
            i64::MAX
        } else {
            self.end_ms() - live_edge_offset_ms
        };
        let rows = units(transcript);
        let whole = trim(transcript.text.as_str());
        let mut out: Vec<TimedWord> = Vec::new();
        assert(commit::timed_rows(out@) =~= Seq::empty());

        if rows.len() == 0 && whole.is_empty() {
            // The model found nothing at all in this window: silence. Advance
            // past it rather than carrying it forward, or the next phrase would
            // come back as one row stretching from where the silence began.
            if !drain {
                if cutoff > self.emitted_up_to_ms {
                    self.emitted_up_to_ms = cutoff;
                }
                if cutoff > self.frontier_ms {
                    self.frontier_ms = cutoff;
                }
            }
            return out;
        }
        if rows.len() == 0 {
            // Text but no alignment. Only safe to emit on drain, where nothing
            // is left to re-transcribe and therefore nothing to duplicate.
            if !drain {
                return out;
            }
            let t0_ms: i64 = if self.emitted_up_to_ms >= self.start_ms {
                self.emitted_up_to_ms
            } else {
                self.start_ms
            };
            let end: i64 = self.end_ms();
            let t1_ms: i64 = if end >= t0_ms {
                end
            } else {
                t0_ms
            };
            self.emitted_up_to_ms = t1_ms;
            out.push(TimedWord { text: whole.to_owned(), t0_ms, t1_ms });
            assert(commit::timed_rows(out@) =~= before.harvest_out(
                *transcript,
                live_edge_offset_ms,
                drain,
            ));
            return out;
        }

        let ghost views = commit::unit_rows(rows@);
        let mut withheld_from_ms: Option<i64> = None;
        let mut index: usize = 0;
        assert(views.take(0) =~= Seq::empty());
        while index < rows.len()
            invariant
                index <= rows@.len(),
                views == commit::unit_rows(rows@),
                rows_fit(views, before.start_ms),
                ({
                    let so_far = harvest_all(
                        views.take(index as int),
                        before.start_ms,
                        before.emitted_up_to_ms,
                        cutoff,
                    );
                    &&& commit::timed_rows(out@) == so_far.out
                    &&& self.emitted_up_to_ms == so_far.emitted_up_to_ms
                    &&& withheld_from_ms == so_far.withheld_from_ms
                }),
                *self == (Window { emitted_up_to_ms: self.emitted_up_to_ms, ..before }),
            decreases rows@.len() - index,
        {
            let row = &rows[index];
            proof {
                assert(views[index as int] == row@);
                assert(row_fits(views[index as int], before.start_ms));
                assert(views.take(index + 1).drop_last() =~= views.take(index as int));
                assert(views.take(index + 1).last() == row@);
            }
            let text = trim(row.text.as_str());
            if !text.is_empty() {
                let t0_ms: i64 = self.start_ms + row.t0_ms;
                let stop_ms: i64 = self.start_ms + row.t1_ms;
                let t1_ms: i64 = if stop_ms >= t0_ms {
                    stop_ms
                } else {
                    t0_ms
                };
                if t1_ms > cutoff {
                    // Runs past the live edge, so it is retried against a longer
                    // window next time. The timeline cannot be closed over it.
                    withheld_from_ms = Some(
                        match withheld_from_ms {
                            Some(from_ms) => if from_ms < t0_ms {
                                from_ms
                            } else {
                                t0_ms
                            },
                            None => t0_ms,
                        },
                    );
                } else if t0_ms >= self.emitted_up_to_ms {
                    self.emitted_up_to_ms = t1_ms;
                    let ghost so_far = commit::timed_rows(out@);
                    out.push(TimedWord { text: text.to_owned(), t0_ms, t1_ms });
                    assert(commit::timed_rows(out@) =~= so_far.push(
                        commit::Row { text: text@, t0_ms, t1_ms },
                    ));
                }
            }
            index = index + 1;
        }
        assert(views.take(rows@.len() as int) =~= views);

        // Everything up to the live edge has now been considered. Only a row
        // still waiting for a longer window can be emitted below that.
        if !drain {
            let limit: i64 = match withheld_from_ms {
                Some(from_ms) => if from_ms < cutoff {
                    from_ms
                } else {
                    cutoff
                },
                None => cutoff,
            };
            if limit > self.frontier_ms {
                self.frontier_ms = limit;
            }
        }
        out
    }

    /// Drop audio that text was already emitted for.
    ///
    /// If nothing was emitted the window keeps growing, so it is also
    /// force-trimmed to the longest window the family accepts. Returns how much
    /// was dropped that way, in milliseconds.
    pub fn trim(&mut self) -> (forced_ms: i64)
        requires
            old(self).wf(),
            old(self).emitted_up_to_ms - old(self).start_ms <= i64::MAX,
            old(self).trim_ms() * old(self).rate <= i64::MAX,
            samples_of(old(self).trim_ms(), old(self).rate) <= usize::MAX,
        ensures
            ({
                let drop = old(self).trim_samples();
                let start_ms = (old(self).start_ms + ms_of(drop, old(self).rate)) as i64;
                &&& final(self).samples@ == old(self).samples@.skip(drop)
                &&& *final(self) == (Window {
                    samples: final(self).samples,
                    start_ms,
                    emitted_up_to_ms: if drop == 0 {
                        old(self).emitted_up_to_ms
                    } else {
                        commit::later(old(self).emitted_up_to_ms, start_ms)
                    },
                    ..*old(self)
                })
            }),
            forced_ms == if old(self).trim_ms() > old(self).emitted_up_to_ms - old(self).start_ms
                && old(self).trim_ms() > 0 {
                old(self).trim_ms() - (if old(self).emitted_up_to_ms > old(self).start_ms {
                    old(self).emitted_up_to_ms - old(self).start_ms
                } else {
                    0
                })
            } else {
                0
            },
    {
        let ghost before = *self;
        proof {
            length_is_not_negative(self.samples@.len() as int, self.rate);
        }
        let mut drop_ms: i64 = if self.emitted_up_to_ms > self.start_ms {
            self.emitted_up_to_ms - self.start_ms
        } else {
            0
        };
        let mut forced_ms: i64 = 0;
        let length_ms: i64 = self.samples_to_ms(self.samples.len());
        if length_ms - drop_ms > self.max_ms {
            forced_ms = length_ms - drop_ms - self.max_ms;
            drop_ms = drop_ms + forced_ms;
        }
        assert(drop_ms == before.trim_ms());
        proof {
            samples_are_not_negative(drop_ms as int, self.rate);
        }
        let wanted: usize = self.ms_to_samples(drop_ms);
        let drop: usize = if wanted < self.samples.len() {
            wanted
        } else {
            self.samples.len()
        };
        assert(drop == before.trim_samples());
        if drop == 0 {
            assert(self.samples@.skip(0) =~= self.samples@);
            proof {
                length_is_not_negative(0, self.rate);
            }
            return forced_ms;
        }
        proof {
            lengths_grow(drop as int, self.samples@.len() as int, self.rate);
            length_is_not_negative(drop as int, self.rate);
        }
        let kept = self.samples.split_off(drop);
        assert(kept@ =~= before.samples@.skip(drop as int));
        self.samples = kept;
        self.start_ms = self.start_ms + self.samples_to_ms(drop);
        // Nothing before the window start can ever be emitted now.
        if self.start_ms > self.emitted_up_to_ms {
            self.emitted_up_to_ms = self.start_ms;
        }
        forced_ms
    }

    /// Forget the audio and start over at a time. Nothing is proven beyond it.
    pub fn clear(&mut self, at_ms: i64)
        ensures
            final(self).samples@.len() == 0,
            *final(self) == (Window { samples: final(self).samples, ..old(self).cleared(at_ms) }),
    {
        self.samples.clear();
        self.start_ms = at_ms;
        self.emitted_up_to_ms = at_ms;
        self.frontier_ms = at_ms;
        self.pending_ms = 0;
    }
}

proof fn length_is_not_negative(samples: int, rate: i64)
    requires
        samples >= 0,
        rate >= 1,
    ensures
        0 <= ms_of(samples, rate) <= samples * 1000,
{
    assert(0 <= samples * 1000 / rate as int <= samples * 1000) by (nonlinear_arith)
        requires
            samples >= 0,
            rate >= 1,
    ;
}

proof fn samples_are_not_negative(ms: int, rate: i64)
    requires
        rate >= 1,
    ensures
        0 <= samples_of(ms, rate),
{
    let positive = if ms > 0 {
        ms
    } else {
        0
    };
    assert(0 <= positive * rate) by (nonlinear_arith)
        requires
            positive >= 0,
            rate >= 1,
    ;
}

proof fn lengths_grow(fewer: int, more: int, rate: i64)
    requires
        0 <= fewer <= more,
        rate >= 1,
    ensures
        ms_of(fewer, rate) <= ms_of(more, rate),
{
    assert(fewer * 1000 / rate as int <= more * 1000 / rate as int) by (nonlinear_arith)
        requires
            0 <= fewer <= more,
            rate >= 1,
    ;
}

/// A part of the audio and the rest of it are no more than a millisecond short
/// of the whole: each is rounded down.
proof fn lengths_split(front: int, back: int, rate: i64)
    requires
        0 <= front,
        0 <= back,
        rate >= 1,
    ensures
        ms_of(front, rate) + ms_of(back, rate) <= ms_of(front + back, rate) <= ms_of(front, rate)
            + ms_of(back, rate) + 1,
{
    let a = front * 1000;
    let b = back * 1000;
    let r = rate as int;
    let p = a / r;
    let q = b / r;
    assert((front + back) * 1000 == a + b);
    assert(r * p <= a < r * p + r) by (nonlinear_arith)
        requires
            p == a / r,
            r >= 1,
    ;
    assert(r * q <= b < r * q + r) by (nonlinear_arith)
        requires
            q == b / r,
            r >= 1,
    ;
    let whole = (a + b) / r;
    assert(r * whole <= a + b < r * whole + r) by (nonlinear_arith)
        requires
            whole == (a + b) / r,
            r >= 1,
    ;
    assert(p + q < whole + 1) by (nonlinear_arith)
        requires
            r * p + r * q < r * whole + r,
            r >= 1,
    ;
    assert(whole < p + q + 2) by (nonlinear_arith)
        requires
            r * whole < r * p + r * q + r + r,
            r >= 1,
    ;
}

/// Samples and milliseconds convert back and forth within the rounding.
proof fn conversions_bound(samples: int, rate: i64)
    requires
        0 <= samples,
        rate >= 1,
    ensures
        ms_of(samples, rate) * rate <= samples * 1000 < (ms_of(samples, rate) + 1) * rate,
{
    let a = samples * 1000;
    let r = rate as int;
    let p = a / r;
    assert(p * r <= a < (p + 1) * r) by (nonlinear_arith)
        requires
            p == a / r,
            r >= 1,
    ;
}

impl Window {
    /// What a window keeps from one command to the next: its watermark is at most
    /// a rounding ahead of its audio, and its sizes stay in range.
    pub open spec fn steady(self) -> bool {
        &&& self.wf()
        &&& self.rate <= i32::MAX
        &&& self.start_ms >= 0
        &&& self.pending_ms >= 0
        &&& self.emitted_up_to_ms <= self.spec_end_ms() + 1
        &&& self.samples@.len() <= isize::MAX / 4
        &&& self.samples@.len() * 1000 + self.rate <= i64::MAX
        &&& self.spec_end_ms() < i64::MAX
    }

    /// Whether a steady window can take in `count` more samples.
    pub open spec fn takes(self, count: int) -> bool {
        let total = self.samples@.len() + count;
        &&& total <= isize::MAX / 4
        &&& total * 1000 + self.rate <= i64::MAX
        &&& self.start_ms + total * 1000 < i64::MAX
        &&& self.pending_ms + count * 1000 <= i64::MAX
    }

    /// Whether a steady window can take in `count` more samples.
    pub fn can_take(&self, count: usize) -> (can: bool)
        requires
            self.steady(),
        ensures
            can == self.takes(count as int),
    {
        if count > isize::MAX as usize / 4 {
            return false;
        }
        let total: u64 = self.samples.len() as u64 + count as u64;
        if total > isize::MAX as u64 / 4 || total > (i64::MAX as u64 - self.rate as u64) / 1000 {
            return false;
        }
        total * 1000 < (i64::MAX - self.start_ms) as u64 && count as u64 * 1000 <= (i64::MAX
            - self.pending_ms) as u64
    }

    /// Take in audio, and decide whether to run over the window: once enough new
    /// audio has come in. Returns how much that is, in milliseconds.
    pub fn feed(&mut self, pcm: &[u32], chunk_ms: i64) -> (run_over: Option<u64>)
        requires
            old(self).steady(),
            old(self).takes(pcm@.len() as int),
        ensures
            ({
                let new_ms = old(self).pending_ms + ms_of(pcm@.len() as int, old(self).rate);
                &&& run_over == if new_ms < chunk_ms {
                    None
                } else {
                    Some(new_ms as u64)
                }
                &&& final(self).pending_ms == if new_ms < chunk_ms {
                    new_ms
                } else {
                    0
                }
            }),
            final(self).samples@ == old(self).samples@ + pcm@,
            *final(self) == (Window {
                samples: final(self).samples,
                pending_ms: final(self).pending_ms,
                ..*old(self)
            }),
            final(self).steady(),
    {
        proof {
            length_is_not_negative(pcm@.len() as int, self.rate);
            length_is_not_negative((self.samples@.len() + pcm@.len()) as int, self.rate);
            lengths_grow(
                self.samples@.len() as int,
                (self.samples@.len() + pcm@.len()) as int,
                self.rate,
            );
        }
        self.push(pcm);
        if self.pending_ms < chunk_ms {
            return None;
        }
        let consumed: u64 = self.pending_ms as u64;
        self.pending_ms = 0;
        Some(consumed)
    }

    /// Whether there is any audio to run over.
    pub fn has_audio(&self) -> (has: bool)
        ensures
            has == (self.samples@.len() > 0),
    {
        self.samples.len() > 0
    }

    /// The rows that a run over the window gives, where there was one.
    pub open spec fn rows_of(self, transcript: Option<Transcript>, live_edge_offset_ms: i64) -> Seq<
        commit::Row,
    > {
        match transcript {
            Some(found) => self.harvest_out(found, live_edge_offset_ms, false),
            None => Seq::empty(),
        }
    }

    /// The window once a run over it was harvested, before it is trimmed.
    pub open spec fn harvested(
        self,
        transcript: Option<Transcript>,
        live_edge_offset_ms: i64,
    ) -> Window {
        match transcript {
            Some(found) => {
                let marks = self.harvest_marks(found, live_edge_offset_ms, false);
                Window { emitted_up_to_ms: marks.0, frontier_ms: marks.1, ..self }
            },
            None => self,
        }
    }

    /// What to report after a run over the window, in order: new words if there
    /// are any, and how far the timeline is closed. An empty window is not run
    /// over, and has no transcript.
    pub fn after_run(&mut self, transcript: Option<&Transcript>, live_edge_offset_ms: i64) -> (
        events: Vec<Ev>)
        requires
            old(self).steady(),
            live_edge_offset_ms >= 0,
            transcript matches Some(found) ==> rows_fit(
                commit::finest_rows(*found),
                old(self).start_ms,
            ),
        ensures
            ({
                let (rows, marks) = match transcript {
                    Some(found) => (
                        old(self).harvest_out(*found, live_edge_offset_ms, false),
                        old(self).harvest_marks(*found, live_edge_offset_ms, false),
                    ),
                    None => (
                        Seq::<commit::Row>::empty(),
                        (old(self).emitted_up_to_ms, old(self).frontier_ms),
                    ),
                };
                let harvested = Window {
                    emitted_up_to_ms: marks.0,
                    frontier_ms: marks.1,
                    ..*old(self)
                };
                let drop = harvested.trim_samples();
                &&& reports(events@) == feed_reports(rows, marks.1, None)
                &&& final(self).samples@ == old(self).samples@.skip(drop)
                &&& final(self).start_ms == old(self).start_ms + ms_of(drop, old(self).rate)
                &&& final(self).emitted_up_to_ms == if drop == 0 {
                    marks.0
                } else {
                    commit::later(marks.0, final(self).start_ms)
                }
                &&& final(self).frontier_ms == marks.1
                &&& final(self).pending_ms == old(self).pending_ms
                &&& final(self).rate == old(self).rate && final(self).max_ms == old(self).max_ms
            }),
            final(self).steady(),
    {
        let ghost before = *self;
        let mut events: Vec<Ev> = Vec::new();
        proof {
            length_is_not_negative(self.samples@.len() as int, self.rate);
        }
        if let Some(found) = transcript {
            let words = self.harvest(found, live_edge_offset_ms, false);
            proof {
                harvest_stays_below(
                    commit::finest_rows(*found),
                    before.start_ms,
                    before.emitted_up_to_ms,
                    before.cutoff(live_edge_offset_ms, false),
                );
            }
            if words.len() > 0 {
                events.push(Ev::Words { words, is_final: false });
            }
        }
        let ghost harvested = *self;
        let ghost sent = reports(events@);
        proof {
            trimming_fits(harvested);
        }
        self.trim();
        proof {
            trimming_stays_steady(harvested, *self);
        }
        events.push(Ev::Progress { committed_ms: self.frontier_ms });
        assert(reports(events@) =~= sent.push(
            Report::Progress { committed_ms: harvested.frontier_ms },
        ));
        proof {
            let rows = match transcript {
                Some(found) => before.harvest_out(*found, live_edge_offset_ms, false),
                None => Seq::<commit::Row>::empty(),
            };
            assert(reports(events@) =~= feed_reports(rows, harvested.frontier_ms, None));
        }
        events
    }

    /// What to report once the window was run over for the last time, or where
    /// that run was aborted and gave no transcript. The timeline goes on behind
    /// the audio.
    pub fn after_final_run(&mut self, transcript: Option<&Transcript>, live_edge_offset_ms: i64)
        -> (events: Vec<Ev>)
        requires
            old(self).steady(),
            transcript matches Some(found) ==> rows_fit(
                commit::finest_rows(*found),
                old(self).start_ms,
            ),
        ensures
            ({
                let end = old(self).spec_end_ms() as i64;
                let rows = match transcript {
                    Some(found) => old(self).harvest_out(*found, live_edge_offset_ms, true),
                    None => Seq::<commit::Row>::empty(),
                };
                &&& reports(events@) == final_reports(rows, end)
                &&& final(self).samples@.len() == 0
                &&& *final(self) == (Window {
                    samples: final(self).samples,
                    ..old(self).cleared(end)
                })
            }),
            final(self).steady(),
    {
        let ghost before = *self;
        let mut words: Vec<TimedWord> = Vec::new();
        assert(commit::timed_rows(words@) =~= Seq::empty());
        if let Some(found) = transcript {
            words = self.harvest(found, live_edge_offset_ms, true);
        }
        let drained_ms: i64 = self.end_ms();
        let events = final_output(words, drained_ms);
        proof {
            length_is_not_negative(before.samples@.len() as int, before.rate);
            length_is_not_negative(0, before.rate);
        }
        self.clear(drained_ms);
        events
    }

    /// A chunk was run over, or that was cancelled, at a cost for so much new
    /// audio: report the cost, then new words if there are any, and how far the
    /// timeline is closed. A cancelled run leaves the window as it is, and so
    /// does a failed one.
    pub fn on_run(
        &mut self,
        called: &Called<Option<Transcript>>,
        compute_ms: u64,
        consumed_ms: u64,
        live_edge_offset_ms: i64,
    ) -> (result: Result<Vec<Ev>, String>)
        requires
            old(self).steady(),
            live_edge_offset_ms >= 0,
            called matches Called::Done(Some(found)) ==> rows_fit(
                commit::finest_rows(*found),
                old(self).start_ms,
            ),
        ensures
            match *called {
                Called::Done(transcript) => {
                    let harvested = old(self).harvested(transcript, live_edge_offset_ms);
                    let drop = harvested.trim_samples();
                    &&& result matches Ok(events) && reports(events@) == seq![
                        Report::Compute { compute_ms, audio_ms: consumed_ms },
                    ] + feed_reports(
                        old(self).rows_of(transcript, live_edge_offset_ms),
                        harvested.frontier_ms,
                        None,
                    )
                    &&& final(self).samples@ == old(self).samples@.skip(drop)
                    &&& final(self).start_ms == old(self).start_ms + ms_of(drop, old(self).rate)
                    &&& final(self).emitted_up_to_ms == if drop == 0 {
                        harvested.emitted_up_to_ms
                    } else {
                        commit::later(harvested.emitted_up_to_ms, final(self).start_ms)
                    }
                    &&& final(self).frontier_ms == harvested.frontier_ms
                    &&& final(self).pending_ms == old(self).pending_ms
                    &&& final(self).rate == old(self).rate && final(self).max_ms == old(
                        self,
                    ).max_ms
                },
                Called::Aborted => {
                    &&& result matches Ok(events) && events@.len() == 0
                    &&& *final(self) == *old(self)
                },
                Called::Failed(error) => {
                    &&& result matches Err(text) && text@ == "inference failed: "@ + error@
                    &&& *final(self) == *old(self)
                },
            },
            final(self).steady(),
    {
        match called {
            Called::Done(found) => {
                let transcript = match found {
                    Some(transcript) => Some(transcript),
                    None => None,
                };
                let mut events: Vec<Ev> = Vec::new();
                events.push(Ev::Compute { compute_ms, audio_ms: consumed_ms });
                let mut rest = self.after_run(transcript, live_edge_offset_ms);
                let ghost told = reports(rest@);
                events.append(&mut rest);
                assert(reports(events@) =~= seq![
                    Report::Compute { compute_ms, audio_ms: consumed_ms },
                ] + told);
                Ok(events)
            },
            Called::Aborted => Ok(Vec::new()),
            Called::Failed(error) => Err(prefixed("inference failed: ", error.as_str())),
        }
    }

    /// The window was run over for the last time, or that was cancelled.
    pub fn on_final_run(
        &mut self,
        called: &Called<Option<Transcript>>,
        live_edge_offset_ms: i64,
    ) -> (result: Result<Vec<Ev>, String>)
        requires
            old(self).steady(),
            called matches Called::Done(Some(found)) ==> rows_fit(
                commit::finest_rows(*found),
                old(self).start_ms,
            ),
        ensures
            called matches Called::Failed(error) ==> {
                &&& result matches Err(text) && text@ == "inference failed: "@ + error@
                &&& *final(self) == *old(self)
            },
            !(called is Failed) ==> {
                let end = old(self).spec_end_ms() as i64;
                let rows = match *called {
                    Called::Done(Some(found)) => old(self).harvest_out(
                        found,
                        live_edge_offset_ms,
                        true,
                    ),
                    _ => Seq::<commit::Row>::empty(),
                };
                &&& result matches Ok(events) && reports(events@) == final_reports(rows, end)
                &&& final(self).samples@.len() == 0
                &&& *final(self) == (Window {
                    samples: final(self).samples,
                    ..old(self).cleared(end)
                })
            },
            final(self).steady(),
    {
        match called {
            Called::Failed(error) => Err(prefixed("inference failed: ", error.as_str())),
            Called::Done(Some(found)) => Ok(
                self.after_final_run(Some(found), live_edge_offset_ms),
            ),
            _ => Ok(self.after_final_run(None, live_edge_offset_ms)),
        }
    }

    /// Decide what to do about a command while running over windows: audio is
    /// taken in, and a restart is dealt with.
    pub fn on_command(&mut self, cmd: Cmd, chunk_ms: i64) -> (step: ChunkStep)
        requires
            old(self).steady(),
            cmd matches Cmd::Feed(pcm) ==> old(self).takes(pcm@.len() as int),
        ensures
            match cmd {
                Cmd::Feed(pcm) => {
                    let new_ms = old(self).pending_ms + ms_of(pcm@.len() as int, old(self).rate);
                    let runs = new_ms >= chunk_ms;
                    &&& step == if runs {
                        ChunkStep::Run { consumed_ms: new_ms as u64 }
                    } else {
                        ChunkStep::Wait
                    }
                    &&& final(self).samples@ == old(self).samples@ + pcm@
                    &&& *final(self) == (Window {
                        samples: final(self).samples,
                        pending_ms: if runs {
                            0
                        } else {
                            new_ms as i64
                        },
                        ..*old(self)
                    })
                },
                Cmd::Finalize => step == ChunkStep::Finalize && *final(self) == *old(self),
                Cmd::Restart => {
                    &&& step matches ChunkStep::Restarted(events) && reports(events@) == seq![
                        Report::Restarted,
                    ]
                    &&& final(self).samples@.len() == 0
                    &&& *final(self) == (Window {
                        samples: final(self).samples,
                        ..old(self).cleared(0)
                    })
                },
                Cmd::Stop => step == ChunkStep::Stop && *final(self) == *old(self),
            },
            final(self).steady(),
    {
        match cmd {
            Cmd::Feed(pcm) => match self.feed(pcm.as_slice(), chunk_ms) {
                Some(consumed_ms) => ChunkStep::Run { consumed_ms },
                None => ChunkStep::Wait,
            },
            Cmd::Finalize => ChunkStep::Finalize,
            Cmd::Restart => ChunkStep::Restarted(self.restart()),
            Cmd::Stop => ChunkStep::Stop,
        }
    }

    /// Throw the window away and start over at the beginning of a fresh stream.
    pub fn restart(&mut self) -> (events: Vec<Ev>)
        requires
            old(self).rate >= 1,
            old(self).rate <= i32::MAX,
            old(self).max_ms >= 0,
        ensures
            reports(events@) == seq![Report::Restarted],
            final(self).samples@.len() == 0,
            *final(self) == (Window { samples: final(self).samples, ..old(self).cleared(0) }),
            final(self).steady(),
    {
        self.clear(0);
        proof {
            length_is_not_negative(0, self.rate);
        }
        let mut events: Vec<Ev> = Vec::new();
        events.push(Ev::Restarted);
        assert(reports(events@) =~= seq![Report::Restarted]);
        events
    }
}

/// A harvest's watermark never falls, what goes out ends at or before the
/// cutoff, and rows go out one behind the other.
pub proof fn harvest_stays_below(
    rows: Seq<commit::Row>,
    start_ms: i64,
    emitted_up_to_ms: i64,
    cutoff: i64,
)
    ensures
        ({
            let harvest = harvest_all(rows, start_ms, emitted_up_to_ms, cutoff);
            &&& emitted_up_to_ms <= harvest.emitted_up_to_ms
            &&& harvest.emitted_up_to_ms == emitted_up_to_ms || harvest.emitted_up_to_ms <= cutoff
            &&& forall|i: int|
                0 <= i < harvest.out.len() ==> emitted_up_to_ms <= (
                #[trigger] harvest.out[i]).t0_ms <= harvest.out[i].t1_ms
                    <= harvest.emitted_up_to_ms && harvest.out[i].t1_ms <= cutoff
            &&& forall|i: int, j: int|
                0 <= i < j < harvest.out.len() ==> (#[trigger] harvest.out[i]).t1_ms <= (
                #[trigger] harvest.out[j]).t0_ms
        }),
    decreases rows.len(),
{
    if rows.len() > 0 {
        harvest_stays_below(rows.drop_last(), start_ms, emitted_up_to_ms, cutoff);
        let before = harvest_all(rows.drop_last(), start_ms, emitted_up_to_ms, cutoff);
        let after = harvest_all(rows, start_ms, emitted_up_to_ms, cutoff);
        assert forall|i: int| 0 <= i < after.out.len() implies emitted_up_to_ms <= (
        #[trigger] after.out[i]).t0_ms <= after.out[i].t1_ms <= after.emitted_up_to_ms
            && after.out[i].t1_ms <= cutoff by {
            if i < before.out.len() {
                assert(after.out[i] == before.out[i]);
            }
        }
        assert forall|i: int, j: int| 0 <= i < j < after.out.len() implies (
        #[trigger] after.out[i]).t1_ms <= (#[trigger] after.out[j]).t0_ms by {
            assert(after.out[i] == before.out[i]);
            if j < before.out.len() {
                assert(after.out[j] == before.out[j]);
            }
        }
    }
}

/// A steady window can be trimmed.
proof fn trimming_fits(window: Window)
    requires
        window.steady(),
    ensures
        window.emitted_up_to_ms - window.start_ms <= i64::MAX,
        window.trim_ms() * window.rate <= i64::MAX,
        0 <= samples_of(window.trim_ms(), window.rate) <= usize::MAX,
        window.trim_ms() <= window.length_ms() + 1,
{
    let samples = window.samples@.len() as int;
    let rate = window.rate as int;
    length_is_not_negative(samples, window.rate);
    conversions_bound(samples, window.rate);
    samples_are_not_negative(window.trim_ms(), window.rate);
    let drop = window.trim_ms();
    let length = window.length_ms();
    assert(drop * rate <= length * rate + rate) by (nonlinear_arith)
        requires
            drop <= length + 1,
            rate >= 1,
    ;
    assert(drop * rate <= samples * 1000 + rate);
}

/// A trimmed window is steady again.
proof fn trimming_stays_steady(before: Window, after: Window)
    requires
        before.steady(),
        after.samples@ == before.samples@.skip(before.trim_samples()),
        after == (Window {
            samples: after.samples,
            start_ms: (before.start_ms + ms_of(before.trim_samples(), before.rate)) as i64,
            emitted_up_to_ms: if before.trim_samples() == 0 {
                before.emitted_up_to_ms
            } else {
                commit::later(
                    before.emitted_up_to_ms,
                    (before.start_ms + ms_of(before.trim_samples(), before.rate)) as i64,
                )
            },
            ..before
        }),
    ensures
        after.steady(),
        after.start_ms == before.start_ms + ms_of(before.trim_samples(), before.rate),
{
    let samples = before.samples@.len() as int;
    let drop = before.trim_samples();
    let rate = before.rate as int;
    trimming_fits(before);
    length_is_not_negative(samples, before.rate);
    length_is_not_negative(drop, before.rate);
    length_is_not_negative(samples - drop, before.rate);
    lengths_grow(drop, samples, before.rate);
    lengths_grow(samples - drop, samples, before.rate);
    lengths_split(drop, samples - drop, before.rate);
    conversions_bound(samples, before.rate);
    if before.emitted_up_to_ms > before.spec_end_ms() {
        let length = before.length_ms();
        assert(before.trim_ms() >= length + 1);
        let trim = before.trim_ms();
        assert(trim * rate >= (length + 1) * rate) by (nonlinear_arith)
            requires
                trim >= length + 1,
                rate >= 1,
        ;
        assert(samples_of(trim, before.rate) >= samples);
        assert(drop == samples);
    }
}

/// The timeline is never closed over text that may still go out: the frontier
/// that a run leaves is no later than any row that the run withholds, unless it
/// was closed that far before.
pub proof fn withheld_rows_stay_open(
    window: Window,
    transcript: Transcript,
    live_edge_offset_ms: i64,
    at: int,
)
    requires
        0 <= at < commit::finest_rows(transcript).len(),
        ({
            let row = commit::finest_rows(transcript)[at];
            &&& row_fits(row, window.start_ms)
            &&& !commit::is_blank_text(row.text)
            &&& window.start_ms + commit::later(row.t1_ms, row.t0_ms) > window.cutoff(
                live_edge_offset_ms,
                false,
            )
        }),
    ensures
        ({
            let row = commit::finest_rows(transcript)[at];
            let (_, frontier_ms) = window.harvest_marks(transcript, live_edge_offset_ms, false);
            frontier_ms == window.frontier_ms || frontier_ms <= window.start_ms + row.t0_ms
        }),
{
    let rows = commit::finest_rows(transcript);
    let cutoff = window.cutoff(live_edge_offset_ms, false);
    withheld_reaches_back(rows, window.start_ms, window.emitted_up_to_ms, cutoff, at);
}

proof fn withheld_reaches_back(
    rows: Seq<commit::Row>,
    start_ms: i64,
    emitted_up_to_ms: i64,
    cutoff: i64,
    at: int,
)
    requires
        0 <= at < rows.len(),
        row_fits(rows[at], start_ms),
        !commit::is_blank_text(rows[at].text),
        start_ms + commit::later(rows[at].t1_ms, rows[at].t0_ms) > cutoff,
    ensures
        harvest_all(rows, start_ms, emitted_up_to_ms, cutoff).withheld_from_ms matches Some(from_ms)
            && from_ms <= start_ms + rows[at].t0_ms,
    decreases rows.len(),
{
    if at < rows.len() - 1 {
        let front = rows.drop_last();
        assert(front[at] == rows[at]);
        withheld_reaches_back(front, start_ms, emitted_up_to_ms, cutoff, at);
    }
}

/// What a run over a window lets out keeps to its bounds: words come in the order
/// of time, none over another, none from before the text that went out earlier and
/// none past the live edge. Neither the watermark nor the frontier falls, and the
/// frontier is closed over no row that the run withholds.
pub proof fn a_harvest_keeps_to_its_bounds(
    window: Window,
    transcript: Transcript,
    live_edge_offset_ms: i64,
)
    requires
        commit::finest_rows(transcript).len() > 0,
    ensures
        ({
            let rows = commit::finest_rows(transcript);
            let cutoff = window.cutoff(live_edge_offset_ms, false);
            let out = window.harvest_out(transcript, live_edge_offset_ms, false);
            let (emitted_up_to_ms, frontier_ms) = window.harvest_marks(
                transcript,
                live_edge_offset_ms,
                false,
            );
            &&& forall|i: int|
                0 <= i < out.len() ==> window.emitted_up_to_ms <= (#[trigger] out[i]).t0_ms
                    <= out[i].t1_ms <= cutoff && out[i].t1_ms <= emitted_up_to_ms
            &&& forall|i: int, j: int|
                0 <= i < j < out.len() ==> (#[trigger] out[i]).t1_ms <= (#[trigger] out[j]).t0_ms
            &&& window.emitted_up_to_ms <= emitted_up_to_ms
            &&& window.frontier_ms <= frontier_ms
            &&& forall|at: int|
                0 <= at < rows.len() && row_fits(#[trigger] rows[at], window.start_ms)
                    && !commit::is_blank_text(rows[at].text) && window.start_ms + commit::later(
                    rows[at].t1_ms,
                    rows[at].t0_ms,
                ) > cutoff ==> frontier_ms == window.frontier_ms || frontier_ms <= window.start_ms
                    + rows[at].t0_ms
        }),
{
    let rows = commit::finest_rows(transcript);
    let cutoff = window.cutoff(live_edge_offset_ms, false);
    harvest_stays_below(rows, window.start_ms, window.emitted_up_to_ms, cutoff);
    assert forall|at: int|
        0 <= at < rows.len() && row_fits(#[trigger] rows[at], window.start_ms)
            && !commit::is_blank_text(rows[at].text) && window.start_ms + commit::later(
            rows[at].t1_ms,
            rows[at].t0_ms,
        ) > cutoff implies ({
        let (_, frontier_ms) = window.harvest_marks(transcript, live_edge_offset_ms, false);
        frontier_ms == window.frontier_ms || frontier_ms <= window.start_ms + rows[at].t0_ms
    }) by {
        withheld_rows_stay_open(window, transcript, live_edge_offset_ms, at);
    }
}

/// A trim never leaves a longer window than the family accepts, and it moves no
/// audio on the timeline: the end stays where it was. Unless audio is forced out,
/// the window that is left begins exactly where the emitted text ended. At rates
/// that are not a whole number of samples per millisecond this holds only up to
/// a rounding.
pub proof fn trimming_caps_the_window(before: Window, after: Window)
    requires
        before.steady(),
        before.rate % 1000 == 0,
        after.samples@ == before.samples@.skip(before.trim_samples()),
        after.rate == before.rate,
        after.start_ms == before.start_ms + ms_of(before.trim_samples(), before.rate),
    ensures
        after.length_ms() <= before.max_ms,
        after.spec_end_ms() == before.spec_end_ms(),
        before.start_ms <= before.emitted_up_to_ms <= before.spec_end_ms()
            && before.spec_end_ms() - before.emitted_up_to_ms <= before.max_ms ==> after.start_ms
            == before.emitted_up_to_ms,
{
    let samples = before.samples@.len() as int;
    let drop = before.trim_samples();
    let trim = before.trim_ms();
    let per_ms = before.rate as int / 1000;
    let length = before.length_ms();
    trimming_fits(before);
    whole_rate_converts(samples, before.rate);
    whole_rate_converts(drop, before.rate);
    whole_rate_converts(samples - drop, before.rate);
    length_is_not_negative(samples, before.rate);
    assert(trim * before.rate == (trim * per_ms) * 1000) by (nonlinear_arith)
        requires
            before.rate == per_ms * 1000,
    ;
    assert(samples_of(trim, before.rate) == trim * per_ms);
    if trim * per_ms < samples {
        assert(drop == trim * per_ms);
        assert(drop / per_ms == trim && (samples - drop) / per_ms == samples / per_ms - trim)
            by (nonlinear_arith)
            requires
                drop == trim * per_ms,
                per_ms >= 1,
                trim >= 0,
                drop <= samples,
        ;
    } else {
        assert(drop == samples);
        assert(0int / per_ms == 0) by (nonlinear_arith)
            requires
                per_ms >= 1,
        ;
        assert(samples / per_ms <= trim) by (nonlinear_arith)
            requires
                trim * per_ms >= samples,
                per_ms >= 1,
        ;
    }
}

/// At a whole number of samples per millisecond, milliseconds divide exactly.
proof fn whole_rate_converts(samples: int, rate: i64)
    requires
        0 <= samples,
        rate >= 1,
        rate % 1000 == 0,
    ensures
        ms_of(samples, rate) == samples / (rate as int / 1000),
        rate as int / 1000 >= 1,
{
    let per_ms = rate as int / 1000;
    assert(samples * 1000 / (per_ms * 1000) == samples / per_ms) by (nonlinear_arith)
        requires
            per_ms >= 1,
            samples >= 0,
    ;
}

/// What a harvest makes of one more row. A blank row gives nothing. A row that ends
/// past the cutoff is withheld, and the earliest start of such rows is remembered. A row
/// that ends by the cutoff goes out, trimmed and at its own times, where it starts at or
/// behind the watermark that the rows before it left, and then the watermark is its end;
/// a row that starts in front of the watermark went out before.
pub proof fn a_harvest_takes_every_new_row(
    rows: Seq<commit::Row>,
    row: commit::Row,
    start_ms: i64,
    emitted_up_to_ms: i64,
    cutoff: i64,
)
    requires
        i64::MIN <= start_ms + row.t0_ms <= i64::MAX,
        i64::MIN <= start_ms + row.t1_ms <= i64::MAX,
    ensures
        ({
            let before = harvest_all(rows, start_ms, emitted_up_to_ms, cutoff);
            let after = harvest_all(rows.push(row), start_ms, emitted_up_to_ms, cutoff);
            let t0 = start_ms + row.t0_ms;
            let t1 = if row.t1_ms > row.t0_ms {
                start_ms + row.t1_ms
            } else {
                t0
            };
            let blank = commit::is_blank_text(row.text);
            &&& blank ==> after == before
            &&& !blank && t1 > cutoff ==> {
                &&& after.out == before.out && after.emitted_up_to_ms == before.emitted_up_to_ms
                &&& after.withheld_from_ms is Some
                &&& after.withheld_from_ms->0 <= t0
                &&& before.withheld_from_ms is Some ==> after.withheld_from_ms->0
                    <= before.withheld_from_ms->0
                &&& after.withheld_from_ms->0 == t0 || after.withheld_from_ms
                    == before.withheld_from_ms
            }
            &&& !blank && t1 <= cutoff && t0 < before.emitted_up_to_ms ==> after == before
            &&& !blank && t1 <= cutoff && t0 >= before.emitted_up_to_ms ==> {
                &&& after.out.len() == before.out.len() + 1
                &&& after.out.drop_last() == before.out
                &&& after.out.last().text == text::trimmed(row.text)
                &&& after.out.last().t0_ms == t0
                &&& after.out.last().t1_ms == t1
                &&& after.emitted_up_to_ms == t1
                &&& after.withheld_from_ms == before.withheld_from_ms
            }
        }),
        ({
            let none = harvest_all(Seq::empty(), start_ms, emitted_up_to_ms, cutoff);
            &&& none.out.len() == 0
            &&& none.emitted_up_to_ms == emitted_up_to_ms
            &&& none.withheld_from_ms is None
        }),
{
    assert(rows.push(row).drop_last() =~= rows);
    let before = harvest_all(rows, start_ms, emitted_up_to_ms, cutoff);
    let after = harvest_all(rows.push(row), start_ms, emitted_up_to_ms, cutoff);
    if after.out.len() > before.out.len() {
        assert(after.out.drop_last() =~= before.out);
    }
}

/// Whether rows lie one behind the other in a stream, with text and of no negative
/// length, from a time on and up to another.
pub open spec fn in_line(rows: Seq<commit::Row>, start_ms: i64, from_ms: int, to_ms: int) -> bool {
    &&& forall|i: int|
        0 <= i < rows.len() ==> !commit::is_blank_text((#[trigger] rows[i]).text) && from_ms
            <= start_ms + rows[i].t0_ms && rows[i].t0_ms <= rows[i].t1_ms && start_ms
            + rows[i].t1_ms <= to_ms
    &&& forall|i: int, j: int|
        0 <= i < j < rows.len() ==> (#[trigger] rows[i]).t1_ms <= (#[trigger] rows[j]).t0_ms
}

/// Rows in order that do not overlap, start at or behind the watermark and end by the
/// cutoff all go out, one word each, under their trimmed text and at their own times.
pub proof fn rows_in_line_all_go_out(
    rows: Seq<commit::Row>,
    start_ms: i64,
    emitted_up_to_ms: i64,
    cutoff: i64,
)
    requires
        in_line(rows, start_ms, emitted_up_to_ms as int, cutoff as int),
    ensures
        ({
            let harvest = harvest_all(rows, start_ms, emitted_up_to_ms, cutoff);
            &&& harvest.out.len() == rows.len()
            &&& forall|i: int|
                0 <= i < rows.len() ==> (#[trigger] harvest.out[i]).text == text::trimmed(
                    rows[i].text,
                ) && harvest.out[i].t0_ms == start_ms + rows[i].t0_ms && harvest.out[i].t1_ms
                    == start_ms + rows[i].t1_ms
            &&& harvest.withheld_from_ms is None
            &&& harvest.emitted_up_to_ms == if rows.len() == 0 {
                emitted_up_to_ms as int
            } else {
                start_ms + rows.last().t1_ms
            }
        }),
    decreases rows.len(),
{
    if rows.len() > 0 {
        let front = rows.drop_last();
        assert forall|i: int| 0 <= i < front.len() implies !commit::is_blank_text(
            (#[trigger] front[i]).text,
        ) && emitted_up_to_ms <= start_ms + front[i].t0_ms && front[i].t0_ms <= front[i].t1_ms
            && start_ms + front[i].t1_ms <= cutoff by {
            assert(front[i] == rows[i]);
        }
        assert forall|i: int, j: int| 0 <= i < j < front.len() implies (
        #[trigger] front[i]).t1_ms <= (#[trigger] front[j]).t0_ms by {
            assert(front[i] == rows[i] && front[j] == rows[j]);
        }
        rows_in_line_all_go_out(front, start_ms, emitted_up_to_ms, cutoff);
        assert(front.push(rows.last()) =~= rows);
        let last = rows[rows.len() - 1];
        assert(emitted_up_to_ms <= start_ms + last.t0_ms);
        if front.len() > 0 {
            assert(rows[front.len() - 1].t1_ms <= last.t0_ms);
        }
        a_harvest_takes_every_new_row(front, last, start_ms, emitted_up_to_ms, cutoff);
        let before = harvest_all(front, start_ms, emitted_up_to_ms, cutoff);
        let after = harvest_all(rows, start_ms, emitted_up_to_ms, cutoff);
        assert forall|i: int| 0 <= i < rows.len() implies (#[trigger] after.out[i]).text
            == text::trimmed(rows[i].text) && after.out[i].t0_ms == start_ms + rows[i].t0_ms
            && after.out[i].t1_ms == start_ms + rows[i].t1_ms by {
            if i < front.len() {
                assert(after.out.drop_last()[i] == after.out[i]);
                assert(front[i] == rows[i]);
            }
        }
    }
}

/// Where the cutoff lies: the live edge in front of the end of the window, and nowhere
/// at the end of a stream, when everything goes out.
pub proof fn the_cutoff_is_the_live_edge(window: Window, live_edge_offset_ms: i64)
    requires
        i64::MIN <= window.start_ms + window.samples@.len() as int * 1000 / (window.rate as int)
            - live_edge_offset_ms <= i64::MAX,
        window.rate >= 1,
    ensures
        window.cutoff(live_edge_offset_ms, false) == window.start_ms + window.samples@.len() as int
            * 1000 / (window.rate as int) - live_edge_offset_ms,
        window.cutoff(live_edge_offset_ms, true) == 0x7fff_ffff_ffff_ffff,
{
}

/// A run over a window gives what a harvest of its finest rows gives, from the window's
/// own start and watermark on. Without rows, silence gives nothing and is moved past up
/// to the live edge, and text that is aligned to nothing is kept for the end of the
/// stream, where it goes out as one word over the rest of the window.
pub proof fn what_a_run_gives(
    window: Window,
    transcript: Transcript,
    live_edge_offset_ms: i64,
    drain: bool,
)
    requires
        i64::MIN <= window.spec_end_ms() <= i64::MAX,
    ensures
        ({
            let rows = commit::finest_rows(transcript);
            let spoken = text::trimmed(transcript.text@);
            let cutoff = window.cutoff(live_edge_offset_ms, drain);
            let out = window.harvest_out(transcript, live_edge_offset_ms, drain);
            let marks = window.harvest_marks(transcript, live_edge_offset_ms, drain);
            let harvest = harvest_all(rows, window.start_ms, window.emitted_up_to_ms, cutoff);
            &&& rows.len() > 0 ==> out == harvest.out && marks.0 == harvest.emitted_up_to_ms
            &&& rows.len() == 0 && spoken.len() == 0 ==> out.len() == 0
            &&& rows.len() == 0 && spoken.len() == 0 && !drain ==> {
                &&& marks.0 >= window.emitted_up_to_ms && marks.0 >= cutoff
                &&& marks.0 == window.emitted_up_to_ms || marks.0 == cutoff
                &&& marks.1 >= window.frontier_ms && marks.1 >= cutoff
                &&& marks.1 == window.frontier_ms || marks.1 == cutoff
            }
            &&& rows.len() == 0 && spoken.len() == 0 && drain ==> marks.0
                == window.emitted_up_to_ms && marks.1 == window.frontier_ms
            &&& rows.len() == 0 && spoken.len() > 0 && !drain ==> out.len() == 0 && marks.0
                == window.emitted_up_to_ms && marks.1 == window.frontier_ms
            &&& rows.len() == 0 && spoken.len() > 0 && drain ==> {
                &&& out.len() == 1
                &&& out[0].text == spoken
                &&& out[0].t0_ms >= window.emitted_up_to_ms && out[0].t0_ms >= window.start_ms
                &&& out[0].t0_ms == window.emitted_up_to_ms || out[0].t0_ms == window.start_ms
                &&& out[0].t1_ms >= out[0].t0_ms && out[0].t1_ms >= window.spec_end_ms()
                &&& out[0].t1_ms == out[0].t0_ms || out[0].t1_ms == window.spec_end_ms()
                &&& marks.0 == out[0].t1_ms && marks.1 == window.frontier_ms
            }
            &&& rows.len() > 0 && drain ==> marks.1 == window.frontier_ms
        }),
{
}

/// The timeline is closed as far as it may be: up to the live edge where nothing is
/// withheld in front of it, else up to the earliest row that is; and never back.
pub proof fn the_timeline_is_closed_as_far_as_it_may_be(
    window: Window,
    transcript: Transcript,
    live_edge_offset_ms: i64,
)
    requires
        commit::finest_rows(transcript).len() > 0,
    ensures
        ({
            let rows = commit::finest_rows(transcript);
            let cutoff = window.cutoff(live_edge_offset_ms, false);
            let withheld = harvest_all(
                rows,
                window.start_ms,
                window.emitted_up_to_ms,
                cutoff,
            ).withheld_from_ms;
            let frontier = window.harvest_marks(transcript, live_edge_offset_ms, false).1;
            &&& frontier >= window.frontier_ms
            &&& withheld is None ==> frontier >= cutoff && (frontier == cutoff || frontier
                == window.frontier_ms)
            &&& withheld is Some && withheld->0 <= cutoff ==> frontier >= withheld->0 && (frontier
                == withheld->0 || frontier == window.frontier_ms)
            &&& withheld is Some && withheld->0 > cutoff ==> frontier >= cutoff && (frontier
                == cutoff || frontier == window.frontier_ms)
        }),
        (forall|i: int|
            0 <= i < commit::finest_rows(transcript).len() ==> commit::is_blank_text(
                (#[trigger] commit::finest_rows(transcript)[i]).text,
            ) || (row_fits(commit::finest_rows(transcript)[i], window.start_ms) && window.start_ms
                + commit::later(
                commit::finest_rows(transcript)[i].t1_ms,
                commit::finest_rows(transcript)[i].t0_ms,
            ) <= window.cutoff(live_edge_offset_ms, false))) ==> harvest_all(
            commit::finest_rows(transcript),
            window.start_ms,
            window.emitted_up_to_ms,
            window.cutoff(live_edge_offset_ms, false),
        ).withheld_from_ms is None,
{
    let rows = commit::finest_rows(transcript);
    let cutoff = window.cutoff(live_edge_offset_ms, false);
    if forall|i: int|
        0 <= i < rows.len() ==> commit::is_blank_text((#[trigger] rows[i]).text) || (row_fits(
            rows[i],
            window.start_ms,
        ) && window.start_ms + commit::later(rows[i].t1_ms, rows[i].t0_ms) <= cutoff) {
        nothing_is_withheld(rows, window.start_ms, window.emitted_up_to_ms, cutoff);
    }
}

proof fn nothing_is_withheld(
    rows: Seq<commit::Row>,
    start_ms: i64,
    emitted_up_to_ms: i64,
    cutoff: i64,
)
    requires
        forall|i: int|
            0 <= i < rows.len() ==> commit::is_blank_text((#[trigger] rows[i]).text) || (row_fits(
                rows[i],
                start_ms,
            ) && start_ms + commit::later(rows[i].t1_ms, rows[i].t0_ms) <= cutoff),
    ensures
        harvest_all(rows, start_ms, emitted_up_to_ms, cutoff).withheld_from_ms is None,
    decreases rows.len(),
{
    if rows.len() > 0 {
        let front = rows.drop_last();
        assert forall|i: int| 0 <= i < front.len() implies commit::is_blank_text(
            (#[trigger] front[i]).text,
        ) || (row_fits(front[i], start_ms) && start_ms + commit::later(
            front[i].t1_ms,
            front[i].t0_ms,
        ) <= cutoff) by {
            assert(front[i] == rows[i]);
        }
        nothing_is_withheld(front, start_ms, emitted_up_to_ms, cutoff);
        assert(rows[rows.len() - 1] == rows.last());
    }
}

/// How much of a window is let go of: what was emitted of it, or more where what is left
/// would be longer than the family accepts, and then just as much more.
pub proof fn a_trim_drops_what_was_emitted(window: Window)
    requires
        window.rate >= 1,
    ensures
        ({
            let emitted = if window.emitted_up_to_ms > window.start_ms {
                window.emitted_up_to_ms - window.start_ms
            } else {
                0
            };
            let left = window.length_ms() - emitted;
            &&& left <= window.max_ms ==> window.trim_ms() == emitted
            &&& left > window.max_ms ==> window.length_ms() - window.trim_ms() == window.max_ms
            &&& window.trim_ms() >= 0
            &&& 0 <= window.trim_samples() <= window.samples@.len()
            &&& window.trim_samples() < window.samples@.len() ==> window.trim_samples() * 1000
                <= window.trim_ms() * window.rate < (window.trim_samples() + 1) * 1000
            &&& window.trim_samples() == window.samples@.len() ==> window.samples@.len() * 1000
                <= window.trim_ms() * window.rate
        }),
{
    let drop = window.trim_ms();
    let product = drop * window.rate;
    assert(product >= 0) by (nonlinear_arith)
        requires
            product == drop * window.rate,
            drop >= 0,
            window.rate >= 1,
    ;
    if drop == 0 {
        assert(product == 0) by (nonlinear_arith)
            requires
                product == drop * window.rate,
                drop == 0,
        ;
        assert(0 * window.rate as int == 0) by (nonlinear_arith);
    }
}

/// Milliseconds of audio are its samples over the rate, rounded down.
pub proof fn audio_lasts_its_samples_over_the_rate(samples: int, rate: i64)
    requires
        samples >= 0,
        rate >= 1,
    ensures
        ms_of(samples, rate) * rate <= samples * 1000 < (ms_of(samples, rate) + 1) * rate,
{
    let ms = samples * 1000 / (rate as int);
    assert(ms * rate <= samples * 1000 < (ms + 1) * rate) by (nonlinear_arith)
        requires
            ms == samples * 1000 / (rate as int),
            rate >= 1,
    ;
}

/// A window that starts over holds no text of before: it starts, is emitted and is
/// closed exactly up to the time at which it starts over.
pub proof fn a_window_starts_over_at_a_time(window: Window, at_ms: i64)
    ensures
        ({
            let after = window.cleared(at_ms);
            &&& after.start_ms == at_ms && after.emitted_up_to_ms == at_ms && after.frontier_ms
                == at_ms
            &&& after.pending_ms == 0
            &&& after.rate == window.rate && after.max_ms == window.max_ms
        }),
{
}

/// A run that gave no transcript gives no rows and leaves the window's marks; one that
/// gave one gives its rows and moves them.
pub proof fn a_run_without_a_transcript_changes_nothing(
    window: Window,
    transcript: Transcript,
    live_edge_offset_ms: i64,
)
    ensures
        window.rows_of(None, live_edge_offset_ms).len() == 0,
        window.harvested(None, live_edge_offset_ms) == window,
        window.rows_of(Some(transcript), live_edge_offset_ms) == window.harvest_out(
            transcript,
            live_edge_offset_ms,
            false,
        ),
        ({
            let after = window.harvested(Some(transcript), live_edge_offset_ms);
            let marks = window.harvest_marks(transcript, live_edge_offset_ms, false);
            &&& after.emitted_up_to_ms == marks.0 && after.frontier_ms == marks.1
            &&& after.samples == window.samples && after.start_ms == window.start_ms
                && after.pending_ms == window.pending_ms && after.rate == window.rate
                && after.max_ms == window.max_ms
        }),
{
}

/// The timeline is closed up to the drained audio, but never over a row that waits.
pub proof fn the_frontier_stops_at_what_waits(tracker: commit::Tracker, audio_ms: i64)
    ensures
        ({
            let frontier = frontier_of(tracker, audio_ms);
            &&& frontier <= audio_ms
            &&& tracker.pending is Some ==> frontier <= (tracker.pending->0).0
            &&& frontier == audio_ms || (tracker.pending is Some && frontier == (
            tracker.pending->0).0)
            &&& tracker.pending is None ==> frontier == audio_ms
        }),
{
}

/// What is reported after a feed: new words first where there are any, always how far
/// the stream is decided, and the volatile suffix last where it changed; nothing else.
pub proof fn words_are_reported_in_front_of_progress(
    rows: Seq<commit::Row>,
    frontier_ms: i64,
    tentative: Option<Seq<char>>,
)
    ensures
        ({
            let told = feed_reports(rows, frontier_ms, tentative);
            let first = if rows.len() > 0 {
                1int
            } else {
                0int
            };
            &&& told.len() == first + 1 + if tentative is Some {
                1int
            } else {
                0int
            }
            &&& rows.len() > 0 ==> told[0] == (Report::Words { rows, is_final: false })
            &&& told[first] == (Report::Progress { committed_ms: frontier_ms })
            &&& tentative is Some ==> told[first + 1] == Report::Partial(tentative->0)
        }),
{
}

/// What is reported at the end of a stream: the final words, then how far the audio was
/// drained, then that it is drained, whatever the words are.
pub proof fn a_drained_stream_is_reported_in_order(rows: Seq<commit::Row>, drained_ms: i64)
    ensures
        ({
            let told = final_reports(rows, drained_ms);
            &&& told.len() == 3
            &&& told[0] == (Report::Words { rows, is_final: true })
            &&& told[1] == (Report::Progress { committed_ms: drained_ms })
            &&& told[2] == Report::Drained
        }),
{
}

/// The kinds of alignment are spelled as they are documented.
pub proof fn kinds_of_alignment_are_spelled(kind: TimestampKind)
    ensures
        kind.spelling() == "none"@ || kind != TimestampKind::Untimed,
        kind.spelling() == "auto"@ || kind != TimestampKind::Auto,
        kind.spelling() == "segment"@ || kind != TimestampKind::Segment,
        kind.spelling() == "word"@ || kind != TimestampKind::Word,
        kind.spelling() == "token"@ || kind != TimestampKind::Token,
{
}


/// A model that cannot stream is never streamed: asking for that is refused, and
/// nothing else is. One that can is streamed unless windows were asked for.
pub proof fn what_a_mode_resolves_to(
    mode: Mode,
    supports_streaming: bool,
    result: Result<bool, StreamingUnsupported>,
)
    requires
        call_ensures(resolve_mode, (mode, supports_streaming), result),
    ensures
        result is Err <==> mode == Mode::Stream && !supports_streaming,
        result == Ok::<bool, StreamingUnsupported>(true) <==> supports_streaming && mode
            != Mode::Chunked,
{
}

/// A window is as long as the family accepts, where it says so, and never without a
/// limit; the rate is the model's own, where it says so, and never zero.
pub proof fn limits_are_taken_from_the_model(max_audio_ms: i64, max_ms: i64, native: i32, rate: i64)
    requires
        call_ensures(max_window_ms, (max_audio_ms,), max_ms),
        call_ensures(sample_rate, (native,), rate),
    ensures
        max_audio_ms > 0 ==> max_ms == max_audio_ms,
        max_audio_ms <= 0 ==> max_ms == 30_000,
        native > 0 ==> rate == native,
        native <= 0 ==> rate == 1,
{
}

/// While streaming every command leads to what it asks for, and audio is fed as it is,
/// measured in whole milliseconds.
pub proof fn commands_are_followed_while_streaming(cmd: Cmd, rate: i64, step: StreamStep)
    requires
        rate >= 1,
        cmd matches Cmd::Feed(pcm) ==> pcm@.len() * 1000 <= u64::MAX,
        call_ensures(stream_step, (cmd, rate), step),
    ensures
        step is Feed <==> cmd is Feed,
        step is Finalize <==> cmd is Finalize,
        step is Reset <==> cmd is Restart,
        step is Stop <==> cmd is Stop,
        step matches StreamStep::Feed { pcm, audio_ms } ==> pcm == cmd->Feed_0 && audio_ms * rate
            <= pcm@.len() * 1000 < (audio_ms + 1) * rate,
{
    if let Cmd::Feed(pcm) = cmd {
        let count = pcm@.len() as int;
        let span = count * 1000 / rate as int;
        assert(span * rate <= count * 1000 < (span + 1) * rate && 0 <= span <= count * 1000)
            by (nonlinear_arith)
            requires
                span == count * 1000 / rate as int,
                rate >= 1,
                count >= 0,
        ;
    }
}

/// After a feed the cost is reported before all else; the text is looked at where it
/// changed, or where a row waits that half a second of silence has settled; and a
/// cancelled call says nothing.
pub proof fn what_follows_from_a_feed(
    stream: Streaming,
    called: Called<StreamUpdate>,
    compute_ms: u64,
    audio_ms: u64,
    fed: Fed,
)
    requires
        call_ensures(Streaming::on_fed, (&stream, &called, compute_ms, audio_ms), fed),
    ensures
        fed is Skip <==> called is Aborted,
        fed is Fail <==> called is Failed,
        fed is Report <==> called is Done,
        called matches Called::Done(update) ==> {
            &&& fed->cost@ == (Report::Compute { compute_ms, audio_ms })
            &&& fed->tentative == update.tentative_changed
            &&& update.committed_changed ==> fed->snapshot
            &&& !update.committed_changed && stream@.pending is None ==> !fed->snapshot
            &&& !update.committed_changed && stream@.pending is Some ==> (fed->snapshot
                <==> update.audio_committed_ms - stream@.last_growth_ms >= 500)
        },
{
}

/// A stream that was finalized, cancelled or thrown away leaves nothing behind for the
/// next one; and unless it failed, that it is drained is the last thing said of it.
pub proof fn nothing_outlives_a_stream(
    stream: &mut Streaming,
    called: Called<Finalized>,
    result: Result<Vec<Ev>, String>,
    dropped: &mut Streaming,
    told: Vec<Ev>,
)
    requires
        call_ensures(Streaming::on_finalized, (stream, &called), result),
        call_ensures(Streaming::on_reset, (dropped,), told),
    ensures
        final(stream)@ == commit::Tracker::initial(),
        final(dropped)@ == commit::Tracker::initial(),
        told@.len() == 1 && told@[0]@ == Report::Restarted,
        result is Err <==> called is Failed,
        called is Aborted ==> result->Ok_0@.len() == 1 && result->Ok_0@[0]@ == Report::Drained,
        called matches Called::Done(found) ==> {
            let end = if found.update.audio_committed_ms >= found.update.input_received_ms {
                found.update.audio_committed_ms
            } else {
                found.update.input_received_ms
            };
            &&& result->Ok_0@.len() == 3
            &&& result->Ok_0@[0]@ is Words && result->Ok_0@[0]@->is_final
            &&& result->Ok_0@[1]@ == (Report::Progress { committed_ms: end })
            &&& result->Ok_0@[2]@ == Report::Drained
        },
{
    assert(reports(told@).len() == told@.len());
    assert(reports(told@)[0] == told@[0]@);
    if let Ok(events) = result {
        assert(reports(events@).len() == events@.len());
        assert forall|i: int| 0 <= i < events@.len() implies reports(events@)[i] == (
        #[trigger] events@[i])@ by {
        }
    }
}

/// While running over windows no audio is lost: what is fed stands behind what was
/// there. A run is due exactly once the audio since the last one lasts a chunk, and
/// then that audio starts over from nothing; a restart throws everything away; and
/// nothing else touches the window.
pub proof fn commands_are_followed_over_windows(
    window: &mut Window,
    cmd: Cmd,
    chunk_ms: i64,
    step: ChunkStep,
)
    requires
        call_ensures(Window::on_command, (window, cmd, chunk_ms), step),
        old(window).steady(),
        cmd matches Cmd::Feed(pcm) ==> old(window).takes(pcm@.len() as int),
    ensures
        cmd is Finalize <==> step is Finalize,
        cmd is Stop <==> step is Stop,
        cmd is Restart <==> step is Restarted,
        cmd is Feed <==> step is Run || step is Wait,
        cmd is Finalize || cmd is Stop ==> *final(window) == *old(window),
        cmd is Restart ==> final(window).samples@.len() == 0 && final(window).start_ms == 0
            && final(window).emitted_up_to_ms == 0 && final(window).pending_ms == 0,
        cmd matches Cmd::Feed(pcm) ==> {
            let fresh = old(window).pending_ms + ms_of(pcm@.len() as int, old(window).rate);
            &&& final(window).samples@ == old(window).samples@ + pcm@
            &&& final(window).start_ms == old(window).start_ms
            &&& final(window).emitted_up_to_ms == old(window).emitted_up_to_ms
            &&& final(window).frontier_ms == old(window).frontier_ms
            &&& step is Run <==> fresh >= chunk_ms
            &&& step is Run ==> step->consumed_ms == fresh && final(window).pending_ms == 0
            &&& step is Wait ==> final(window).pending_ms == fresh
        },
{
}

/// Rows that stand one behind the other, from what was emitted on and up to the cutoff,
/// all go out, each under its own text and at its own place on the timeline. The cutoff
/// is the end of the window less the live edge, and there is none for a drained window.
pub proof fn a_harvest_gives_every_row_in_line(
    window: &mut Window,
    transcript: Transcript,
    live_edge_offset_ms: i64,
    drain: bool,
    words: Vec<TimedWord>,
)
    requires
        call_ensures(
            Window::harvest,
            (window, &transcript, live_edge_offset_ms, drain),
            words,
        ),
        commit::finest_rows(transcript).len() > 0,
        !drain ==> i64::MIN <= old(window).spec_end_ms() - live_edge_offset_ms <= i64::MAX,
        in_line(
            commit::finest_rows(transcript),
            old(window).start_ms,
            old(window).emitted_up_to_ms as int,
            if drain {
                i64::MAX as int
            } else {
                old(window).spec_end_ms() - live_edge_offset_ms
            },
        ),
    ensures
        ({
            let rows = commit::finest_rows(transcript);
            &&& words@.len() == rows.len()
            &&& forall|i: int|
                0 <= i < rows.len() ==> (#[trigger] words@[i]).text@ == text::trimmed(rows[i].text)
                    && words@[i].t0_ms == old(window).start_ms + rows[i].t0_ms && words@[i].t1_ms
                    == old(window).start_ms + rows[i].t1_ms
            &&& final(window).emitted_up_to_ms == old(window).start_ms + rows.last().t1_ms
            &&& final(window).samples == old(window).samples && final(window).start_ms == old(
                window,
            ).start_ms
        }),
{
    let rows = commit::finest_rows(transcript);
    let cutoff = if drain {
        i64::MAX
    } else {
        (old(window).spec_end_ms() - live_edge_offset_ms) as i64
    };
    rows_in_line_all_go_out(rows, old(window).start_ms, old(window).emitted_up_to_ms, cutoff);
    let out = commit::timed_rows(words@);
    assert(out.len() == words@.len());
    assert forall|i: int| 0 <= i < rows.len() implies (#[trigger] words@[i]).text@
        == text::trimmed(rows[i].text) && words@[i].t0_ms == old(window).start_ms + rows[i].t0_ms
        && words@[i].t1_ms == old(window).start_ms + rows[i].t1_ms by {
        assert(out[i] == words@[i]@);
    }
}

/// A run that was cancelled or failed leaves the window as it is; and one that was not
/// reports its cost before all else.
pub proof fn a_run_counts_only_where_it_was_made(
    window: &mut Window,
    called: Called<Option<Transcript>>,
    compute_ms: u64,
    consumed_ms: u64,
    live_edge_offset_ms: i64,
    result: Result<Vec<Ev>, String>,
)
    requires
        call_ensures(
            Window::on_run,
            (window, &called, compute_ms, consumed_ms, live_edge_offset_ms),
            result,
        ),
    ensures
        result is Err <==> called is Failed,
        !(called is Done) ==> *final(window) == *old(window),
        called is Aborted ==> result->Ok_0@.len() == 0,
        called is Done ==> {
            &&& result->Ok_0@.len() >= 2
            &&& result->Ok_0@[0]@ == (Report::Compute { compute_ms, audio_ms: consumed_ms })
            &&& result->Ok_0@.last()@ is Progress
        },
{
    if let Ok(events) = result {
        assert(reports(events@).len() == events@.len());
        assert forall|i: int| 0 <= i < events@.len() implies reports(events@)[i] == (
        #[trigger] events@[i])@ by {
        }
    }
}

} // verus!
