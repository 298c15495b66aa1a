//! Caption state and AMF transition scheduling for `flvsubmux`.
use crate::amf::{MessageName, MAXIMUM_TEXT_BYTES};
use crate::cue;
use crate::cue::{
    coalesce, insert_pending, take_due, ActiveState, Lateness, PendingTransition, TransitionKind,
};
use crate::text;
use core::str::Utf8Error;
use vstd::prelude::*;
use vstd::utf8;

verus! {

/// How input buffer timing maps to display-state transitions.
#[derive(Clone, Copy, Debug, PartialEq, Eq, Structural)]
pub enum InputMode {
    /// A non-empty buffer shows at PTS and clears at PTS + duration.
    Timed,
    /// Buffers are persistent replacement states; only empty text clears.
    Replacement,
}

impl Default for InputMode {
    fn default() -> (mode: Self)
        ensures
            mode == InputMode::Timed,
    {
        InputMode::Timed
    }
}

/// `core::str::Utf8Error`, carried through and never looked into.
#[verifier::external_type_specification]
#[verifier::external_body]
pub struct ExUtf8Error(Utf8Error);

/// `core::str::from_utf8`: accepts exactly the byte strings that are UTF-8, and
/// gives the text whose encoding they are.
pub assume_specification[ core::str::from_utf8 ](v: &[u8]) -> (res: Result<&str, Utf8Error>)
    ensures
        match res {
            Ok(text) => utf8::valid_utf8(v@) && utf8::encode_utf8(text@) == v@,
            Err(_) => !utf8::valid_utf8(v@),
        },
;

/// Why a text buffer is refused.
#[derive(Debug)]
pub enum CaptionError {
    MissingPts,
    MissingDuration,
    BufferMap,
    InvalidUtf8(Utf8Error),
    ZeroDuration,
}

impl CaptionError {
    /// The message as it is shown, but for what follows it where the text is
    /// not UTF-8.
    pub open spec fn lead(&self) -> Seq<char> {
        match self {
            CaptionError::MissingPts => "text buffer requires PTS"@,
            CaptionError::MissingDuration => "text buffer requires duration"@,
            CaptionError::BufferMap => "text buffer could not be mapped"@,
            CaptionError::InvalidUtf8(_) => "text buffer is not UTF-8: "@,
            CaptionError::ZeroDuration => "timed non-empty text needs non-zero duration"@,
        }
    }

    /// A message for people.
    pub fn message(&self) -> (message: String)
        ensures
            self is InvalidUtf8 ==> self.lead().is_prefix_of(message@),
            !(self is InvalidUtf8) ==> message@ == self.lead(),
    {
        match self {
            CaptionError::MissingPts => "text buffer requires PTS".to_owned(),
            CaptionError::MissingDuration => "text buffer requires duration".to_owned(),
            CaptionError::BufferMap => "text buffer could not be mapped".to_owned(),
            CaptionError::InvalidUtf8(error) => {
                text::prefixed("text buffer is not UTF-8: ", utf8_error_text(error).as_str())
            },
            CaptionError::ZeroDuration => {
                "timed non-empty text needs non-zero duration".to_owned()
            },
        }
    }
}

/// `Utf8Error`'s `Display`. How an error reads is left unsaid.
#[verifier::external_body]
fn utf8_error_text(error: &Utf8Error) -> (text: String) {
    error.to_string()
}

/// A text buffer as it arrives: what its metadata says, and its bytes where
/// they could be mapped.
#[derive(Debug)]
pub struct TextBuffer {
    pub pts: Option<u64>,
    pub duration: Option<u64>,
    pub data: Option<Vec<u8>>,
}

/// Whether the end of the cue that a text buffer stands for can be expressed, given
/// where it starts.
pub open spec fn end_fits(start: u64, buffer: TextBuffer, input_mode: InputMode) -> bool {
    input_mode == InputMode::Timed && buffer.duration is Some && (buffer.data matches Some(data)
        && data@.len() > 0 && utf8::valid_utf8(data@)) ==> start + buffer.duration->0 <= u64::MAX
}

/// Whether the end of the cue that a text buffer stands for can be expressed, given
/// where it starts.
pub fn cue_end_fits(start: u64, buffer: &TextBuffer, input_mode: InputMode) -> (fits: bool)
    ensures
        fits == end_fits(start, *buffer, input_mode),
{
    match (input_mode, buffer.duration, &buffer.data) {
        (InputMode::Timed, Some(duration), Some(data)) => {
            data.len() == 0 || core::str::from_utf8(data.as_slice()).is_err() || duration
                <= u64::MAX - start
        },
        _ => true,
    }
}

/// The state of the caption timeline, as a mathematical value.
pub struct Timeline {
    pub pending: Seq<cue::Transition>,
    pub active: Option<cue::Active>,
    pub next_generation: u64,
    pub next_sequence: u64,
}

impl Timeline {
    /// A timeline on which nothing has happened.
    pub open spec fn empty() -> Timeline {
        Timeline { pending: Seq::empty(), active: None, next_generation: 0, next_sequence: 0 }
    }

    /// What every timeline keeps: the queue is ordered by media time and then
    /// arrival, no two entries share an arrival number, every generation in use
    /// was handed out, and empty text never counts as shown.
    pub open spec fn wf(self) -> bool {
        &&& cue::is_ordered(self.pending, cue::time_key())
        &&& forall|i: int, j: int|
            0 <= i < j < self.pending.len() ==> (#[trigger] self.pending[i]).sequence != (
            #[trigger] self.pending[j]).sequence
        &&& forall|i: int|
            0 <= i < self.pending.len() ==> (#[trigger] self.pending[i]).sequence
                < self.next_sequence
        &&& forall|i: int|
            0 <= i < self.pending.len() ==> match (#[trigger] self.pending[i]).kind {
                cue::Kind::Show { generation, text } => generation < self.next_generation
                    && text.len() > 0,
                cue::Kind::Clear { owner } => owner matches Some(generation) ==> generation
                    < self.next_generation,
            }
        &&& match self.active {
            Some(state) => state.generation < self.next_generation && state.text.len() > 0,
            None => true,
        }
    }

    /// The timeline with one more transition queued.
    pub open spec fn with(self, running_time: u64, kind: cue::Kind) -> Timeline {
        Timeline {
            pending: cue::insert_ordered(
                self.pending,
                cue::time_key(),
                cue::Transition { running_time, sequence: self.next_sequence, kind },
            ),
            next_sequence: (self.next_sequence + 1) as u64,
            ..self
        }
    }

    /// The timeline with one more generation handed out.
    pub open spec fn claimed(self) -> Timeline {
        Timeline { next_generation: (self.next_generation + 1) as u64, ..self }
    }

    /// The timeline after a text was queued. A timed text shows and schedules a
    /// clear of its own; a replacement only shows; empty text clears whatever is
    /// on display.
    pub open spec fn queued(
        self,
        start: u64,
        duration: u64,
        text: Seq<char>,
        mode: InputMode,
    ) -> Timeline {
        let generation = self.next_generation;
        if text.len() == 0 {
            self.claimed().with(start, cue::Kind::Clear { owner: None })
        } else {
            let shown = self.claimed().with(start, cue::Kind::Show { generation, text });
            match mode {
                InputMode::Timed => shown.with(
                    (start + duration) as u64,
                    cue::Kind::Clear { owner: Some(generation) },
                ),
                InputMode::Replacement => shown,
            }
        }
    }

    /// The timeline after media reached `position_ms`, counted from `origin`.
    pub open spec fn drained(self, origin: u64, position_ms: u64, lateness: Lateness) -> Timeline {
        Timeline {
            pending: cue::waiting(self.pending, origin, position_ms),
            active: cue::apply_all(
                self.active,
                cue::due(self.pending, origin, position_ms, lateness),
            ),
            ..self
        }
    }

    /// What goes out when media reaches `position_ms`, counted from `origin`.
    pub open spec fn drain_outcome(
        self,
        origin: u64,
        position_ms: u64,
        lateness: Lateness,
    ) -> cue::Outcome {
        cue::outcome(self.active, cue::due(self.pending, origin, position_ms, lateness))
    }

    /// The timeline without its queue.
    pub open spec fn without_pending(self) -> Timeline {
        Timeline { pending: Seq::empty(), ..self }
    }

    /// The timeline without its queue and with nothing on display. The counters
    /// go on, so a stale clear can never match a cue queued later.
    pub open spec fn reset(self) -> Timeline {
        Timeline { pending: Seq::empty(), active: None, ..self }
    }
}

/// Whether a text can be queued: a timed text that shows something needs time
/// to show it in.
pub open spec fn can_show(duration: u64, text: Seq<char>, mode: InputMode) -> bool {
    mode == InputMode::Timed && text.len() > 0 ==> duration > 0
}

/// The tags of a drain, and what became of the transitions behind them.
#[derive(Debug)]
pub struct Drained {
    pub tags: Vec<Vec<u8>>,
    pub shows: u64,
    pub clears: u64,
    pub suppressed: u64,
    pub late: u64,
}

/// Cues waiting for media, and the cue on display.
#[derive(Debug)]
pub struct CaptionTimeline {
    pending: Vec<PendingTransition>,
    active: Option<ActiveState>,
    next_generation: u64,
    next_sequence: u64,
}

impl View for CaptionTimeline {
    type V = Timeline;

    closed spec fn view(&self) -> Timeline {
        Timeline {
            pending: cue::transitions(self.pending@),
            active: cue::display(self.active),
            next_generation: self.next_generation,
            next_sequence: self.next_sequence,
        }
    }
}

impl Default for CaptionTimeline {
    fn default() -> (timeline: Self)
        ensures
            timeline@ == Timeline::empty(),
            timeline@.wf(),
    {
        let timeline = CaptionTimeline {
            pending: Vec::new(),
            active: None,
            next_generation: 0,
            next_sequence: 0,
        };
        assert(timeline@.pending =~= Seq::empty());
        timeline
    }
}

impl CaptionTimeline {
    /// Decode a normal text buffer. GAP buffers never enter the UTF-8 decoder.
    pub fn decode_text_buffer(buffer: &TextBuffer) -> (result: Result<
        (u64, u64, String),
        CaptionError,
    >)
        ensures
            match result {
                Ok((pts, duration, text)) => {
                    &&& buffer.pts == Some(pts)
                    &&& buffer.duration == Some(duration)
                    &&& buffer.data matches Some(data) && data@ == utf8::encode_utf8(text@)
                },
                Err(CaptionError::MissingPts) => buffer.pts is None,
                Err(CaptionError::MissingDuration) => buffer.pts is Some && buffer.duration is None,
                Err(CaptionError::BufferMap) => buffer.pts is Some && buffer.duration is Some
                    && buffer.data is None,
                Err(CaptionError::InvalidUtf8(_)) => buffer.pts is Some && buffer.duration is Some
                    && (buffer.data matches Some(data) && !utf8::valid_utf8(data@)),
                Err(CaptionError::ZeroDuration) => false,
            },
    {
        let pts: u64 = match buffer.pts {
            Some(pts) => pts,
            None => {
                return Err(CaptionError::MissingPts);
            },
        };
        let duration: u64 = match buffer.duration {
            Some(duration) => duration,
            None => {
                return Err(CaptionError::MissingDuration);
            },
        };
        match &buffer.data {
            None => Err(CaptionError::BufferMap),
            Some(data) => match core::str::from_utf8(data.as_slice()) {
                Ok(text) => Ok((pts, duration, text.to_owned())),
                Err(error) => Err(CaptionError::InvalidUtf8(error)),
            },
        }
    }

    /// Whether another text can be queued without running out of numbers.
    pub fn has_room(&self) -> (room: bool)
        ensures
            room == (self@.next_generation < u64::MAX && self@.next_sequence < u64::MAX - 1),
    {
        self.next_generation < u64::MAX && self.next_sequence < u64::MAX - 1
    }

    /// Queue the transitions that a text buffer stands for, at running times in
    /// nanoseconds.
    pub fn queue_text(
        &mut self,
        start: u64,
        duration: u64,
        text: String,
        input_mode: InputMode,
    ) -> (result: Result<(), CaptionError>)
        requires
            old(self)@.next_generation < u64::MAX,
            old(self)@.next_sequence < u64::MAX - 1,
            input_mode == InputMode::Timed && text@.len() > 0 ==> start + duration <= u64::MAX,
        ensures
            result is Ok <==> can_show(duration, text@, input_mode),
            result is Err ==> result->Err_0 is ZeroDuration && final(self)@ == old(self)@.claimed(),
            result is Ok ==> final(self)@ == old(self)@.queued(start, duration, text@, input_mode),
            old(self)@.wf() ==> final(self)@.wf(),
    {
        let ghost before = self@;
        let generation: u64 = self.next_generation;
        self.next_generation = self.next_generation + 1;
        let shows = !text.as_str().is_empty();
        match input_mode {
            InputMode::Timed => {
                if !shows {
                    self.queue(start, TransitionKind::Clear { owner: None });
                } else {
                    if duration == 0 {
                        assert(self@ == before.claimed());
                        return Err(CaptionError::ZeroDuration);
                    }
                    self.queue(start, TransitionKind::Show { generation, text });
                    self.queue(
                        start + duration,
                        TransitionKind::Clear { owner: Some(generation) },
                    );
                }
            },
            InputMode::Replacement => {
                let kind = if !shows {
                    TransitionKind::Clear { owner: None }
                } else {
                    TransitionKind::Show { generation, text }
                };
                self.queue(start, kind);
            },
        }
        Ok(())
    }

    /// Queue one transition.
    fn queue(&mut self, running_time: u64, kind: TransitionKind)
        requires
            old(self)@.next_sequence < u64::MAX,
        ensures
            final(self)@ == old(self)@.with(running_time, kind@),
            old(self)@.wf() && fits(old(self)@, kind@) ==> final(self)@.wf(),
    {
        let ghost before = self@;
        let sequence: u64 = self.next_sequence;
        self.next_sequence = self.next_sequence + 1;
        insert_pending(&mut self.pending, PendingTransition { running_time, sequence, kind });
        proof {
            if before.wf() && fits(before, kind@) {
                queueing_keeps_wf(before, running_time, kind@);
            }
        }
    }

    /// Serialize transitions reached by a media timestamp.
    ///
    /// Every transition keeps its own timestamp, however far media has moved
    /// past it.
    pub fn drain_ready_ms(
        &mut self,
        origin: u64,
        position_ms: u64,
        message_name: MessageName,
    ) -> (result: Result<Vec<Vec<u8>>, CaptionError>)
        ensures
            final(self)@ == old(self)@.drained(origin, position_ms, Lateness::Keep),
            result matches Ok(tags) && cue::tag_bytes(tags@) == cue::change_tags(
                old(self)@.drain_outcome(origin, position_ms, Lateness::Keep).changes,
                message_name,
            ),
            old(self)@.wf() ==> final(self)@.wf(),
    {
        Ok(self.drain(origin, position_ms, Lateness::Keep, message_name).tags)
    }

    /// Apply the transitions that media at `position_ms` has reached, and
    /// serialize what they change.
    pub fn drain(
        &mut self,
        origin: u64,
        position_ms: u64,
        lateness: Lateness,
        message_name: MessageName,
    ) -> (result: Drained)
        ensures
            final(self)@ == old(self)@.drained(origin, position_ms, lateness),
            ({
                let expected = old(self)@.drain_outcome(origin, position_ms, lateness);
                &&& cue::tag_bytes(result.tags@) == cue::change_tags(expected.changes, message_name)
                &&& result.shows == cue::show_count(expected.changes)
                &&& result.shows + result.clears == expected.changes.len()
                &&& result.suppressed == expected.suppressed
            }),
            result.late == cue::late_count(old(self)@.pending, origin, position_ms),
            result.shows + result.clears + result.suppressed <= old(self)@.pending.len(),
            result.late <= old(self)@.pending.len(),
            old(self)@.wf() ==> final(self)@.wf(),
    {
        let ghost before = self@;
        let due = take_due(&mut self.pending, origin, position_ms, lateness);
        let result = coalesce(&mut self.active, &due.reached, message_name);
        proof {
            if before.wf() {
                draining_keeps_wf(before, origin, position_ms, lateness);
            }
        }
        Drained {
            tags: result.tags,
            shows: result.shows,
            clears: result.clears,
            suppressed: result.suppressed,
            late: due.late,
        }
    }

    /// How many transitions are waiting.
    pub fn pending_len(&self) -> (len: usize)
        ensures
            len == self@.pending.len(),
    {
        self.pending.len()
    }

    /// Drop the queue; returns how many transitions it held.
    pub fn discard_pending(&mut self) -> (discarded: u64)
        ensures
            discarded == old(self)@.pending.len(),
            final(self)@ == old(self)@.without_pending(),
            old(self)@.wf() ==> final(self)@.wf(),
    {
        let discarded: u64 = self.pending.len() as u64;
        self.pending.clear();
        assert(self@.pending =~= Seq::empty());
        discarded
    }

    /// Whether a cue is currently on screen downstream.
    pub fn has_active_text(&self) -> (active: bool)
        ensures
            active == (self@.active matches Some(state) && state.text.len() > 0),
    {
        match &self.active {
            Some(state) => !state.text.as_str().is_empty(),
            None => false,
        }
    }

    /// Drop the whole timeline, keeping the generation counters monotonic.
    ///
    /// Used when a new segment declares a fresh text timeline: pending
    /// transitions and the active cue both belong to the old one. Counters are
    /// deliberately not rewound, so a stale clear can never match a cue queued
    /// after the reset.
    pub fn reset_timeline(&mut self)
        ensures
            final(self)@ == old(self)@.reset(),
            old(self)@.wf() ==> final(self)@.wf(),
    {
        self.pending.clear();
        self.active = None;
        assert(self@.pending =~= Seq::empty());
    }
}

/// Whether a transition only speaks of generations that were handed out, and
/// shows no empty text.
pub open spec fn fits(timeline: Timeline, kind: cue::Kind) -> bool {
    match kind {
        cue::Kind::Show { generation, text } => generation < timeline.next_generation && text.len()
            > 0,
        cue::Kind::Clear { owner } => owner matches Some(generation) ==> generation
            < timeline.next_generation,
    }
}

proof fn queueing_keeps_wf(timeline: Timeline, running_time: u64, kind: cue::Kind)
    requires
        timeline.wf(),
        fits(timeline, kind),
        timeline.next_sequence < u64::MAX,
    ensures
        timeline.with(running_time, kind).wf(),
{
    broadcast use vstd::seq_lib::group_to_multiset_ensures;

    let item = cue::Transition { running_time, sequence: timeline.next_sequence, kind };
    cue::insertion_keeps_order(timeline.pending, cue::time_key(), item);
    cue::insertion_places_one(timeline.pending, cue::time_key(), item);
}

proof fn draining_keeps_wf(timeline: Timeline, origin: u64, position_ms: u64, lateness: Lateness)
    requires
        timeline.wf(),
    ensures
        timeline.drained(origin, position_ms, lateness).wf(),
{
    let pending = timeline.pending;
    let keep = |transition: cue::Transition|
        cue::tag_timestamp(transition.running_time, origin) > position_ms;
    let positions = cue::filter_positions(pending, keep);
    let left = cue::waiting(pending, origin, position_ms);
    assert forall|i: int, j: int| 0 <= i <= j < left.len() implies cue::key_le(
        cue::time_key()(#[trigger] left[i]),
        cue::time_key()(#[trigger] left[j]),
    ) by {
        assert(left[i] == pending[positions[i]] && left[j] == pending[positions[j]]);
    }
    assert forall|i: int, j: int| 0 <= i < j < left.len() implies (#[trigger] left[i]).sequence != (
    #[trigger] left[j]).sequence by {
        assert(left[i] == pending[positions[i]] && left[j] == pending[positions[j]]);
    }
    assert forall|i: int| 0 <= i < left.len() implies (#[trigger] left[i]).sequence
        < timeline.next_sequence && fits(timeline, left[i].kind) by {
        assert(left[i] == pending[positions[i]]);
    }
    let reached = cue::due(pending, origin, position_ms, lateness);
    assert forall|i: int| 0 <= i < reached.len() implies fits(
        timeline,
        (#[trigger] reached[i]).kind,
    ) by {
        let source = cue::due_comes_from_the_queue(pending, origin, position_ms, lateness, i);
    }
    applying_keeps_the_display_sound(timeline, timeline.active, reached);
}

proof fn applying_keeps_the_display_sound(
    timeline: Timeline,
    active: Option<cue::Active>,
    reached: Seq<cue::Reached>,
)
    requires
        active matches Some(state) ==> state.generation < timeline.next_generation
            && state.text.len() > 0,
        forall|i: int| 0 <= i < reached.len() ==> fits(timeline, (#[trigger] reached[i]).kind),
    ensures
        cue::apply_all(active, reached) matches Some(state) ==> state.generation
            < timeline.next_generation && state.text.len() > 0,
    decreases reached.len(),
{
    if reached.len() > 0 {
        assert(fits(timeline, reached[0].kind));
        let rest = reached.drop_first();
        assert forall|i: int| 0 <= i < rest.len() implies fits(
            timeline,
            (#[trigger] rest[i]).kind,
        ) by {
            assert(rest[i] == reached[i + 1]);
        }
        applying_keeps_the_display_sound(timeline, cue::apply(active, reached[0].kind), rest);
    }
}

/// Whether a text is longer than its tag can carry, and so will be truncated.
pub fn warn_if_amf_text_is_long(text: &str) -> (long: bool)
    ensures
        long == (text::utf8_len(text@) > MAXIMUM_TEXT_BYTES),
{
    text.as_bytes().len() > MAXIMUM_TEXT_BYTES
}

/// The cadence of media does not matter: draining at an earlier position and
/// then at a later one leaves the same timeline, and gives the same tags, as
/// draining at the later position alone. No transition is moved or lost because
/// media skipped its exact boundary.
pub proof fn cadence_does_not_matter(timeline: Timeline, origin: u64, earlier: u64, later: u64)
    requires
        earlier <= later,
    ensures
        ({
            let keep = Lateness::Keep;
            let between = timeline.drained(origin, earlier, keep);
            &&& between.drained(origin, later, keep) == timeline.drained(origin, later, keep)
            &&& timeline.drain_outcome(origin, later, keep).changes == timeline.drain_outcome(
                origin,
                earlier,
                keep,
            ).changes + between.drain_outcome(origin, later, keep).changes
        }),
{
    let front = cue::due(timeline.pending, origin, earlier, Lateness::Keep);
    let left = cue::waiting(timeline.pending, origin, earlier);
    let back = cue::due(left, origin, later, Lateness::Keep);
    cue::due_accumulates(timeline.pending, origin, earlier, later);
    cue::outcomes_concatenate(timeline.active, front, back);
}

/// Nothing goes out twice: draining again at the same position gives no tag and
/// changes nothing.
pub proof fn nothing_is_due_twice(timeline: Timeline, origin: u64, position_ms: u64)
    ensures
        ({
            let once = timeline.drained(origin, position_ms, Lateness::Keep);
            &&& once.drained(origin, position_ms, Lateness::Keep) == once
            &&& once.drain_outcome(origin, position_ms, Lateness::Keep).changes.len() == 0
        }),
{
    cadence_does_not_matter(timeline, origin, position_ms, position_ms);
}

/// Tags leave in the order of their timestamps, at most one per timestamp, none
/// beyond the media position, and each with the timestamp of a queued
/// transition: nothing is clamped.
pub proof fn tags_keep_their_own_timestamps(timeline: Timeline, origin: u64, position_ms: u64)
    ensures
        ({
            let changes = timeline.drain_outcome(origin, position_ms, Lateness::Keep).changes;
            &&& forall|i: int, j: int|
                0 <= i < j < changes.len() ==> (#[trigger] changes[i]).timestamp_ms < (
                #[trigger] changes[j]).timestamp_ms
            &&& forall|i: int|
                0 <= i < changes.len() ==> (#[trigger] changes[i]).timestamp_ms <= position_ms
                    && exists|k: int|
                    0 <= k < timeline.pending.len() && cue::tag_timestamp(
                        (#[trigger] timeline.pending[k]).running_time,
                        origin,
                    ) == changes[i].timestamp_ms
        }),
{
    let keep = Lateness::Keep;
    let reached = cue::due(timeline.pending, origin, position_ms, keep);
    let changes = timeline.drain_outcome(origin, position_ms, keep).changes;
    cue::ordering_orders(
        cue::due_unordered(timeline.pending, origin, position_ms, keep),
        cue::timestamp_key(),
    );
    cue::changes_move_forward(timeline.active, reached);
    assert forall|i: int| 0 <= i < changes.len() implies (#[trigger] changes[i]).timestamp_ms
        <= position_ms && exists|k: int|
        0 <= k < timeline.pending.len() && cue::tag_timestamp(
            (#[trigger] timeline.pending[k]).running_time,
            origin,
        ) == changes[i].timestamp_ms by {
        let at = choose|k: int|
            0 <= k < reached.len() && (#[trigger] reached[k]).timestamp_ms
                == changes[i].timestamp_ms;
        let source = cue::due_comes_from_the_queue(
            timeline.pending,
            origin,
            position_ms,
            keep,
            at,
        );
        assert(cue::tag_timestamp(timeline.pending[source].running_time, origin)
            == changes[i].timestamp_ms);
    }
}

/// A generation is handed out once: whatever is queued next carries one that
/// nothing in the queue or on display has, so no clear that is queued already
/// can end it.
pub proof fn a_new_cue_is_safe_from_queued_clears(timeline: Timeline)
    requires
        timeline.wf(),
    ensures
        forall|i: int|
            0 <= i < timeline.pending.len() ==> (#[trigger] timeline.pending[i]).kind
                != (cue::Kind::Clear { owner: Some(timeline.next_generation) }),
        timeline.active matches Some(state) ==> state.generation != timeline.next_generation,
        timeline.reset().next_generation == timeline.next_generation,
{
}

/// What queueing a text adds. Empty text adds one explicit clear at its start. Text
/// that shows adds one show at its start, under a generation that is used for nothing
/// else, and where it is timed one clear of its own at its end. Nothing else enters
/// or leaves the queue, and the display stays.
pub proof fn queueing_adds_a_show_and_its_clear(
    timeline: Timeline,
    start: u64,
    duration: u64,
    text: Seq<char>,
    mode: InputMode,
)
    requires
        timeline.next_generation < u64::MAX,
        timeline.next_sequence < u64::MAX - 1,
        start + duration <= u64::MAX,
    ensures
        ({
            let after = timeline.queued(start, duration, text, mode);
            let generation = timeline.next_generation;
            let arrival = timeline.next_sequence;
            let clear = cue::Transition {
                running_time: start,
                sequence: arrival,
                kind: cue::Kind::Clear { owner: None },
            };
            let show = cue::Transition {
                running_time: start,
                sequence: arrival,
                kind: cue::Kind::Show { generation, text },
            };
            let own_clear = cue::Transition {
                running_time: (start + duration) as u64,
                sequence: (arrival + 1) as u64,
                kind: cue::Kind::Clear { owner: Some(generation) },
            };
            let before = timeline.pending.to_multiset();
            &&& text.len() == 0 ==> after.pending.to_multiset() =~= before.insert(clear)
                && after.next_sequence == arrival + 1
            &&& text.len() > 0 && mode == InputMode::Replacement ==> after.pending.to_multiset()
                =~= before.insert(show) && after.next_sequence == arrival + 1
            &&& text.len() > 0 && mode == InputMode::Timed ==> after.pending.to_multiset()
                =~= before.insert(show).insert(own_clear) && after.next_sequence == arrival + 2
            &&& after.active == timeline.active
            &&& after.next_generation == generation + 1
        }),
{
    let generation = timeline.next_generation;
    let claimed = timeline.claimed();
    if text.len() == 0 {
        queued_is_inserted(claimed, start, cue::Kind::Clear { owner: None });
    } else {
        let show = cue::Kind::Show { generation, text };
        queued_is_inserted(claimed, start, show);
        if mode == InputMode::Timed {
            queued_is_inserted(
                claimed.with(start, show),
                (start + duration) as u64,
                cue::Kind::Clear { owner: Some(generation) },
            );
        }
    }
}

proof fn queued_is_inserted(timeline: Timeline, at: u64, kind: cue::Kind)
    ensures
        timeline.with(at, kind).pending.to_multiset() == timeline.pending.to_multiset().insert(
            cue::Transition { running_time: at, sequence: timeline.next_sequence, kind },
        ),
{
    broadcast use vstd::seq_lib::group_to_multiset_ensures;

    let item = cue::Transition { running_time: at, sequence: timeline.next_sequence, kind };
    let place = cue::insertion_places_one(timeline.pending, cue::time_key(), item);
    vstd::seq_lib::to_multiset_insert(timeline.pending, place, item);
}

/// A text that is timed and shows something needs some time to show it in; every
/// other text can be queued.
pub proof fn only_a_timed_show_needs_time(duration: u64, text: Seq<char>, mode: InputMode)
    ensures
        !can_show(duration, text, mode) <==> mode == InputMode::Timed && text.len() > 0 && duration
            == 0,
{
}

/// A filter over a sequence with one more item in it.
proof fn filter_with_one_more<T>(items: Seq<T>, at: int, item: T, keep: spec_fn(T) -> bool) -> (
    place: int)
    requires
        0 <= at <= items.len(),
    ensures
        0 <= place <= items.filter(keep).len(),
        items.insert(at, item).filter(keep) == if keep(item) {
            items.filter(keep).insert(place, item)
        } else {
            items.filter(keep)
        },
{
    let front = items.take(at);
    let back = items.skip(at);
    let one = seq![item];
    assert(items.insert(at, item) =~= front + one + back);
    assert(items =~= front + back);
    Seq::filter_distributes_over_add(front + one, back, keep);
    Seq::filter_distributes_over_add(front, one, keep);
    Seq::filter_distributes_over_add(front, back, keep);
    reveal(Seq::filter);
    assert(one.drop_last() =~= Seq::empty());
    let place = front.filter(keep).len() as int;
    if keep(item) {
        assert(one.filter(keep) =~= one);
        assert(items.insert(at, item).filter(keep) =~= items.filter(keep).insert(place, item));
    } else {
        nothing_passes(one, keep);
        assert(items.insert(at, item).filter(keep) =~= items.filter(keep));
    }
    place
}

proof fn nothing_passes<T>(items: Seq<T>, keep: spec_fn(T) -> bool)
    requires
        forall|i: int| 0 <= i < items.len() ==> !keep(#[trigger] items[i]),
    ensures
        items.filter(keep) == Seq::<T>::empty(),
    decreases items.len(),
{
    reveal(Seq::filter);
    if items.len() > 0 {
        assert forall|i: int| 0 <= i < items.drop_last().len() implies !keep(
            #[trigger] items.drop_last()[i],
        ) by {
            assert(items.drop_last()[i] == items[i]);
        }
        nothing_passes(items.drop_last(), keep);
    }
}

/// Whether media at a position has reached nothing of what is queued.
pub open spec fn all_wait(timeline: Timeline, origin: u64, position_ms: u64) -> bool {
    forall|i: int|
        0 <= i < timeline.pending.len() ==> cue::tag_timestamp(
            (#[trigger] timeline.pending[i]).running_time,
            origin,
        ) > position_ms
}

/// What one transition stands for once media has reached it.
pub open spec fn reached_as(
    running_time: u64,
    sequence: u64,
    kind: cue::Kind,
    origin: u64,
    position_ms: u64,
    lateness: Lateness,
) -> cue::Reached {
    cue::Reached {
        timestamp_ms: if lateness == Lateness::Clamp {
            position_ms
        } else {
            cue::tag_timestamp(running_time, origin)
        },
        sequence,
        kind,
    }
}

/// One transition that media has reached, behind a queue that waits, is all that is
/// due.
proof fn one_is_due(
    timeline: Timeline,
    at: u64,
    kind: cue::Kind,
    origin: u64,
    position_ms: u64,
    lateness: Lateness,
)
    requires
        all_wait(timeline, origin, position_ms),
        cue::tag_timestamp(at, origin) <= position_ms,
        lateness != Lateness::Discard || cue::tag_timestamp(at, origin) == position_ms,
    ensures
        cue::due_unordered(timeline.with(at, kind).pending, origin, position_ms, lateness) == seq![
            reached_as(at, timeline.next_sequence, kind, origin, position_ms, lateness),
        ],
        cue::due(timeline.with(at, kind).pending, origin, position_ms, lateness) == seq![
            reached_as(at, timeline.next_sequence, kind, origin, position_ms, lateness),
        ],
{
    let item = cue::Transition { running_time: at, sequence: timeline.next_sequence, kind };
    let place = cue::insertion_places_one(timeline.pending, cue::time_key(), item);
    let keep = |transition: cue::Transition|
        cue::placement(transition, origin, position_ms, lateness) is At;
    nothing_passes(timeline.pending, keep);
    let spot = filter_with_one_more(timeline.pending, place, item, keep);
    assert(timeline.with(at, kind).pending.filter(keep) =~= seq![item]);
    let found = cue::due_unordered(timeline.with(at, kind).pending, origin, position_ms, lateness);
    let reached = reached_as(at, timeline.next_sequence, kind, origin, position_ms, lateness);
    assert(found =~= seq![reached]);
    ordering_one(reached);
}

proof fn ordering_one(reached: cue::Reached)
    ensures
        cue::in_order(seq![reached], cue::timestamp_key()) == seq![reached],
{
    reveal_with_fuel(cue::in_order, 2);
    assert(seq![reached].drop_last() =~= Seq::empty());
    assert(Seq::<cue::Reached>::empty().push(reached) =~= seq![reached]);
}

proof fn ordering_two(first: cue::Reached, second: cue::Reached)
    requires
        first.timestamp_ms < second.timestamp_ms || (first.timestamp_ms == second.timestamp_ms
            && first.sequence < second.sequence),
    ensures
        cue::in_order(seq![first, second], cue::timestamp_key()) == seq![first, second],
        cue::in_order(seq![second, first], cue::timestamp_key()) == seq![first, second],
{
    let key = cue::timestamp_key();
    ordering_one(first);
    ordering_one(second);
    assert(seq![first, second].drop_last() =~= seq![first]);
    assert(seq![second, first].drop_last() =~= seq![second]);
    assert(seq![first].push(second) =~= seq![first, second]);
    assert(seq![second].drop_last() =~= Seq::empty());
    assert(cue::insert_ordered(seq![first], key, second) =~= seq![first, second]);
    assert(cue::insert_ordered(Seq::<cue::Reached>::empty(), key, first) =~= seq![first]);
    assert(cue::insert_ordered(seq![second], key, first) =~= seq![first].push(second));
}

/// Empty text clears what is on display: media that reaches it, with nothing else
/// due, carries exactly one change, of empty text, at the timestamp of the empty
/// text, and then nothing is on display.
pub proof fn empty_text_clears_the_display(
    timeline: Timeline,
    start: u64,
    duration: u64,
    mode: InputMode,
    origin: u64,
    position_ms: u64,
)
    requires
        timeline.active is Some,
        all_wait(timeline, origin, position_ms),
        cue::tag_timestamp(start, origin) <= position_ms,
    ensures
        ({
            let queued = timeline.queued(start, duration, Seq::empty(), mode);
            let kept = queued.drain_outcome(origin, position_ms, Lateness::Keep).changes;
            let clamped = queued.drain_outcome(origin, position_ms, Lateness::Clamp).changes;
            &&& kept.len() == 1
            &&& kept[0].timestamp_ms == cue::tag_timestamp(start, origin)
            &&& kept[0].text.len() == 0
            &&& queued.drained(origin, position_ms, Lateness::Keep).active is None
            &&& clamped.len() == 1
            &&& clamped[0].timestamp_ms == position_ms
            &&& clamped[0].text.len() == 0
            &&& queued.drained(origin, position_ms, Lateness::Clamp).active is None
        }),
{
    let claimed = timeline.claimed();
    let kind = cue::Kind::Clear { owner: None };
    one_change_is_made(claimed, start, kind, origin, position_ms, Lateness::Keep);
    one_change_is_made(claimed, start, kind, origin, position_ms, Lateness::Clamp);
}

/// One transition that media has reached, behind a queue that waits, makes the change
/// that it makes to the display, and no other.
pub proof fn one_change_is_made(
    timeline: Timeline,
    at: u64,
    kind: cue::Kind,
    origin: u64,
    position_ms: u64,
    lateness: Lateness,
)
    requires
        all_wait(timeline, origin, position_ms),
        cue::tag_timestamp(at, origin) <= position_ms,
        lateness != Lateness::Discard || cue::tag_timestamp(at, origin) == position_ms,
    ensures
        ({
            let queued = timeline.with(at, kind);
            let after = cue::apply(timeline.active, kind);
            let same = (timeline.active is None && after is None) || (timeline.active is Some
                && after is Some && timeline.active->0.text == after->0.text);
            let changes = queued.drain_outcome(origin, position_ms, lateness).changes;
            &&& queued.drained(origin, position_ms, lateness).active == after
            &&& same ==> changes.len() == 0
            &&& !same ==> changes.len() == 1 && changes[0].timestamp_ms == reached_as(
                at,
                timeline.next_sequence,
                kind,
                origin,
                position_ms,
                lateness,
            ).timestamp_ms && changes[0].text == (if after is Some {
                after->0.text
            } else {
                Seq::empty()
            })
        }),
{
    let reached = reached_as(at, timeline.next_sequence, kind, origin, position_ms, lateness);
    one_is_due(timeline, at, kind, origin, position_ms, lateness);
    cue::transitions_apply_one_after_another(timeline.active, Seq::empty(), reached);
    assert(Seq::<cue::Reached>::empty().push(reached) =~= seq![reached]);
    cue::one_instant_makes_one_change(timeline.active, seq![reached], reached.timestamp_ms);
}

/// One transition that media has passed, behind a queue that waits, is gone without a
/// trace where late ones are discarded: nothing goes out, the display stays, and the
/// queue is as it was without it.
pub proof fn a_late_transition_is_discarded(
    timeline: Timeline,
    at: u64,
    kind: cue::Kind,
    origin: u64,
    position_ms: u64,
)
    requires
        all_wait(timeline, origin, position_ms),
        cue::tag_timestamp(at, origin) < position_ms,
    ensures
        ({
            let queued = timeline.with(at, kind);
            let after = queued.drained(origin, position_ms, Lateness::Discard);
            &&& queued.drain_outcome(origin, position_ms, Lateness::Discard).changes.len() == 0
            &&& after.active == timeline.active
            &&& after.pending == timeline.pending
        }),
{
    let item = cue::Transition { running_time: at, sequence: timeline.next_sequence, kind };
    let longer = timeline.with(at, kind).pending;
    let place = cue::insertion_places_one(timeline.pending, cue::time_key(), item);
    assert(cue::due_unordered(longer, origin, position_ms, Lateness::Discard) =~= Seq::empty()) by {
        let out = |transition: cue::Transition|
            cue::placement(transition, origin, position_ms, Lateness::Discard) is At;
        assert forall|i: int| 0 <= i < timeline.pending.len() implies !out(
            #[trigger] timeline.pending[i],
        ) by {}
        nothing_passes(timeline.pending, out);
        let spot = filter_with_one_more(timeline.pending, place, item, out);
        assert(longer.filter(out) =~= Seq::empty());
    }
    assert(cue::waiting(longer, origin, position_ms) == timeline.pending) by {
        let stays = |transition: cue::Transition|
            cue::tag_timestamp(transition.running_time, origin) > position_ms;
        assert forall|i: int| 0 <= i < timeline.pending.len() implies stays(
            #[trigger] timeline.pending[i],
        ) by {}
        everything_passes(timeline.pending, stays);
        let spot = filter_with_one_more(timeline.pending, place, item, stays);
    }
}

proof fn everything_passes<T>(items: Seq<T>, keep: spec_fn(T) -> bool)
    requires
        forall|i: int| 0 <= i < items.len() ==> keep(#[trigger] items[i]),
    ensures
        items.filter(keep) == items,
    decreases items.len(),
{
    reveal(Seq::filter);
    if items.len() > 0 {
        let front = items.drop_last();
        assert forall|i: int| 0 <= i < front.len() implies keep(#[trigger] front[i]) by {
            assert(front[i] == items[i]);
        }
        everything_passes(front, keep);
        assert(front.push(items.last()) =~= items);
    }
}

/// A text shows from its start on: media that reaches its start but not its end, with
/// nothing else due, carries one change with that text at the timestamp of its start,
/// unless the same text is on display already, and then the text is on display. A
/// replacement has no end of its own.
pub proof fn text_shows_from_its_start(
    timeline: Timeline,
    start: u64,
    duration: u64,
    text: Seq<char>,
    mode: InputMode,
    origin: u64,
    position_ms: u64,
)
    requires
        text.len() > 0,
        all_wait(timeline, origin, position_ms),
        cue::tag_timestamp(start, origin) <= position_ms,
        start + duration <= u64::MAX,
        mode == InputMode::Timed ==> cue::tag_timestamp((start + duration) as u64, origin)
            > position_ms,
    ensures
        ({
            let queued = timeline.queued(start, duration, text, mode);
            let changes = queued.drain_outcome(origin, position_ms, Lateness::Keep).changes;
            let after = queued.drained(origin, position_ms, Lateness::Keep);
            let same = timeline.active is Some && timeline.active->0.text == text;
            &&& same ==> changes.len() == 0
            &&& !same ==> changes.len() == 1 && changes[0].timestamp_ms == cue::tag_timestamp(
                start,
                origin,
            ) && changes[0].text == text
            &&& after.active is Some
            &&& after.active->0.text == text
            &&& after.active->0.generation == timeline.next_generation
        }),
{
    let generation = timeline.next_generation;
    let claimed = timeline.claimed();
    let kind = cue::Kind::Show { generation, text };
    match mode {
        InputMode::Replacement => {
            one_change_is_made(claimed, start, kind, origin, position_ms, Lateness::Keep);
        },
        InputMode::Timed => {
            let shown = claimed.with(start, kind);
            let end = (start + duration) as u64;
            let clear = cue::Kind::Clear { owner: Some(generation) };
            let item = cue::Transition {
                running_time: end,
                sequence: shown.next_sequence,
                kind: clear,
            };
            one_change_is_made(claimed, start, kind, origin, position_ms, Lateness::Keep);
            let place = cue::insertion_places_one(shown.pending, cue::time_key(), item);
            let keep = |transition: cue::Transition|
                cue::placement(transition, origin, position_ms, Lateness::Keep) is At;
            let spot = filter_with_one_more(shown.pending, place, item, keep);
            assert(cue::due(shown.with(end, clear).pending, origin, position_ms, Lateness::Keep)
                == cue::due(shown.pending, origin, position_ms, Lateness::Keep));
        },
    }
}

/// A timed text clears at its end: media that is past it, with nothing else due and
/// nothing on display, carries the text at the timestamp of its start and empty text
/// at the timestamp of its end, and then nothing is on display. Where both fall on one
/// timestamp nothing is carried.
pub proof fn a_timed_text_clears_at_its_end(
    timeline: Timeline,
    start: u64,
    duration: u64,
    text: Seq<char>,
    origin: u64,
    position_ms: u64,
)
    requires
        text.len() > 0,
        timeline.active is None,
        timeline.next_sequence < u64::MAX - 1,
        all_wait(timeline, origin, position_ms),
        start + duration <= u64::MAX,
        cue::tag_timestamp((start + duration) as u64, origin) <= position_ms,
    ensures
        ({
            let queued = timeline.queued(start, duration, text, InputMode::Timed);
            let changes = queued.drain_outcome(origin, position_ms, Lateness::Keep).changes;
            let first = cue::tag_timestamp(start, origin);
            let last = cue::tag_timestamp((start + duration) as u64, origin);
            &&& first < last ==> changes.len() == 2 && changes[0].timestamp_ms == first
                && changes[0].text == text && changes[1].timestamp_ms == last
                && changes[1].text.len() == 0
            &&& first == last ==> changes.len() == 0
            &&& queued.drained(origin, position_ms, Lateness::Keep).active is None
        }),
{
    let generation = timeline.next_generation;
    let claimed = timeline.claimed();
    let kind = cue::Kind::Show { generation, text };
    let shown = claimed.with(start, kind);
    let end = (start + duration) as u64;
    let clear = cue::Kind::Clear { owner: Some(generation) };
    let keep_own = Lateness::Keep;
    let item = cue::Transition { running_time: end, sequence: shown.next_sequence, kind: clear };
    let queued = shown.with(end, clear);
    cue::tag_timestamps_count_milliseconds(start, end, origin);
    one_is_due(claimed, start, kind, origin, position_ms, keep_own);
    let place = cue::insertion_places_one(shown.pending, cue::time_key(), item);
    let keep = |transition: cue::Transition|
        cue::placement(transition, origin, position_ms, keep_own) is At;
    let spot = filter_with_one_more(shown.pending, place, item, keep);
    let one = reached_as(start, claimed.next_sequence, kind, origin, position_ms, keep_own);
    let two = reached_as(end, shown.next_sequence, clear, origin, position_ms, keep_own);
    let found = cue::due_unordered(queued.pending, origin, position_ms, keep_own);
    let before = shown.pending.filter(keep);
    assert(cue::due_unordered(shown.pending, origin, position_ms, keep_own).len() == before.len());
    assert(before.len() == 1);
    assert(cue::due_unordered(shown.pending, origin, position_ms, keep_own)[0] == one);
    if spot == 0 {
        assert(found =~= seq![two, one]);
    } else {
        assert(found =~= seq![one, two]);
    }
    ordering_two(one, two);
    let due = cue::due(queued.pending, origin, position_ms, keep_own);
    assert(due =~= seq![one] + seq![two]);
    let none = timeline.active;
    let middle = Some(cue::Active { generation, text });
    cue::transitions_apply_one_after_another(none, Seq::empty(), one);
    assert(Seq::<cue::Reached>::empty().push(one) =~= seq![one]);
    assert(cue::apply_all(none, seq![one]) == middle);
    cue::transitions_apply_one_after_another(middle, Seq::empty(), two);
    assert(Seq::<cue::Reached>::empty().push(two) =~= seq![two]);
    cue::transitions_apply_one_after_another(none, seq![one], two);
    assert(seq![one].push(two) =~= due);
    if one.timestamp_ms < two.timestamp_ms {
        cue::outcomes_concatenate(none, seq![one], seq![two]);
        cue::one_instant_makes_one_change(none, seq![one], one.timestamp_ms);
        cue::one_instant_makes_one_change(middle, seq![two], two.timestamp_ms);
    } else {
        cue::one_instant_makes_one_change(none, due, one.timestamp_ms);
    }
}

/// Draining moves what media has reached out of the queue and onto the display, and
/// touches nothing else; a reset empties queue and display and goes on counting, and
/// dropping the queue leaves the display.
pub proof fn what_is_left_of_a_timeline(
    timeline: Timeline,
    origin: u64,
    position_ms: u64,
    lateness: Lateness,
)
    ensures
        ({
            let after = timeline.drained(origin, position_ms, lateness);
            &&& forall|i: int|
                0 <= i < after.pending.len() ==> timeline.pending.contains(
                    #[trigger] after.pending[i],
                ) && cue::tag_timestamp(after.pending[i].running_time, origin) > position_ms
            &&& forall|i: int|
                0 <= i < timeline.pending.len() && cue::tag_timestamp(
                    (#[trigger] timeline.pending[i]).running_time,
                    origin,
                ) > position_ms ==> after.pending.contains(timeline.pending[i])
            &&& after.next_generation == timeline.next_generation && after.next_sequence
                == timeline.next_sequence
        }),
        timeline.reset().pending.len() == 0 && timeline.reset().active is None,
        timeline.reset().next_generation == timeline.next_generation
            && timeline.reset().next_sequence == timeline.next_sequence,
        timeline.without_pending().pending.len() == 0,
        timeline.without_pending().active == timeline.active,
        timeline.without_pending().next_generation == timeline.next_generation
            && timeline.without_pending().next_sequence == timeline.next_sequence,
{
    broadcast use vstd::seq_lib::group_filter_ensures;

    let after = timeline.drained(origin, position_ms, lateness);
    let keep = |transition: cue::Transition|
        cue::tag_timestamp(transition.running_time, origin) > position_ms;
    let positions = cue::filter_positions(timeline.pending, keep);
    assert forall|i: int| 0 <= i < after.pending.len() implies timeline.pending.contains(
        #[trigger] after.pending[i],
    ) && cue::tag_timestamp(after.pending[i].running_time, origin) > position_ms by {
        assert(after.pending[i] == timeline.pending[positions[i]]);
    }
}


/// Text is refused only where it would have to last and does not, and then nothing is
/// queued. Else it is queued as a show, with its end behind it where it is timed; and
/// text without characters is queued as one clear. The display is left alone.
pub proof fn queued_text_waits(
    timeline: &mut CaptionTimeline,
    start: u64,
    duration: u64,
    text: String,
    mode: InputMode,
    result: Result<(), CaptionError>,
)
    requires
        call_ensures(CaptionTimeline::queue_text, (timeline, start, duration, text, mode), result),
        old(timeline)@.next_generation < u64::MAX,
        old(timeline)@.next_sequence < u64::MAX - 1,
        start + duration <= u64::MAX,
    ensures
        result is Err <==> mode == InputMode::Timed && text@.len() > 0 && duration == 0,
        result is Err ==> final(timeline)@.pending == old(timeline)@.pending,
        result is Ok && mode == InputMode::Timed && text@.len() > 0
            ==> final(timeline)@.pending.len() == old(timeline)@.pending.len() + 2,
        result is Ok && !(mode == InputMode::Timed && text@.len() > 0)
            ==> final(timeline)@.pending.len() == old(timeline)@.pending.len() + 1,
        final(timeline)@.active == old(timeline)@.active,
{
    old(timeline)@.pending.to_multiset_ensures();
    final(timeline)@.pending.to_multiset_ensures();
    if result is Ok {
        queueing_adds_a_show_and_its_clear(old(timeline)@, start, duration, text@, mode);
    }
}

/// What is discarded is counted, waits no longer, and leaves the display alone; and a new
/// timeline takes down the display too, without giving a number out again.
pub proof fn discarding_and_starting_over(
    timeline: &mut CaptionTimeline,
    discarded: u64,
    other: &mut CaptionTimeline,
)
    requires
        call_ensures(CaptionTimeline::discard_pending, (timeline,), discarded),
        call_ensures(CaptionTimeline::reset_timeline, (other,), ()),
    ensures
        discarded == old(timeline)@.pending.len(),
        final(timeline)@.pending.len() == 0,
        final(timeline)@.active == old(timeline)@.active,
        final(timeline)@.next_generation == old(timeline)@.next_generation,
        final(timeline)@.next_sequence == old(timeline)@.next_sequence,
        final(other)@.pending.len() == 0 && final(other)@.active is None,
        final(other)@.next_generation == old(other)@.next_generation,
        final(other)@.next_sequence == old(other)@.next_sequence,
{
}

/// A buffer is read where it has a timestamp, a duration and data that is text; and then
/// it gives back all three as they are.
pub proof fn a_buffer_is_read_as_it_is(
    buffer: TextBuffer,
    result: Result<(u64, u64, String), CaptionError>,
)
    requires
        call_ensures(CaptionTimeline::decode_text_buffer, (&buffer,), result),
    ensures
        result is Ok <==> buffer.pts is Some && buffer.duration is Some && buffer.data is Some
            && utf8::valid_utf8(buffer.data->0@),
        result matches Ok((pts, duration, text)) ==> buffer.pts == Some(pts) && buffer.duration
            == Some(duration) && text@ == utf8::decode_utf8(buffer.data->0@),
        result is Err ==> (result->Err_0 is MissingPts <==> buffer.pts is None),
        result is Err ==> (result->Err_0 is MissingDuration <==> buffer.pts is Some
            && buffer.duration is None),
{
    broadcast use {utf8::encode_utf8_valid_utf8, utf8::encode_utf8_decode_utf8};

}


/// Where nothing waits, media reaches nothing: no change goes out, and the display stays
/// as it is.
pub proof fn nothing_comes_of_nothing(
    timeline: Timeline,
    origin: u64,
    position_ms: u64,
    lateness: Lateness,
)
    requires
        timeline.pending.len() == 0,
    ensures
        timeline.drain_outcome(origin, position_ms, lateness).changes.len() == 0,
        timeline.drain_outcome(origin, position_ms, lateness).suppressed == 0,
        timeline.drained(origin, position_ms, lateness).active == timeline.active,
        timeline.drained(origin, position_ms, lateness).pending.len() == 0,
{
    cue::nothing_waits_and_nothing_is_due(timeline.pending, origin, position_ms, lateness);
}

/// A fresh timeline holds nothing: nothing waits, nothing is on display, and numbers are
/// given out from zero on.
pub proof fn a_fresh_timeline_is_empty(timeline: CaptionTimeline, len: usize, active: bool)
    requires
        call_ensures(CaptionTimeline::default, (), timeline),
        call_ensures(CaptionTimeline::pending_len, (&timeline,), len),
        call_ensures(CaptionTimeline::has_active_text, (&timeline,), active),
    ensures
        len == 0,
        !active,
        timeline@.active is None,
        timeline@.next_generation == 0 && timeline@.next_sequence == 0,
{
}

} // verus!
