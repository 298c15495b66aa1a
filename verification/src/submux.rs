//! Strict, GAP-driven FLV subtitle aggregation.
//!
//! Text and GAP intervals must continuously cover the media timeline. Media is
//! held back until the text side has proven what belongs in front of it; a
//! single interval can cover any number of FLV tags. There is no clock timeout,
//! no late clamp and no silent drop: coverage that is missing, overlapping or
//! contradictory is an error.
//!
//! The functions here decide; the element around them reads its pads, hands in
//! what it finds at their head, and carries out what is decided.
use crate::amf::MessageName;
use crate::caption;
use crate::caption::{cue_end_fits, CaptionError, CaptionTimeline, InputMode, TextBuffer};
use crate::cue;
use crate::cue::{tag_timestamp_ms, Lateness};
use crate::subinject;
use crate::subinject::blank_data_tag;
use vstd::prelude::*;
use vstd::utf8;

verus! {

/// Configuration of the aggregator.
#[derive(Clone, Copy, Debug)]
pub struct Settings {
    pub message_name: MessageName,
    pub input_mode: InputMode,
    pub prime: bool,
}

impl Default for Settings {
    fn default() -> (settings: Self)
        ensures
            settings.message_name == MessageName::OnCaption,
            settings.input_mode == InputMode::Timed,
            settings.prime,
    {
        Settings {
            message_name: MessageName::default(),
            input_mode: InputMode::default(),
            prime: true,
        }
    }
}

/// Why a timestamp has no running time under the strict contract.
#[derive(Clone, Copy, Debug, PartialEq, Eq, Structural)]
pub enum SegmentError {
    /// The segment is not a TIME segment.
    NotTime,
    /// The segment's rate is not 1.0, so running time would be scaled.
    RateNotOne,
    /// The timestamp lies outside the segment.
    OutsideSegment,
}

/// Running time under the strict contract.
///
/// Three cases are refused rather than approximated, because each one would
/// otherwise produce a plausible but wrong tag timestamp: a non-TIME segment, a
/// segment whose rate is not 1.0, and a timestamp outside the segment.
/// `converted` is what the segment makes of the timestamp.
pub fn running_time(
    time_format: bool,
    unit_rate: bool,
    converted: Option<u64>,
) -> (result: Result<u64, SegmentError>)
    ensures
        result == if !time_format {
            Err(SegmentError::NotTime)
        } else if !unit_rate {
            Err(SegmentError::RateNotOne)
        } else {
            match converted {
                Some(time) => Ok(time),
                None => Err(SegmentError::OutsideSegment),
            }
        },
{
    if !time_format {
        return Err(SegmentError::NotTime);
    }
    if !unit_rate {
        return Err(SegmentError::RateNotOne);
    }
    match converted {
        Some(time) => Ok(time),
        None => Err(SegmentError::OutsideSegment),
    }
}

/// The part of the media timeline that a text buffer or a GAP vouches for.
#[derive(Clone, Copy, Debug, PartialEq, Eq, Structural)]
pub struct TextInterval {
    pub start: u64,
    pub end: u64,
}

/// A buffer at the head of the text pad, with the running times of its edges.
///
/// Both edges are converted through the segment, which keeps the interval
/// correct by construction.
#[derive(Debug)]
pub struct TextHead {
    pub buffer: TextBuffer,
    pub gap: bool,
    pub start: Result<u64, SegmentError>,
    pub end: Result<u64, SegmentError>,
}

/// What the text pad holds.
#[derive(Debug)]
pub enum TextPad {
    /// Nothing yet.
    Waiting,
    /// Nothing, and nothing more will come.
    Ended,
    /// A buffer.
    Head(TextHead),
}

/// Why the stream fails.
#[derive(Debug)]
pub enum ProtocolError {
    MissingPts,
    MissingDuration,
    Segment(SegmentError),
    /// The interval starts inside the timeline that was already consumed.
    Overlap { start: u64, previous_end: u64 },
    /// The text timeline has a hole.
    Uncovered { previous_end: u64, start: u64 },
    /// A GAP without a duration covers nothing.
    EmptyGap,
    Caption(CaptionError),
    /// The interval being consumed is no longer queued.
    TextDisappeared,
    /// Media timestamps went back.
    NotMonotonic { time: u64, previous: u64 },
    /// Media comes before the first interval.
    NoInitialCoverage { time: u64, start: u64 },
}

/// What is wrong, without the detail of an encoding error.
pub enum Fault {
    MissingPts,
    MissingDuration,
    Segment(SegmentError),
    Overlap { start: u64, previous_end: u64 },
    Uncovered { previous_end: u64, start: u64 },
    EmptyGap,
    Unreadable,
    InvalidUtf8,
    ZeroDuration,
    TextDisappeared,
    NotMonotonic { time: u64, previous: u64 },
    NoInitialCoverage { time: u64, start: u64 },
}

impl ProtocolError {
    /// What is wrong.
    pub open spec fn fault(&self) -> Fault {
        match self {
            ProtocolError::MissingPts => Fault::MissingPts,
            ProtocolError::MissingDuration => Fault::MissingDuration,
            ProtocolError::Segment(error) => Fault::Segment(*error),
            ProtocolError::Overlap { start, previous_end } => Fault::Overlap {
                start: *start,
                previous_end: *previous_end,
            },
            ProtocolError::Uncovered { previous_end, start } => Fault::Uncovered {
                previous_end: *previous_end,
                start: *start,
            },
            ProtocolError::EmptyGap => Fault::EmptyGap,
            ProtocolError::Caption(error) => match error {
                CaptionError::MissingPts => Fault::MissingPts,
                CaptionError::MissingDuration => Fault::MissingDuration,
                CaptionError::BufferMap => Fault::Unreadable,
                CaptionError::InvalidUtf8(_) => Fault::InvalidUtf8,
                CaptionError::ZeroDuration => Fault::ZeroDuration,
            },
            ProtocolError::TextDisappeared => Fault::TextDisappeared,
            ProtocolError::NotMonotonic { time, previous } => Fault::NotMonotonic {
                time: *time,
                previous: *previous,
            },
            ProtocolError::NoInitialCoverage { time, start } => Fault::NoInitialCoverage {
                time: *time,
                start: *start,
            },
        }
    }
}

/// The state of the aggregator, as a mathematical value.
pub struct Mux {
    pub origin: Option<u64>,
    pub stream_position_ms: u64,
    pub last_media: Option<u64>,
    pub current: Option<TextInterval>,
    pub consumed: Option<u64>,
    pub caption: caption::Timeline,
    pub primed: bool,
    pub needs_clear: bool,
}

impl Mux {
    /// A state on which nothing has happened.
    pub open spec fn initial() -> Mux {
        Mux {
            origin: None,
            stream_position_ms: 0,
            last_media: None,
            current: None,
            consumed: None,
            caption: caption::Timeline::empty(),
            primed: false,
            needs_clear: false,
        }
    }

    /// What is wrong with a buffer at the head of the text pad, if anything.
    ///
    /// Placement against the consumed timeline comes before anything is queued,
    /// so a rejected interval leaves no half-applied cue behind.
    pub open spec fn head_fault(self, head: TextHead, mode: InputMode) -> Option<Fault> {
        if head.buffer.pts is None {
            Some(Fault::MissingPts)
        } else if head.buffer.duration is None {
            Some(Fault::MissingDuration)
        } else if head.start is Err {
            Some(Fault::Segment(head.start->Err_0))
        } else if head.end is Err {
            Some(Fault::Segment(head.end->Err_0))
        } else if self.consumed matches Some(previous_end) && head.start->Ok_0 < previous_end {
            Some(Fault::Overlap { start: head.start->Ok_0, previous_end: self.consumed->0 })
        } else if self.consumed matches Some(previous_end) && head.start->Ok_0 > previous_end {
            Some(Fault::Uncovered { previous_end: self.consumed->0, start: head.start->Ok_0 })
        } else if head.gap {
            if head.buffer.duration->0 == 0 {
                Some(Fault::EmptyGap)
            } else {
                None
            }
        } else if head.buffer.data is None {
            Some(Fault::Unreadable)
        } else if !utf8::valid_utf8(head.buffer.data->0@) {
            Some(Fault::InvalidUtf8)
        } else if !caption::can_show(
            head.buffer.duration->0,
            utf8::decode_utf8(head.buffer.data->0@),
            mode,
        ) {
            Some(Fault::ZeroDuration)
        } else {
            None
        }
    }

    /// The state after a sound buffer at the head of the text pad was taken up:
    /// its interval is current, and its text is queued unless it is a GAP.
    pub open spec fn loaded(self, head: TextHead, mode: InputMode) -> Mux {
        Mux {
            current: Some(TextInterval { start: head.start->Ok_0, end: head.end->Ok_0 }),
            caption: if head.gap {
                self.caption
            } else {
                self.caption.queued(
                    head.start->Ok_0,
                    head.buffer.duration->0,
                    utf8::decode_utf8(head.buffer.data->0@),
                    mode,
                )
            },
            ..self
        }
    }

    /// The state after a buffer was refused: a generation may be spent.
    pub open spec fn refused(self, fault: Fault) -> Mux {
        if fault is ZeroDuration {
            Mux { caption: self.caption.claimed(), ..self }
        } else {
            self
        }
    }

    /// The state after the current interval was consumed.
    pub open spec fn after_consuming(self) -> Mux {
        match self.current {
            Some(interval) => Mux { current: None, consumed: Some(interval.end), ..self },
            None => self,
        }
    }

    /// Whether everything still to come lies behind the media that went out:
    /// waiting transitions, and what the text timeline will vouch for next.
    pub open spec fn in_step(self) -> bool {
        &&& self.last_media is Some <==> self.origin is Some
        &&& self.last_media matches Some(time) ==> {
            &&& self.stream_position_ms == cue::tag_timestamp(time, self.origin->0)
            &&& forall|i: int|
                0 <= i < self.caption.pending.len() ==> (
                #[trigger] self.caption.pending[i]).running_time > time
            &&& match self.current {
                Some(interval) => time < interval.end,
                None => self.consumed matches Some(end) ==> time < end,
            }
        }
    }

    /// The origin that media is counted from: the first timestamped buffer.
    pub open spec fn origin_at(self, time: u64) -> u64 {
        match self.origin {
            Some(origin) => origin,
            None => time,
        }
    }

    /// The tags that go out in front of media at a running time: one to declare
    /// the subtitle stream, one to erase a cue that a text restart left on
    /// screen, and the changes of the display that media has reached.
    pub open spec fn media_tags(self, time: u64, settings: Settings) -> Seq<Seq<u8>> {
        let origin = self.origin_at(time);
        let position_ms = cue::tag_timestamp(time, origin);
        let blank = seq![subinject::blank_tag(position_ms as int, settings.message_name)];
        (if settings.prime && !self.primed {
            blank
        } else {
            Seq::empty()
        }) + (if self.needs_clear {
            blank
        } else {
            Seq::empty()
        }) + cue::change_tags(
            self.caption.drain_outcome(origin, position_ms, Lateness::Keep).changes,
            settings.message_name,
        )
    }

    /// The state after media at a running time went out.
    pub open spec fn after_media(self, time: u64, settings: Settings) -> Mux {
        let origin = self.origin_at(time);
        let position_ms = cue::tag_timestamp(time, origin);
        Mux {
            origin: Some(origin),
            stream_position_ms: position_ms,
            last_media: Some(time),
            primed: self.primed || settings.prime,
            needs_clear: false,
            caption: self.caption.drained(origin, position_ms, Lateness::Keep),
            ..self
        }
    }

    /// The state after the text pad declared a new timeline. What downstream
    /// still shows is owed a clear, until media carries it.
    pub open spec fn after_text_segment(self) -> Mux {
        Mux {
            current: None,
            consumed: None,
            needs_clear: self.needs_clear || (self.caption.active matches Some(state)
                && state.text.len() > 0),
            caption: self.caption.reset(),
            ..self
        }
    }

    /// The tags that go out when both pads have ended.
    pub open spec fn final_tags(self, settings: Settings) -> Seq<Seq<u8>> {
        match self.origin {
            None => Seq::empty(),
            Some(origin) => cue::change_tags(
                self.caption.drain_outcome(
                    origin,
                    self.stream_position_ms,
                    Lateness::Keep,
                ).changes,
                settings.message_name,
            ),
        }
    }

    /// The state after both pads have ended: nothing is left waiting.
    pub open spec fn finished(self) -> Mux {
        Mux {
            caption: match self.origin {
                None => self.caption.without_pending(),
                Some(origin) => self.caption.drained(
                    origin,
                    self.stream_position_ms,
                    Lateness::Keep,
                ).without_pending(),
            },
            ..self
        }
    }
}

/// Whether the end of a timed cue can be expressed.
pub open spec fn end_fits(head: TextHead, mode: InputMode) -> bool {
    !head.gap && head.start is Ok ==> caption::end_fits(head.start->Ok_0, head.buffer, mode)
}

/// Whether a buffer at the head of the text pad can be taken up: numbers are
/// left to give out, and the end of a timed cue can be expressed.
pub open spec fn can_load(mux: Mux, head: TextHead, mode: InputMode) -> bool {
    &&& mux.caption.next_generation < u64::MAX
    &&& mux.caption.next_sequence < u64::MAX - 1
    &&& end_fits(head, mode)
}

/// What to do about text coverage for a media time.
#[derive(Debug)]
pub enum CoverageStep {
    /// The media time is covered.
    Covered,
    /// Text has ended, so nothing more can belong in front of the media.
    TextEnded,
    /// Wait for more text.
    NeedData,
    /// The current interval lies behind: pop it and ask again.
    Consume,
    /// The stream fails.
    Refused(ProtocolError),
}

/// What to do once media has ended.
#[derive(Debug)]
pub enum FinishStep {
    /// Pop the current interval and ask again.
    Consume,
    /// Wait for more text, or for its end.
    NeedData,
    /// Text has ended too.
    Finish,
    /// The stream fails.
    Refused(ProtocolError),
}

/// What a media buffer asks for.
#[derive(Clone, Copy, Debug, PartialEq, Eq, Structural)]
pub enum MediaStart {
    /// A stream header: forward it as it is.
    PassThrough,
    /// Media at a running time, which text must cover.
    At(u64),
}

/// The state of the aggregator.
#[derive(Debug)]
pub struct State {
    origin: Option<u64>,
    stream_position_ms: u64,
    last_media_running_time: Option<u64>,
    current_text: Option<TextInterval>,
    consumed_text_end: Option<u64>,
    caption: CaptionTimeline,
    primed: bool,
    /// A cue was on screen when the text timeline restarted, so downstream is
    /// still displaying text that no longer belongs to the current timeline.
    needs_timeline_clear: bool,
}

impl View for State {
    type V = Mux;

    closed spec fn view(&self) -> Mux {
        Mux {
            origin: self.origin,
            stream_position_ms: self.stream_position_ms,
            last_media: self.last_media_running_time,
            current: self.current_text,
            consumed: self.consumed_text_end,
            caption: self.caption@,
            primed: self.primed,
            needs_clear: self.needs_timeline_clear,
        }
    }
}

impl Default for State {
    fn default() -> (state: Self)
        ensures
            state@ == Mux::initial(),
            state@.caption.wf(),
    {
        State {
            origin: None,
            stream_position_ms: 0,
            last_media_running_time: None,
            current_text: None,
            consumed_text_end: None,
            caption: CaptionTimeline::default(),
            primed: false,
            needs_timeline_clear: false,
        }
    }
}

impl State {
    /// Forget everything: the media pad defines the output timeline, so a flush
    /// or a new media segment invalidates all of it.
    pub fn reset_runtime(&mut self)
        ensures
            final(self)@ == Mux::initial(),
            final(self)@.caption.wf(),
    {
        *self = State::default();
    }

    /// Whether another text can be queued without running out of numbers.
    pub fn has_room(&self) -> (room: bool)
        ensures
            room == (self@.caption.next_generation < u64::MAX && self@.caption.next_sequence
                < u64::MAX - 1),
    {
        self.caption.has_room()
    }

    /// Whether a buffer at the head of the text pad can be taken up.
    pub fn can_take_up(&self, mode: InputMode, head: &TextHead) -> (can: bool)
        ensures
            can == can_load(self@, *head, mode),
    {
        self.has_room() && (head.gap || match head.start {
            Ok(start) => cue_end_fits(start, &head.buffer, mode),
            Err(_) => true,
        })
    }

    /// Whether an interval was taken up and is not consumed yet.
    pub fn has_interval(&self) -> (has: bool)
        ensures
            has == (self@.current is Some),
    {
        self.current_text.is_some()
    }

    /// Take up the buffer at the head of the text pad, unless an interval is
    /// current already. `None` where there is neither.
    pub fn load_text_interval(&mut self, mode: InputMode, head: Option<&TextHead>) -> (result:
        Result<Option<TextInterval>, ProtocolError>)
        requires
            old(self)@.current is None && head is Some ==> can_load(old(self)@, *head->0, mode),
        ensures
            old(self)@.current matches Some(interval) ==> result == Ok::<_, ProtocolError>(
                Some(interval),
            ) && final(self)@ == old(self)@,
            old(self)@.current is None && head is None ==> result == Ok::<
                Option<TextInterval>,
                ProtocolError,
            >(None) && final(self)@ == old(self)@,
            old(self)@.current is None && head is Some ==> match old(self)@.head_fault(
                *head->0,
                mode,
            ) {
                None => {
                    &&& final(self)@ == old(self)@.loaded(*head->0, mode)
                    &&& result == Ok::<_, ProtocolError>(final(self)@.current)
                },
                Some(fault) => {
                    &&& result matches Err(error) && error.fault() == fault
                    &&& final(self)@ == old(self)@.refused(fault)
                },
            },
            old(self)@.caption.wf() ==> final(self)@.caption.wf(),
    {
        broadcast use {utf8::encode_utf8_valid_utf8, utf8::encode_utf8_decode_utf8};

        if let Some(interval) = self.current_text {
            return Ok(Some(interval));
        }
        let head = match head {
            Some(head) => head,
            None => {
                return Ok(None);
            },
        };
        if head.buffer.pts.is_none() {
            return Err(ProtocolError::MissingPts);
        }
        let duration: u64 = match head.buffer.duration {
            Some(duration) => duration,
            None => {
                return Err(ProtocolError::MissingDuration);
            },
        };
        let start: u64 = match head.start {
            Ok(start) => start,
            Err(error) => {
                return Err(ProtocolError::Segment(error));
            },
        };
        let end: u64 = match head.end {
            Ok(end) => end,
            Err(error) => {
                return Err(ProtocolError::Segment(error));
            },
        };
        if let Some(previous_end) = self.consumed_text_end {
            if start < previous_end {
                return Err(ProtocolError::Overlap { start, previous_end });
            }
            if start > previous_end {
                return Err(ProtocolError::Uncovered { previous_end, start });
            }
        }
        if head.gap {
            if duration == 0 {
                return Err(ProtocolError::EmptyGap);
            }
        } else {
            match CaptionTimeline::decode_text_buffer(&head.buffer) {
                Err(error) => {
                    return Err(ProtocolError::Caption(error));
                },
                Ok((_, _, text)) => {
                    assert(text@.len() > 0 ==> head.buffer.data->0@.len() > 0);
                    match self.caption.queue_text(start, duration, text, mode) {
                        Err(error) => {
                            return Err(ProtocolError::Caption(error));
                        },
                        Ok(()) => {},
                    }
                },
            }
        }
        self.current_text = Some(TextInterval { start, end });
        Ok(self.current_text)
    }

    /// Consume the current interval, if there is one; `popped` tells whether its
    /// buffer was still at the head of the text pad.
    pub fn consume_text_interval(&mut self, popped: bool) -> (result: Result<(), ProtocolError>)
        ensures
            old(self)@.current is None || popped ==> result is Ok && final(self)@ == old(
                self,
            )@.after_consuming(),
            old(self)@.current is Some && !popped ==> {
                &&& result matches Err(error) && error.fault() == Fault::TextDisappeared
                &&& final(self)@ == (Mux { current: None, ..old(self)@ })
            },
            final(self)@.caption == old(self)@.caption,
    {
        match self.current_text {
            None => Ok(()),
            Some(interval) => {
                self.current_text = None;
                if !popped {
                    return Err(ProtocolError::TextDisappeared);
                }
                self.consumed_text_end = Some(interval.end);
                Ok(())
            },
        }
    }

    /// Decide whether the current text or GAP interval covers `media_time`.
    ///
    /// The current interval stays queued while media advances through it, so a
    /// single GAP can cover any number of FLV tags.
    pub fn require_text_coverage(&mut self, mode: InputMode, media_time: u64, text: &TextPad) -> (
        step: CoverageStep)
        requires
            old(self)@.current is None && text is Head ==> can_load(old(self)@, text->Head_0, mode),
        ensures
            ({
                let before = old(self)@;
                let fault = if before.current is None && text is Head {
                    before.head_fault(text->Head_0, mode)
                } else {
                    None
                };
                let loaded = if before.current is None && text is Head && fault is None {
                    before.loaded(text->Head_0, mode)
                } else {
                    before
                };
                match fault {
                    Some(reason) => {
                        &&& step matches CoverageStep::Refused(error) && error.fault() == reason
                        &&& final(self)@ == before.refused(reason)
                    },
                    None => {
                        &&& final(self)@ == loaded
                        &&& match loaded.current {
                            None => if text is Ended {
                                step is TextEnded
                            } else {
                                step is NeedData
                            },
                            Some(interval) => if media_time < interval.start {
                                step matches CoverageStep::Refused(error) && error.fault()
                                    == (Fault::NoInitialCoverage {
                                    time: media_time,
                                    start: interval.start,
                                })
                            } else if media_time < interval.end {
                                step is Covered
                            } else {
                                step is Consume
                            },
                        }
                    },
                }
            }),
            step is Covered ==> final(self)@.current is Some && final(self)@.current->0.start
                <= media_time < final(self)@.current->0.end,
            step is Consume ==> final(self)@.current is Some && final(self)@.current->0.end
                <= media_time,
            step is TextEnded ==> text is Ended && final(self)@.current is None,
            step is NeedData ==> text is Waiting && final(self)@.current is None,
            old(self)@.caption.wf() ==> final(self)@.caption.wf(),
    {
        let head = match text {
            TextPad::Head(head) => Some(head),
            _ => None,
        };
        match self.load_text_interval(mode, head) {
            Err(error) => CoverageStep::Refused(error),
            Ok(None) => match text {
                TextPad::Ended => CoverageStep::TextEnded,
                _ => CoverageStep::NeedData,
            },
            Ok(Some(interval)) => {
                if media_time < interval.start {
                    CoverageStep::Refused(
                        ProtocolError::NoInitialCoverage {
                            time: media_time,
                            start: interval.start,
                        },
                    )
                } else if media_time < interval.end {
                    CoverageStep::Covered
                } else {
                    CoverageStep::Consume
                }
            },
        }
    }

    /// Decide what a media buffer asks for: a buffer without a timestamp is a
    /// stream header and passes, and timestamps must not go back.
    pub fn begin_media(&self, pts: Option<u64>, converted: Result<u64, SegmentError>) -> (result:
        Result<MediaStart, ProtocolError>)
        ensures
            pts is None ==> result == Ok::<_, ProtocolError>(MediaStart::PassThrough),
            pts is Some ==> match converted {
                Err(reason) => result matches Err(error) && error.fault() == Fault::Segment(reason),
                Ok(time) => if self@.last_media matches Some(previous) && time < previous {
                    result matches Err(error) && error.fault() == (Fault::NotMonotonic {
                        time,
                        previous: self@.last_media->0,
                    })
                } else {
                    result == Ok::<_, ProtocolError>(MediaStart::At(time))
                },
            },
    {
        if pts.is_none() {
            return Ok(MediaStart::PassThrough);
        }
        let time: u64 = match converted {
            Ok(time) => time,
            Err(error) => {
                return Err(ProtocolError::Segment(error));
            },
        };
        if let Some(previous) = self.last_media_running_time {
            if time < previous {
                return Err(ProtocolError::NotMonotonic { time, previous });
            }
        }
        Ok(MediaStart::At(time))
    }

    /// The tags that go out in front of covered media at a running time.
    pub fn process_flv_buffer(&mut self, settings: &Settings, time: u64) -> (tags: Vec<Vec<u8>>)
        ensures
            cue::tag_bytes(tags@) == old(self)@.media_tags(time, *settings),
            final(self)@ == old(self)@.after_media(time, *settings),
            old(self)@.caption.wf() ==> final(self)@.caption.wf(),
    {
        let ghost before = self@;
        let origin: u64 = match self.origin {
            Some(origin) => origin,
            None => time,
        };
        self.origin = Some(origin);
        self.stream_position_ms = tag_timestamp_ms(time, origin);
        self.last_media_running_time = Some(time);

        let stamp: u32 = self.stream_position_ms as u32;
        let mut tags: Vec<Vec<u8>> = Vec::new();
        if settings.prime && !self.primed {
            tags.push(blank_data_tag(stamp, settings.message_name));
            self.primed = true;
        }
        let ghost primed = cue::tag_bytes(tags@);
        let ghost blank = seq![subinject::blank_tag(stamp as int, settings.message_name)];
        assert(primed =~= if settings.prime && !before.primed {
            blank
        } else {
            Seq::empty()
        });

        // A text-timeline discontinuity left a cue on screen. Erase it at the
        // current media position before any cue from the new timeline is written.
        if self.needs_timeline_clear {
            tags.push(blank_data_tag(stamp, settings.message_name));
            self.needs_timeline_clear = false;
        }
        let ghost cleared = cue::tag_bytes(tags@);
        assert(cleared =~= primed + if before.needs_clear {
            blank
        } else {
            Seq::empty()
        });

        let drained = self.caption.drain(
            origin,
            self.stream_position_ms,
            Lateness::Keep,
            settings.message_name,
        );
        let mut changes = drained.tags;
        let ghost cues = cue::tag_bytes(changes@);
        tags.append(&mut changes);
        assert(cue::tag_bytes(tags@) =~= cleared + cues);
        tags
    }

    /// Decide what to do once media has ended.
    ///
    /// Queued text is consumed for validation even where nothing is left to be
    /// covered, which also lets a text EOS behind it be reached. Media EOS alone
    /// is not sufficient: no future interval can appear only once text has ended
    /// as well.
    pub fn finish_after_flv_eos(&mut self, mode: InputMode, text: &TextPad) -> (step: FinishStep)
        requires
            old(self)@.current is None && text is Head ==> can_load(old(self)@, text->Head_0, mode),
        ensures
            old(self)@.current is Some ==> step is Consume && final(self)@ == old(self)@,
            old(self)@.current is None ==> match *text {
                TextPad::Ended => step is Finish && final(self)@ == old(self)@,
                TextPad::Waiting => step is NeedData && final(self)@ == old(self)@,
                TextPad::Head(head) => match old(self)@.head_fault(head, mode) {
                    None => step is Consume && final(self)@ == old(self)@.loaded(head, mode),
                    Some(fault) => {
                        &&& step matches FinishStep::Refused(error) && error.fault() == fault
                        &&& final(self)@ == old(self)@.refused(fault)
                    },
                },
            },
            old(self)@.caption.wf() ==> final(self)@.caption.wf(),
    {
        let head = match text {
            TextPad::Head(head) => Some(head),
            _ => None,
        };
        match self.load_text_interval(mode, head) {
            Err(error) => FinishStep::Refused(error),
            Ok(Some(_)) => FinishStep::Consume,
            Ok(None) => match text {
                TextPad::Ended => FinishStep::Finish,
                _ => FinishStep::NeedData,
            },
        }
    }

    /// The final tags once both pads have ended; transitions beyond the last
    /// media are discarded, and counted.
    pub fn finish(&mut self, settings: &Settings) -> (result: (Vec<Vec<u8>>, u64))
        ensures
            cue::tag_bytes(result.0@) == old(self)@.final_tags(*settings),
            final(self)@ == old(self)@.finished(),
            result.1 == match old(self)@.origin {
                None => old(self)@.caption.pending.len(),
                Some(origin) => cue::waiting(
                    old(self)@.caption.pending,
                    origin,
                    old(self)@.stream_position_ms,
                ).len(),
            },
            old(self)@.caption.wf() ==> final(self)@.caption.wf(),
    {
        let mut tags: Vec<Vec<u8>> = Vec::new();
        assert(cue::tag_bytes(tags@) =~= Seq::empty());
        if let Some(origin) = self.origin {
            tags = self.caption.drain(
                origin,
                self.stream_position_ms,
                Lateness::Keep,
                settings.message_name,
            ).tags;
        }
        let discarded: u64 = self.caption.discard_pending();
        (tags, discarded)
    }

    /// A new text segment declares a new caption timeline.
    ///
    /// Coverage, pending transitions and the active cue all describe the old
    /// one, so they are discarded together. If a cue was on screen, downstream
    /// is still displaying it, and the next media buffer carries an explicit
    /// clear.
    pub fn text_segment(&mut self)
        ensures
            final(self)@ == old(self)@.after_text_segment(),
            old(self)@.caption.wf() ==> final(self)@.caption.wf(),
    {
        self.current_text = None;
        self.consumed_text_end = None;
        self.needs_timeline_clear = self.needs_timeline_clear || self.caption.has_active_text();
        self.caption.reset_timeline();
    }
}

/// Text intervals are contiguous: an interval that is taken up starts exactly
/// where the consumed timeline ends, and consuming it moves that end to its own.
pub proof fn consumed_text_is_contiguous(mux: Mux, head: TextHead, mode: InputMode)
    requires
        mux.current is None,
        mux.consumed is Some,
        mux.head_fault(head, mode) is None,
    ensures
        mux.loaded(head, mode).current->0.start == mux.consumed->0,
        mux.loaded(head, mode).after_consuming().consumed == Some(head.end->Ok_0),
{
}

/// Taking up an interval that continues the text timeline keeps everything to
/// come behind the media that went out.
pub proof fn loading_stays_in_step(mux: Mux, head: TextHead, mode: InputMode)
    requires
        mux.in_step(),
        mux.current is None,
        mux.consumed is Some || mux.last_media is None,
        mux.head_fault(head, mode) is None,
        can_load(mux, head, mode),
        head.start->Ok_0 <= head.end->Ok_0,
    ensures
        mux.loaded(head, mode).in_step(),
        mux.loaded(head, mode).after_consuming().in_step(),
{
    broadcast use utf8::decode_utf8_encode_utf8;

    if let Some(time) = mux.last_media {
        if !head.gap {
            let start = head.start->Ok_0;
            let text = utf8::decode_utf8(head.buffer.data->0@);
            let claimed = mux.caption.claimed();
            let generation = mux.caption.next_generation;
            let kind = if text.len() == 0 {
                cue::Kind::Clear { owner: None }
            } else {
                cue::Kind::Show { generation, text }
            };
            let first = claimed.with(start, kind);
            queueing_behind(claimed, start, kind, time);
            if text.len() > 0 && mode == InputMode::Timed {
                if head.buffer.data->0@.len() == 0 {
                    assert(text.len() == 0);
                }
                queueing_behind(
                    first,
                    (start + head.buffer.duration->0) as u64,
                    cue::Kind::Clear { owner: Some(generation) },
                    time,
                );
            }
        }
    }
}

proof fn queueing_behind(timeline: caption::Timeline, at: u64, kind: cue::Kind, time: u64)
    requires
        at > time,
        forall|i: int|
            0 <= i < timeline.pending.len() ==> (#[trigger] timeline.pending[i]).running_time
                > time,
    ensures
        forall|i: int|
            0 <= i < timeline.with(at, kind).pending.len() ==> (#[trigger] timeline.with(
                at,
                kind,
            ).pending[i]).running_time > time,
{
    let item = cue::Transition { running_time: at, sequence: timeline.next_sequence, kind };
    let place = cue::insertion_places_one(timeline.pending, cue::time_key(), item);
}

/// The output never goes back in time. While text covers media without a
/// restart, every change that is written in front of a media buffer has a
/// timestamp no earlier than the media before it and no later than the media
/// behind it, and the next media keeps to the same rule.
pub proof fn output_never_goes_back(mux: Mux, time: u64, settings: Settings)
    requires
        mux.in_step(),
        mux.current matches Some(interval) && interval.start <= time < interval.end,
        mux.last_media matches Some(previous) ==> previous <= time,
    ensures
        mux.after_media(time, settings).in_step(),
        mux.last_media is Some ==> mux.stream_position_ms <= mux.after_media(
            time,
            settings,
        ).stream_position_ms,
        ({
            let position_ms = mux.after_media(time, settings).stream_position_ms;
            let changes = mux.caption.drain_outcome(
                mux.origin_at(time),
                position_ms,
                Lateness::Keep,
            ).changes;
            forall|i: int|
                0 <= i < changes.len() ==> (mux.last_media is Some ==> mux.stream_position_ms <= (
                #[trigger] changes[i]).timestamp_ms) && changes[i].timestamp_ms <= position_ms
        }),
{
    let origin = mux.origin_at(time);
    let after = mux.after_media(time, settings);
    let position_ms = after.stream_position_ms;
    let pending = mux.caption.pending;
    let changes = mux.caption.drain_outcome(origin, position_ms, Lateness::Keep).changes;
    caption::tags_keep_their_own_timestamps(mux.caption, origin, position_ms);
    assert forall|i: int| 0 <= i < changes.len() implies (mux.last_media is Some
        ==> mux.stream_position_ms <= (#[trigger] changes[i]).timestamp_ms)
        && changes[i].timestamp_ms <= position_ms by {
        let k = choose|k: int|
            0 <= k < pending.len() && cue::tag_timestamp(
                (#[trigger] pending[k]).running_time,
                origin,
            ) == changes[i].timestamp_ms;
        assert(mux.last_media is Some ==> pending[k].running_time > mux.last_media->0);
    }
    let keep = |transition: cue::Transition|
        cue::tag_timestamp(transition.running_time, origin) > position_ms;
    let positions = cue::filter_positions(pending, keep);
    assert forall|i: int| 0 <= i < after.caption.pending.len() implies (
    #[trigger] after.caption.pending[i]).running_time > time by {
        assert(after.caption.pending[i] == pending[positions[i]]);
    }
}

/// A stream without captions passes through: once primed, with nothing queued
/// and no clear owed, media goes out with nothing in front of it.
pub proof fn silence_adds_no_tags(mux: Mux, time: u64, settings: Settings)
    requires
        mux.caption.pending.len() == 0,
        !mux.needs_clear,
        mux.primed || !settings.prime,
    ensures
        mux.media_tags(time, settings).len() == 0,
{
    reveal(Seq::filter);
    let origin = mux.origin_at(time);
    let position_ms = cue::tag_timestamp(time, origin);
    assert(cue::due_unordered(mux.caption.pending, origin, position_ms, Lateness::Keep)
        =~= Seq::empty());
}

/// The subtitle stream is declared once: after the first timestamped media no
/// media carries a declaration, and an owed clear goes out with the next media
/// only.
pub proof fn blanks_go_out_once(mux: Mux, first: u64, second: u64, settings: Settings)
    ensures
        ({
            let after = mux.after_media(first, settings);
            &&& !(settings.prime && !after.primed)
            &&& !after.needs_clear
            &&& after.media_tags(second, settings) =~= cue::change_tags(
                after.caption.drain_outcome(
                    after.origin->0,
                    cue::tag_timestamp(second, after.origin->0),
                    Lateness::Keep,
                ).changes,
                settings.message_name,
            )
        }),
{
}

/// A text restart leaves the media timeline alone, and a cue that was on screen
/// is erased by the next media, in front of everything the new timeline shows,
/// however many restarts come before that media.
pub proof fn a_text_restart_clears_the_screen(mux: Mux, time: u64, settings: Settings)
    requires
        mux.caption.wf(),
        mux.caption.active is Some,
    ensures
        ({
            let after = mux.after_text_segment();
            &&& after.origin == mux.origin && after.primed == mux.primed
            &&& after.last_media == mux.last_media
            &&& after.needs_clear && after.after_text_segment().needs_clear
            &&& after.caption.active is None && after.caption.pending.len() == 0
            &&& mux.primed ==> after.media_tags(time, settings) =~= seq![
                subinject::blank_tag(
                    cue::tag_timestamp(time, mux.origin_at(time)) as int,
                    settings.message_name,
                ),
            ]
        }),
{
    reveal(Seq::filter);
    let after = mux.after_text_segment();
    let origin = mux.origin_at(time);
    let position_ms = cue::tag_timestamp(time, origin);
    assert(cue::due_unordered(after.caption.pending, origin, position_ms, Lateness::Keep)
        =~= Seq::empty());
}

/// A buffer at the head of the text pad is sound exactly where it has a time and a
/// length, both its edges can be converted, it starts where the consumed text ended
/// where any was consumed, and it says something: a GAP takes some time, and any other
/// buffer holds UTF-8, which needs some time where it is a timed text that shows.
pub proof fn what_makes_a_head_sound(mux: Mux, head: TextHead, mode: InputMode)
    ensures
        mux.head_fault(head, mode) is None <==> {
            &&& head.buffer.pts is Some && head.buffer.duration is Some
            &&& head.start is Ok && head.end is Ok
            &&& mux.consumed is None || mux.consumed->0 == head.start->Ok_0
            &&& head.gap ==> head.buffer.duration->0 > 0
            &&& !head.gap ==> head.buffer.data is Some && utf8::valid_utf8(
                head.buffer.data->0@,
            ) && (mode == InputMode::Replacement || head.buffer.duration->0 > 0
                || utf8::decode_utf8(head.buffer.data->0@).len() == 0)
        },
{
}

/// What is told to be wrong with a head is wrong with it.
pub proof fn a_fault_names_what_is_wrong(mux: Mux, head: TextHead, mode: InputMode)
    requires
        mux.head_fault(head, mode) is Some,
    ensures
        match mux.head_fault(head, mode)->0 {
            Fault::MissingPts => head.buffer.pts is None,
            Fault::MissingDuration => head.buffer.duration is None,
            Fault::Segment(error) => head.start == Err::<u64, SegmentError>(error) || head.end
                == Err::<u64, SegmentError>(error),
            Fault::Overlap { start, previous_end } => head.start == Ok::<u64, SegmentError>(start)
                && mux.consumed == Some(previous_end) && start < previous_end,
            Fault::Uncovered { previous_end, start } => head.start == Ok::<u64, SegmentError>(start)
                && mux.consumed == Some(previous_end) && previous_end < start,
            Fault::EmptyGap => head.gap && head.buffer.duration == Some(0u64),
            Fault::Unreadable => !head.gap && head.buffer.data is None,
            Fault::InvalidUtf8 => !head.gap && head.buffer.data is Some && !utf8::valid_utf8(
                head.buffer.data->0@,
            ),
            Fault::ZeroDuration => !head.gap && mode == InputMode::Timed && head.buffer.duration
                == Some(0u64) && utf8::decode_utf8(head.buffer.data->0@).len() > 0,
            _ => false,
        },
{
}

/// Taking up a head makes its interval current. A GAP says nothing: what waits and what
/// is on display stay. Any other buffer queues its text over exactly its own time.
pub proof fn a_head_is_taken_up_as_it_says(mux: Mux, head: TextHead, mode: InputMode)
    requires
        mux.head_fault(head, mode) is None,
    ensures
        ({
            let after = mux.loaded(head, mode);
            &&& after.current is Some
            &&& Ok::<u64, SegmentError>(after.current->0.start) == head.start
            &&& Ok::<u64, SegmentError>(after.current->0.end) == head.end
            &&& head.gap ==> after.caption == mux.caption
            &&& !head.gap ==> after.caption == mux.caption.queued(
                head.start->Ok_0,
                head.buffer.duration->0,
                utf8::decode_utf8(head.buffer.data->0@),
                mode,
            )
            &&& after.consumed == mux.consumed && after.origin == mux.origin
                && after.last_media == mux.last_media && after.stream_position_ms
                == mux.stream_position_ms && after.primed == mux.primed && after.needs_clear
                == mux.needs_clear
        }),
        ({
            let after = mux.loaded(head, mode).after_consuming();
            &&& after.current is None
            &&& after.consumed is Some && Ok::<u64, SegmentError>(after.consumed->0) == head.end
            &&& after.caption == mux.loaded(head, mode).caption
        }),
        mux.current is None ==> mux.after_consuming() == mux,
{
}

/// What goes out in front of media: a blank where the subtitle stream is yet to be
/// declared, then a blank where a restart of the text left something on screen, then
/// the changes that media has reached, each in a tag of its own.
pub proof fn what_goes_out_in_front_of_media(mux: Mux, time: u64, settings: Settings)
    ensures
        ({
            let tags = mux.media_tags(time, settings);
            let origin = if mux.origin is Some {
                mux.origin->0
            } else {
                time
            };
            let position_ms = cue::tag_timestamp(time, origin);
            let blank = subinject::blank_tag(position_ms as int, settings.message_name);
            let changes = mux.caption.drain_outcome(origin, position_ms, Lateness::Keep).changes;
            let declares = settings.prime && !mux.primed;
            &&& declares && mux.needs_clear ==> tags.len() == changes.len() + 2 && tags[0] == blank
                && tags[1] == blank
            &&& declares != mux.needs_clear ==> tags.len() == changes.len() + 1 && tags[0] == blank
            &&& !declares && !mux.needs_clear ==> tags.len() == changes.len()
            &&& forall|i: int|
                0 <= i < changes.len() ==> #[trigger] cue::change_tag(
                    changes[i],
                    settings.message_name,
                ) == tags[tags.len() - changes.len() + i]
        }),
{
    let origin = mux.origin_at(time);
    let position_ms = cue::tag_timestamp(time, origin);
    let changes = mux.caption.drain_outcome(origin, position_ms, Lateness::Keep).changes;
    let last = cue::change_tags(changes, settings.message_name);
    cue::changes_go_out_one_tag_each(changes, settings.message_name);
    let tags = mux.media_tags(time, settings);
    assert forall|i: int| 0 <= i < changes.len() implies #[trigger] cue::change_tag(
        changes[i],
        settings.message_name,
    ) == tags[tags.len() - changes.len() + i] by {
        assert(last[i] == tags[tags.len() - changes.len() + i]);
    }
}

/// Media moves the position to its own and sets the origin where it is the first; what
/// it reached is no longer waiting, and nothing is owed behind it. The text timeline
/// stays where it was.
pub proof fn media_moves_the_stream_on(mux: Mux, time: u64, settings: Settings)
    ensures
        ({
            let after = mux.after_media(time, settings);
            &&& after.origin is Some
            &&& mux.origin is Some ==> after.origin == mux.origin
            &&& mux.origin is None ==> after.origin == Some(time) && after.stream_position_ms == 0
            &&& after.last_media == Some(time)
            &&& after.stream_position_ms == cue::tag_timestamp(time, after.origin->0)
            &&& caption::all_wait(after.caption, after.origin->0, after.stream_position_ms)
            &&& !after.needs_clear
            &&& settings.prime || mux.primed <==> after.primed
            &&& after.current == mux.current && after.consumed == mux.consumed
        }),
{
    let after = mux.after_media(time, settings);
    caption::what_is_left_of_a_timeline(
        mux.caption,
        after.origin->0,
        after.stream_position_ms,
        Lateness::Keep,
    );
}

/// At the end what media has reached goes out and the rest is gone: nothing is left
/// waiting, and without any media nothing goes out at all. Where nothing that waits was
/// reached, nothing goes out.
pub proof fn the_end_leaves_nothing_waiting(mux: Mux, settings: Settings)
    ensures
        mux.finished().caption.pending.len() == 0,
        mux.origin is None ==> mux.final_tags(settings).len() == 0 && mux.finished().caption.active
            == mux.caption.active,
        mux.origin is Some ==> {
            let changes = mux.caption.drain_outcome(
                mux.origin->0,
                mux.stream_position_ms,
                Lateness::Keep,
            ).changes;
            &&& mux.final_tags(settings).len() == changes.len()
            &&& forall|i: int|
                0 <= i < changes.len() ==> #[trigger] mux.final_tags(settings)[i]
                    == cue::change_tag(changes[i], settings.message_name)
        },
        mux.finished().current == mux.current && mux.finished().consumed == mux.consumed
            && mux.finished().last_media == mux.last_media,
{
}

/// A restart of the text forgets the old text timeline whole: what was covered, what
/// waited and what was on display. A clear is owed exactly where something is on screen
/// downstream, and the numbers of cues go on.
pub proof fn a_text_restart_forgets_the_old_text(mux: Mux)
    requires
        mux.caption.wf(),
    ensures
        ({
            let after = mux.after_text_segment();
            &&& after.current is None && after.consumed is None
            &&& after.caption.pending.len() == 0 && after.caption.active is None
            &&& after.caption.next_generation == mux.caption.next_generation
                && after.caption.next_sequence == mux.caption.next_sequence
            &&& after.needs_clear <==> mux.needs_clear || mux.caption.active is Some
            &&& after.stream_position_ms == mux.stream_position_ms && after.origin == mux.origin
        }),
{
}


/// A running time is what the segment makes of a timestamp, and refused for a segment
/// that does not count time, else for one that does not run at unit rate, else for a
/// timestamp outside of it.
pub proof fn a_running_time_is_not_approximated(
    time_format: bool,
    unit_rate: bool,
    converted: Option<u64>,
    result: Result<u64, SegmentError>,
)
    requires
        call_ensures(running_time, (time_format, unit_rate, converted), result),
    ensures
        result is Ok <==> time_format && unit_rate && converted is Some,
        result matches Ok(time) ==> converted == Some(time),
        result == Err::<u64, _>(SegmentError::NotTime) <==> !time_format,
        result == Err::<u64, _>(SegmentError::RateNotOne) <==> time_format && !unit_rate,
        result == Err::<u64, _>(SegmentError::OutsideSegment) <==> time_format && unit_rate
            && converted is None,
{
}

/// Media passes as it is where it has no timestamp. Else it is let in at its running
/// time, which may stand still and must not go back.
pub proof fn media_does_not_go_back(
    state: State,
    pts: Option<u64>,
    converted: Result<u64, SegmentError>,
    result: Result<MediaStart, ProtocolError>,
)
    requires
        call_ensures(State::begin_media, (&state, pts, converted), result),
    ensures
        pts is None ==> result is Ok && result->Ok_0 is PassThrough,
        pts is Some && converted is Err ==> result is Err,
        pts is Some && converted is Ok ==> (result is Ok <==> state@.last_media is None
            || state@.last_media->0 <= converted->Ok_0),
        pts is Some && result is Ok ==> result->Ok_0 == MediaStart::At(converted->Ok_0),
{
}

/// Media is covered exactly where the current interval holds its time: one that ends at
/// it or before is consumed, and media in front of one is refused.
pub proof fn what_covers_media(
    state: &mut State,
    mode: InputMode,
    media_time: u64,
    text: TextPad,
    step: CoverageStep,
)
    requires
        call_ensures(State::require_text_coverage, (state, mode, media_time, &text), step),
        old(state)@.current is Some,
    ensures
        final(state)@ == old(state)@,
        ({
            let interval = old(state)@.current->0;
            &&& step is Covered <==> interval.start <= media_time < interval.end
            &&& step is Consume <==> interval.start <= media_time && interval.end <= media_time
            &&& step is Refused <==> media_time < interval.start
        }),
{
}

/// Without an interval, text is waited for unless it has ended.
pub proof fn what_is_missing_for_coverage(
    state: &mut State,
    mode: InputMode,
    media_time: u64,
    text: TextPad,
    step: CoverageStep,
)
    requires
        call_ensures(State::require_text_coverage, (state, mode, media_time, &text), step),
        old(state)@.current is None,
        !(text is Head),
    ensures
        final(state)@ == old(state)@,
        text is Ended ==> step is TextEnded,
        text is Waiting ==> step is NeedData,
{
}

/// Consuming an interval moves what is consumed to where the interval ends; where its
/// buffer has gone meanwhile, that is an error. Captions are left alone.
pub proof fn consuming_moves_on(
    state: &mut State,
    popped: bool,
    result: Result<(), ProtocolError>,
)
    requires
        call_ensures(State::consume_text_interval, (state, popped), result),
    ensures
        final(state)@.current is None,
        final(state)@.caption == old(state)@.caption,
        result is Err <==> old(state)@.current is Some && !popped,
        old(state)@.current is Some && popped ==> final(state)@.consumed == Some(
            old(state)@.current->0.end,
        ),
        old(state)@.current is None || !popped ==> final(state)@.consumed == old(state)@.consumed,
{
}

/// Once media has ended, what is taken up is consumed first, text that is still to come
/// is waited for, and only text that has ended finishes the stream.
pub proof fn the_stream_ends_with_its_text(
    state: &mut State,
    mode: InputMode,
    text: TextPad,
    step: FinishStep,
)
    requires
        call_ensures(State::finish_after_flv_eos, (state, mode, &text), step),
    ensures
        step is Finish <==> old(state)@.current is None && text is Ended,
        step is NeedData <==> old(state)@.current is None && text is Waiting,
        old(state)@.current is Some ==> step is Consume && final(state)@ == old(state)@,
        step is Refused ==> old(state)@.current is None && text is Head,
{
}

/// A restart of the text forgets what covered media, what was consumed and what waited,
/// and a cue that was on display is still to be taken down.
pub proof fn a_new_text_segment_starts_over(state: &mut State)
    requires
        call_ensures(State::text_segment, (state,), ()),
    ensures
        final(state)@.current is None && final(state)@.consumed is None,
        final(state)@.caption.pending.len() == 0,
        final(state)@.needs_clear <==> old(state)@.needs_clear || (
        old(state)@.caption.active is Some && old(state)@.caption.active->0.text.len() > 0),
        final(state)@.origin == old(state)@.origin,
        final(state)@.primed == old(state)@.primed,
        final(state)@.last_media == old(state)@.last_media,
{
}

/// At the end nothing waits any more, and what had not been reached by then is counted
/// as discarded: all of it where there was no media.
pub proof fn the_end_discards_what_was_not_reached(
    state: &mut State,
    settings: Settings,
    result: (Vec<Vec<u8>>, u64),
)
    requires
        call_ensures(State::finish, (state, &settings), result),
    ensures
        final(state)@.caption.pending.len() == 0,
        old(state)@.origin is None ==> result.0@.len() == 0 && result.1 == old(state)@.caption.pending.len(),
        result.1 <= old(state)@.caption.pending.len(),
{
    if let Some(origin) = old(state)@.origin {
        cue::waiting_is_no_longer(
            old(state)@.caption.pending,
            origin,
            old(state)@.stream_position_ms,
        );
    }
    assert(cue::tag_bytes(result.0@).len() == result.0@.len());
}


/// A buffer that is refused changes nothing, but that text which would have to last and
/// does not has spent its number.
pub proof fn a_refusal_queues_nothing(mux: Mux, fault: Fault)
    requires
        mux.caption.next_generation < u64::MAX,
    ensures
        ({
            let after = mux.refused(fault);
            let spent = if fault is ZeroDuration {
                1int
            } else {
                0int
            };
            &&& after.caption.next_generation == mux.caption.next_generation + spent
            &&& after.caption.pending == mux.caption.pending
            &&& after.caption.active == mux.caption.active
            &&& after.caption.next_sequence == mux.caption.next_sequence
            &&& after.current == mux.current && after.consumed == mux.consumed
            &&& after.origin == mux.origin && after.last_media == mux.last_media
            &&& after.primed == mux.primed && after.needs_clear == mux.needs_clear
            &&& after.stream_position_ms == mux.stream_position_ms
        }),
{
}


/// Nothing has happened to a fresh aggregator, nor to one that was reset: its first media
/// stands at zero, with the blank state in front of it where that is asked for, and
/// nothing else.
pub proof fn a_fresh_mux_starts_with_its_first_media(
    fresh: State,
    reset: &mut State,
    state: &mut State,
    settings: Settings,
    time: u64,
    tags: Vec<Vec<u8>>,
)
    requires
        call_ensures(State::default, (), fresh),
        call_ensures(State::reset_runtime, (reset,), ()),
        old(state)@ == fresh@ || old(state)@ == final(reset)@,
        call_ensures(State::process_flv_buffer, (state, &settings, time), tags),
    ensures
        fresh@ == final(reset)@,
        fresh@.origin is None && fresh@.last_media is None && fresh@.stream_position_ms == 0,
        fresh@.current is None && fresh@.consumed is None,
        !fresh@.primed && !fresh@.needs_clear,
        fresh@.caption.pending.len() == 0 && fresh@.caption.active is None,
        final(state)@.origin == Some(time) && final(state)@.last_media == Some(time),
        final(state)@.stream_position_ms == 0,
        tags@.len() == if settings.prime {
            1int
        } else {
            0int
        },
{
    cue::tag_timestamps_count_milliseconds(time, time, time);
    assert(cue::tag_bytes(tags@).len() == tags@.len());
    caption::nothing_comes_of_nothing(fresh@.caption, time, 0, Lateness::Keep);
}

} // verus!
