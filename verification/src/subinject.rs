//! Splices FLV script-data subtitle tags into an already-muxed FLV stream.
//!
//! The muxers emit exactly one whole FLV tag per buffer, stamped with the
//! running time of the media it carries, so a correctly framed script-data tag
//! can be put between two buffers. The thread that carries FLV is the only
//! writer: the text side only ever queues, and cues leave in front of the media
//! that has reached them.
//!
//! A cue whose text is empty is *not* filtered out: a caller that wants to
//! clear the display must be able to, and suppressing it would strand the
//! previous caption on screen.
use crate::amf;
use crate::amf::{script_data_body, MessageName};
use crate::caption;
use crate::caption::{cue_end_fits, CaptionError, CaptionTimeline, InputMode, TextBuffer};
use crate::cue;
use crate::cue::{tag_timestamp_ms, Lateness};
use crate::flv;
use crate::flv::{is_exactly_one_tag, script_data_tag};
use vstd::prelude::*;
use vstd::utf8;

verus! {

/// What to do with a cue whose timestamp the FLV stream has already passed.
#[derive(Clone, Copy, Debug, PartialEq, Eq, Structural)]
pub enum LatePolicy {
    /// Emit it at the current stream position rather than its own timestamp.
    ///
    /// A late caption displayed slightly late is legible; a dropped one is a
    /// gap in the transcript.
    Clamp,
    /// Discard it.
    ///
    /// Appropriate when a downstream consumer has already served the time
    /// range, which is a judgement only that consumer can make.
    Drop,
}

impl Default for LatePolicy {
    fn default() -> (policy: Self)
        ensures
            policy == LatePolicy::Clamp,
    {
        LatePolicy::Clamp
    }
}

impl LatePolicy {
    /// What becomes of a late transition under this policy.
    pub open spec fn spec_lateness(self) -> Lateness {
        match self {
            LatePolicy::Clamp => Lateness::Clamp,
            LatePolicy::Drop => Lateness::Discard,
        }
    }

    /// What becomes of a late transition under this policy.
    pub fn lateness(self) -> (lateness: Lateness)
        ensures
            lateness == self.spec_lateness(),
    {
        match self {
            LatePolicy::Clamp => Lateness::Clamp,
            LatePolicy::Drop => Lateness::Discard,
        }
    }
}

/// Configuration of the injector.
#[derive(Clone, Copy, Debug)]
pub struct Settings {
    pub message_name: MessageName,
    pub late_policy: LatePolicy,
    pub input_mode: InputMode,
    pub prime: bool,
}

impl Default for Settings {
    fn default() -> (settings: Self)
        ensures
            settings.message_name == MessageName::OnCaption,
            settings.late_policy == LatePolicy::Clamp,
            settings.input_mode == InputMode::Timed,
            settings.prime,
    {
        Settings {
            message_name: MessageName::default(),
            late_policy: LatePolicy::default(),
            input_mode: InputMode::default(),
            prime: true,
        }
    }
}

/// How often to repeat the one-tag-per-buffer warning once it starts firing.
///
/// The first violation is always reported; after that one report per this many
/// keeps a continuous fault visible without flooding at buffer rate.
pub const INVARIANT_WARNING_INTERVAL: u64 = 1_000;

/// What has happened to cues so far.
#[derive(Clone, Copy, Debug, PartialEq, Eq, Structural)]
pub struct Counters {
    pub shows: u64,
    pub clears: u64,
    pub identical_suppressed: u64,
    pub late_clamped: u64,
    pub late_dropped: u64,
    pub future_discarded: u64,
}

impl Counters {
    /// Nothing has happened yet.
    pub open spec fn zero() -> Counters {
        Counters {
            shows: 0,
            clears: 0,
            identical_suppressed: 0,
            late_clamped: 0,
            late_dropped: 0,
            future_discarded: 0,
        }
    }

    /// Whether every counter can take in another `events` events.
    pub open spec fn spec_have_room(self, events: int) -> bool {
        &&& self.shows + events <= u64::MAX
        &&& self.clears + events <= u64::MAX
        &&& self.identical_suppressed + events <= u64::MAX
        &&& self.late_clamped + events <= u64::MAX
        &&& self.late_dropped + events <= u64::MAX
        &&& self.future_discarded + events <= u64::MAX
    }

    /// Whether every counter can take in another `events` events.
    pub fn have_room(&self, events: u64) -> (room: bool)
        ensures
            room == self.spec_have_room(events as int),
    {
        let limit: u64 = u64::MAX - events;
        self.shows <= limit && self.clears <= limit && self.identical_suppressed <= limit
            && self.late_clamped <= limit && self.late_dropped <= limit && self.future_discarded
            <= limit
    }
}

/// The running time that a timestamp stands for: what the segment makes of it,
/// or the timestamp itself where there is no segment or it lies outside.
pub open spec fn running_time_of(converted: Option<u64>, pts: u64) -> u64 {
    match converted {
        Some(running_time) => running_time,
        None => pts,
    }
}

/// The running time that a timestamp stands for.
pub fn running_time(converted: Option<u64>, pts: u64) -> (time: u64)
    ensures
        time == running_time_of(converted, pts),
{
    match converted {
        Some(time) => time,
        None => pts,
    }
}

/// The tag that declares the subtitle stream: an empty state.
///
/// Empty text is the same explicit blank state as a normal clear. It makes the
/// subtitle stream discoverable without activating an invisible state that
/// downstream consumers could mistake for a lost clear.
pub open spec fn blank_tag(timestamp_ms: int, name: MessageName) -> Seq<u8> {
    flv::script_tag(timestamp_ms, amf::message_body(name, Seq::empty(), None))
}

/// A tag that blanks the display.
pub fn blank_data_tag(timestamp_ms: u32, name: MessageName) -> (tag: Vec<u8>)
    ensures
        tag@ == blank_tag(timestamp_ms as int, name),
{
    let body = script_data_body(name, "", None);
    proof {
        reveal_strlit("");
        assert(""@ =~= Seq::empty());
    }
    script_data_tag(timestamp_ms, body.as_slice())
}

/// The state of the injector.
#[derive(Debug)]
pub struct State {
    /// Cues waiting for media, and the cue on display.
    pub timeline: CaptionTimeline,
    /// Millisecond timestamp of the most recent tag forwarded.
    pub stream_position_ms: u32,
    /// Running time of the first timestamped buffer, used to rebase cue
    /// timestamps.
    ///
    /// The muxer writes tag timestamps relative to its own first timestamp,
    /// while text buffers carry pipeline running time. Calibrating from the
    /// first tag observed keeps the two in one domain.
    pub origin: Option<u64>,
    pub counters: Counters,
    /// Whether the priming cue has been written.
    pub primed: bool,
}

impl Default for State {
    fn default() -> (state: Self)
        ensures
            state.is_initial(),
    {
        State {
            timeline: CaptionTimeline::default(),
            stream_position_ms: 0,
            origin: None,
            counters: Counters {
                shows: 0,
                clears: 0,
                identical_suppressed: 0,
                late_clamped: 0,
                late_dropped: 0,
                future_discarded: 0,
            },
            primed: false,
        }
    }
}

impl State {
    /// A state on which nothing has happened.
    pub open spec fn is_initial(self) -> bool {
        &&& self.timeline@ == caption::Timeline::empty()
        &&& self.timeline@.wf()
        &&& self.stream_position_ms == 0
        &&& self.origin is None
        &&& self.counters == Counters::zero()
        &&& !self.primed
    }

    /// The position that a media running time stands for, and the origin that
    /// it is counted from: the first timestamped buffer calibrates it.
    pub open spec fn origin_at(self, time: u64) -> u64 {
        match self.origin {
            Some(origin) => origin,
            None => time,
        }
    }

    /// The tag that declares the subtitle timeline, where it is still owed.
    ///
    /// FLV has no track table: a subtitle stream exists only once its first cue
    /// has been seen, and a demuxer that finishes probing before then concludes
    /// that the stream has no captions.
    pub open spec fn priming_tags(self, settings: Settings, position_ms: u64) -> Seq<Seq<u8>> {
        if settings.prime && !self.primed {
            seq![blank_tag(position_ms as int, settings.message_name)]
        } else {
            Seq::empty()
        }
    }

    /// Whether counting what a drain does cannot overflow.
    pub open spec fn spec_counters_fit(self) -> bool {
        self.counters.spec_have_room(self.timeline@.pending.len() as int)
    }

    /// Whether counting what a drain does cannot overflow.
    pub fn counters_fit(&self) -> (fit: bool)
        ensures
            fit == self.spec_counters_fit(),
    {
        self.counters.have_room(self.timeline.pending_len() as u64)
    }

    /// What the counters say after everything reached at the stream position
    /// was drained.
    pub open spec fn counted(self, origin: u64, lateness: Lateness) -> Counters {
        let position_ms = self.stream_position_ms as u64;
        let outcome = self.timeline@.drain_outcome(origin, position_ms, lateness);
        let late = cue::late_count(self.timeline@.pending, origin, position_ms);
        let shows = cue::show_count(outcome.changes);
        Counters {
            shows: (self.counters.shows + shows) as u64,
            clears: (self.counters.clears + (outcome.changes.len() - shows)) as u64,
            identical_suppressed: (self.counters.identical_suppressed + outcome.suppressed) as u64,
            late_clamped: (self.counters.late_clamped + if lateness == Lateness::Clamp {
                late
            } else {
                0
            }) as u64,
            late_dropped: (self.counters.late_dropped + if lateness == Lateness::Discard {
                late
            } else {
                0
            }) as u64,
            future_discarded: self.counters.future_discarded,
        }
    }

    /// Whether a cue from the text pad can be queued: numbers are left to give out,
    /// and its end can be expressed.
    pub fn can_queue(&self, settings: &Settings, buffer: &TextBuffer, converted: Option<u64>) -> (
        can: bool)
        ensures
            can == (self.timeline@.next_generation < u64::MAX && self.timeline@.next_sequence
                < u64::MAX - 1 && (buffer.pts matches Some(pts) ==> caption::end_fits(
                running_time_of(converted, pts),
                *buffer,
                settings.input_mode,
            ))),
    {
        self.timeline.has_room() && match buffer.pts {
            Some(pts) => cue_end_fits(running_time(converted, pts), buffer, settings.input_mode),
            None => true,
        }
    }

    /// Accept a cue from the text pad.
    ///
    /// This only ever queues: it never touches the tag stream. `converted` is
    /// what the text segment makes of the buffer's timestamp.
    pub fn handle_text_buffer(
        &mut self,
        settings: &Settings,
        buffer: &TextBuffer,
        converted: Option<u64>,
    ) -> (result: Result<(), CaptionError>)
        requires
            old(self).timeline@.next_generation < u64::MAX,
            old(self).timeline@.next_sequence < u64::MAX - 1,
            buffer.pts matches Some(pts) ==> caption::end_fits(
                running_time_of(converted, pts),
                *buffer,
                settings.input_mode,
            ),
        ensures
            ({
                let before = old(self).timeline@;
                let after = final(self).timeline@;
                match result {
                    Ok(()) => {
                        &&& buffer.pts is Some && buffer.duration is Some && buffer.data is Some
                        &&& utf8::valid_utf8(buffer.data->0@)
                        &&& ({
                            let text = utf8::decode_utf8(buffer.data->0@);
                            &&& caption::can_show(buffer.duration->0, text, settings.input_mode)
                            &&& after == before.queued(
                                running_time_of(converted, buffer.pts->0),
                                buffer.duration->0,
                                text,
                                settings.input_mode,
                            )
                        })
                    },
                    Err(CaptionError::MissingPts) => buffer.pts is None && after == before,
                    Err(CaptionError::MissingDuration) => {
                        &&& buffer.pts is Some && buffer.duration is None
                        &&& after == before
                    },
                    Err(CaptionError::BufferMap) => {
                        &&& buffer.pts is Some && buffer.duration is Some && buffer.data is None
                        &&& after == before
                    },
                    Err(CaptionError::InvalidUtf8(_)) => {
                        &&& buffer.pts is Some && buffer.duration is Some && buffer.data is Some
                        &&& !utf8::valid_utf8(buffer.data->0@)
                        &&& after == before
                    },
                    Err(CaptionError::ZeroDuration) => {
                        &&& buffer.pts is Some && buffer.duration is Some && buffer.data is Some
                        &&& utf8::valid_utf8(buffer.data->0@)
                        &&& !caption::can_show(
                            buffer.duration->0,
                            utf8::decode_utf8(buffer.data->0@),
                            settings.input_mode,
                        )
                        &&& after == before.claimed()
                    },
                }
            }),
            old(self).timeline@.wf() ==> final(self).timeline@.wf(),
            *final(self) == (State { timeline: final(self).timeline, ..*old(self) }),
    {
        broadcast use {utf8::encode_utf8_valid_utf8, utf8::encode_utf8_decode_utf8};

        match CaptionTimeline::decode_text_buffer(buffer) {
            Err(error) => Err(error),
            Ok((pts, duration, text)) => {
                let start: u64 = running_time(converted, pts);
                assert(text@.len() > 0 ==> buffer.data->0@.len() > 0);
                self.timeline.queue_text(start, duration, text, settings.input_mode)
            },
        }
    }

    /// Serialize every queued cue the stream position has reached.
    ///
    /// A cue leaves the queue when the next tag arrives rather than the instant
    /// it is produced, which keeps one writer on the stream.
    pub fn drain_ready(&mut self, settings: &Settings) -> (tags: Vec<Vec<u8>>)
        requires
            old(self).spec_counters_fit(),
        ensures
            old(self).origin is None ==> tags@.len() == 0 && *final(self) == *old(self),
            old(self).origin matches Some(origin) ==> {
                let lateness = settings.late_policy.spec_lateness();
                let position_ms = old(self).stream_position_ms as u64;
                &&& final(self).timeline@ == old(self).timeline@.drained(
                    origin,
                    position_ms,
                    lateness,
                )
                &&& cue::tag_bytes(tags@) == cue::change_tags(
                    old(self).timeline@.drain_outcome(origin, position_ms, lateness).changes,
                    settings.message_name,
                )
                &&& final(self).counters == old(self).counted(origin, lateness)
            },
            old(self).timeline@.wf() ==> final(self).timeline@.wf(),
            final(self).origin == old(self).origin,
            final(self).stream_position_ms == old(self).stream_position_ms,
            final(self).primed == old(self).primed,
    {
        let origin: u64 = match self.origin {
            Some(origin) => origin,
            None => {
                return Vec::new();
            },
        };
        let result = self.timeline.drain(
            origin,
            self.stream_position_ms as u64,
            settings.late_policy.lateness(),
            settings.message_name,
        );
        match settings.late_policy {
            LatePolicy::Clamp => {
                self.counters.late_clamped = self.counters.late_clamped + result.late;
            },
            LatePolicy::Drop => {
                self.counters.late_dropped = self.counters.late_dropped + result.late;
            },
        }
        self.counters.shows = self.counters.shows + result.shows;
        self.counters.clears = self.counters.clears + result.clears;
        self.counters.identical_suppressed = self.counters.identical_suppressed + result.suppressed;
        result.tags
    }

    /// Apply reached transitions and discard transitions beyond final media.
    ///
    /// Cues still queued at the end belong to media that was published, so they
    /// are written before the stream ends; future ones are discarded rather
    /// than clamped onto media that never existed.
    pub fn flush_pending_at_eos(&mut self, settings: &Settings) -> (tags: Vec<Vec<u8>>)
        requires
            old(self).spec_counters_fit(),
        ensures
            old(self).timeline@.pending.len() == 0 ==> tags@.len() == 0 && *final(self) == *old(
                self,
            ),
            old(self).timeline@.pending.len() > 0 ==> {
                match old(self).origin {
                    None => {
                        &&& tags@.len() == 0
                        &&& final(self).timeline@ == old(self).timeline@.without_pending()
                        &&& final(self).counters == (Counters {
                            future_discarded: (old(self).counters.future_discarded + old(
                                self,
                            ).timeline@.pending.len()) as u64,
                            ..old(self).counters
                        })
                    },
                    Some(origin) => {
                        let lateness = settings.late_policy.spec_lateness();
                        let position_ms = old(self).stream_position_ms as u64;
                        let drained = old(self).timeline@.drained(origin, position_ms, lateness);
                        &&& final(self).timeline@ == drained.without_pending()
                        &&& cue::tag_bytes(tags@) == cue::change_tags(
                            old(self).timeline@.drain_outcome(
                                origin,
                                position_ms,
                                lateness,
                            ).changes,
                            settings.message_name,
                        )
                        &&& final(self).counters == (Counters {
                            future_discarded: (old(self).counters.future_discarded
                                + drained.pending.len()) as u64,
                            ..old(self).counted(origin, lateness)
                        })
                    },
                }
            },
            old(self).timeline@.wf() ==> final(self).timeline@.wf(),
            final(self).origin == old(self).origin,
            final(self).stream_position_ms == old(self).stream_position_ms,
            final(self).primed == old(self).primed,
    {
        if self.timeline.pending_len() == 0 {
            return Vec::new();
        }
        let ghost before = *self;
        let tags = self.drain_ready(settings);
        proof {
            if let Some(origin) = before.origin {
                cue::waiting_is_no_longer(
                    before.timeline@.pending,
                    origin,
                    before.stream_position_ms as u64,
                );
            }
        }
        let discarded: u64 = self.timeline.discard_pending();
        self.counters.future_discarded = self.counters.future_discarded + discarded;
        tags
    }

    /// The tags that go out in front of one muxed FLV buffer.
    ///
    /// Stream headers carry no timestamp. They are forwarded as they are and
    /// establish nothing: the timeline is calibrated from the first
    /// *timestamped* buffer. `converted` is what the FLV segment makes of the
    /// timestamp.
    pub fn handle_flv_buffer(
        &mut self,
        settings: &Settings,
        pts: Option<u64>,
        converted: Option<u64>,
    ) -> (tags: Vec<Vec<u8>>)
        requires
            old(self).spec_counters_fit(),
        ensures
            pts is None ==> tags@.len() == 0 && *final(self) == *old(self),
            pts matches Some(stamp) ==> {
                let time = running_time_of(converted, stamp);
                let origin = old(self).origin_at(time);
                let position_ms = cue::tag_timestamp(time, origin);
                let lateness = settings.late_policy.spec_lateness();
                let moved = State { stream_position_ms: position_ms as u32, ..*old(self) };
                &&& final(self).origin == Some(origin)
                &&& final(self).stream_position_ms == position_ms
                &&& final(self).primed == (old(self).primed || settings.prime)
                &&& final(self).timeline@ == old(self).timeline@.drained(
                    origin,
                    position_ms,
                    lateness,
                )
                &&& final(self).counters == moved.counted(origin, lateness)
                &&& cue::tag_bytes(tags@) == old(self).priming_tags(*settings, position_ms)
                    + cue::change_tags(
                    old(self).timeline@.drain_outcome(origin, position_ms, lateness).changes,
                    settings.message_name,
                )
            },
            old(self).timeline@.wf() ==> final(self).timeline@.wf(),
    {
        let stamp: u64 = match pts {
            Some(stamp) => stamp,
            None => {
                return Vec::new();
            },
        };
        let ghost before = *self;
        let time: u64 = running_time(converted, stamp);
        let origin: u64 = match self.origin {
            Some(origin) => origin,
            None => time,
        };
        self.origin = Some(origin);
        self.stream_position_ms = tag_timestamp_ms(time, origin) as u32;

        let mut tags: Vec<Vec<u8>> = Vec::new();
        if settings.prime && !self.primed {
            tags.push(blank_data_tag(self.stream_position_ms, settings.message_name));
            self.primed = true;
        }
        let ghost primed = cue::tag_bytes(tags@);
        let ghost moved = *self;

        // Cues belonging before this tag go out ahead of it, so the output stays
        // ordered by timestamp.
        let mut drained = self.drain_ready(settings);
        let ghost cues = cue::tag_bytes(drained@);
        tags.append(&mut drained);
        proof {
            assert(cue::tag_bytes(tags@) =~= primed + cues);
            assert(primed =~= before.priming_tags(*settings, moved.stream_position_ms as u64));
        }
        tags
    }
}

/// Whether the `seen`th violation of an invariant is one to report.
pub open spec fn is_reported(seen: int) -> bool {
    seen == 1 || seen % 1_000 == 0
}

/// How many buffers have violated the one-tag-per-buffer invariant.
#[derive(Clone, Copy, Debug, PartialEq, Eq, Structural)]
pub struct TagMonitor {
    pub violations: u64,
}

impl Default for TagMonitor {
    fn default() -> (monitor: Self)
        ensures
            monitor.violations == 0,
    {
        TagMonitor { violations: 0 }
    }
}

impl TagMonitor {
    /// Check that a timestamped buffer is exactly one whole FLV tag.
    ///
    /// Returns how many violations there have been where this one is to be
    /// reported: the first, and then periodically. Stream headers carry no
    /// timestamp and are not covered, nor is a buffer that cannot be mapped.
    pub fn check_one_tag_per_buffer(&mut self, has_pts: bool, data: Option<&[u8]>) -> (report:
        Option<u64>)
        requires
            old(self).violations < u64::MAX,
        ensures
            ({
                let violated = has_pts && (data matches Some(bytes) && !flv::is_one_tag(bytes@));
                let seen = old(self).violations + if violated {
                    1int
                } else {
                    0int
                };
                &&& final(self).violations == seen
                &&& report == if violated && is_reported(seen) {
                    Some(seen as u64)
                } else {
                    None
                }
            }),
    {
        if !has_pts {
            return None;
        }
        match data {
            None => None,
            Some(bytes) => {
                if is_exactly_one_tag(bytes) {
                    return None;
                }
                self.violations = self.violations + 1;
                let seen: u64 = self.violations;
                if seen == 1 || seen % INVARIANT_WARNING_INTERVAL == 0 {
                    Some(seen)
                } else {
                    None
                }
            },
        }
    }
}

/// Under either policy a drain writes one tag at most, and that tag has the
/// timestamp of the stream position: the output stays ordered by timestamp.
pub proof fn a_drain_writes_at_most_one_tag(
    timeline: caption::Timeline,
    origin: u64,
    position_ms: u64,
    policy: LatePolicy,
)
    ensures
        ({
            let changes = timeline.drain_outcome(
                origin,
                position_ms,
                policy.spec_lateness(),
            ).changes;
            &&& changes.len() <= 1
            &&& changes.len() == 1 ==> changes[0].timestamp_ms == position_ms
        }),
{
    let lateness = policy.spec_lateness();
    let reached = cue::due(timeline.pending, origin, position_ms, lateness);
    let changes = timeline.drain_outcome(origin, position_ms, lateness).changes;
    cue::ordering_orders(
        cue::due_unordered(timeline.pending, origin, position_ms, lateness),
        cue::timestamp_key(),
    );
    cue::changes_move_forward(timeline.active, reached);
    assert forall|i: int| 0 <= i < changes.len() implies (#[trigger] changes[i]).timestamp_ms
        == position_ms by {
        let at = choose|k: int|
            0 <= k < reached.len() && (#[trigger] reached[k]).timestamp_ms
                == changes[i].timestamp_ms;
        let source = cue::due_comes_from_the_queue(
            timeline.pending,
            origin,
            position_ms,
            lateness,
            at,
        );
    }
    if changes.len() > 1 {
        assert(changes[0].timestamp_ms < changes[1].timestamp_ms);
    }
}

/// A silent text pad costs nothing: with no cue waiting, nothing is written and
/// the display stays as it is.
pub proof fn silence_costs_nothing(
    timeline: caption::Timeline,
    origin: u64,
    position_ms: u64,
    policy: LatePolicy,
)
    requires
        timeline.pending.len() == 0,
    ensures
        ({
            let lateness = policy.spec_lateness();
            &&& timeline.drain_outcome(origin, position_ms, lateness).changes.len() == 0
            &&& timeline.drained(origin, position_ms, lateness) == timeline
        }),
{
    reveal(Seq::filter);
    let lateness = policy.spec_lateness();
    assert(cue::due_unordered(timeline.pending, origin, position_ms, lateness) =~= Seq::empty());
    assert(cue::waiting(timeline.pending, origin, position_ms) =~= timeline.pending);
}

/// The subtitle stream is declared once: after a timestamped buffer, no later
/// one carries a priming tag.
pub proof fn priming_happens_once(
    before: State,
    after: State,
    settings: Settings,
    position_ms: u64,
)
    requires
        after.primed == (before.primed || settings.prime),
    ensures
        after.priming_tags(settings, position_ms).len() == 0,
{
}

/// Under the clamping policy no cue is lost: each queued transition either goes
/// out or is left waiting.
pub proof fn clamping_loses_nothing(timeline: caption::Timeline, origin: u64, position_ms: u64)
    ensures
        cue::due(timeline.pending, origin, position_ms, Lateness::Clamp).len() + cue::waiting(
            timeline.pending,
            origin,
            position_ms,
        ).len() == timeline.pending.len(),
    decreases timeline.pending.len(),
{
    reveal(Seq::filter);
    let pending = timeline.pending;
    if pending.len() > 0 {
        let shorter = pending.drop_last();
        clamping_loses_nothing(
            caption::Timeline { pending: shorter, ..timeline },
            origin,
            position_ms,
        );
        cue::ordering_orders(
            cue::due_unordered(shorter, origin, position_ms, Lateness::Clamp),
            cue::timestamp_key(),
        );
    }
    cue::ordering_orders(
        cue::due_unordered(pending, origin, position_ms, Lateness::Clamp),
        cue::timestamp_key(),
    );
}

/// A blank is one whole script-data tag at its timestamp, and a reader finds empty
/// text in it.
pub proof fn a_blank_is_read_as_empty_text(timestamp_ms: u32, name: MessageName)
    ensures
        ({
            let tag = blank_tag(timestamp_ms as int, name);
            &&& flv::is_one_tag(tag)
            &&& flv::tag_header(tag) is Some
            &&& flv::tag_header(tag)->0.tag_type == 18
            &&& flv::tag_header(tag)->0.timestamp_ms == timestamp_ms
            &&& amf::text_property(tag.subrange(11, tag.len() - 4)) is Some
            &&& amf::text_property(tag.subrange(11, tag.len() - 4))->0.len() == 0
        }),
{
    let change = cue::Change { timestamp_ms: timestamp_ms as u64, text: Seq::empty() };
    cue::a_change_is_read_back_from_its_tag(change, name);
}

/// A text that media has passed already is not lost where late ones are clamped: it is
/// carried at the media's own position. Where late ones are dropped it leaves no trace.
/// A text that media has just reached goes out either way.
pub proof fn a_late_text_is_clamped_or_dropped(
    timeline: caption::Timeline,
    start: u64,
    duration: u64,
    text: Seq<char>,
    origin: u64,
    position_ms: u64,
)
    requires
        text.len() > 0,
        caption::all_wait(timeline, origin, position_ms),
        cue::tag_timestamp(start, origin) <= position_ms,
        timeline.active is Some ==> timeline.active->0.text != text,
    ensures
        ({
            let queued = timeline.queued(start, duration, text, InputMode::Replacement);
            let clamp = LatePolicy::Clamp.spec_lateness();
            let drop = LatePolicy::Drop.spec_lateness();
            let clamped = queued.drain_outcome(origin, position_ms, clamp).changes;
            let dropped = queued.drain_outcome(origin, position_ms, drop).changes;
            let late = cue::tag_timestamp(start, origin) < position_ms;
            &&& clamped.len() == 1 && clamped[0].timestamp_ms == position_ms && clamped[0].text
                == text
            &&& queued.drained(origin, position_ms, clamp).active is Some
            &&& queued.drained(origin, position_ms, clamp).active->0.text == text
            &&& late ==> dropped.len() == 0 && queued.drained(origin, position_ms, drop).active
                == timeline.active && queued.drained(origin, position_ms, drop).pending
                == timeline.pending
            &&& !late ==> dropped.len() == 1 && dropped[0].timestamp_ms == position_ms
                && dropped[0].text == text
        }),
{
    let claimed = timeline.claimed();
    let kind = cue::Kind::Show { generation: timeline.next_generation, text };
    caption::one_change_is_made(claimed, start, kind, origin, position_ms, Lateness::Clamp);
    if cue::tag_timestamp(start, origin) < position_ms {
        caption::a_late_transition_is_discarded(claimed, start, kind, origin, position_ms);
    } else {
        caption::one_change_is_made(claimed, start, kind, origin, position_ms, Lateness::Discard);
    }
}

/// Media is counted from the first timestamped buffer, whose own position is zero, and
/// later ones do not move that. A timestamp stands for what its segment makes of it,
/// and for itself where the segment makes nothing of it.
pub proof fn media_is_counted_from_the_first(
    state: State,
    first: u64,
    second: u64,
    pts: u64,
    converted: u64,
)
    ensures
        state.origin is None ==> state.origin_at(first) == first && cue::tag_timestamp(
            first,
            state.origin_at(first),
        ) == 0,
        state.origin is Some ==> state.origin_at(first) == state.origin->0 && state.origin_at(
            second,
        ) == state.origin_at(first),
        running_time_of(Some(converted), pts) == converted,
        running_time_of(None, pts) == pts,
{
}

/// The subtitle stream is declared by one blank at the position of the first media,
/// where that is asked for and has not happened, and by nothing otherwise.
pub proof fn priming_declares_the_stream(state: State, settings: Settings, position_ms: u32)
    ensures
        ({
            let tags = state.priming_tags(settings, position_ms as u64);
            &&& settings.prime && !state.primed <==> tags.len() == 1
            &&& !settings.prime || state.primed <==> tags.len() == 0
            &&& tags.len() == 1 ==> flv::tag_header(tags[0]) is Some && flv::tag_header(
                tags[0],
            )->0.timestamp_ms == position_ms && amf::text_property(
                tags[0].subrange(11, tags[0].len() - 4),
            ) is Some && amf::text_property(
                tags[0].subrange(11, tags[0].len() - 4),
            )->0.len() == 0
        }),
{
    a_blank_is_read_as_empty_text(position_ms, settings.message_name);
}

/// What happened to cues is counted: every change as a show or a clear, every instant
/// that changed nothing as suppressed, and every late transition as clamped or as
/// dropped, by the policy. What was discarded at the end is not counted here.
pub proof fn cues_are_counted_by_what_became_of_them(state: State, origin: u64, policy: LatePolicy)
    requires
        state.spec_counters_fit(),
    ensures
        ({
            let lateness = policy.spec_lateness();
            let position_ms = state.stream_position_ms as u64;
            let outcome = state.timeline@.drain_outcome(origin, position_ms, lateness);
            let late = cue::late_count(state.timeline@.pending, origin, position_ms);
            let before = state.counters;
            let after = state.counted(origin, lateness);
            &&& (after.shows - before.shows) + (after.clears - before.clears)
                == outcome.changes.len()
            &&& after.shows - before.shows == cue::show_count(outcome.changes)
            &&& after.identical_suppressed - before.identical_suppressed == outcome.suppressed
            &&& policy == LatePolicy::Clamp ==> after.late_clamped - before.late_clamped == late
                && after.late_dropped == before.late_dropped
            &&& policy == LatePolicy::Drop ==> after.late_dropped - before.late_dropped == late
                && after.late_clamped == before.late_clamped
            &&& after.future_discarded == before.future_discarded
        }),
{
    let lateness = policy.spec_lateness();
    let position_ms = state.stream_position_ms as u64;
    let pending = state.timeline@.pending;
    let reached = cue::due(pending, origin, position_ms, lateness);
    cue::outcomes_are_bounded(state.timeline@.active, reached);
    cue::ordering_orders(
        cue::due_unordered(pending, origin, position_ms, lateness),
        cue::timestamp_key(),
    );
    let out = |transition: cue::Transition|
        cue::placement(transition, origin, position_ms, lateness) is At;
    pending.lemma_filter_len(out);
    pending.lemma_filter_len(
        |transition: cue::Transition|
            cue::tag_timestamp(transition.running_time, origin) < position_ms,
    );
}

/// A fault that goes on is reported the first time and then every thousandth time, and
/// at no other.
pub proof fn faults_are_reported_now_and_then(thousands: int, more: int)
    requires
        thousands >= 0,
        0 < more < 1_000,
        thousands > 0 || more > 1,
    ensures
        is_reported(1),
        thousands > 0 ==> is_reported(1_000 * thousands),
        !is_reported(1_000 * thousands + more),
{
}


/// A buffer is queued exactly where it has a timestamp, a duration and data, the data is
/// text, and the text lasts where it has to. In no case does it touch the tag stream.
pub proof fn which_text_is_queued(
    state: &mut State,
    settings: Settings,
    buffer: TextBuffer,
    converted: Option<u64>,
    result: Result<(), CaptionError>,
)
    requires
        call_ensures(State::handle_text_buffer, (state, &settings, &buffer, converted), result),
    ensures
        result is Ok <==> buffer.pts is Some && buffer.duration is Some && buffer.data is Some
            && utf8::valid_utf8(buffer.data->0@) && (settings.input_mode == InputMode::Replacement
            || buffer.duration->0 > 0 || utf8::decode_utf8(buffer.data->0@).len() == 0),
        result is Err && !(result->Err_0 is ZeroDuration) ==> final(state).timeline@ == old(state).timeline@,
        final(state).timeline@.active == old(state).timeline@.active,
        final(state).origin == old(state).origin,
        final(state).stream_position_ms == old(state).stream_position_ms,
        final(state).primed == old(state).primed,
        final(state).counters == old(state).counters,
{
}

/// A buffer without a timestamp changes nothing and nothing goes out in front of it. One
/// with a timestamp is placed behind the first of its kind, in whole milliseconds; and
/// what it reaches waits no longer.
pub proof fn media_is_placed_behind_the_first(
    state: &mut State,
    settings: Settings,
    pts: Option<u64>,
    converted: Option<u64>,
    tags: Vec<Vec<u8>>,
)
    requires
        call_ensures(State::handle_flv_buffer, (state, &settings, pts, converted), tags),
    ensures
        pts is None ==> tags@.len() == 0 && *final(state) == *old(state),
        pts is Some ==> {
            let time = if converted is Some {
                converted->0
            } else {
                pts->0
            };
            let origin = final(state).origin->0;
            &&& final(state).origin is Some
            &&& old(state).origin is Some ==> final(state).origin == old(state).origin
            &&& old(state).origin is None ==> origin == time
            &&& time <= origin ==> final(state).stream_position_ms == 0
            &&& origin <= time && time - origin < 0x8000_0000 * 1_000_000
                ==> final(state).stream_position_ms * 1_000_000 <= time - origin < (final(state).stream_position_ms + 1) * 1_000_000
            &&& final(state).primed <==> old(state).primed || settings.prime
            &&& settings.prime && !old(state).primed ==> tags@.len() > 0
        },
{
    if pts is Some {
        let time = running_time_of(converted, pts->0);
        let origin = old(state).origin_at(time);
        cue::tag_timestamps_count_milliseconds(time, time, origin);
        assert(cue::tag_bytes(tags@).len() == tags@.len());
    }
}

/// At the end nothing waits any more.
pub proof fn nothing_waits_at_the_end(state: &mut State, settings: Settings, tags: Vec<Vec<u8>>)
    requires
        call_ensures(State::flush_pending_at_eos, (state, &settings), tags),
    ensures
        final(state).timeline@.pending.len() == 0,
        old(state).origin is None ==> tags@.len() == 0,
{
}


/// Nothing has happened to a fresh injector: nothing waits, nothing is on display and
/// nothing is counted. Its first media with a timestamp stands at zero, with the blank
/// state in front of it where that is asked for, and nothing else.
pub proof fn a_fresh_injector_starts_with_its_first_media(
    fresh: State,
    state: &mut State,
    settings: Settings,
    pts: Option<u64>,
    converted: Option<u64>,
    tags: Vec<Vec<u8>>,
)
    requires
        call_ensures(State::default, (), fresh),
        *old(state) == fresh,
        pts is Some,
        call_ensures(State::handle_flv_buffer, (state, &settings, pts, converted), tags),
    ensures
        fresh.timeline@.pending.len() == 0 && fresh.timeline@.active is None,
        fresh.timeline@.next_generation == 0 && fresh.timeline@.next_sequence == 0,
        fresh.origin is None && fresh.stream_position_ms == 0 && !fresh.primed,
        fresh.counters.shows == 0 && fresh.counters.clears == 0
            && fresh.counters.identical_suppressed == 0,
        fresh.counters.late_clamped == 0 && fresh.counters.late_dropped == 0
            && fresh.counters.future_discarded == 0,
        final(state).origin == Some(
            if converted is Some {
                converted->0
            } else {
                pts->0
            },
        ),
        final(state).stream_position_ms == 0,
        tags@.len() == if settings.prime {
            1int
        } else {
            0int
        },
{
    let time = running_time_of(converted, pts->0);
    cue::tag_timestamps_count_milliseconds(time, time, time);
    let lateness = settings.late_policy.spec_lateness();
    let position_ms = cue::tag_timestamp(time, time);
    assert(cue::tag_bytes(tags@).len() == tags@.len());
    caption::nothing_comes_of_nothing(fresh.timeline@, time, position_ms, lateness);
}

} // verus!
