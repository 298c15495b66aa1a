use gst_plugins::caption::{InputMode, TextBuffer};
use gst_plugins::flv::{frame_tag, parse_tag_header, TAG_TYPE_SCRIPT_DATA};
use gst_plugins::submux::{
    running_time, CoverageStep, FinishStep, MediaStart, ProtocolError, SegmentError, Settings,
    State, TextHead, TextPad,
};
use std::collections::VecDeque;

const MS: u64 = 1_000_000;

/// A TIME segment that starts at a time and plays at a rate.
#[derive(Clone, Copy)]
struct Segment {
    start: u64,
    rate: f64,
}

impl Segment {
    fn new() -> Self {
        Segment { start: 0, rate: 1.0 }
    }

    fn convert(&self, pts: u64) -> Result<u64, SegmentError> {
        running_time(true, self.rate == 1.0, pts.checked_sub(self.start))
    }
}

struct Text {
    pts: u64,
    duration: u64,
    data: Option<Vec<u8>>,
    gap: bool,
}

struct Media {
    pts: Option<u64>,
    data: Vec<u8>,
}

/// Two pads and the aggregator between them.
struct Harness {
    state: State,
    settings: Settings,
    flv: VecDeque<Media>,
    text: VecDeque<Text>,
    flv_eos: bool,
    text_eos: bool,
    flv_segment: Segment,
    text_segment: Segment,
    output: VecDeque<Vec<u8>>,
    error: Option<ProtocolError>,
}

impl Harness {
    fn new() -> Self {
        let mut settings = Settings::default();
        settings.prime = false;
        Harness {
            state: State::default(),
            settings,
            flv: VecDeque::new(),
            text: VecDeque::new(),
            flv_eos: false,
            text_eos: false,
            flv_segment: Segment::new(),
            text_segment: Segment::new(),
            output: VecDeque::new(),
            error: None,
        }
    }

    fn text_pad(&self) -> TextPad {
        match self.text.front() {
            None if self.text_eos => TextPad::Ended,
            None => TextPad::Waiting,
            Some(text) => TextPad::Head(TextHead {
                buffer: TextBuffer {
                    pts: Some(text.pts),
                    duration: Some(text.duration),
                    data: text.data.clone(),
                },
                gap: text.gap,
                start: self.text_segment.convert(text.pts),
                end: self.text_segment.convert(text.pts + text.duration),
            }),
        }
    }

    fn consume(&mut self) -> Result<(), ProtocolError> {
        let popped = self.text.pop_front().is_some();
        self.state.consume_text_interval(popped)
    }

    /// Whether text covers a media time; `None` where more text is needed.
    fn covered(&mut self, time: u64) -> Result<Option<()>, ProtocolError> {
        loop {
            let pad = self.text_pad();
            if let TextPad::Head(head) = &pad {
                assert!(self.state.has_interval()
                    || self.state.can_take_up(self.settings.input_mode, head));
            }
            match self.state.require_text_coverage(self.settings.input_mode, time, &pad) {
                CoverageStep::Covered | CoverageStep::TextEnded => return Ok(Some(())),
                CoverageStep::NeedData => return Ok(None),
                CoverageStep::Consume => self.consume()?,
                CoverageStep::Refused(error) => return Err(error),
            }
        }
    }

    fn step(&mut self) -> Result<bool, ProtocolError> {
        let Some(media) = self.flv.front() else {
            if !self.flv_eos {
                return Ok(false);
            }
            loop {
                let pad = self.text_pad();
                match self.state.finish_after_flv_eos(self.settings.input_mode, &pad) {
                    FinishStep::Consume => self.consume()?,
                    FinishStep::NeedData => return Ok(false),
                    FinishStep::Refused(error) => return Err(error),
                    FinishStep::Finish => break,
                }
            }
            let (tags, _) = self.state.finish(&self.settings);
            self.output.extend(tags);
            return Ok(false);
        };
        let converted = match media.pts {
            Some(pts) => self.flv_segment.convert(pts),
            None => Err(SegmentError::OutsideSegment),
        };
        match self.state.begin_media(media.pts, converted)? {
            MediaStart::PassThrough => {}
            MediaStart::At(time) => {
                if self.covered(time)?.is_none() {
                    return Ok(false);
                }
                let tags = self.state.process_flv_buffer(&self.settings, time);
                self.output.extend(tags);
            }
        }
        self.output.push_back(self.flv.pop_front().unwrap().data);
        Ok(true)
    }

    fn aggregate(&mut self) {
        while self.error.is_none() {
            match self.step() {
                Ok(true) => {}
                Ok(false) => return,
                Err(error) => self.error = Some(error),
            }
        }
    }

    fn push_gap(&mut self, start_ms: u64, duration_ms: u64) {
        self.text.push_back(Text {
            pts: start_ms * MS,
            duration: duration_ms * MS,
            data: None,
            gap: true,
        });
        self.aggregate();
    }

    fn push_text(&mut self, start_ms: u64, duration_ms: u64, text: &str) {
        self.text.push_back(Text {
            pts: start_ms * MS,
            duration: duration_ms * MS,
            data: Some(text.as_bytes().to_vec()),
            gap: false,
        });
        self.aggregate();
    }

    fn push_flv(&mut self, timestamp_ms: u64) {
        self.flv.push_back(Media {
            pts: Some(timestamp_ms * MS),
            data: frame_tag(9, timestamp_ms as u32, &[0x17, 0x01, 0, 0, 0]),
        });
        self.aggregate();
    }

    fn push_text_eos(&mut self) {
        self.text_eos = true;
        self.aggregate();
    }

    fn push_flv_eos(&mut self) {
        self.flv_eos = true;
        self.aggregate();
    }

    fn push_text_segment(&mut self, segment: Segment) {
        self.text_segment = segment;
        self.text.clear();
        self.state.text_segment();
    }

    fn flush(&mut self) {
        self.flv.clear();
        self.text.clear();
        self.state.reset_runtime();
    }

    fn drain_headers(&mut self) -> Vec<(u32, u8)> {
        self.output
            .drain(..)
            .map(|tag| {
                let header = parse_tag_header(&tag).unwrap();
                (header.timestamp_ms, header.tag_type)
            })
            .collect()
    }
}

#[test]
fn one_gap_watermarks_multiple_flv_buffers() {
    let mut harness = Harness::new();
    harness.push_gap(0, 500);
    harness.push_flv(0);
    harness.push_flv(100);
    harness.push_flv(400);
    assert_eq!(harness.drain_headers(), vec![(0, 9), (100, 9), (400, 9)]);
}

#[test]
fn one_text_interval_covers_multiple_flv_buffers() {
    let mut harness = Harness::new();
    harness.push_text(0, 500, "word");
    harness.push_flv(0);
    harness.push_flv(100);
    harness.push_flv(400);
    assert_eq!(
        harness.drain_headers(),
        vec![(0, TAG_TYPE_SCRIPT_DATA), (0, 9), (100, 9), (400, 9)]
    );
}

#[test]
fn gap_is_not_decoded_as_utf8() {
    let mut harness = Harness::new();
    harness.push_gap(0, 200);
    harness.push_flv(0);
    harness.push_flv(100);
    assert_eq!(harness.drain_headers(), vec![(0, 9), (100, 9)]);
}

#[test]
fn media_waits_for_the_next_gap_after_the_watermark_ends() {
    let mut harness = Harness::new();
    harness.push_gap(0, 100);
    harness.push_flv(0);
    assert_eq!(harness.drain_headers(), vec![(0, 9)]);

    harness.push_flv(100);
    assert!(harness.output.is_empty());

    harness.push_gap(100, 100);
    assert_eq!(harness.drain_headers(), vec![(100, 9)]);
}

#[test]
fn a_delayed_word_keeps_its_original_timestamp_after_gap_coverage() {
    let mut harness = Harness::new();
    harness.push_gap(0, 200);
    harness.push_text(200, 100, "delayed");
    harness.push_flv(0);
    harness.push_flv(100);
    harness.push_flv(200);
    assert_eq!(
        harness.drain_headers(),
        vec![(0, 9), (100, 9), (200, TAG_TYPE_SCRIPT_DATA), (200, 9)]
    );
}

#[test]
fn timed_clear_is_emitted_at_the_interval_boundary() {
    let mut harness = Harness::new();
    harness.push_text(0, 100, "timed");
    harness.push_text_eos();
    harness.push_flv(0);
    harness.push_flv(100);
    assert_eq!(
        harness.drain_headers(),
        vec![
            (0, TAG_TYPE_SCRIPT_DATA),
            (0, 9),
            (100, TAG_TYPE_SCRIPT_DATA),
            (100, 9)
        ]
    );
}

#[test]
fn replacement_duration_does_not_clear_state() {
    let mut harness = Harness::new();
    harness.settings.input_mode = InputMode::Replacement;
    harness.push_text(0, 100, "persistent");
    harness.push_text_eos();
    harness.push_flv(0);
    harness.push_flv(200);
    assert_eq!(
        harness.drain_headers(),
        vec![(0, TAG_TYPE_SCRIPT_DATA), (0, 9), (200, 9)]
    );
}

#[test]
fn same_timestamp_transitions_coalesce() {
    let mut harness = Harness::new();
    harness.push_text(0, 100, "first");
    harness.push_text(100, 100, "final");
    harness.push_flv(0);
    harness.push_flv(100);
    assert_eq!(
        harness.drain_headers(),
        vec![
            (0, TAG_TYPE_SCRIPT_DATA),
            (0, 9),
            (100, TAG_TYPE_SCRIPT_DATA),
            (100, 9)
        ]
    );
}

#[test]
fn text_eos_allows_remaining_media_to_drain() {
    let mut harness = Harness::new();
    harness.push_text_eos();
    harness.push_flv(0);
    harness.push_flv(100);
    assert_eq!(harness.drain_headers(), vec![(0, 9), (100, 9)]);
}

#[test]
fn pts_less_flv_header_passes_before_the_first_media_tag_and_prime_is_at_media_start() {
    let mut harness = Harness::new();
    harness.settings.prime = true;
    harness.push_gap(0, 200);
    let header = vec![b'F', b'L', b'V', 1, 5, 0, 0, 0, 9, 0, 0, 0, 0];
    harness.flv.push_back(Media { pts: None, data: header.clone() });
    harness.aggregate();
    assert_eq!(harness.output.pop_front(), Some(header));
    harness.push_flv(0);
    assert_eq!(
        harness.drain_headers(),
        vec![(0, TAG_TYPE_SCRIPT_DATA), (0, 9)]
    );
}

#[test]
fn flush_stop_discards_the_old_interval_and_caption_state() {
    let mut harness = Harness::new();
    harness.push_text(0, 500, "stale");
    harness.push_flv(0);
    assert_eq!(harness.drain_headers().len(), 2);
    harness.flush();
    harness.push_gap(0, 200);
    harness.push_flv(0);
    assert_eq!(harness.drain_headers(), vec![(0, 9)]);
}

#[test]
fn final_text_beyond_media_is_discarded_only_after_text_eos() {
    let mut harness = Harness::new();
    harness.push_gap(0, 200);
    harness.push_text(200, 100, "future");
    harness.push_flv(0);
    assert_eq!(harness.drain_headers(), vec![(0, 9)]);
    harness.push_flv_eos();
    harness.push_text_eos();
    assert!(harness.output.is_empty());
    assert!(harness.error.is_none());
}

#[test]
fn a_word_inside_a_consumed_gap_fails_the_stream() {
    let mut harness = Harness::new();
    harness.push_gap(0, 100);
    harness.push_flv(0);
    harness.push_flv(100);
    harness.push_text(50, 50, "late");
    assert!(matches!(
        harness.error,
        Some(ProtocolError::Overlap { start, previous_end })
            if start == 50 * MS && previous_end == 100 * MS
    ));
}

#[test]
fn missing_initial_gap_fails_before_timestamped_media_is_emitted() {
    let mut harness = Harness::new();
    harness.push_flv(0);
    harness.push_gap(100, 100);
    assert!(matches!(
        harness.error,
        Some(ProtocolError::NoInitialCoverage { time: 0, start }) if start == 100 * MS
    ));
    assert!(harness.output.is_empty());
}

#[test]
fn a_text_segment_does_not_restart_the_media_timeline() {
    let mut harness = Harness::new();
    harness.settings.prime = true;
    harness.push_gap(0, 100);
    harness.push_flv(0);
    assert_eq!(
        harness.drain_headers(),
        vec![(0, TAG_TYPE_SCRIPT_DATA), (0, 9)]
    );

    // Queued media that is not yet covered by the text timeline.
    harness.push_flv(100);
    assert!(harness.output.is_empty(), "expected to block");

    harness.push_text_segment(Segment::new());
    harness.push_gap(100, 100);

    let headers = harness.drain_headers();
    assert_eq!(headers, vec![(100, 9)]);
    assert!(
        !headers
            .iter()
            .any(|(timestamp, tag)| *tag == TAG_TYPE_SCRIPT_DATA && *timestamp == 0),
        "text segment re-primed the subtitle timeline at 0 after media reached 100"
    );
}

#[test]
fn a_non_unity_segment_rate_is_rejected() {
    let mut harness = Harness::new();
    harness.push_text_segment(Segment { start: 0, rate: 2.0 });
    harness.push_gap(0, 500);
    harness.push_flv(0);
    assert!(matches!(
        harness.error,
        Some(ProtocolError::Segment(SegmentError::RateNotOne))
    ));
}

#[test]
fn a_reverse_segment_rate_is_rejected() {
    let mut harness = Harness::new();
    harness.push_text_segment(Segment { start: 0, rate: -1.0 });
    harness.push_gap(0, 500);
    harness.push_flv(0);
    assert!(matches!(
        harness.error,
        Some(ProtocolError::Segment(SegmentError::RateNotOne))
    ));
}

#[test]
fn media_outside_its_segment_is_rejected() {
    let mut harness = Harness::new();
    harness.push_gap(0, 500);
    // A segment starting at 1s makes an earlier media timestamp out of range.
    harness.flv_segment = Segment { start: 1_000 * MS, rate: 1.0 };
    harness.push_flv(0);
    assert!(matches!(
        harness.error,
        Some(ProtocolError::Segment(SegmentError::OutsideSegment))
    ));
}

#[test]
fn a_text_segment_clears_a_cue_left_on_screen() {
    let mut harness = Harness::new();
    harness.settings.input_mode = InputMode::Replacement;

    // A cue that stays active for the rest of the timeline.
    harness.push_text(0, 100, "stale");
    harness.push_flv(0);
    assert_eq!(
        harness.drain_headers(),
        vec![(0, TAG_TYPE_SCRIPT_DATA), (0, 9)]
    );

    // A new text segment declares a new caption timeline.
    harness.push_text_segment(Segment::new());
    harness.push_gap(0, 500);
    harness.push_flv(100);
    assert_eq!(
        harness.drain_headers(),
        vec![(100, TAG_TYPE_SCRIPT_DATA), (100, 9)],
        "no clear cue was written after the text timeline restarted"
    );
}

#[test]
fn an_owed_clear_survives_a_second_text_segment() {
    let mut harness = Harness::new();
    harness.settings.input_mode = InputMode::Replacement;
    harness.push_text(0, 100, "stale");
    harness.push_flv(0);
    harness.drain_headers();
    harness.push_text_segment(Segment::new());
    harness.push_text_segment(Segment::new());
    harness.push_gap(0, 500);
    harness.push_flv(100);
    assert_eq!(
        harness.drain_headers(),
        vec![(100, TAG_TYPE_SCRIPT_DATA), (100, 9)]
    );
}

#[test]
fn an_uncovered_interval_fails_the_stream() {
    let mut harness = Harness::new();
    harness.push_gap(0, 100);
    harness.push_flv(0);
    harness.push_flv(150);
    harness.push_gap(200, 100);
    assert!(matches!(
        harness.error,
        Some(ProtocolError::Uncovered { previous_end, start })
            if previous_end == 100 * MS && start == 200 * MS
    ));
}

#[test]
fn media_must_not_go_back() {
    let mut harness = Harness::new();
    harness.push_gap(0, 500);
    harness.push_flv(200);
    harness.push_flv(100);
    assert!(matches!(
        harness.error,
        Some(ProtocolError::NotMonotonic { time, previous })
            if time == 100 * MS && previous == 200 * MS
    ));
}

#[test]
fn an_empty_gap_is_refused() {
    let mut harness = Harness::new();
    harness.push_gap(0, 0);
    harness.push_flv(0);
    assert!(matches!(harness.error, Some(ProtocolError::EmptyGap)));
}

#[test]
fn timed_text_needs_a_duration() {
    let mut harness = Harness::new();
    harness.push_text(0, 0, "flash");
    harness.push_flv(0);
    match harness.error {
        Some(ProtocolError::Caption(error)) => {
            assert_eq!(error.message(), "timed non-empty text needs non-zero duration")
        }
        other => panic!("expected a refusal, got {other:?}"),
    }
}

#[test]
fn text_that_is_not_utf8_is_refused() {
    let mut harness = Harness::new();
    harness.text.push_back(Text {
        pts: 0,
        duration: 100 * MS,
        data: Some(vec![0xff]),
        gap: false,
    });
    harness.push_flv(0);
    match harness.error {
        Some(ProtocolError::Caption(error)) => assert_eq!(
            error.message(),
            "text buffer is not UTF-8: invalid utf-8 sequence of 1 bytes from index 0"
        ),
        other => panic!("expected a refusal, got {other:?}"),
    }
}

#[test]
fn text_without_a_timestamp_or_a_duration_is_refused() {
    let head = |pts, duration| {
        TextPad::Head(TextHead {
            buffer: TextBuffer { pts, duration, data: None },
            gap: false,
            start: Ok(0),
            end: Ok(0),
        })
    };
    let mut state = State::default();
    assert!(matches!(
        state.require_text_coverage(InputMode::Timed, 0, &head(None, Some(1))),
        CoverageStep::Refused(ProtocolError::MissingPts)
    ));
    assert!(matches!(
        state.require_text_coverage(InputMode::Timed, 0, &head(Some(0), None)),
        CoverageStep::Refused(ProtocolError::MissingDuration)
    ));
    assert!(matches!(
        state.require_text_coverage(InputMode::Timed, 0, &head(Some(0), Some(1))),
        CoverageStep::Refused(ProtocolError::Caption(_))
    ));
}

#[test]
fn an_interval_that_disappears_is_an_error() {
    let mut harness = Harness::new();
    harness.push_gap(0, 100);
    harness.push_flv(0);
    assert!(matches!(
        harness.state.consume_text_interval(false),
        Err(ProtocolError::TextDisappeared)
    ));
}

#[test]
fn segments_that_are_not_in_time_are_refused() {
    assert_eq!(running_time(false, true, Some(5)), Err(SegmentError::NotTime));
    assert_eq!(running_time(true, true, Some(5)), Ok(5));
}

#[test]
fn identical_text_is_written_once() {
    let mut harness = Harness::new();
    harness.settings.input_mode = InputMode::Replacement;
    harness.push_text(0, 100, "same");
    harness.push_text(100, 100, "same");
    harness.push_flv(0);
    harness.push_flv(100);
    assert_eq!(
        harness.drain_headers(),
        vec![(0, TAG_TYPE_SCRIPT_DATA), (0, 9), (100, 9)]
    );
}
