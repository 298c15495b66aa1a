use gst_plugins::amf::{script_data_body, MessageName};
use gst_plugins::caption::{CaptionError, InputMode, TextBuffer};
use gst_plugins::flv::{frame_tag, parse_tag_header, script_data_tag, TAG_TYPE_SCRIPT_DATA};
use gst_plugins::subinject::{
    blank_data_tag, running_time, LatePolicy, Settings, State, TagMonitor,
    INVARIANT_WARNING_INTERVAL,
};

const MS: u64 = 1_000_000;

fn settings() -> Settings {
    let mut settings = Settings::default();
    settings.prime = false;
    settings
}

fn cue(start_ms: u64, duration_ms: u64, text: &str) -> TextBuffer {
    TextBuffer {
        pts: Some(start_ms * MS),
        duration: Some(duration_ms * MS),
        data: Some(text.as_bytes().to_vec()),
    }
}

fn push_text(state: &mut State, settings: &Settings, buffer: &TextBuffer) {
    state
        .handle_text_buffer(settings, buffer, buffer.pts)
        .expect("a cue that can be queued");
}

fn tag(timestamp_ms: u32, text: &str) -> Vec<u8> {
    script_data_tag(timestamp_ms, &script_data_body(MessageName::OnCaption, text, None))
}

/// Whole stream that comes out for media at some times.
fn stream(state: &mut State, settings: &Settings, media_ms: &[u64]) -> Vec<u8> {
    let mut output = Vec::new();
    for time in media_ms {
        for tag in state.handle_flv_buffer(settings, Some(time * MS), Some(time * MS)) {
            output.extend_from_slice(&tag);
        }
        output.extend_from_slice(&frame_tag(9, *time as u32, b"frame"));
    }
    output
}

fn headers(stream: &[u8]) -> Vec<(u32, u8)> {
    let mut cursor = 0;
    let mut found = Vec::new();
    while let Some(header) = parse_tag_header(&stream[cursor..]) {
        assert!(stream.len() - cursor >= header.total_len());
        found.push((header.timestamp_ms, header.tag_type));
        cursor += header.total_len();
    }
    assert_eq!(cursor, stream.len(), "the stream ends on a tag boundary");
    found
}

#[test]
fn the_defaults_prime_and_clamp() {
    let settings = Settings::default();
    assert!(settings.prime);
    assert_eq!(settings.late_policy, LatePolicy::Clamp);
    assert_eq!(settings.input_mode, InputMode::Timed);
    assert_eq!(settings.message_name, MessageName::OnCaption);
}

#[test]
fn an_uncaptioned_stream_is_forwarded_as_it_is() {
    let mut state = State::default();
    let media = [0, 40, 80, 120];
    let mut direct = Vec::new();
    for time in media {
        direct.extend_from_slice(&frame_tag(9, time as u32, b"frame"));
    }
    assert_eq!(stream(&mut state, &settings(), &media), direct);
}

#[test]
fn every_cue_lands_between_two_whole_tags_and_in_order() {
    let mut state = State::default();
    let settings = settings();
    for index in 0..20 {
        push_text(&mut state, &settings, &cue(index * 30, 20, "cue"));
    }
    let media: Vec<u64> = (0..20).map(|index| index * 33).collect();
    let found = headers(&stream(&mut state, &settings, &media));
    assert!(found.windows(2).all(|pair| pair[0].0 <= pair[1].0), "{found:?}");
    assert!(found.iter().any(|(_, kind)| *kind == TAG_TYPE_SCRIPT_DATA));
}

#[test]
fn priming_writes_one_blank_cue_before_any_media() {
    let mut state = State::default();
    let settings = Settings::default();
    assert!(state.handle_flv_buffer(&settings, None, None).is_empty());
    assert_eq!(
        state.handle_flv_buffer(&settings, Some(500 * MS), Some(500 * MS)),
        [blank_data_tag(0, MessageName::OnCaption)]
    );
    assert!(state.handle_flv_buffer(&settings, Some(540 * MS), Some(540 * MS)).is_empty());
    assert_eq!(blank_data_tag(0, MessageName::OnCaption), tag(0, ""));
}

#[test]
fn a_timed_cue_shows_and_clears() {
    let mut state = State::default();
    let settings = settings();
    push_text(&mut state, &settings, &cue(0, 100, "hello"));
    assert_eq!(state.handle_flv_buffer(&settings, Some(0), Some(0)), [tag(0, "hello")]);
    assert_eq!(
        state.handle_flv_buffer(&settings, Some(100 * MS), Some(100 * MS)),
        [tag(100, "")]
    );
    assert_eq!((state.counters.shows, state.counters.clears), (1, 1));
}

#[test]
fn late_cues_are_clamped_or_dropped() {
    let mut state = State::default();
    let mut settings = settings();
    settings.input_mode = InputMode::Replacement;
    stream(&mut state, &settings, &[0, 500]);
    push_text(&mut state, &settings, &cue(100, 50, "late"));
    assert_eq!(state.drain_ready(&settings), [tag(500, "late")]);
    assert_eq!(state.counters.late_clamped, 1);

    settings.late_policy = LatePolicy::Drop;
    push_text(&mut state, &settings, &cue(200, 50, "later"));
    assert!(state.drain_ready(&settings).is_empty());
    assert_eq!(state.counters.late_dropped, 1);
}

#[test]
fn cues_beyond_the_last_media_are_discarded_at_the_end() {
    let mut state = State::default();
    let mut settings = settings();
    settings.input_mode = InputMode::Replacement;
    stream(&mut state, &settings, &[0, 100]);
    push_text(&mut state, &settings, &cue(100, 50, "reached"));
    push_text(&mut state, &settings, &cue(900, 50, "future"));
    assert!(state.counters_fit());
    assert_eq!(state.flush_pending_at_eos(&settings), [tag(100, "reached")]);
    assert_eq!(state.counters.future_discarded, 1);
    assert!(state.flush_pending_at_eos(&settings).is_empty());
}

#[test]
fn cues_are_counted_from_the_first_media() {
    let mut state = State::default();
    let settings = settings();
    push_text(&mut state, &settings, &cue(10_000, 100, "hello"));
    assert_eq!(
        state.handle_flv_buffer(&settings, Some(10_000 * MS), Some(10_000 * MS)),
        [tag(0, "hello")]
    );
}

#[test]
fn a_timestamp_outside_its_segment_is_taken_as_it_is() {
    assert_eq!(running_time(Some(3), 7), 3);
    assert_eq!(running_time(None, 7), 7);
}

#[test]
fn cues_that_cannot_be_queued_are_refused() {
    let settings = settings();
    let refuse = |buffer: TextBuffer| {
        State::default()
            .handle_text_buffer(&settings, &buffer, buffer.pts)
            .expect_err("a refusal")
            .message()
    };
    let whole = || cue(0, 100, "text");
    assert_eq!(refuse(TextBuffer { pts: None, ..whole() }), "text buffer requires PTS");
    assert_eq!(refuse(TextBuffer { duration: None, ..whole() }), "text buffer requires duration");
    assert_eq!(refuse(TextBuffer { data: None, ..whole() }), "text buffer could not be mapped");
    assert_eq!(
        refuse(TextBuffer { duration: Some(0), ..whole() }),
        "timed non-empty text needs non-zero duration"
    );
    assert!(matches!(
        State::default().handle_text_buffer(
            &settings,
            &TextBuffer { data: Some(vec![0xc3, 0x28]), ..whole() },
            Some(0)
        ),
        Err(CaptionError::InvalidUtf8(_))
    ));
}

#[test]
fn buffers_that_are_not_one_tag_are_reported_now_and_then() {
    let mut monitor = TagMonitor::default();
    let whole = frame_tag(9, 0, b"frame");
    assert_eq!(monitor.check_one_tag_per_buffer(true, Some(&whole)), None);
    assert_eq!(monitor.check_one_tag_per_buffer(false, Some(b"FLV")), None);
    assert_eq!(monitor.check_one_tag_per_buffer(true, None), None);
    assert_eq!(monitor.check_one_tag_per_buffer(true, Some(b"FLV")), Some(1));
    for _ in 2..INVARIANT_WARNING_INTERVAL {
        assert_eq!(monitor.check_one_tag_per_buffer(true, Some(b"FLV")), None);
    }
    assert_eq!(
        monitor.check_one_tag_per_buffer(true, Some(b"FLV")),
        Some(INVARIANT_WARNING_INTERVAL)
    );
}

#[test]
fn a_cue_is_queued_where_its_end_can_be_expressed() {
    let mut settings = settings();
    let mut state = State::default();
    let mut last = cue(0, 1, "last");
    last.pts = Some(u64::MAX - MS);
    assert!(state.can_queue(&settings, &last, last.pts));
    assert!(!state.can_queue(&settings, &last, Some(u64::MAX)));
    settings.input_mode = InputMode::Replacement;
    assert!(state.can_queue(&settings, &last, Some(u64::MAX)));
    assert!(state.handle_text_buffer(&settings, &last, Some(u64::MAX)).is_ok());
}

#[test]
fn text_that_is_not_utf8_is_named_in_the_message() {
    let mut state = State::default();
    let mut broken = cue(0, 1, "");
    broken.data = Some(vec![b'a', 0xff]);
    let error = state.handle_text_buffer(&settings(), &broken, broken.pts).unwrap_err();
    let detail = std::str::from_utf8(&[b'a', 0xff]).unwrap_err().to_string();
    assert_eq!(error.message(), format!("text buffer is not UTF-8: {detail}"));
}
