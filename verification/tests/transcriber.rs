use gst_plugins::commit::{TimedWord, TimestampKind};
use gst_plugins::transcriber::{
    accepts_rate, affects_latency, check_configuration, drain_step, drops_on_overrun,
    latency_answer, latency_fits, load_step, on_sink_event, our_latency, queue_len, read_samples, Admission,
    DrainStep, Family, LoadStep, Marker, MisalignedBuffer, Output, Overrun, Pace, PrepareError,
    Silence, SinkEvent, State, Timing, DEFAULT_QUEUE_SIZE,
};
use gst_plugins::vad::Decision;
use gst_plugins::worker::{Cmd, Ev, Mode, ModelInfo};

const RATE: u64 = 16_000;

fn ms(value: u64) -> u64 {
    value * 1_000_000
}

fn bits(samples: &[f32]) -> Vec<u32> {
    samples.iter().map(|sample| sample.to_bits()).collect()
}

fn tone(duration_ms: u64) -> Vec<u32> {
    let samples: Vec<f32> = (0..RATE * duration_ms / 1_000)
        .map(|i| if i % 2 == 0 { 2e-4 } else { -2e-4 })
        .collect();
    bits(&samples)
}

fn info(streaming: bool, max_timestamp_kind: TimestampKind) -> ModelInfo {
    ModelInfo {
        native_sample_rate: RATE as i32,
        arch: "test".into(),
        variant: "tiny".into(),
        backend: "cpu".into(),
        languages: Vec::new(),
        max_audio_ms: 0,
        max_timestamp_kind,
        supports_streaming: streaming,
        supports_translate: false,
        streaming,
    }
}

/// An element with a loaded model; `wait_ms` of zero leaves it without a gate.
fn loaded(streaming: bool, wait_ms: u32) -> State {
    let mut timing = Timing::default();
    timing.vad_max_wait_ms = wait_ms;
    let mut state = State::default();
    state.on_ready(&info(streaming, TimestampKind::Word), &timing);
    state
}

fn word(text: &str, t0_ms: i64, t1_ms: i64) -> TimedWord {
    TimedWord { text: text.into(), t0_ms, t1_ms }
}

#[test]
fn a_chunked_model_changes_the_latency_that_was_guessed() {
    let timing = Timing::default();
    let mut state = State::default();
    assert_eq!(state.resolved_streaming(), None);
    assert!(state.on_ready(&info(false, TimestampKind::Word), &timing));
    assert_eq!(state.resolved_streaming(), Some(false));
    assert!(!state.on_ready(&info(false, TimestampKind::Word), &timing));
    assert!(!State::default().on_ready(&info(true, TimestampKind::Word), &timing));
}

#[test]
fn the_latency_is_the_budget_or_the_window_on_top_of_it() {
    let timing = Timing::default();
    assert_eq!(our_latency(&timing, None, Mode::Auto), ms(1_000));
    assert_eq!(our_latency(&timing, None, Mode::Chunked), ms(6_000));
    assert_eq!(our_latency(&timing, Some(false), Mode::Auto), ms(6_000));
    assert_eq!(our_latency(&timing, Some(true), Mode::Chunked), ms(1_000));
    assert_eq!(latency_answer(false, 5, Some(9), 1), (false, 0, None));
    assert_eq!(latency_answer(true, 5, None, 1), (true, 6, None));
    assert_eq!(latency_answer(true, 5, Some(9), 1), (true, 6, Some(10)));
    assert!(affects_latency("latency"));
    assert!(affects_latency("chunk-duration"));
    assert!(affects_latency("live-edge-offset"));
    assert!(!affects_latency("queue-size"));
}

#[test]
fn configurations_are_checked_before_a_model_is_loaded() {
    let timing = Timing::default();
    assert_eq!(
        check_configuration(false, &timing, None),
        Err(PrepareError::MissingModelPath)
    );
    let mut short = timing;
    short.chunk_duration_ms = short.live_edge_offset_ms;
    assert_eq!(
        check_configuration(true, &short, None),
        Err(PrepareError::ChunkTooShort)
    );
    assert_eq!(
        check_configuration(true, &timing, Some("wisper")),
        Err(PrepareError::UnknownFamily)
    );
    assert_eq!(check_configuration(true, &timing, None), Ok(None));
    for (name, family) in [
        ("whisper", Family::Whisper),
        ("parakeet-stream", Family::ParakeetStream),
        ("parakeet-buffered", Family::ParakeetBuffered),
        ("moonshine-streaming", Family::MoonshineStreaming),
        ("voxtral-realtime", Family::VoxtralRealtime),
    ] {
        assert_eq!(check_configuration(true, &timing, Some(name)), Ok(Some(family)));
        assert_eq!(family.is_run_slot(), name == "whisper");
    }
}

#[test]
fn only_audio_is_ever_dropped() {
    assert!(drops_on_overrun(&Cmd::Feed(Vec::new()), Overrun::Drop));
    assert!(!drops_on_overrun(&Cmd::Feed(Vec::new()), Overrun::default()));
    assert!(!drops_on_overrun(&Cmd::Finalize, Overrun::Drop));
    assert!(!drops_on_overrun(&Cmd::Restart, Overrun::Drop));
    let mut state = State::default();
    assert_eq!(state.count_dropped(), 1);
    assert_eq!(state.count_dropped(), 2);
    state.flush();
    assert_eq!(state.count_dropped(), 1);
}

#[test]
fn jumps_beyond_the_threshold_are_discontinuities() {
    let mut state = loaded(false, 0);
    assert!(!state.is_discont(ms(50), ms(500), true), "nothing runs yet");
    state.take_buffer(0, &tone(100));
    assert_eq!(state.expected_pts(), Some(ms(100)));
    assert!(!state.is_discont(ms(100), ms(500), false));
    assert!(!state.is_discont(ms(600), ms(500), false));
    assert!(state.is_discont(ms(601), ms(500), false));
    assert!(state.is_discont(ms(100), ms(500), true));
    state.take_buffer(ms(1_000), &tone(100));
    assert!(!state.is_discont(ms(600), ms(500), false));
    assert!(state.is_discont(ms(599), ms(500), false));
}

#[test]
fn without_a_gate_audio_flows_straight_through() {
    let mut state = loaded(false, 30_000);
    let audio = tone(100);
    assert!(state.can_take_buffer(ms(10), &audio));
    match state.take_buffer(ms(10), &audio) {
        Admission::Feed { warmup: None, pcm } => assert_eq!(pcm, audio),
        other => panic!("expected the audio, got {other:?}"),
    }
    assert!(state.has_stream());
    assert!(matches!(state.take_buffer(ms(110), &[]), Admission::Empty));
}

#[test]
fn withheld_audio_still_advances_the_timeline() {
    let mut state = loaded(true, 30_000);
    assert!(matches!(state.take_buffer(0, &tone(100)), Admission::Withheld(None)));
    assert!(matches!(
        state.take_buffer(ms(100), &tone(100)),
        Admission::Withheld(Some(Silence { pts: 0, duration })) if duration == ms(200)
    ));
    assert!(!state.has_stream());
}

#[test]
fn an_untimed_family_declares_no_silence() {
    let timing = Timing::default();
    let mut state = State::default();
    state.on_ready(&info(true, TimestampKind::Untimed), &timing);
    for index in 0..10 {
        assert!(matches!(
            state.take_buffer(ms(index * 100), &tone(100)),
            Admission::Withheld(None)
        ));
    }
    assert_eq!(state.advance_timeline(60_000), None);
}

#[test]
fn an_opening_gate_is_anchored_behind_its_priming_chunk() {
    let mut state = loaded(true, 30_000);
    let opening = Decision::Open {
        skipped_samples: RATE,
        audio: tone(500),
        warmup: vec![0; (RATE / 10) as usize],
    };
    // A buffer that ends at two seconds: the voice gate was armed half a second in,
    // and the first audio it hands over lies at one and a half.
    match state.settle(opening, ms(1_900), &tone(100)) {
        Admission::Feed { warmup: Some(warmup), pcm } => {
            assert_eq!(warmup.len(), 1_600);
            assert_eq!(pcm.len(), 8_000);
        }
        other => panic!("expected audio, got {other:?}"),
    }
    // The model's clock runs from the priming chunk on, so a word at 100ms is
    // the first audio.
    let outputs = state.plan_words(vec![word("first", 100, 200)], false);
    assert_eq!(
        outputs,
        [Output::Word {
            pts: ms(1_500),
            duration: ms(100),
            end: ms(1_600),
            text: "first".into()
        }]
    );
}

#[test]
fn words_gaps_and_final_marks_go_out_in_order() {
    let mut state = loaded(false, 0);
    state.take_buffer(ms(1_000), &tone(100));
    let words = vec![word("one.", 200, 300), word("two", 600, 700)];
    assert!(state.can_plan(&words));
    assert_eq!(
        state.plan_words(words, true),
        [
            Output::Gap { pts: ms(1_000), duration: ms(200) },
            Output::Word {
                pts: ms(1_200),
                duration: ms(100),
                end: ms(1_300),
                text: "one.".into()
            },
            Output::FinalTranscript,
            Output::Gap { pts: ms(1_300), duration: ms(300) },
            Output::Word {
                pts: ms(1_600),
                duration: ms(100),
                end: ms(1_700),
                text: "two".into()
            },
            Output::FinalTranscript,
        ]
    );
    state.mark_pushed(ms(1_700));
    assert_eq!(
        state.plan_words(vec![word("late", 0, 10)], false),
        [Output::Word {
            pts: ms(1_700),
            duration: ms(40),
            end: ms(1_740),
            text: "late".into()
        }]
    );
}

#[test]
fn words_before_the_stream_starts_are_dropped() {
    let state = loaded(true, 30_000);
    assert!(state.plan_words(vec![word("lost", 0, 10)], true).is_empty());
    assert_eq!(state.plan_words(Vec::new(), true), [Output::FinalTranscript]);
    assert!(state.plan_words(Vec::new(), false).is_empty());
}

#[test]
fn progress_closes_the_timeline_in_steps_worth_a_gap() {
    let mut state = loaded(false, 0);
    assert_eq!(state.advance_timeline(100), None);
    state.take_buffer(ms(1_000), &tone(100));
    assert!(state.can_advance(150));
    assert_eq!(state.advance_timeline(150), None);
    assert_eq!(
        state.advance_timeline(200),
        Some(Silence { pts: ms(1_000), duration: ms(200) })
    );
    assert_eq!(state.advance_timeline(200), None);
    assert_eq!(
        state.advance_timeline(1_000),
        Some(Silence { pts: ms(1_200), duration: ms(800) })
    );
}

#[test]
fn a_restart_begins_the_timeline_again() {
    let mut state = loaded(false, 0);
    state.take_buffer(ms(1_000), &tone(100));
    state.advance_timeline(5_000);
    state.reset_timeline();
    assert!(!state.has_stream());
    assert_eq!(state.expected_pts(), None);
    state.take_buffer(ms(9_000), &tone(100));
    assert_eq!(
        state.advance_timeline(400),
        Some(Silence { pts: ms(9_000), duration: ms(400) })
    );
}

#[test]
fn a_stream_that_ends_unheard_is_fed_without_going_back() {
    let mut state = loaded(true, 30_000);
    let audio = tone(100);
    for index in 0..3 {
        state.take_buffer(ms(index * 100), &audio);
    }
    assert!(state.can_release());
    let released = state.release_gate().expect("withheld audio");
    assert!(!released.is_empty());
    assert!(state.has_stream());
    // Silence up to 200ms went out already, and nothing lands before it.
    match &state.plan_words(vec![word("quiet", 0, 10)], false)[0] {
        Output::Word { pts, .. } => assert!(*pts >= ms(200)),
        other => panic!("expected the word, got {other:?}"),
    }
    assert!(state.release_gate().is_none());
    assert!(loaded(false, 0).release_gate().is_none());
}

#[test]
fn gaps_in_the_input_move_the_output() {
    let mut state = loaded(false, 0);
    state.on_gap(ms(500), Some(ms(100)));
    state.take_buffer(ms(100), &tone(100));
    match &state.plan_words(vec![word("after", 0, 10)], false)[0] {
        Output::Word { pts, .. } => assert_eq!(*pts, ms(600)),
        other => panic!("expected the word, got {other:?}"),
    }
    state.on_gap(ms(800), None);
    match &state.plan_words(vec![word("after", 0, 10)], false)[0] {
        Output::Word { pts, .. } => assert_eq!(*pts, ms(800)),
        other => panic!("expected the word, got {other:?}"),
    }
}

#[test]
fn the_pace_is_reported_only_when_the_verdict_changes() {
    let mut state = State::default();
    assert_eq!(state.report_compute(false, 9_000, 5_000), None);
    assert!(state.can_report(6_000, 4_000));
    assert_eq!(state.report_compute(true, 6_000, 4_000), None);
    assert_eq!(
        state.report_compute(true, 500, 1_000),
        Some(Pace { behind: true, compute_ms: 6_500, audio_ms: 5_000 })
    );
    assert_eq!(state.report_compute(true, 6_000, 5_000), None);
    assert_eq!(
        state.report_compute(true, 5_000, 5_000),
        Some(Pace { behind: false, compute_ms: 5_000, audio_ms: 5_000 })
    );
}

#[test]
fn reports_are_dealt_with_one_by_one() {
    let drained = || Ev::Drained;
    assert!(matches!(drain_step(drained(), Some(Marker::Drained), false), DrainStep::Done));
    assert!(matches!(drain_step(drained(), Some(Marker::Restarted), false), DrainStep::Ignore));
    assert!(matches!(drain_step(Ev::Restarted, Some(Marker::Restarted), true), DrainStep::Done));
    assert!(matches!(drain_step(Ev::Restarted, None, false), DrainStep::Ignore));
    assert!(matches!(
        drain_step(Ev::Progress { committed_ms: 7 }, None, false),
        DrainStep::Advance { committed_ms: 7 }
    ));
    assert!(matches!(
        drain_step(Ev::Progress { committed_ms: 7 }, None, true),
        DrainStep::Ignore
    ));
    assert!(matches!(drain_step(Ev::Partial(String::new()), None, false), DrainStep::Ignore));
    assert!(matches!(
        drain_step(Ev::Partial("hm".into()), None, false),
        DrainStep::Partial(text) if text == "hm"
    ));
    assert!(matches!(
        drain_step(Ev::Words { words: Vec::new(), is_final: true }, None, false),
        DrainStep::Words { is_final: true, .. }
    ));
    assert!(matches!(
        drain_step(Ev::Compute { compute_ms: 1, audio_ms: 2 }, None, true),
        DrainStep::Compute { compute_ms: 1, audio_ms: 2 }
    ));
    assert!(matches!(
        drain_step(Ev::Error("no".into()), None, true),
        DrainStep::Failed(text) if text == "no"
    ));
    assert!(matches!(
        load_step(Ev::Ready(info(true, TimestampKind::Word))),
        LoadStep::Loaded(loaded) if loaded.streaming
    ));
    assert!(matches!(load_step(Ev::Error("no".into())), LoadStep::Failed(text) if text == "no"));
    assert!(matches!(load_step(Ev::Drained), LoadStep::Wait));
}

#[test]
fn exactly_one_rate_is_accepted() {
    assert!(accepts_rate(16_000, 16_000));
    assert!(!accepts_rate(44_100, 16_000));
    assert!(!accepts_rate(1, -1));
}

#[test]
fn bytes_are_read_as_samples_of_the_machine() {
    let samples: [f32; 3] = [0.5, -0.25, 1.0];
    let mut bytes = Vec::new();
    for sample in samples {
        bytes.extend_from_slice(&sample.to_ne_bytes());
    }
    // Of four offsets exactly one is aligned.
    let mut padded = vec![0u8; 4];
    padded.extend_from_slice(&bytes);
    let mut read = 0;
    for offset in 0..4 {
        let mut shifted = vec![0u8; offset];
        shifted.extend_from_slice(&bytes);
        match read_samples(&shifted[offset..]) {
            Ok(found) => {
                assert_eq!(found, bits(&samples));
                read += 1;
            }
            Err(error) => assert_eq!(error, MisalignedBuffer),
        }
    }
    assert_eq!(read, 1);
    assert_eq!(read_samples(&padded[..7]), Err(MisalignedBuffer));
    assert_eq!(read_samples(&[]), Ok(&[][..]));
}

#[test]
fn the_queue_holds_at_least_one_buffer() {
    assert_eq!(queue_len(DEFAULT_QUEUE_SIZE), 32);
    assert_eq!(queue_len(0), 1);
}

#[test]
fn events_finalize_and_restart_where_the_audio_is_cut() {
    for event in [SinkEvent::Eos, SinkEvent::SegmentDone] {
        let plan = on_sink_event(event);
        assert!(plan.finalize && !plan.restart && plan.forward);
    }
    let plan = on_sink_event(SinkEvent::Segment);
    assert!(plan.finalize && plan.restart && !plan.discard && !plan.gap && plan.forward);
    let plan = on_sink_event(SinkEvent::Gap);
    assert!(plan.finalize && plan.restart && !plan.discard && plan.gap && plan.forward);
    let plan = on_sink_event(SinkEvent::FlushStart);
    assert!(plan.cancel && !plan.resume && !plan.restart && plan.forward);
    let plan = on_sink_event(SinkEvent::FlushStop);
    assert!(plan.resume && plan.restart && plan.discard && !plan.finalize && plan.forward);
    let plan = on_sink_event(SinkEvent::Caps);
    assert!(plan.negotiate && !plan.forward);
    let plan = on_sink_event(SinkEvent::Other);
    assert!(plan.forward && !plan.finalize && !plan.restart && !plan.negotiate);
}

#[test]
fn loud_audio_is_taken_once_the_gate_is_open() {
    let mut state = loaded(true, 30_000);
    let loud = bits(&[1.5; 1_600]);
    assert!(!state.can_take_buffer(0, &loud));
    assert!(matches!(state.take_buffer(0, &tone(100)), Admission::Withheld(None)));
    assert!(state.release_gate().is_some());
    assert!(state.can_take_buffer(ms(100), &loud));
    match state.take_buffer(ms(100), &loud) {
        Admission::Feed { warmup: None, pcm } => assert_eq!(pcm, loud),
        other => panic!("expected the audio, got {other:?}"),
    }
}

#[test]
fn a_latency_that_cannot_be_expressed_is_told() {
    let mut timing = Timing::default();
    timing.latency_ms = u32::MAX;
    timing.chunk_duration_ms = 1;
    assert!(latency_fits(&timing, Some(true), Mode::Chunked));
    assert!(!latency_fits(&timing, Some(false), Mode::Auto));
    timing.latency_ms = 1;
    assert!(latency_fits(&timing, Some(false), Mode::Auto));
}
