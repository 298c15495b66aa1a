use gst_plugins::commit::{TimestampKind, Transcript, Word};
use gst_plugins::worker::{
    fed_ms, final_output, max_window_ms, resolve_mode, sample_rate, stream_step, Called, ChunkStep,
    Cmd, Ev, Fed, Finalized, Mode, StreamStep, StreamUpdate, Streaming, StreamingUnsupported,
    Window, DEFAULT_MAX_WINDOW_MS,
};

fn window(start_ms: i64, len_ms: i64) -> Window {
    let rate = 16_000;
    Window {
        samples: vec![0; (len_ms * rate / 1000) as usize],
        start_ms,
        emitted_up_to_ms: start_ms,
        frontier_ms: start_ms,
        pending_ms: 0,
        rate,
        max_ms: DEFAULT_MAX_WINDOW_MS,
    }
}

#[test]
fn final_output_closes_silence_before_the_drain_marker() {
    let mut events = final_output(Vec::new(), 53_990).into_iter();

    assert!(matches!(
        events.next().unwrap(),
        Ev::Words {
            words,
            is_final: true,
        } if words.is_empty()
    ));
    assert!(matches!(
        events.next().unwrap(),
        Ev::Progress {
            committed_ms: 53_990,
        }
    ));
    assert!(matches!(events.next().unwrap(), Ev::Drained));
}

fn push_silence(w: &mut Window, ms: i64) {
    w.samples
        .extend(std::iter::repeat_n(0, (ms * w.rate / 1000) as usize));
}

fn transcript(words: &[(&str, i64, i64)]) -> Transcript {
    Transcript {
        text: words
            .iter()
            .map(|(t, _, _)| *t)
            .collect::<Vec<_>>()
            .join(" "),
        timestamp_kind: TimestampKind::Word,
        segments: Vec::new(),
        words: words
            .iter()
            .map(|(text, t0_ms, t1_ms)| Word {
                t0_ms: *t0_ms,
                t1_ms: *t1_ms,
                text: text.to_string(),
            })
            .collect(),
        tokens: Vec::new(),
    }
}

#[test]
fn withholds_words_inside_the_live_edge() {
    let mut w = window(0, 4_000);
    let words = w.harvest(
        &transcript(&[("hello", 100, 500), ("world", 3_800, 3_950)]),
        1_000,
        false,
    );

    // "world" ends after the 3s stability cutoff.
    assert_eq!(
        words.iter().map(|w| w.text.as_str()).collect::<Vec<_>>(),
        ["hello"]
    );
    assert_eq!(w.emitted_up_to_ms, 500);
}

#[test]
fn next_window_starts_where_the_emitted_text_ended() {
    let mut w = window(0, 4_000);
    w.harvest(&transcript(&[("hello", 100, 500)]), 1_000, false);

    // Audio we have already emitted text for is gone, so the next run
    // cannot re-segment it and lose a row across the seam.
    w.trim();
    assert_eq!(w.start_ms, 500);
    assert_eq!(w.samples_to_ms(w.samples.len()), 3_500);

    push_silence(&mut w, 4_000);
    let words = w.harvest(&transcript(&[("world", 500, 900)]), 1_000, false);
    assert_eq!(words.len(), 1);
    assert_eq!(words[0].t0_ms, 1_000);
    assert_eq!(words[0].t1_ms, 1_400);
}

#[test]
fn withheld_text_is_retried_against_a_longer_window() {
    let mut w = window(0, 4_000);

    // The only row runs past the live edge, so nothing is emitted and the
    // watermark does not move.
    let words = w.harvest(&transcript(&[("hello world", 100, 3_500)]), 1_000, false);
    assert!(words.is_empty());
    w.trim();
    assert_eq!(w.start_ms, 0);
    assert_eq!(w.samples_to_ms(w.samples.len()), 4_000);

    // With more audio the row now ends well inside the window and goes out.
    push_silence(&mut w, 4_000);
    let words = w.harvest(&transcript(&[("hello world", 100, 3_500)]), 1_000, false);
    assert_eq!(words.len(), 1);
    assert_eq!(words[0].t1_ms, 3_500);
}

#[test]
fn a_window_that_never_commits_is_capped() {
    let mut w = window(0, 0);
    w.max_ms = 5_000;
    push_silence(&mut w, 8_000);

    w.trim();
    assert_eq!(w.samples_to_ms(w.samples.len()), 5_000);
    assert_eq!(w.start_ms, 3_000);
    assert_eq!(w.emitted_up_to_ms, 3_000);
}

#[test]
fn drain_emits_the_trailing_edge() {
    let mut w = window(0, 4_000);
    let words = w.harvest(
        &transcript(&[("hello", 100, 500), ("world", 3_800, 3_950)]),
        1_000,
        true,
    );
    assert_eq!(words.len(), 2);
}

#[test]
fn silence_is_dropped_rather_than_accumulated() {
    let mut w = window(0, 4_000);

    // Nothing at all in this window: everything but the live-edge tail is
    // discarded, so the next phrase is not timestamped back into silence.
    assert!(w.harvest(&transcript(&[]), 1_000, false).is_empty());
    assert_eq!(w.emitted_up_to_ms, 3_000);

    w.trim();
    assert_eq!(w.start_ms, 3_000);
    assert_eq!(w.samples_to_ms(w.samples.len()), 1_000);
}

#[test]
fn untimed_transcript_only_emits_on_drain() {
    let mut w = window(0, 4_000);
    let mut t = transcript(&[]);
    t.text = "hello world".into();

    assert!(w.harvest(&t, 1_000, false).is_empty());
    let words = w.harvest(&t, 1_000, true);
    assert_eq!(words.len(), 1);
    assert_eq!(words[0].text, "hello world");
}

#[test]
fn modes_resolve_against_what_the_model_supports() {
    assert_eq!(resolve_mode(Mode::Auto, true), Ok(true));
    assert_eq!(resolve_mode(Mode::Auto, false), Ok(false));
    assert_eq!(resolve_mode(Mode::Chunked, true), Ok(false));
    assert_eq!(resolve_mode(Mode::Stream, true), Ok(true));
    assert_eq!(resolve_mode(Mode::Stream, false), Err(StreamingUnsupported));
}

#[test]
fn limits_that_a_model_does_not_give_fall_back() {
    assert_eq!(max_window_ms(0), DEFAULT_MAX_WINDOW_MS);
    assert_eq!(max_window_ms(45_000), 45_000);
    assert_eq!(sample_rate(16_000), 16_000);
    assert_eq!(sample_rate(0), 1);
    assert_eq!(fed_ms(8_000, 16_000), 500);
}

fn update(committed_changed: bool, audio_committed_ms: i64) -> StreamUpdate {
    StreamUpdate {
        committed_changed,
        tentative_changed: false,
        audio_committed_ms,
        input_received_ms: audio_committed_ms,
    }
}

#[test]
fn a_stream_reports_words_progress_and_the_volatile_suffix() {
    let mut stream = Streaming::new();
    let found = transcript(&[("hello", 0, 500), ("world", 500, 900)]);
    let events = stream.after_feed(
        &update(true, 900),
        Some(("hello world", &found)),
        Some("agai".into()),
    );
    assert!(matches!(&events[0], Ev::Words { words, is_final: false } if words[0].text == "hello"));
    // The row held back pins the timeline where it starts.
    assert!(matches!(events[1], Ev::Progress { committed_ms: 500 }));
    assert!(matches!(&events[2], Ev::Partial(text) if text == "agai"));
    assert_eq!(events.len(), 3);

    // Silence settles the row without any change of the text.
    assert!(!stream.wants_snapshot(&update(false, 1_000)));
    assert!(stream.wants_snapshot(&update(false, 1_400)));

    let events = stream.after_finalize(&update(false, 2_000), "hello world", &found);
    assert!(matches!(&events[0], Ev::Words { words, is_final: true } if words[0].text == "world"));
    assert!(matches!(events[1], Ev::Progress { committed_ms: 2_000 }));
    assert!(matches!(events[2], Ev::Drained));
}

#[test]
fn a_window_runs_once_enough_audio_has_come_in() {
    let mut w = Window::new(16_000, DEFAULT_MAX_WINDOW_MS);
    let second = vec![0u32; 16_000];
    assert!(w.can_take(second.len()));
    assert_eq!(w.feed(&second, 2_000), None);
    assert_eq!(w.feed(&second, 2_000), Some(2_000));
    assert!(w.has_audio());

    let events = w.after_run(Some(&transcript(&[("hello", 100, 500)])), 1_000);
    assert!(matches!(&events[0], Ev::Words { words, is_final: false } if words.len() == 1));
    assert!(matches!(events[1], Ev::Progress { committed_ms: 1_000 }));
    assert_eq!(w.start_ms, 500);

    let events = w.after_final_run(None, 1_000);
    assert!(matches!(&events[0], Ev::Words { words, is_final: true } if words.is_empty()));
    assert!(matches!(events[1], Ev::Progress { committed_ms: 2_000 }));
    assert!(!w.has_audio());
    assert_eq!(w.start_ms, 2_000);

    let events = w.restart();
    assert!(matches!(events[0], Ev::Restarted));
    assert_eq!((w.start_ms, w.frontier_ms), (0, 0));
}

#[test]
fn unsupported_streaming_is_spelled_out() {
    assert_eq!(
        StreamingUnsupported.message("tiny.gguf", "whisper"),
        "mode=stream requested but model tiny.gguf (whisper) does not support streaming"
    );
}

#[test]
fn commands_become_steps_while_streaming() {
    assert!(matches!(
        stream_step(Cmd::Feed(vec![0; 8_000]), 16_000),
        StreamStep::Feed { audio_ms: 500, pcm } if pcm.len() == 8_000
    ));
    assert!(matches!(stream_step(Cmd::Finalize, 16_000), StreamStep::Finalize));
    assert!(matches!(stream_step(Cmd::Restart, 16_000), StreamStep::Reset));
    assert!(matches!(stream_step(Cmd::Stop, 16_000), StreamStep::Stop));
}

#[test]
fn a_feed_is_reported_skipped_or_fatal() {
    let stream = Streaming::new();
    assert!(matches!(
        stream.on_fed(&Called::Done(update(true, 500)), 20, 100),
        Fed::Report {
            cost: Ev::Compute { compute_ms: 20, audio_ms: 100 },
            snapshot: true,
            tentative: false
        }
    ));
    assert!(matches!(
        stream.on_fed(&Called::Done(update(false, 500)), 20, 100),
        Fed::Report { snapshot: false, .. }
    ));
    assert!(matches!(stream.on_fed(&Called::Aborted, 20, 100), Fed::Skip));
    assert!(matches!(
        stream.on_fed(&Called::Failed("no".into()), 20, 100),
        Fed::Fail(text) if text == "feed failed: no"
    ));
}

#[test]
fn a_finalized_stream_is_followed_by_a_fresh_one() {
    let mut stream = Streaming::new();
    let finalized = || Called::Done(Finalized {
        update: update(false, 900),
        committed: "hello world".into(),
        transcript: transcript(&[("hello", 0, 500), ("world", 500, 900)]),
    });
    for _ in 0..2 {
        let events = stream.on_finalized(&finalized()).unwrap();
        assert!(matches!(&events[0], Ev::Words { words, is_final: true } if words.len() == 2));
        assert!(matches!(events[1], Ev::Progress { committed_ms: 900 }));
        assert!(matches!(events[2], Ev::Drained));
    }
    let events = stream.on_finalized(&Called::Aborted).unwrap();
    assert!(matches!(events[..], [Ev::Drained]));
    assert_eq!(
        stream.on_finalized(&Called::Failed("no".into())).unwrap_err(),
        "finalize failed: no"
    );
    assert!(matches!(stream.on_reset()[..], [Ev::Restarted]));
}

#[test]
fn a_window_is_driven_by_commands() {
    let mut w = Window::new(16_000, DEFAULT_MAX_WINDOW_MS);
    let second = || Cmd::Feed(vec![0; 16_000]);
    assert!(matches!(w.on_command(second(), 2_000), ChunkStep::Wait));
    assert!(matches!(w.on_command(second(), 2_000), ChunkStep::Run { consumed_ms: 2_000 }));

    // A cancelled run leaves everything for the next one.
    assert!(w.on_run(&Called::Aborted, 5, 2_000, 1_000).unwrap().is_empty());
    assert_eq!(w.samples.len(), 32_000);
    assert_eq!(
        w.on_run(&Called::Failed("no".into()), 5, 2_000, 1_000).unwrap_err(),
        "inference failed: no"
    );

    let events = w
        .on_run(&Called::Done(Some(transcript(&[("hello", 100, 500)]))), 5, 2_000, 1_000)
        .unwrap();
    assert!(matches!(events[0], Ev::Compute { compute_ms: 5, audio_ms: 2_000 }));
    assert!(matches!(&events[1], Ev::Words { words, is_final: false } if words.len() == 1));
    assert!(matches!(events[2], Ev::Progress { committed_ms: 1_000 }));

    assert!(matches!(w.on_command(Cmd::Finalize, 2_000), ChunkStep::Finalize));
    let events = w
        .on_final_run(&Called::Done(Some(transcript(&[("world", 500, 1_400)]))), 1_000)
        .unwrap();
    assert!(matches!(
        &events[0],
        Ev::Words { words, is_final: true } if words[0].t1_ms == 1_900
    ));
    assert!(matches!(events[2], Ev::Drained));
    let events = w.on_final_run(&Called::Aborted, 1_000).unwrap();
    assert!(matches!(&events[0], Ev::Words { words, is_final: true } if words.is_empty()));
    assert!(w.on_final_run(&Called::Failed("no".into()), 1_000).is_err());

    match w.on_command(Cmd::Restart, 2_000) {
        ChunkStep::Restarted(events) => assert!(matches!(events[..], [Ev::Restarted])),
        other => panic!("expected a restart, got {other:?}"),
    }
    assert!(matches!(w.on_command(Cmd::Stop, 2_000), ChunkStep::Stop));
}

#[test]
fn a_harvest_keeps_to_its_bounds_on_a_mixed_window() {
    let mut w = window(10_000, 5_000);
    w.emitted_up_to_ms = 10_500;
    w.frontier_ms = 10_200;
    let rows = transcript(&[
        ("old", 400, 700),
        ("new", 600, 900),
        ("inside", 800, 1_000),
        ("next", 900, 3_000),
        ("late", 2_500, 4_500),
    ]);
    let words = w.harvest(&rows, 1_000, false);
    let spans: Vec<(&str, i64, i64)> =
        words.iter().map(|word| (word.text.as_str(), word.t0_ms, word.t1_ms)).collect();
    assert_eq!(spans, [("new", 10_600, 10_900), ("next", 10_900, 13_000)]);
    assert_eq!(w.emitted_up_to_ms, 13_000);
    assert_eq!(w.frontier_ms, 12_500);
}
