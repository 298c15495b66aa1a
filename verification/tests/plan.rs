use gst_plugins::commit::TimedWord;
use gst_plugins::plan::{
    ends_sentence, floor_end, place, plan_timed_text, samples_duration, timed_text_fits,
    PlannedOutput,
};

fn ms(value: u64) -> u64 {
    value * 1_000_000
}

fn word(text: &str, start_ms: i64, end_ms: i64) -> TimedWord {
    TimedWord {
        text: text.to_owned(),
        t0_ms: start_ms,
        t1_ms: end_ms,
    }
}

#[test]
fn sentence_ends_are_recognised() {
    assert!(ends_sentence("done."));
    assert!(ends_sentence("really?"));
    assert!(ends_sentence("wow!"));
    assert!(ends_sentence("\"no.\""));
    assert!(ends_sentence("trailing. "));
    assert!(!ends_sentence("poets,"));
    assert!(!ends_sentence("mid"));
    // An abbreviation is indistinguishable from a sentence end here; the
    // model's punctuation is all we have to go on.
    assert!(ends_sentence("Dr."));
}

#[test]
fn a_long_enough_span_is_left_alone() {
    assert_eq!(floor_end(ms(1_000), ms(1_240), Some(ms(1_240))), ms(1_240));
}

#[test]
fn a_zero_length_span_gets_the_floor() {
    assert_eq!(floor_end(ms(1_000), ms(1_000), None), ms(1_040));
    assert_eq!(floor_end(ms(1_000), ms(1_000), Some(ms(1_500))), ms(1_040));
}

#[test]
fn the_floor_yields_to_a_closer_next_word() {
    // Flooring to 40ms would run past a word starting 20ms later, which
    // would shove that word forward. Take the 20ms instead.
    assert_eq!(floor_end(ms(1_000), ms(1_000), Some(ms(1_020))), ms(1_020));
}

#[test]
fn two_rows_on_the_same_instant_overlap_rather_than_vanish() {
    assert_eq!(floor_end(ms(1_000), ms(1_000), Some(ms(1_000))), ms(1_040));
}

#[test]
fn timed_text_plan_is_utf8_monotonic_non_overlapping_and_nonzero() {
    let output = plan_timed_text(
        ms(10_000),
        ms(10_000),
        vec![
            word("Héj", 100, 180),
            word("世界", 180, 180),
            word("again.", 220, 300),
        ],
    );

    let words: Vec<_> = output
        .iter()
        .filter_map(|item| match item {
            PlannedOutput::Word {
                pts,
                duration,
                text,
                ends_utterance,
            } => Some((*pts, *duration, text.as_str(), *ends_utterance)),
            PlannedOutput::Gap { .. } => None,
        })
        .collect();
    assert_eq!(words.len(), 3);
    assert!(words.iter().all(|(_, duration, text, _)| {
        *duration != 0 && std::str::from_utf8(text.as_bytes()).is_ok()
    }));
    for pair in words.windows(2) {
        assert!(pair[0].0 + pair[0].1 <= pair[1].0);
    }
    assert!(!words[0].3);
    assert!(words[2].3, "final-transcript follows sentence punctuation");
}

#[test]
fn initial_and_internal_holes_are_explicit_gaps() {
    let output = plan_timed_text(
        ms(1_000),
        ms(1_000),
        vec![word("one", 200, 300), word("two", 600, 700)],
    );
    assert_eq!(
        output,
        vec![
            PlannedOutput::Gap {
                pts: ms(1_000),
                duration: ms(200),
            },
            PlannedOutput::Word {
                pts: ms(1_200),
                duration: ms(100),
                text: "one".into(),
                ends_utterance: false,
            },
            PlannedOutput::Gap {
                pts: ms(1_300),
                duration: ms(300),
            },
            PlannedOutput::Word {
                pts: ms(1_600),
                duration: ms(100),
                text: "two".into(),
                ends_utterance: false,
            },
        ]
    );
}

#[test]
fn multiword_commit_preserves_every_row_in_order() {
    let output = plan_timed_text(
        0,
        0,
        vec![
            word("one", 0, 50),
            word("two", 50, 100),
            word("three", 100, 150),
        ],
    );
    let text: Vec<_> = output
        .iter()
        .filter_map(|item| match item {
            PlannedOutput::Word { text, .. } => Some(text.as_str()),
            PlannedOutput::Gap { .. } => None,
        })
        .collect();
    assert_eq!(text, ["one", "two", "three"]);
}

#[test]
fn spans_round_down_and_overflow_to_nothing() {
    assert_eq!(samples_duration(16_000, 16_000), 1_000_000_000);
    assert_eq!(samples_duration(1, 3), 333_333_333);
    assert_eq!(samples_duration(5, 0), 0);
    assert_eq!(samples_duration(u64::MAX, 1), 0);
    assert_eq!(samples_duration(u64::MAX, 2_000_000_000), u64::MAX / 2);
}

#[test]
fn times_before_the_start_are_placed_at_the_start() {
    assert_eq!(place(ms(10), 5), Some(ms(15)));
    assert_eq!(place(ms(10), -5), Some(ms(10)));
    assert_eq!(place(u64::MAX, 1), None);
}

#[test]
fn a_plan_that_cannot_be_expressed_is_told_apart() {
    assert!(timed_text_fits(0, 0, &vec![word("fine", 0, 10)]));
    assert!(!timed_text_fits(u64::MAX, 0, &vec![word("late", 1, 10)]));
    assert!(!timed_text_fits(0, u64::MAX, &vec![word("late", 1, 10)]));
}

#[test]
fn a_plan_starts_where_the_output_ended_and_tiles_on() {
    let output = plan_timed_text(
        ms(100),
        ms(400),
        vec![word("early", 0, 50), word("then", 350, 350), word("last", 360, 420)],
    );
    let mut position = ms(400);
    for item in &output {
        let (pts, duration) = match item {
            PlannedOutput::Gap { pts, duration } => (*pts, *duration),
            PlannedOutput::Word { pts, duration, .. } => (*pts, *duration),
        };
        assert_eq!(pts, position);
        assert!(duration > 0);
        position += duration;
    }
    assert_eq!(position, ms(520));
}
