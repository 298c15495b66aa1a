use gst_plugins::commit::{
    units, units_from_tokens, CommitTracker, Segment, TimedWord, TimestampKind, Token, Transcript,
    Unit, Word, HOLDBACK_SETTLE_MS,
};

fn word(text: &str, t0_ms: i64, t1_ms: i64) -> Unit {
    Unit {
        text: text.to_string(),
        t0_ms,
        t1_ms,
    }
}

fn token(text: &str, word_index: i32, t0_ms: i64, t1_ms: i64) -> Token {
    Token {
        t0_ms,
        t1_ms,
        word_index,
        text: text.to_string(),
    }
}

fn texts(words: &[TimedWord]) -> Vec<&str> {
    words.iter().map(|w| w.text.as_str()).collect()
}

fn transcript_with(kind: TimestampKind, segments: Vec<Segment>) -> Transcript {
    Transcript {
        text: String::new(),
        timestamp_kind: kind,
        segments,
        words: Vec::new(),
        tokens: Vec::new(),
    }
}

#[test]
fn rows_are_ignored_when_the_family_reports_no_timestamps() {
    // moonshine-streaming fills in a segment while reporting None; its
    // times are all zero, so using it would stamp everything at 0.
    let rows = || {
        vec![Segment {
            text: "the whole transcript".into(),
            t0_ms: 0,
            t1_ms: 0,
        }]
    };

    assert!(units(&transcript_with(TimestampKind::Untimed, rows())).is_empty());
    assert_eq!(
        units(&transcript_with(TimestampKind::Segment, rows())).len(),
        1
    );
}

#[test]
fn joins_sub_word_tokens_by_word_index() {
    // "Satya and" as the streaming families actually deliver it.
    let tokens = [
        token(" Sat", 0, 0, 200),
        token("ya", 0, 200, 400),
        token(" and", 1, 400, 600),
    ];

    let units = units_from_tokens(&tokens);
    assert_eq!(units.len(), 2);
    assert_eq!(units[0].text, " Satya");
    assert_eq!((units[0].t0_ms, units[0].t1_ms), (0, 400));
    assert_eq!(units[1].text, " and");
}

#[test]
fn joins_tokens_by_leading_space_without_a_word_index() {
    let tokens = [
        token(" Sat", -1, 0, 200),
        token("ya", -1, 200, 400),
        token(" and", -1, 400, 600),
    ];

    let units = units_from_tokens(&tokens);
    assert_eq!(units.len(), 2);
    assert_eq!(units[0].text, " Satya");
    assert_eq!(units[1].text, " and");
}

#[test]
fn a_whitespace_token_separates_words() {
    let tokens = [
        token("hello", -1, 0, 200),
        token(" ", -1, 200, 210),
        token("world", -1, 210, 400),
    ];

    let units = units_from_tokens(&tokens);
    assert_eq!(units.len(), 2);
    assert_eq!(units[0].text, "hello");
    assert_eq!(units[1].text, "world");
}

#[test]
fn holds_back_a_word_that_is_still_growing() {
    let mut tracker = CommitTracker::default();

    // The family committed a character prefix that lands mid-word: the
    // snapshot's trailing row is "Ur", but the word is "Urdu".
    let units = [word("the", 0, 200), word("Ur", 200, 400)];
    let emitted = tracker.take_new("the Ur", &units, 400);
    assert_eq!(texts(&emitted), ["the"]);

    // Next snapshot joined the continuation onto the same row. Because we
    // never published "Ur", the whole word goes out now.
    let units = [
        word("the", 0, 200),
        word("Urdu", 200, 500),
        word("poetry", 500, 800),
    ];
    let emitted = tracker.take_new("the Urdu poetry", &units, 800);
    assert_eq!(texts(&emitted), ["Urdu"]);

    // And finalize releases the last one.
    let emitted = tracker.take_final("the Urdu poetry", &units, 800);
    assert_eq!(texts(&emitted), ["poetry"]);
}

#[test]
fn releases_a_settled_row_without_waiting_for_a_successor() {
    let mut tracker = CommitTracker::default();
    let units = [word("the", 0, 200), word("Urdu", 200, 500)];

    // At the committed edge the trailing row is still ambiguous, so it
    // waits, exactly as it would mid-sentence.
    assert_eq!(texts(&tracker.take_new("the Urdu", &units, 500)), ["the"]);
    assert_eq!(tracker.pending(), Some((200, 500)));

    // Silence follows: no new text will ever arrive to push it out. Once the
    // family has finalized well past the row, the ambiguity is resolved and
    // it goes without a successor.
    assert!(tracker.pending_is_settled(1_000));
    assert_eq!(
        texts(&tracker.take_new("the Urdu", &units, 1_000)),
        ["Urdu"]
    );
    assert_eq!(tracker.pending(), None);
}

#[test]
fn a_row_at_the_committed_edge_is_not_settled() {
    let mut tracker = CommitTracker::default();
    let units = [word("the", 0, 200), word("Ur", 200, 400)];
    tracker.take_new("the Ur", &units, 400);

    // Only 100ms past the row: still inside the window where the family may
    // yet extend "Ur" into "Urdu".
    assert!(!tracker.pending_is_settled(500));
}

/// These families place a word's end timestamp well behind the audio edge
/// while still appending characters to it, so the row's own `t1_ms` is no
/// evidence that its text is final. Anchoring the settle margin there
/// published "import" for "important" and dropped sentence-final
/// punctuation, which in turn stopped downstream seeing sentence ends.
#[test]
fn a_row_still_growing_is_not_settled_however_old_its_timestamp() {
    let mut tracker = CommitTracker::default();

    // The row ends at 400ms but the family is already 2s into the audio -
    // a huge margin by the row's own clock.
    let units = [word("all", 0, 200), word("import", 200, 400)];
    assert_eq!(
        texts(&tracker.take_new("all import", &units, 2_000)),
        ["all"]
    );
    assert!(
        !tracker.pending_is_settled(2_000),
        "text that just grew must not count as settled"
    );

    // It was still growing, and the next snapshot proves it.
    let units = [word("all", 0, 200), word("important", 200, 450)];
    assert!(tracker.take_new("all important", &units, 2_100).is_empty());

    // Now the family consumes half a second without appending anything.
    assert!(tracker.pending_is_settled(2_600));
    assert_eq!(
        texts(&tracker.take_new("all important", &units, 2_600)),
        ["important"]
    );
}

#[test]
fn the_frontier_never_passes_a_pending_row() {
    let mut tracker = CommitTracker::default();
    let units = [word("the", 0, 200), word("Urdu", 200, 500)];
    tracker.take_new("the Urdu", &units, 500);

    // Closing the timeline at 500 would strand "Urdu", which starts at 200
    // and has not gone out yet.
    assert_eq!(tracker.frontier(500), 200);
}

#[test]
fn the_frontier_follows_the_committed_edge_when_nothing_waits() {
    let mut tracker = CommitTracker::default();
    let units = [word("the", 0, 200)];

    // Finalizing empties the queue, so nothing constrains the timeline and
    // silence can be closed all the way to the committed edge.
    tracker.take_final("the", &units, 30_000);
    assert_eq!(tracker.pending(), None);
    assert_eq!(tracker.frontier(30_000), 30_000);
}

#[test]
fn emits_each_word_once_as_the_prefix_grows() {
    let mut tracker = CommitTracker::default();
    let words = vec![word(" hello", 0, 500), word(" world", 500, 900)];

    // The trailing row is always held back, so one row alone emits nothing.
    assert!(tracker.take_new("hello", &words[..1], 500).is_empty());

    let first = tracker.take_new("hello world", &words, 900);
    assert_eq!(texts(&first), ["hello"]);
    assert_eq!(first[0].t0_ms, 0);
    assert_eq!(first[0].t1_ms, 500);

    // Same snapshot again: nothing new.
    assert!(tracker.take_new("hello world", &words, 900).is_empty());

    let second = tracker.take_final("hello world", &words, 900);
    assert_eq!(texts(&second), ["world"]);
}

#[test]
fn withholds_words_the_prefix_does_not_cover_yet() {
    let mut tracker = CommitTracker::default();
    // The snapshot runs ahead of the committed prefix: only "hello" is
    // committed, so "world" and "again" are still tentative.
    let words = vec![
        word(" hello", 0, 500),
        word(" world", 500, 900),
        word(" again", 900, 1_200),
    ];
    assert!(tracker.take_new("hello", &words, 1_200).is_empty());

    // Now "hello world" is committed, which proves "hello" ended.
    let emitted = tracker.take_new("hello world", &words, 1_200);
    assert_eq!(texts(&emitted), ["hello"]);

    // The tentative word did get rewritten. We never pushed it, so the
    // corrected version is what goes out.
    let words = vec![
        word(" hello", 0, 500),
        word(" word", 500, 950),
        word(" again", 950, 1_200),
    ];
    let emitted = tracker.take_new("hello word again", &words, 1_200);
    assert_eq!(texts(&emitted), ["word"]);
}

#[test]
fn tolerates_spacing_and_punctuation_differences() {
    let mut tracker = CommitTracker::default();
    // Committed text carries punctuation and normalized spacing that the
    // rows do not. "world" is the trailing row, so it waits.
    let words = vec![word("hello", 0, 500), word("world", 500, 900)];

    let emitted = tracker.take_new("Hmm... hello, world!", &words, 900);
    assert_eq!(texts(&emitted), ["hello,"]);
    assert_eq!(
        texts(&tracker.take_final("Hmm... hello, world!", &words, 900)),
        ["world!"]
    );
}

#[test]
fn preserves_quotes_on_the_word_they_surround() {
    let mut tracker = CommitTracker::default();
    let words = vec![
        word("he", 0, 100),
        word("said", 100, 200),
        word("hello", 200, 300),
    ];

    assert_eq!(
        texts(&tracker.take_final("he said \"hello.\"", &words, 300)),
        ["he", "said", "\"hello.\""]
    );
}

#[test]
fn clamps_to_the_families_drain_point() {
    let mut tracker = CommitTracker::default();
    let words = vec![word("hello", 0, 500), word("world", 500, 900)];

    // Text says both are committed, but the family has only drained 600ms
    // — and "world" is the trailing row anyway.
    let emitted = tracker.take_new("hello world", &words, 600);
    assert_eq!(texts(&emitted), ["hello"]);

    // A third row proves "world" ended, and the drain point now covers it.
    let words = vec![
        word("hello", 0, 500),
        word("world", 500, 900),
        word("again", 900, 1_200),
    ];
    let emitted = tracker.take_new("hello world again", &words, 900);
    assert_eq!(texts(&emitted), ["world"]);
}

#[test]
fn ignores_the_drain_point_when_the_family_reports_none() {
    let mut tracker = CommitTracker::default();
    let words = vec![word("hello", 0, 500), word("world", 500, 900)];

    let emitted = tracker.take_new("hello world", &words, 0);
    assert_eq!(texts(&emitted), ["hello"]);
}

#[test]
fn finalize_flushes_everything_left() {
    let mut tracker = CommitTracker::default();
    let words = vec![word("hello", 0, 500), word("world", 500, 900)];

    assert_eq!(
        texts(&tracker.take_new("hello world", &words, 500)),
        ["hello"]
    );
    assert_eq!(
        texts(&tracker.take_final("hello world", &words, 900)),
        ["world"]
    );
    assert!(tracker.take_final("hello world", &words, 900).is_empty());
}

#[test]
fn untimed_fallback_emits_the_committed_delta() {
    let mut tracker = CommitTracker::default();

    let first = tracker.take_new("hello", &[], 500);
    assert_eq!(texts(&first), ["hello"]);
    assert_eq!((first[0].t0_ms, first[0].t1_ms), (0, 500));

    let second = tracker.take_new("hello world", &[], 900);
    assert_eq!(texts(&second), ["world"]);
    assert_eq!((second[0].t0_ms, second[0].t1_ms), (500, 900));

    assert!(tracker.take_new("hello world", &[], 900).is_empty());
}

#[test]
fn handles_multibyte_text() {
    let mut tracker = CommitTracker::default();
    let words = vec![word("dörrhandtaget", 0, 500), word("på", 500, 700)];

    let emitted = tracker.take_final("dörrhandtaget på", &words, 700);
    assert_eq!(texts(&emitted), ["dörrhandtaget", "på"]);
}

#[test]
fn skips_empty_word_rows() {
    let mut tracker = CommitTracker::default();
    let words = vec![
        word(" ", 0, 10),
        word("hello", 10, 500),
        word("there", 500, 800),
    ];

    let emitted = tracker.take_new("hello there", &words, 800);
    assert_eq!(texts(&emitted), ["hello"]);
}

#[test]
fn the_finest_rows_are_taken() {
    let transcript = Transcript {
        text: "one two".into(),
        timestamp_kind: TimestampKind::Word,
        segments: vec![Segment { text: "one two".into(), t0_ms: 0, t1_ms: 200 }],
        words: vec![
            Word { text: "one".into(), t0_ms: 0, t1_ms: 100 },
            Word { text: "two".into(), t0_ms: 100, t1_ms: 200 },
        ],
        tokens: Vec::new(),
    };
    let rows = units(&transcript);
    assert_eq!(rows, [word("one", 0, 100), word("two", 100, 200)]);
}

#[test]
fn settling_takes_exactly_the_margin() {
    let mut tracker = CommitTracker::default();
    let units = [word("the", 0, 200), word("Urdu", 200, 500)];
    tracker.take_new("the Urdu", &units, 500);
    assert!(!tracker.pending_is_settled(500 + HOLDBACK_SETTLE_MS - 1));
    assert!(tracker.pending_is_settled(500 + HOLDBACK_SETTLE_MS));
}

#[test]
fn joined_tokens_keep_their_text() {
    let tokens = [
        token(" It", 0, 0, 100),
        token("'s", 0, 100, 150),
        token(" here", 1, 150, 300),
        token(".", 1, 300, 310),
    ];
    let joined: String = units_from_tokens(&tokens).iter().map(|unit| unit.text.as_str()).collect();
    assert_eq!(joined, " It's here.");
}

#[test]
fn the_same_snapshot_again_changes_nothing() {
    let rows = [word("the", 0, 200), word("Urdu", 200, 500), word("verse", 500, 800)];
    for finishing in [false, true] {
        let mut tracker = CommitTracker::default();
        let take = |tracker: &mut CommitTracker| {
            if finishing {
                tracker.take_final("the Urdu", &rows, 600)
            } else {
                tracker.take_new("the Urdu", &rows, 600)
            }
        };
        assert_eq!(take(&mut tracker).len(), if finishing { 3 } else { 1 });
        let pending = tracker.pending();
        assert_eq!(pending, if finishing { None } else { Some((200, 500)) });
        assert!(take(&mut tracker).is_empty());
        assert_eq!(tracker.pending(), pending);
    }
}

#[test]
fn rows_share_no_punctuation() {
    let mut tracker = CommitTracker::default();
    let rows = [word("one", 0, 100), word("two", 100, 200), word("three", 200, 300)];
    let out = tracker.take_final("(one), -two-three!", &rows, 300);
    assert_eq!(texts(&out), ["(one),", "-two-", "three!"]);
}

#[test]
fn whitespace_and_letters_end_the_text_that_is_taken_in() {
    let mut tracker = CommitTracker::default();
    let rows = [word("one", 0, 100), word("two", 100, 200)];
    let out = tracker.take_final("\u{ab}one\u{a0}. xtwo\u{2028}!", &rows, 200);
    assert_eq!(texts(&out), ["\u{ab}one", "two"]);

    let mut tracker = CommitTracker::default();
    let out = tracker.take_final("\u{f6}one!", &[word("one", 0, 100)], 100);
    assert_eq!(texts(&out), ["one!"]);
}
