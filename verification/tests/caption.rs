use gst_plugins::amf::{script_data_body, MessageName, MAXIMUM_TEXT_BYTES};
use gst_plugins::caption::{
    cue_end_fits, warn_if_amf_text_is_long, CaptionTimeline, InputMode, TextBuffer,
};
use gst_plugins::flv::script_data_tag;
use gst_plugins::text::{same_text, trim, truncate_on_character_boundary};

const MS: u64 = 1_000_000;

fn tag(timestamp_ms: u32, text: &str) -> Vec<u8> {
    script_data_tag(timestamp_ms, &script_data_body(MessageName::OnTextData, text, None))
}

fn drain(timeline: &mut CaptionTimeline, position_ms: u64) -> Vec<Vec<u8>> {
    timeline.drain_ready_ms(0, position_ms, MessageName::OnTextData).expect("tags")
}

#[test]
fn transitions_keep_their_own_timestamps() {
    let mut timeline = CaptionTimeline::default();
    timeline.queue_text(100 * MS, 50 * MS, "word".into(), InputMode::Timed).unwrap();
    assert!(drain(&mut timeline, 99).is_empty());
    assert_eq!(drain(&mut timeline, 1_000), [tag(100, "word"), tag(150, "")]);
    assert!(drain(&mut timeline, 1_000).is_empty());
}

#[test]
fn how_often_media_comes_does_not_matter() {
    let fill = |timeline: &mut CaptionTimeline| {
        for (start, text) in [(0, "a"), (50, "b"), (120, "")] {
            timeline.queue_text(start * MS, 60 * MS, text.into(), InputMode::Timed).unwrap();
        }
    };
    let mut coarse = CaptionTimeline::default();
    fill(&mut coarse);
    let at_once = drain(&mut coarse, 500);
    let mut fine = CaptionTimeline::default();
    fill(&mut fine);
    let mut bit_by_bit = Vec::new();
    for position in 0..=500 {
        bit_by_bit.extend(drain(&mut fine, position));
    }
    assert_eq!(at_once, bit_by_bit);
}

#[test]
fn a_stale_clear_leaves_a_newer_cue_alone() {
    let mut timeline = CaptionTimeline::default();
    timeline.queue_text(0, 100 * MS, "old".into(), InputMode::Timed).unwrap();
    timeline.queue_text(50 * MS, 500 * MS, "new".into(), InputMode::Timed).unwrap();
    assert_eq!(drain(&mut timeline, 200), [tag(0, "old"), tag(50, "new")]);
    assert!(timeline.has_active_text());
}

#[test]
fn a_reset_forgets_cues_and_display() {
    let mut timeline = CaptionTimeline::default();
    timeline.queue_text(0, 100 * MS, "shown".into(), InputMode::Timed).unwrap();
    drain(&mut timeline, 10);
    assert!(timeline.has_active_text());
    assert!(timeline.has_room());
    assert_eq!(timeline.pending_len(), 1);
    timeline.reset_timeline();
    assert!(!timeline.has_active_text());
    assert!(drain(&mut timeline, 500).is_empty());
    timeline.queue_text(600 * MS, MS, "next".into(), InputMode::Timed).unwrap();
    assert_eq!(timeline.discard_pending(), 2);
}

#[test]
fn text_beyond_the_amf_limit_is_warned_about() {
    assert!(!warn_if_amf_text_is_long(&"a".repeat(MAXIMUM_TEXT_BYTES)));
    assert!(warn_if_amf_text_is_long(&"a".repeat(MAXIMUM_TEXT_BYTES + 1)));
    assert!(warn_if_amf_text_is_long(&"é".repeat(MAXIMUM_TEXT_BYTES / 2 + 1)));
}

#[test]
fn text_is_cut_between_characters() {
    assert_eq!(truncate_on_character_boundary("héllo", 6), "héllo");
    assert_eq!(truncate_on_character_boundary("héllo", 2), "h");
    assert_eq!(truncate_on_character_boundary("héllo", 3), "hé");
    assert_eq!(truncate_on_character_boundary("é", 1), "");
}

#[test]
fn text_is_trimmed_and_told_apart() {
    assert_eq!(trim("\t a b \u{3000}\n"), "a b");
    assert_eq!(trim("  "), "");
    assert!(same_text("dörr", "dörr"));
    assert!(!same_text("dörr", "dorr"));
    assert!(!same_text("a", "ab"));
}

#[test]
fn every_whitespace_character_is_trimmed() {
    let blanks = "\t\n\u{b}\u{c}\r \u{85}\u{a0}\u{1680}\u{2000}\u{2001}\u{2002}\u{2003}\u{2004}\
                  \u{2005}\u{2006}\u{2007}\u{2008}\u{2009}\u{200a}\u{2028}\u{2029}\u{202f}\
                  \u{205f}\u{3000}";
    assert_eq!(blanks.chars().count(), 25);
    assert_eq!(trim(blanks), "");
    for other in ['\u{8}', '\u{e}', '\u{1f}', '\u{84}', '\u{180e}', '\u{200b}', '\u{feff}'] {
        let text = other.to_string();
        assert_eq!(trim(&text), text);
    }
}

#[test]
fn only_a_timed_cue_with_text_has_an_end() {
    let cue = |data: &[u8]| TextBuffer {
        pts: Some(0),
        duration: Some(2),
        data: Some(data.to_vec()),
    };
    let late = u64::MAX - 1;
    assert!(!cue_end_fits(late, &cue(b"text"), InputMode::Timed));
    assert!(cue_end_fits(late - 1, &cue(b"text"), InputMode::Timed));
    assert!(cue_end_fits(late, &cue(b""), InputMode::Timed));
    assert!(cue_end_fits(late, &cue(&[0xff]), InputMode::Timed));
    assert!(cue_end_fits(late, &cue(b"text"), InputMode::Replacement));
}
