//! From committed rows to the sparse timed-text contract.
//!
//! Every word goes out with a timestamp and a duration above zero, in order and
//! without overlap, and every hole in the timeline is an explicit gap. Times are
//! running times in nanoseconds.
use crate::commit;
use crate::commit::TimedWord;
use crate::text;
use crate::text::chars_of;
use vstd::prelude::*;

verus! {

/// Shortest text buffer worth pushing. Roughly one frame at 24fps.
pub const MIN_BUFFER_DURATION: u64 = 40_000_000;

/// Nanoseconds in a second.
pub const SECOND: u64 = 1_000_000_000;

/// Running time spanned by samples at a rate, or zero where it cannot be
/// expressed.
pub open spec fn spanned(samples: u64, rate: u64) -> u64 {
    if rate == 0 || SECOND * samples / (rate as int) > u64::MAX {
        0
    } else {
        (SECOND * samples / (rate as int)) as u64
    }
}

/// Running time spanned by `samples` at `rate`.
pub fn samples_duration(samples: u64, rate: u64) -> (duration: u64)
    ensures
        duration == spanned(samples, rate),
{
    if rate == 0 {
        return 0;
    }
    proof {
        assert(SECOND * samples <= u128::MAX) by (nonlinear_arith)
            requires
                samples <= u64::MAX,
                SECOND == 1_000_000_000,
        ;
        assert(0 <= SECOND * samples / (rate as int) <= SECOND * samples) by (nonlinear_arith)
            requires
                samples >= 0,
                rate >= 1,
                SECOND == 1_000_000_000,
        ;
    }
    let span: u128 = SECOND as u128 * samples as u128 / rate as u128;
    if span > u64::MAX as u128 {
        0
    } else {
        span as u64
    }
}

/// Whether a character closes a quotation or a bracket.
pub open spec fn is_closing(character: char) -> bool {
    character == '"' || character == '\'' || character == ')' || character == ']' || character
        == '}' || character == '\u{201d}' || character == '\u{2019}' || character == '\u{bb}'
}

/// Whether a character ends a sentence.
pub open spec fn is_terminal(character: char) -> bool {
    character == '.' || character == '!' || character == '?' || character == '\u{2026}'
}

/// `text` without the closing quotes and brackets behind.
pub open spec fn without_closing(text: Seq<char>) -> Seq<char>
    decreases text.len(),
{
    if text.len() > 0 && is_closing(text.last()) {
        without_closing(text.drop_last())
    } else {
        text
    }
}

/// Whether a text closes a sentence: its last character does, once trailing
/// whitespace and then trailing quotes and brackets are left out.
pub open spec fn closes_sentence(text: Seq<char>) -> bool {
    let core = without_closing(text::trimmed_back(text));
    core.len() > 0 && is_terminal(core.last())
}

/// Whether this word closes a sentence.
///
/// Trailing quotes and brackets are skipped so `he said "no."` still counts. The
/// model's own punctuation is the only signal available: an abbreviation is
/// indistinguishable from a sentence end.
pub fn ends_sentence(text: &str) -> (ends: bool)
    ensures
        ends == closes_sentence(text@),
{
    let chars = chars_of(text);
    let mut end: usize = chars.len();
    assert(chars@.take(end as int) =~= chars@);
    while end > 0 && chars[end - 1].is_whitespace()
        invariant
            end <= chars@.len(),
            text::trimmed_back(chars@) == text::trimmed_back(chars@.take(end as int)),
        decreases end,
    {
        assert(chars@.take(end as int).drop_last() =~= chars@.take(end - 1));
        end = end - 1;
    }
    let ghost trimmed = chars@.take(end as int);
    assert(trimmed.take(end as int) =~= trimmed);
    while end > 0 && closing(chars[end - 1])
        invariant
            end <= trimmed.len() <= chars@.len(),
            trimmed == chars@.take(trimmed.len() as int),
            without_closing(trimmed) == without_closing(trimmed.take(end as int)),
        decreases end,
    {
        assert(trimmed.take(end as int).drop_last() =~= trimmed.take(end - 1));
        end = end - 1;
    }
    end > 0 && terminal(chars[end - 1])
}

fn closing(character: char) -> (yes: bool)
    ensures
        yes == is_closing(character),
{
    character == '"' || character == '\'' || character == ')' || character == ']' || character
        == '}' || character == '\u{201d}' || character == '\u{2019}' || character == '\u{bb}'
}

fn terminal(character: char) -> (yes: bool)
    ensures
        yes == is_terminal(character),
{
    character == '.' || character == '!' || character == '?' || character == '\u{2026}'
}

/// Where a buffer ends that starts at `pts`: where the row does, but not sooner
/// than the shortest buffer, unless the next word starts in between.
pub open spec fn floored_end(pts: u64, end: u64, next_start: Option<u64>) -> int {
    let floored = pts + MIN_BUFFER_DURATION;
    if end >= floored {
        end as int
    } else {
        match next_start {
            Some(next) => if pts < next < floored {
                next as int
            } else {
                floored
            },
            None => floored,
        }
    }
}

/// Where a word's buffer should end.
///
/// Models do hand back rows of no length, and a zero-length text buffer means
/// nothing to a renderer. So the span is floored, preferring not to run into the
/// next word, but overlapping it rather than emitting nothing.
pub fn floor_end(pts: u64, end: u64, next_start: Option<u64>) -> (floored: u64)
    requires
        pts + MIN_BUFFER_DURATION <= u64::MAX,
    ensures
        floored == floored_end(pts, end, next_start),
        end >= pts ==> floored > pts,
{
    let floored: u64 = pts + MIN_BUFFER_DURATION;
    if end >= floored {
        return end;
    }
    match next_start {
        Some(next) => if next > pts && next < floored {
            next
        } else {
            floored
        },
        None => floored,
    }
}

/// What goes out.
#[derive(Debug, PartialEq, Eq)]
pub enum PlannedOutput {
    Gap { pts: u64, duration: u64 },
    Word { pts: u64, duration: u64, text: String, ends_utterance: bool },
}

/// What goes out, as a mathematical value.
pub enum Planned {
    Gap { pts: u64, duration: u64 },
    Word { pts: u64, duration: u64, text: Seq<char>, ends_utterance: bool },
}

impl View for PlannedOutput {
    type V = Planned;

    open spec fn view(&self) -> Planned {
        match *self {
            PlannedOutput::Gap { pts, duration } => Planned::Gap { pts, duration },
            PlannedOutput::Word { pts, duration, text, ends_utterance } => Planned::Word {
                pts,
                duration,
                text: text@,
                ends_utterance,
            },
        }
    }
}

/// A plan as mathematical values.
pub open spec fn planned(output: Seq<PlannedOutput>) -> Seq<Planned> {
    output.map_values(|item: PlannedOutput| item@)
}

/// The running time that a stream-relative time stands for.
pub open spec fn placed(base_pts: u64, ms: i64) -> int {
    base_pts + (if ms > 0 {
        ms as int
    } else {
        0
    }) * 1_000_000
}

/// Where a row starts: at its own time, or where the output has got to.
pub open spec fn word_pts(base_pts: u64, out_pts: u64, row: commit::Row) -> int {
    let own = placed(base_pts, row.t0_ms);
    if own > out_pts {
        own
    } else {
        out_pts as int
    }
}

/// Where the first of some rows ends.
pub open spec fn word_end(base_pts: u64, out_pts: u64, rows: Seq<commit::Row>) -> int {
    let pts = word_pts(base_pts, out_pts, rows[0]);
    let own = placed(base_pts, rows[0].t1_ms);
    let next = if rows.len() > 1 {
        Some(placed(base_pts, rows[1].t0_ms) as u64)
    } else {
        None
    };
    floored_end(
        pts as u64,
        (if own > pts {
            own
        } else {
            pts
        }) as u64,
        next,
    )
}

/// Whether all times of a plan can be expressed.
pub open spec fn plan_fits(base_pts: u64, out_pts: u64, rows: Seq<commit::Row>) -> bool
    decreases rows.len(),
{
    if rows.len() == 0 {
        true
    } else {
        &&& placed(base_pts, rows[0].t0_ms) <= u64::MAX
        &&& placed(base_pts, rows[0].t1_ms) <= u64::MAX
        &&& rows.len() > 1 ==> placed(base_pts, rows[1].t0_ms) <= u64::MAX
        &&& word_pts(base_pts, out_pts, rows[0]) + MIN_BUFFER_DURATION <= u64::MAX
        &&& plan_fits(base_pts, word_end(base_pts, out_pts, rows) as u64, rows.drop_first())
    }
}

/// What goes out for rows: each as a word, with a gap in front of it where it
/// starts behind what went out before.
pub open spec fn plan(base_pts: u64, out_pts: u64, rows: Seq<commit::Row>) -> Seq<Planned>
    decreases rows.len(),
{
    if rows.len() == 0 {
        Seq::empty()
    } else {
        let pts = word_pts(base_pts, out_pts, rows[0]);
        let end = word_end(base_pts, out_pts, rows);
        (if pts > out_pts {
            seq![Planned::Gap { pts: out_pts, duration: (pts - out_pts) as u64 }]
        } else {
            Seq::empty()
        }) + seq![
            Planned::Word {
                pts: pts as u64,
                duration: (end - pts) as u64,
                text: rows[0].text,
                ends_utterance: closes_sentence(rows[0].text),
            },
        ] + plan(base_pts, end as u64, rows.drop_first())
    }
}

/// The running time that a stream-relative time stands for, if it can be
/// expressed.
pub fn place(base_pts: u64, ms: i64) -> (time: Option<u64>)
    ensures
        placed(base_pts, ms) <= u64::MAX ==> time == Some(placed(base_pts, ms) as u64),
        placed(base_pts, ms) > u64::MAX ==> time is None,
{
    let positive: u64 = if ms > 0 {
        ms as u64
    } else {
        0
    };
    match positive.checked_mul(1_000_000) {
        None => None,
        Some(relative) => base_pts.checked_add(relative),
    }
}

/// The running time that a stream-relative time stands for.
fn place_within(base_pts: u64, ms: i64) -> (time: u64)
    requires
        placed(base_pts, ms) <= u64::MAX,
    ensures
        time == placed(base_pts, ms),
{
    let positive: u64 = if ms > 0 {
        ms as u64
    } else {
        0
    };
    base_pts + positive * 1_000_000
}

/// Where the word at `index` starts and ends.
fn place_word(base_pts: u64, out_pts: u64, words: &Vec<TimedWord>, index: usize) -> (span: (
    u64,
    u64,
))
    requires
        index < words.len(),
        plan_fits(base_pts, out_pts, commit::timed_rows(words@).skip(index as int)),
    ensures
        ({
            let rows = commit::timed_rows(words@).skip(index as int);
            &&& span.0 == word_pts(base_pts, out_pts, rows[0])
            &&& span.1 == word_end(base_pts, out_pts, rows)
            &&& out_pts <= span.0 < span.1
        }),
{
    let ghost rows = commit::timed_rows(words@).skip(index as int);
    let word = &words[index];
    assert(rows[0] == word@);
    let own: u64 = place_within(base_pts, word.t0_ms);
    let pts: u64 = if own > out_pts {
        own
    } else {
        out_pts
    };
    let stop: u64 = place_within(base_pts, word.t1_ms);
    let next: Option<u64> = if index + 1 < words.len() {
        assert(rows[1] == words@[index + 1]@);
        Some(place_within(base_pts, words[index + 1].t0_ms))
    } else {
        None
    };
    let end: u64 = floor_end(
        pts,
        if stop > pts {
            stop
        } else {
            pts
        },
        next,
    );
    (pts, end)
}

/// Whether all times of a plan for the words can be expressed.
pub fn timed_text_fits(base_pts: u64, out_pts: u64, words: &Vec<TimedWord>) -> (fits: bool)
    ensures
        fits == plan_fits(base_pts, out_pts, commit::timed_rows(words@)),
{
    let ghost rows = commit::timed_rows(words@);
    let mut index: usize = 0;
    let mut out: u64 = out_pts;
    assert(rows.skip(0) =~= rows);
    while index < words.len()
        invariant
            index <= words@.len(),
            rows == commit::timed_rows(words@),
            plan_fits(base_pts, out_pts, rows) == plan_fits(base_pts, out, rows.skip(index as int)),
        decreases words@.len() - index,
    {
        let ghost left = rows.skip(index as int);
        let word = &words[index];
        assert(left[0] == word@);
        let own: u64 = match place(base_pts, word.t0_ms) {
            Some(own) => own,
            None => {
                return false;
            },
        };
        let stop: u64 = match place(base_pts, word.t1_ms) {
            Some(stop) => stop,
            None => {
                return false;
            },
        };
        let next: Option<u64> = if index + 1 < words.len() {
            assert(left[1] == words@[index + 1]@);
            match place(base_pts, words[index + 1].t0_ms) {
                Some(next) => Some(next),
                None => {
                    return false;
                },
            }
        } else {
            None
        };
        let pts: u64 = if own > out {
            own
        } else {
            out
        };
        if pts > u64::MAX - MIN_BUFFER_DURATION {
            return false;
        }
        out = floor_end(
            pts,
            if stop > pts {
                stop
            } else {
                pts
            },
            next,
        );
        assert(left.drop_first() =~= rows.skip(index + 1));
        index = index + 1;
    }
    true
}

/// Convert committed model rows into the standard sparse timed-text contract.
pub fn plan_timed_text(base_pts: u64, out_pts: u64, words: Vec<TimedWord>) -> (output: Vec<
    PlannedOutput,
>)
    requires
        plan_fits(base_pts, out_pts, commit::timed_rows(words@)),
    ensures
        planned(output@) == plan(base_pts, out_pts, commit::timed_rows(words@)),
{
    let ghost rows = commit::timed_rows(words@);
    let mut output: Vec<PlannedOutput> = Vec::new();
    let mut out: u64 = out_pts;
    let mut index: usize = 0;
    assert(rows.skip(0) =~= rows);
    assert(planned(output@) + plan(base_pts, out_pts, rows) =~= plan(base_pts, out_pts, rows));
    while index < words.len()
        invariant
            index <= words@.len(),
            rows == commit::timed_rows(words@),
            plan_fits(base_pts, out, rows.skip(index as int)),
            plan(base_pts, out_pts, rows) == planned(output@) + plan(
                base_pts,
                out,
                rows.skip(index as int),
            ),
        decreases words@.len() - index,
    {
        let ghost left = rows.skip(index as int);
        let ghost before = planned(output@);
        let (pts, end) = place_word(base_pts, out, &words, index);
        let word = &words[index];
        assert(left[0] == word@);
        if pts > out {
            output.push(PlannedOutput::Gap { pts: out, duration: pts - out });
        }
        let ghost gapped = planned(output@);
        output.push(
            PlannedOutput::Word {
                pts,
                duration: end - pts,
                ends_utterance: ends_sentence(word.text.as_str()),
                text: word.text.clone(),
            },
        );
        proof {
            let item = Planned::Word {
                pts,
                duration: (end - pts) as u64,
                text: word.text@,
                ends_utterance: closes_sentence(word.text@),
            };
            let gap = if pts > out {
                seq![Planned::Gap { pts: out, duration: (pts - out) as u64 }]
            } else {
                Seq::empty()
            };
            assert(gapped =~= before + gap);
            assert(planned(output@) =~= gapped.push(item));
            assert(left.drop_first() =~= rows.skip(index + 1));
            let rest = plan(base_pts, end, rows.skip(index + 1));
            assert(plan(base_pts, out, left) == gap + seq![item] + rest);
            assert(before + (gap + seq![item] + rest) =~= planned(output@) + rest);
        }
        out = end;
        index = index + 1;
    }
    assert(plan(base_pts, out, rows.skip(index as int)) =~= Seq::empty());
    assert(plan(base_pts, out_pts, rows) =~= planned(output@));
    output
}

/// When a planned item starts.
pub open spec fn item_start(item: Planned) -> u64 {
    match item {
        Planned::Gap { pts, .. } => pts,
        Planned::Word { pts, .. } => pts,
    }
}

/// How long a planned item lasts.
pub open spec fn item_duration(item: Planned) -> u64 {
    match item {
        Planned::Gap { duration, .. } => duration,
        Planned::Word { duration, .. } => duration,
    }
}

/// The words of a plan, without the gaps.
pub open spec fn words_of(items: Seq<Planned>) -> Seq<Seq<char>>
    decreases items.len(),
{
    if items.len() == 0 {
        Seq::empty()
    } else {
        match items[0] {
            Planned::Gap { .. } => words_of(items.drop_first()),
            Planned::Word { text, .. } => seq![text] + words_of(items.drop_first()),
        }
    }
}

/// Where a plan ends.
pub open spec fn plan_end(base_pts: u64, out_pts: u64, rows: Seq<commit::Row>) -> u64
    decreases rows.len(),
{
    if rows.len() == 0 {
        out_pts
    } else {
        plan_end(base_pts, word_end(base_pts, out_pts, rows) as u64, rows.drop_first())
    }
}

/// The output tiles the timeline: it starts where the output before it ended,
/// each item starts exactly where the one before it ends, and none has no
/// length. So words never overlap, never go back, and every hole is a gap.
pub proof fn a_plan_tiles_the_timeline(base_pts: u64, out_pts: u64, rows: Seq<commit::Row>)
    requires
        plan_fits(base_pts, out_pts, rows),
    ensures
        ({
            let items = plan(base_pts, out_pts, rows);
            &&& items.len() > 0 ==> item_start(items[0]) == out_pts
            &&& forall|i: int|
                0 <= i < items.len() ==> item_duration(#[trigger] items[i]) > 0 && item_start(
                    items[i],
                ) + item_duration(items[i]) <= u64::MAX
            &&& forall|i: int|
                0 < i < items.len() ==> item_start(#[trigger] items[i]) == item_start(items[i - 1])
                    + item_duration(items[i - 1])
            &&& items.len() > 0 ==> item_start(items.last()) + item_duration(items.last())
                == plan_end(base_pts, out_pts, rows)
            &&& out_pts <= plan_end(base_pts, out_pts, rows)
        }),
    decreases rows.len(),
{
    if rows.len() > 0 {
        let pts = word_pts(base_pts, out_pts, rows[0]);
        let end = word_end(base_pts, out_pts, rows);
        let rest = plan(base_pts, end as u64, rows.drop_first());
        let items = plan(base_pts, out_pts, rows);
        a_plan_tiles_the_timeline(base_pts, end as u64, rows.drop_first());
        let lead = items.len() - rest.len();
        assert(lead == if pts > out_pts {
            2int
        } else {
            1int
        });
        assert forall|i: int| 0 <= i < items.len() implies item_duration(#[trigger] items[i]) > 0
            && item_start(items[i]) + item_duration(items[i]) <= u64::MAX by {
            if i >= lead {
                assert(items[i] == rest[i - lead]);
            }
        }
        assert forall|i: int| 0 < i < items.len() implies item_start(#[trigger] items[i])
            == item_start(items[i - 1]) + item_duration(items[i - 1]) by {
            if i > lead {
                assert(items[i] == rest[i - lead] && items[i - 1] == rest[i - lead - 1]);
            } else if i == lead {
                assert(items[i] == rest[0]);
            }
        }
        if rest.len() > 0 {
            assert(items.last() == rest.last());
        } else {
            assert(rows.drop_first().len() == 0) by {
                plans_have_words(base_pts, end as u64, rows.drop_first());
            }
        }
    }
}

proof fn plans_have_words(base_pts: u64, out_pts: u64, rows: Seq<commit::Row>)
    ensures
        rows.len() > 0 ==> plan(base_pts, out_pts, rows).len() > 0,
{
}

/// A plan keeps every row, in order.
pub proof fn a_plan_keeps_every_word(base_pts: u64, out_pts: u64, rows: Seq<commit::Row>)
    ensures
        words_of(plan(base_pts, out_pts, rows)) == rows.map_values(|row: commit::Row| row.text),
    decreases rows.len(),
{
    let texts = rows.map_values(|row: commit::Row| row.text);
    if rows.len() == 0 {
        assert(texts =~= Seq::empty());
    } else {
        let pts = word_pts(base_pts, out_pts, rows[0]);
        let end = word_end(base_pts, out_pts, rows) as u64;
        let rest = plan(base_pts, end, rows.drop_first());
        let items = plan(base_pts, out_pts, rows);
        a_plan_keeps_every_word(base_pts, end, rows.drop_first());
        assert(texts =~= seq![rows[0].text] + rows.drop_first().map_values(
            |row: commit::Row| row.text,
        ));
        if pts > out_pts {
            let tail = items.drop_first();
            assert(tail.drop_first() =~= rest);
            assert(words_of(items) == words_of(tail));
        } else {
            assert(items.drop_first() =~= rest);
        }
    }
}

/// Whether a text closes a sentence at `mark`: a full stop, an exclamation mark, a
/// question mark or an ellipsis stands there, and behind it nothing but closing
/// quotes and brackets up to `close`, and nothing but whitespace from there on.
pub open spec fn closes_at(text: Seq<char>, mark: int, close: int) -> bool {
    &&& 0 <= mark < close <= text.len()
    &&& text[mark] == '.' || text[mark] == '!' || text[mark] == '?' || text[mark] == '\u{2026}'
    &&& forall|i: int|
        mark < i < close ==> ((#[trigger] text[i]) == '"' || text[i] == '\'' || text[i] == ')'
            || text[i] == ']' || text[i] == '}' || text[i] == '\u{201d}' || text[i] == '\u{2019}'
            || text[i] == '\u{bb}')
    &&& forall|i: int| close <= i < text.len() ==> text::is_blank(#[trigger] text[i])
}

/// A text closes a sentence exactly where its last mark does: behind that mark only
/// closing quotes and brackets stand, and then only whitespace.
pub proof fn a_sentence_ends_on_its_last_mark(text: Seq<char>)
    ensures
        closes_sentence(text) <==> exists|mark: int, close: int| closes_at(text, mark, close),
{
    let close = text::trimming_the_back(text);
    let trimmed = text::trimmed_back(text);
    let end = closing_is_left_out(trimmed);
    let core = without_closing(trimmed);
    if closes_sentence(text) {
        assert(core.last() == text[end - 1]);
        assert forall|i: int| end - 1 < i < close implies is_closing(#[trigger] text[i]) by {
            assert(trimmed[i] == text[i]);
        }
        assert(closes_at(text, end - 1, close));
    }
    if exists|mark: int, shut: int| closes_at(text, mark, shut) {
        let (mark, shut) = choose|mark: int, shut: int| closes_at(text, mark, shut);
        if close < shut {
            assert(text::is_blank(text[shut - 1]));
        }
        if close > shut {
            assert(text::is_blank(text[close - 1]));
        }
        assert(close == shut);
        assert(trimmed[mark] == text[mark]);
        if end > mark + 1 {
            assert(trimmed[end - 1] == text[end - 1]);
        }
        if end <= mark {
            assert(is_closing(trimmed[mark]));
        }
        assert(core.last() == text[mark]);
    }
}

proof fn closing_is_left_out(text: Seq<char>) -> (end: int)
    ensures
        0 <= end <= text.len(),
        without_closing(text) == text.take(end),
        forall|i: int| end <= i < text.len() ==> is_closing(#[trigger] text[i]),
        end > 0 ==> !is_closing(text[end - 1]),
    decreases text.len(),
{
    if text.len() > 0 && is_closing(text.last()) {
        let rest = text.drop_last();
        let end = closing_is_left_out(rest);
        assert(rest.take(end) =~= text.take(end));
        assert forall|i: int| end <= i < text.len() implies is_closing(#[trigger] text[i]) by {
            if i < rest.len() {
                assert(rest[i] == text[i]);
            }
        }
        end
    } else {
        assert(text.take(text.len() as int) =~= text);
        text.len() as int
    }
}

/// Each word of a plan is marked as the end of an utterance exactly where its own
/// text closes a sentence, whatever its times and its neighbours are.
pub proof fn words_end_utterances_by_their_own_text(
    base_pts: u64,
    out_pts: u64,
    rows: Seq<commit::Row>,
    at: int,
)
    requires
        0 <= at < plan(base_pts, out_pts, rows).len(),
        plan(base_pts, out_pts, rows)[at] is Word,
    ensures
        ({
            let item = plan(base_pts, out_pts, rows)[at];
            item->ends_utterance <==> exists|mark: int, close: int|
                closes_at(item->text, mark, close)
        }),
    decreases rows.len(),
{
    if rows.len() > 0 {
        let pts = word_pts(base_pts, out_pts, rows[0]);
        let end = word_end(base_pts, out_pts, rows) as u64;
        let rest = plan(base_pts, end, rows.drop_first());
        let items = plan(base_pts, out_pts, rows);
        let lead = items.len() - rest.len();
        a_sentence_ends_on_its_last_mark(rows[0].text);
        if pts > out_pts {
            assert(lead == 2 && items[0] is Gap);
        } else {
            assert(lead == 1);
        }
        if at < lead {
            assert(items[at]->text == rows[0].text);
        } else {
            assert(items[at] == rest[at - lead]);
            words_end_utterances_by_their_own_text(base_pts, end, rows.drop_first(), at - lead);
        }
    }
}

/// Where a stream-relative time lies: as many milliseconds behind the start of the
/// stream, and never in front of it.
pub open spec fn lies_at(base_pts: u64, ms: i64) -> int {
    if ms >= 0 {
        base_pts + ms * 1_000_000
    } else {
        base_pts as int
    }
}

/// Whether a word that starts at `pts` ends where it should, given its own end and
/// where the next word starts: at its own end where that is at least forty
/// milliseconds on; else forty milliseconds on, or where the next word starts if
/// that is sooner.
pub open spec fn ends_well(pts: int, end: int, own_end: int, next_start: Option<int>) -> bool {
    if own_end - pts >= 40_000_000 {
        end == own_end
    } else if next_start is Some && pts < next_start->0 && next_start->0 - pts < 40_000_000 {
        end == next_start->0
    } else {
        end - pts == 40_000_000
    }
}

/// Where a word ends in a plan, or where the output was before its first word.
pub open spec fn word_stop(items: Seq<Planned>, at: Seq<int>, index: int, out_pts: u64) -> int {
    if index < 0 {
        out_pts as int
    } else {
        item_start(items[at[index]]) + item_duration(items[at[index]])
    }
}

/// Whether the word of a row stands in a plan as it should, given where the words stand:
/// under the row's text, from the start of the row or from where the word before it ends
/// if that is later, and with a gap in front of it over exactly the time in between,
/// where there is any.
pub open spec fn stands_well(
    items: Seq<Planned>,
    at: Seq<int>,
    rows: Seq<commit::Row>,
    base_pts: u64,
    out_pts: u64,
    index: int,
) -> bool {
    let stop = word_stop(items, at, index - 1, out_pts);
    let first = if index == 0 {
        0
    } else {
        at[index - 1] + 1
    };
    let own = lies_at(base_pts, rows[index].t0_ms);
    let next = if index + 1 < rows.len() {
        Some(lies_at(base_pts, rows[index + 1].t0_ms))
    } else {
        None
    };
    let item = items[at[index]];
    &&& 0 <= first <= at[index] < items.len()
    &&& item is Word
    &&& item->text == rows[index].text
    &&& own > stop ==> item_start(item) == own && at[index] == first + 1 && items[first] == (
    Planned::Gap { pts: stop as u64, duration: (own - stop) as u64 })
    &&& own <= stop ==> item_start(item) == stop && at[index] == first
    &&& ends_well(
        item_start(item) as int,
        word_stop(items, at, index, out_pts),
        lies_at(base_pts, rows[index].t1_ms),
        next,
    )
}

/// A plan holds one word per row, in order, under the row's text. A word starts
/// where its row does, or where the word before it ends if that is later; a gap
/// fills exactly the time in between where there is any, and there are no others.
#[verifier::spinoff_prover]
#[verifier::rlimit(50)]
pub proof fn a_plan_places_each_word(base_pts: u64, out_pts: u64, rows: Seq<commit::Row>) -> (at:
    Seq<int>)
    requires
        plan_fits(base_pts, out_pts, rows),
    ensures
        ({
            let items = plan(base_pts, out_pts, rows);
            &&& at.len() == rows.len()
            &&& items.len() == if rows.len() == 0 {
                0
            } else {
                at.last() + 1
            }
            &&& forall|k: int|
                0 <= k < at.len() ==> #[trigger] stands_well(items, at, rows, base_pts, out_pts, k)
        }),
    decreases rows.len(),
{
    let items = plan(base_pts, out_pts, rows);
    if rows.len() == 0 {
        Seq::empty()
    } else {
        let pts = word_pts(base_pts, out_pts, rows[0]);
        let end = word_end(base_pts, out_pts, rows);
        let tail = rows.drop_first();
        let rest = plan(base_pts, end as u64, tail);
        let below = a_plan_places_each_word(base_pts, end as u64, tail);
        let lead = items.len() - rest.len();
        let at = seq![lead - 1] + below.map_values(|place: int| place + lead);
        assert(lead == if pts > out_pts {
            2int
        } else {
            1int
        });
        assert forall|i: int| 0 <= i < rest.len() implies #[trigger] rest[i] == items[i + lead] by {
        }
        assert(pts < end <= u64::MAX);
        assert forall|k: int| 0 <= k < at.len() implies #[trigger] stands_well(
            items,
            at,
            rows,
            base_pts,
            out_pts,
            k,
        ) by {
            if k == 0 {
                assert(item_start(items[lead - 1]) == pts);
                assert(item_duration(items[lead - 1]) == end - pts);
            } else {
                assert(stands_well(rest, below, tail, base_pts, end as u64, k - 1));
                assert(at[k] == below[k - 1] + lead);
                assert(tail[k - 1] == rows[k]);
                assert(rest[below[k - 1]] == items[at[k]]);
                assert(word_stop(rest, below, k - 1, end as u64) == word_stop(
                    items,
                    at,
                    k,
                    out_pts,
                ));
                if k == 1 {
                    assert(word_stop(items, at, 0, out_pts) == end);
                    if below[0] == 1 {
                        assert(rest[0] == items[lead]);
                    }
                } else {
                    assert(stands_well(rest, below, tail, base_pts, end as u64, k - 2));
                    assert(at[k - 1] == below[k - 2] + lead);
                    assert(rest[below[k - 2]] == items[at[k - 1]]);
                    if below[k - 1] == below[k - 2] + 2 {
                        assert(rest[below[k - 2] + 1] == items[at[k - 1] + 1]);
                    }
                }
                if k + 1 < rows.len() {
                    assert(tail[k] == rows[k + 1]);
                }
            }
        }
        if tail.len() > 0 {
            assert(at.last() == below.last() + lead);
        }
        at
    }
}

/// How long samples last is their number over the rate, rounded down to whole
/// nanoseconds.
pub proof fn samples_last_their_number_over_the_rate(samples: u64, rate: u64)
    requires
        rate > 0,
        1_000_000_000 * samples < rate * 0x1_0000_0000_0000_0000,
    ensures
        spanned(samples, rate) * rate <= 1_000_000_000 * samples < (spanned(samples, rate) + 1)
            * rate,
{
    let span = 1_000_000_000 * samples / (rate as int);
    assert(span * rate <= 1_000_000_000 * samples < (span + 1) * rate) by (nonlinear_arith)
        requires
            span == 1_000_000_000 * samples / (rate as int),
            rate > 0,
    ;
    assert(0 <= span < 0x1_0000_0000_0000_0000) by (nonlinear_arith)
        requires
            span * rate <= 1_000_000_000 * samples,
            1_000_000_000 * samples < rate * 0x1_0000_0000_0000_0000,
            1_000_000_000 * samples < (span + 1) * rate,
            samples >= 0,
            rate > 0,
    ;
}


/// What is planned holds the words in order, each once and under its own text; and each
/// ends an utterance exactly where its own text closes a sentence, whatever its times
/// and its neighbours are.
pub proof fn words_are_planned_as_they_read(
    base_pts: u64,
    out_pts: u64,
    words: Vec<TimedWord>,
    output: Vec<PlannedOutput>,
) -> (at: Seq<int>)
    requires
        call_ensures(plan_timed_text, (base_pts, out_pts, words), output),
        plan_fits(base_pts, out_pts, commit::timed_rows(words@)),
    ensures
        at.len() == words@.len(),
        forall|k: int|
            0 <= k < at.len() ==> 0 <= #[trigger] at[k] < output@.len() && (
            output@[at[k]] matches PlannedOutput::Word { text, ends_utterance, .. } && text@
                == words@[k].text@ && (ends_utterance <==> exists|mark: int, close: int|
                closes_at(words@[k].text@, mark, close))),
        forall|j: int, k: int| 0 <= j < k < at.len() ==> #[trigger] at[j] < #[trigger] at[k],
        forall|i: int|
            0 <= i < output@.len() && (#[trigger] output@[i]) is Word ==> exists|k: int|
                0 <= k < at.len() && at[k] == i,
{
    let rows = commit::timed_rows(words@);
    let items = planned(output@);
    let at = a_plan_places_each_word(base_pts, out_pts, rows);
    assert(items.len() == output@.len());
    assert forall|k: int| 0 <= k < at.len() implies 0 <= #[trigger] at[k] < output@.len() && (
    output@[at[k]] matches PlannedOutput::Word { text, ends_utterance, .. } && text@
        == words@[k].text@ && (ends_utterance <==> exists|mark: int, close: int|
        closes_at(words@[k].text@, mark, close))) by {
        assert(stands_well(items, at, rows, base_pts, out_pts, k));
        assert(items[at[k]] == output@[at[k]]@);
        assert(rows[k] == words@[k]@);
        words_end_utterances_by_their_own_text(base_pts, out_pts, rows, at[k]);
    }
    places_grow(items, at, rows, base_pts, out_pts);
    assert forall|i: int| 0 <= i < output@.len() && (#[trigger] output@[i]) is Word implies exists|
        k: int,
    | 0 <= k < at.len() && at[k] == i by {
        assert(items[i] == output@[i]@);
        a_word_has_its_place(items, at, rows, base_pts, out_pts, i);
    }
    at
}

proof fn places_grow(
    items: Seq<Planned>,
    at: Seq<int>,
    rows: Seq<commit::Row>,
    base_pts: u64,
    out_pts: u64,
)
    requires
        forall|k: int|
            0 <= k < at.len() ==> #[trigger] stands_well(items, at, rows, base_pts, out_pts, k),
    ensures
        forall|j: int, k: int| 0 <= j < k < at.len() ==> #[trigger] at[j] < #[trigger] at[k],
    decreases at.len(),
{
    assert forall|j: int, k: int| 0 <= j < k < at.len() implies #[trigger] at[j]
        < #[trigger] at[k] by {
        place_grows(items, at, rows, base_pts, out_pts, j, k);
    }
}

proof fn place_grows(
    items: Seq<Planned>,
    at: Seq<int>,
    rows: Seq<commit::Row>,
    base_pts: u64,
    out_pts: u64,
    j: int,
    k: int,
)
    requires
        forall|k: int|
            0 <= k < at.len() ==> #[trigger] stands_well(items, at, rows, base_pts, out_pts, k),
        0 <= j < k < at.len(),
    ensures
        at[j] < at[k],
    decreases k - j,
{
    assert(stands_well(items, at, rows, base_pts, out_pts, k));
    if j < k - 1 {
        place_grows(items, at, rows, base_pts, out_pts, j, k - 1);
    }
}

proof fn a_word_has_its_place(
    items: Seq<Planned>,
    at: Seq<int>,
    rows: Seq<commit::Row>,
    base_pts: u64,
    out_pts: u64,
    i: int,
)
    requires
        0 <= i < items.len(),
        items[i] is Word,
        items.len() == if at.len() == 0 {
            0
        } else {
            at.last() + 1
        },
        forall|k: int|
            0 <= k < at.len() ==> #[trigger] stands_well(items, at, rows, base_pts, out_pts, k),
    ensures
        exists|k: int| 0 <= k < at.len() && at[k] == i,
{
    word_up_to(items, at, rows, base_pts, out_pts, i, at.len() - 1);
}

proof fn word_up_to(
    items: Seq<Planned>,
    at: Seq<int>,
    rows: Seq<commit::Row>,
    base_pts: u64,
    out_pts: u64,
    i: int,
    last: int,
)
    requires
        0 <= i < items.len(),
        items[i] is Word,
        0 <= last < at.len(),
        i <= at[last],
        forall|k: int|
            0 <= k < at.len() ==> #[trigger] stands_well(items, at, rows, base_pts, out_pts, k),
    ensures
        exists|k: int| 0 <= k < at.len() && at[k] == i,
    decreases last,
{
    assert(stands_well(items, at, rows, base_pts, out_pts, last));
    if i < at[last] {
        if last > 0 {
            word_up_to(items, at, rows, base_pts, out_pts, i, last - 1);
        }
    } else {
        assert(at[last] == i);
    }
}

/// A text ends a sentence exactly where its last mark does.
pub proof fn a_sentence_is_told_by_its_mark(text: &str, ends: bool)
    requires
        call_ensures(ends_sentence, (text,), ends),
    ensures
        ends <==> exists|mark: int, close: int| closes_at(text@, mark, close),
{
    a_sentence_ends_on_its_last_mark(text@);
}

/// A word that lasts forty milliseconds ends where it says. A shorter one is drawn out
/// to that, or up to the next word where that starts sooner, and in any case lasts.
pub proof fn a_word_lasts(pts: u64, end: u64, next_start: Option<u64>, floored: u64)
    requires
        call_ensures(floor_end, (pts, end, next_start), floored),
        pts + 40_000_000 <= u64::MAX,
    ensures
        floored > pts,
        end - pts >= 40_000_000 ==> floored == end,
        end - pts < 40_000_000 ==> floored - pts <= 40_000_000,
        end - pts < 40_000_000 && !(next_start is Some && pts < next_start->0 < pts + 40_000_000)
            ==> floored - pts == 40_000_000,
        end - pts < 40_000_000 && next_start is Some && pts < next_start->0 < pts + 40_000_000
            ==> floored == next_start->0,
{
}

/// Samples last their number over the rate, in whole nanoseconds; and without a rate
/// they last nothing.
pub proof fn a_duration_is_samples_over_rate(samples: u64, rate: u64, duration: u64)
    requires
        call_ensures(samples_duration, (samples, rate), duration),
    ensures
        rate == 0 ==> duration == 0,
        rate > 0 && 1_000_000_000 * samples < rate * 0x1_0000_0000_0000_0000 ==> duration * rate
            <= 1_000_000_000 * samples < (duration + 1) * rate,
{
    if rate > 0 && 1_000_000_000 * samples < rate * 0x1_0000_0000_0000_0000 {
        samples_last_their_number_over_the_rate(samples, rate);
    }
}

/// A stream-relative time lies so many milliseconds behind the start of the stream, and
/// has no place only where that cannot be expressed.
pub proof fn a_time_has_its_place(base_pts: u64, ms: i64, time: Option<u64>)
    requires
        call_ensures(place, (base_pts, ms), time),
    ensures
        ms <= 0 ==> time == Some(base_pts),
        ms > 0 && base_pts + ms * 1_000_000 <= u64::MAX ==> time is Some && time->0 == base_pts
            + ms * 1_000_000,
        ms > 0 && base_pts + ms * 1_000_000 > u64::MAX ==> time is None,
{
}

} // verus!
