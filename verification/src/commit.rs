//! Turning a growing committed prefix into append-only timed words.
//!
//! A streaming recognizer offers two views of one hypothesis: a *committed*
//! character prefix that never rewrites, and timed rows (words, segments or
//! tokens) that cover the whole hypothesis and may be rewritten anywhere. A
//! timed buffer needs both, so a row goes out only once two independent signals
//! agree:
//!
//! 1. *Textual*: walking the rows in order, each row's text is found in the
//!    committed prefix at or after the previous match.
//! 2. *Temporal*: the row ends at or before the point the recognizer reports to
//!    have drained the audio to.
use crate::text;
use crate::text::{chars_of, trim};
use vstd::prelude::*;
use vstd::utf8;

verus! {

/// What a transcript's timestamps are attached to.
#[derive(Clone, Copy, Debug, PartialEq, Eq, Structural)]
pub enum TimestampKind {
    /// Text only, no alignment data.
    Untimed,
    /// The richest the model supports.
    Auto,
    Segment,
    Word,
    Token,
}

/// One segment row of a transcript.
#[derive(Debug, PartialEq, Eq)]
pub struct Segment {
    pub t0_ms: i64,
    pub t1_ms: i64,
    pub text: String,
}

/// One word row of a transcript.
#[derive(Debug, PartialEq, Eq)]
pub struct Word {
    pub t0_ms: i64,
    pub t1_ms: i64,
    pub text: String,
}

/// One token row of a transcript: a piece of the model's vocabulary.
#[derive(Debug, PartialEq, Eq)]
pub struct Token {
    pub t0_ms: i64,
    pub t1_ms: i64,
    /// The word that the piece belongs to, or a negative number where the
    /// family does not say.
    pub word_index: i32,
    pub text: String,
}

/// What a recognizer made of some audio.
#[derive(Debug, PartialEq, Eq)]
pub struct Transcript {
    pub text: String,
    pub timestamp_kind: TimestampKind,
    pub segments: Vec<Segment>,
    pub words: Vec<Word>,
    pub tokens: Vec<Token>,
}

/// One timed unit ready to be pushed, in stream-relative milliseconds.
#[derive(Debug, PartialEq, Eq)]
pub struct TimedWord {
    pub text: String,
    pub t0_ms: i64,
    pub t1_ms: i64,
}

/// A timed row from a transcript.
#[derive(Debug, PartialEq, Eq)]
pub struct Unit {
    pub text: String,
    pub t0_ms: i64,
    pub t1_ms: i64,
}

/// Text with the time it covers, as a mathematical value.
pub struct Row {
    pub text: Seq<char>,
    pub t0_ms: i64,
    pub t1_ms: i64,
}

/// A token, as a mathematical value.
pub struct Piece {
    pub text: Seq<char>,
    pub word_index: i32,
    pub t0_ms: i64,
    pub t1_ms: i64,
}

impl View for Segment {
    type V = Row;

    open spec fn view(&self) -> Row {
        Row { text: self.text@, t0_ms: self.t0_ms, t1_ms: self.t1_ms }
    }
}

impl View for Word {
    type V = Row;

    open spec fn view(&self) -> Row {
        Row { text: self.text@, t0_ms: self.t0_ms, t1_ms: self.t1_ms }
    }
}

impl View for Token {
    type V = Piece;

    open spec fn view(&self) -> Piece {
        Piece {
            text: self.text@,
            word_index: self.word_index,
            t0_ms: self.t0_ms,
            t1_ms: self.t1_ms,
        }
    }
}

impl View for TimedWord {
    type V = Row;

    open spec fn view(&self) -> Row {
        Row { text: self.text@, t0_ms: self.t0_ms, t1_ms: self.t1_ms }
    }
}

impl View for Unit {
    type V = Row;

    open spec fn view(&self) -> Row {
        Row { text: self.text@, t0_ms: self.t0_ms, t1_ms: self.t1_ms }
    }
}

/// Words as rows.
pub open spec fn word_rows(words: Seq<Word>) -> Seq<Row> {
    words.map_values(|word: Word| word@)
}

/// Segments as rows.
pub open spec fn segment_rows(segments: Seq<Segment>) -> Seq<Row> {
    segments.map_values(|segment: Segment| segment@)
}

/// Tokens as mathematical values.
pub open spec fn pieces(tokens: Seq<Token>) -> Seq<Piece> {
    tokens.map_values(|token: Token| token@)
}

/// Units as rows.
pub open spec fn unit_rows(units: Seq<Unit>) -> Seq<Row> {
    units.map_values(|unit: Unit| unit@)
}

/// Timed words as rows.
pub open spec fn timed_rows(words: Seq<TimedWord>) -> Seq<Row> {
    words.map_values(|word: TimedWord| word@)
}

/// Whether there is nothing but whitespace in a text.
pub open spec fn is_blank_text(text: Seq<char>) -> bool {
    text::trimmed(text).len() == 0
}

/// Words joined from tokens so far, and what the next token depends on.
pub struct Joining {
    pub rows: Seq<Row>,
    pub word_index: i32,
    pub start_next: bool,
}

/// Whether a token begins a word: the first one does, one after whitespace
/// does, and otherwise the family's word index decides where it is given, and a
/// leading space where it is not.
pub open spec fn starts_word(joining: Joining, piece: Piece) -> bool {
    joining.start_next || if piece.word_index >= 0 {
        piece.word_index != joining.word_index
    } else {
        piece.text.len() > 0 && text::is_blank(piece.text[0])
    }
}

/// The later of two times.
pub open spec fn later(one: i64, other: i64) -> i64 {
    if one >= other {
        one
    } else {
        other
    }
}

/// What joining makes of one more token.
pub open spec fn join_one(joining: Joining, piece: Piece) -> Joining {
    if is_blank_text(piece.text) {
        // Carries no text of its own, but does end the current word.
        Joining { start_next: true, ..joining }
    } else {
        let rows = if joining.rows.len() > 0 && !starts_word(joining, piece) {
            let last = joining.rows.last();
            joining.rows.drop_last().push(
                Row {
                    text: last.text + piece.text,
                    t0_ms: last.t0_ms,
                    t1_ms: later(last.t1_ms, piece.t1_ms),
                },
            )
        } else {
            joining.rows.push(Row { text: piece.text, t0_ms: piece.t0_ms, t1_ms: piece.t1_ms })
        };
        Joining { rows, word_index: piece.word_index, start_next: false }
    }
}

/// What joining makes of tokens, one after another.
pub open spec fn joining(tokens: Seq<Piece>) -> Joining
    decreases tokens.len(),
{
    if tokens.len() == 0 {
        Joining { rows: Seq::empty(), word_index: i32::MIN, start_next: true }
    } else {
        join_one(joining(tokens.drop_last()), tokens.last())
    }
}

/// The words that tokens join into.
pub open spec fn joined(tokens: Seq<Piece>) -> Seq<Row> {
    joining(tokens).rows
}

/// The finest timed rows of a transcript.
pub open spec fn finest_rows(transcript: Transcript) -> Seq<Row> {
    if transcript.timestamp_kind == TimestampKind::Untimed {
        Seq::empty()
    } else if transcript.words@.len() > 0 {
        word_rows(transcript.words@)
    } else if transcript.segments@.len() > 0 {
        segment_rows(transcript.segments@)
    } else {
        joined(pieces(transcript.tokens@))
    }
}

/// The finest timed rows a transcript actually carries.
///
/// Families disagree about what they align, so whatever is populated is taken,
/// best first: words, then segments, then tokens joined back into words. Rows
/// being *present* is not the same as their timestamps being real: a family
/// that reports no alignment is taken at its word. An empty result means the
/// transcript carries no alignment at all.
pub fn units(transcript: &Transcript) -> (rows: Vec<Unit>)
    ensures
        unit_rows(rows@) == finest_rows(*transcript),
{
    let mut out: Vec<Unit> = Vec::new();
    if transcript.timestamp_kind == TimestampKind::Untimed {
        assert(unit_rows(out@) =~= Seq::empty());
        return out;
    }
    if transcript.words.len() > 0 {
        let count: usize = transcript.words.len();
        let mut index: usize = 0;
        while index < count
            invariant
                count == transcript.words@.len(),
                index <= count,
                unit_rows(out@) == word_rows(transcript.words@).take(index as int),
            decreases count - index,
        {
            let word = &transcript.words[index];
            let ghost before = unit_rows(out@);
            out.push(Unit { text: word.text.clone(), t0_ms: word.t0_ms, t1_ms: word.t1_ms });
            assert(unit_rows(out@) =~= before.push(word@));
            assert(unit_rows(out@) =~= word_rows(transcript.words@).take(index + 1));
            index = index + 1;
        }
        assert(word_rows(transcript.words@).take(count as int) =~= word_rows(transcript.words@));
        return out;
    }
    if transcript.segments.len() > 0 {
        let count: usize = transcript.segments.len();
        let mut index: usize = 0;
        while index < count
            invariant
                count == transcript.segments@.len(),
                index <= count,
                unit_rows(out@) == segment_rows(transcript.segments@).take(index as int),
            decreases count - index,
        {
            let segment = &transcript.segments[index];
            let ghost before = unit_rows(out@);
            out.push(
                Unit {
                    text: segment.text.clone(),
                    t0_ms: segment.t0_ms,
                    t1_ms: segment.t1_ms,
                },
            );
            assert(unit_rows(out@) =~= before.push(segment@));
            assert(unit_rows(out@) =~= segment_rows(transcript.segments@).take(index + 1));
            index = index + 1;
        }
        assert(segment_rows(transcript.segments@).take(count as int) =~= segment_rows(
            transcript.segments@,
        ));
        return out;
    }
    units_from_tokens(transcript.tokens.as_slice())
}

/// Join sub-word tokens back into words.
///
/// A token is a vocabulary piece, not a word, and one buffer per piece would be
/// useless downstream.
pub fn units_from_tokens(tokens: &[Token]) -> (rows: Vec<Unit>)
    ensures
        unit_rows(rows@) == joined(pieces(tokens@)),
{
    let mut out: Vec<Unit> = Vec::new();
    let mut word_index: i32 = i32::MIN;
    let mut start_next = true;
    let mut index: usize = 0;
    let ghost all = pieces(tokens@);
    assert(unit_rows(out@) =~= Seq::empty());
    assert(all.take(0) =~= Seq::empty());
    while index < tokens.len()
        invariant
            all == pieces(tokens@),
            index <= tokens@.len(),
            ({
                let state = joining(all.take(index as int));
                &&& unit_rows(out@) == state.rows
                &&& word_index == state.word_index
                &&& start_next == state.start_next
            }),
        decreases tokens@.len() - index,
    {
        let token = &tokens[index];
        let ghost state = joining(all.take(index as int));
        proof {
            assert(all.take(index + 1).drop_last() =~= all.take(index as int));
            assert(all.take(index + 1).last() == token@);
        }
        if trim(token.text.as_str()).is_empty() {
            start_next = true;
        } else {
            let starts = start_next || if token.word_index >= 0 {
                token.word_index != word_index
            } else {
                starts_blank(token.text.as_str())
            };
            assert(starts == starts_word(state, token@));
            match out.pop() {
                Some(last) => {
                    let ghost front = out@;
                    if !starts {
                        let mut text = last.text;
                        text.append(token.text.as_str());
                        let t1_ms: i64 = if last.t1_ms >= token.t1_ms {
                            last.t1_ms
                        } else {
                            token.t1_ms
                        };
                        out.push(Unit { text, t0_ms: last.t0_ms, t1_ms });
                    } else {
                        out.push(last);
                        out.push(
                            Unit {
                                text: token.text.clone(),
                                t0_ms: token.t0_ms,
                                t1_ms: token.t1_ms,
                            },
                        );
                    }
                },
                None => {
                    out.push(
                        Unit {
                            text: token.text.clone(),
                            t0_ms: token.t0_ms,
                            t1_ms: token.t1_ms,
                        },
                    );
                },
            }
            word_index = token.word_index;
            start_next = false;
            assert(unit_rows(out@) =~= join_one(state, token@).rows);
        }
        index = index + 1;
    }
    assert(all.take(tokens@.len() as int) =~= all);
    out
}

/// Whether a text begins with whitespace.
fn starts_blank(text: &str) -> (blank: bool)
    ensures
        blank == (text@.len() > 0 && text::is_blank(text@[0])),
{
    let chars = chars_of(text);
    chars.len() > 0 && chars[0].is_whitespace()
}

/// Whether `needle` stands in `text` at `at`.
pub open spec fn occurs_at(text: Seq<char>, at: int, needle: Seq<char>) -> bool {
    0 <= at && at + needle.len() <= text.len() && text.subrange(at, at + needle.len()) == needle
}

/// The first place, from `at` on, where `needle` stands in `text`.
pub open spec fn find_from(text: Seq<char>, at: int, needle: Seq<char>) -> Option<int>
    decreases text.len() - at + 1,
{
    if at < 0 || at + needle.len() > text.len() {
        None
    } else if occurs_at(text, at, needle) {
        Some(at)
    } else {
        find_from(text, at + 1, needle)
    }
}

/// A place in the committed text, from a first character to behind a last one.
#[derive(Clone, Copy, Debug, PartialEq, Eq, Structural)]
pub struct Span {
    pub start: usize,
    pub end: usize,
}

/// Where rows stand in the committed text, as a mathematical value: blank rows
/// stand nowhere, and the walk ends at the first row that is not found.
pub struct Alignment {
    pub spans: Seq<Option<(int, int)>>,
    pub cursor: int,
    pub complete: bool,
}

/// How the first rows align with the committed text.
pub open spec fn alignment(committed: Seq<char>, rows: Seq<Row>) -> Alignment
    decreases rows.len(),
{
    if rows.len() == 0 {
        Alignment { spans: Seq::empty(), cursor: 0, complete: true }
    } else {
        let before = alignment(committed, rows.drop_last());
        let needle = text::trimmed(rows.last().text);
        if !before.complete {
            before
        } else if needle.len() == 0 {
            Alignment { spans: before.spans.push(None), ..before }
        } else {
            match find_from(committed, before.cursor, needle) {
                None => Alignment { complete: false, ..before },
                Some(at) => Alignment {
                    spans: before.spans.push(Some((at, at + needle.len()))),
                    cursor: at + needle.len() as int,
                    complete: true,
                },
            }
        }
    }
}

/// How many rows, from the first on, the committed text covers.
pub open spec fn aligned_count(committed: Seq<char>, rows: Seq<Row>) -> int {
    alignment(committed, rows).spans.len() as int
}

/// Spans as mathematical values.
pub open spec fn span_views(spans: Seq<Option<Span>>) -> Seq<Option<(int, int)>> {
    spans.map_values(
        |span: Option<Span>|
            match span {
                Some(place) => Some((place.start as int, place.end as int)),
                None => None,
            },
    )
}

/// The nearest span in front of `index`, if any.
pub open spec fn span_before(spans: Seq<Option<(int, int)>>, index: int) -> Option<(int, int)>
    decreases index,
{
    if index <= 0 || index > spans.len() {
        None
    } else if spans[index - 1] is Some {
        spans[index - 1]
    } else {
        span_before(spans, index - 1)
    }
}

/// The nearest span from `index` on, if any.
pub open spec fn span_from(spans: Seq<Option<(int, int)>>, index: int) -> Option<(int, int)>
    decreases spans.len() - index,
{
    if index < 0 || index >= spans.len() {
        None
    } else if spans[index] is Some {
        spans[index]
    } else {
        span_from(spans, index + 1)
    }
}

/// Where the last unbroken run of characters between `low` and `high` begins.
pub open spec fn run_start(text: Seq<char>, low: int, high: int) -> int
    decreases high - low,
{
    if high <= low || text::is_blank(text[high - 1]) {
        high
    } else {
        run_start(text, low, high - 1)
    }
}

/// Where the first unbroken run of characters between `low` and `high` ends.
pub open spec fn run_end(text: Seq<char>, low: int, high: int) -> int
    decreases high - low,
{
    if high <= low || text::is_blank(text[low]) {
        low
    } else {
        run_end(text, low + 1, high)
    }
}

/// Whether a text is nothing but punctuation.
pub open spec fn is_punctuation(text: Seq<char>) -> bool {
    forall|i: int|
        0 <= i < text.len() ==> !text::is_letter_or_digit(#[trigger] text[i])
            && !text::is_control_code(text[i])
}

/// Where the text of an aligned row begins once the punctuation in front of it
/// is taken in: an unbroken run of punctuation that no earlier row can claim.
pub open spec fn canonical_start(
    committed: Seq<char>,
    spans: Seq<Option<(int, int)>>,
    index: int,
    start: int,
) -> int {
    let previous = span_before(spans, index);
    let low = match previous {
        Some((_, end)) => end,
        None => 0,
    };
    let from = run_start(committed, low, start);
    if (previous is None || from > low) && is_punctuation(committed.subrange(from, start)) {
        from
    } else {
        start
    }
}

/// Where the text of an aligned row ends once the punctuation behind it is
/// taken in.
pub open spec fn canonical_end(
    committed: Seq<char>,
    spans: Seq<Option<(int, int)>>,
    index: int,
    end: int,
) -> int {
    let high = match span_from(spans, index + 1) {
        Some((start, _)) => start,
        None => committed.len() as int,
    };
    let to = run_end(committed, end, high);
    if is_punctuation(committed.subrange(end, to)) {
        to
    } else {
        end
    }
}

/// The text that a row goes out with: the committed text where it stands, with
/// the punctuation right around it, or the row's own text where it has no place.
pub open spec fn canonical_text(
    committed: Seq<char>,
    spans: Seq<Option<(int, int)>>,
    index: int,
    own: Seq<char>,
) -> Seq<char> {
    if 0 <= index < spans.len() && spans[index] is Some {
        let (start, end) = spans[index]->0;
        committed.subrange(
            canonical_start(committed, spans, index, start),
            canonical_end(committed, spans, index, end),
        )
    } else {
        own
    }
}

/// Spans lie in the text one behind the other.
pub open spec fn spans_in_order(spans: Seq<Option<(int, int)>>, cursor: int, len: int) -> bool {
    &&& 0 <= cursor <= len
    &&& forall|i: int|
        0 <= i < spans.len() ==> ((#[trigger] spans[i]) matches Some((start, end)) ==> 0 <= start
            <= end <= cursor)
    &&& forall|i: int, j: int|
        0 <= i < j < spans.len() ==> ((#[trigger] spans[i]) matches Some((_, end)) ==> ((
        #[trigger] spans[j]) matches Some((start, _)) ==> end <= start))
}

/// A match is in bounds and not before where the search began.
proof fn found_in_bounds(text: Seq<char>, at: int, needle: Seq<char>)
    requires
        0 <= at,
    ensures
        find_from(text, at, needle) matches Some(place) ==> at <= place && occurs_at(
            text,
            place,
            needle,
        ) && (forall|i: int| at <= i < place ==> !occurs_at(text, i, needle)),
        find_from(text, at, needle) is None ==> forall|i: int|
            at <= i ==> !occurs_at(text, i, needle),
    decreases text.len() - at + 1,
{
    if at + needle.len() <= text.len() && !occurs_at(text, at, needle) {
        found_in_bounds(text, at + 1, needle);
    }
}

/// Rows align one behind the other, each with the text it stands at.
pub proof fn rows_align_in_order(committed: Seq<char>, rows: Seq<Row>)
    ensures
        ({
            let result = alignment(committed, rows);
            &&& spans_in_order(result.spans, result.cursor, committed.len() as int)
            &&& result.spans.len() <= rows.len()
            &&& result.complete <==> result.spans.len() == rows.len()
            &&& forall|i: int|
                0 <= i < result.spans.len() ==> match #[trigger] result.spans[i] {
                    Some((start, end)) => committed.subrange(start, end) == text::trimmed(
                        rows[i].text,
                    ) && start < end,
                    None => is_blank_text(rows[i].text),
                }
        }),
    decreases rows.len(),
{
    if rows.len() > 0 {
        let front = rows.drop_last();
        rows_align_in_order(committed, front);
        let before = alignment(committed, front);
        let after = alignment(committed, rows);
        let needle = text::trimmed(rows.last().text);
        found_in_bounds(committed, before.cursor, needle);
        assert forall|i: int| 0 <= i < after.spans.len() implies match #[trigger] after.spans[i] {
            Some((start, end)) => committed.subrange(start, end) == text::trimmed(rows[i].text)
                && start < end,
            None => is_blank_text(rows[i].text),
        } by {
            if i < before.spans.len() {
                assert(after.spans[i] == before.spans[i]);
                assert(front[i] == rows[i]);
            }
        }
    }
}

/// The first place, from `from` on, where `needle` stands in `text`.
fn find_chars(text: &Vec<char>, from: usize, needle: &Vec<char>) -> (found: Option<usize>)
    requires
        from <= text@.len(),
    ensures
        (match found {
            Some(at) => Some(at as int),
            None => None,
        }) == find_from(text@, from as int, needle@),
{
    if needle.len() > text.len() {
        return None;
    }
    let last: usize = text.len() - needle.len();
    let mut at: usize = from;
    if from > last {
        return None;
    }
    loop
        invariant
            last + needle@.len() == text.len(),
            at <= last,
            find_from(text@, from as int, needle@) == find_from(text@, at as int, needle@),
        decreases last - at,
    {
        let mut same: usize = 0;
        while same < needle.len() && text[at + same] == needle[same]
            invariant
                at <= last,
                last + needle@.len() == text.len(),
                same <= needle@.len(),
                forall|i: int| 0 <= i < same ==> text@[at + i] == needle@[i],
            decreases needle@.len() - same,
        {
            same = same + 1;
        }
        if same == needle.len() {
            assert(text@.subrange(at as int, at + needle@.len()) =~= needle@);
            return Some(at);
        }
        assert(text@.subrange(at as int, at + needle@.len())[same as int] != needle@[same as int]);
        if at == last {
            assert(find_from(text@, at + 1, needle@) is None);
            return None;
        }
        at = at + 1;
    }
}

/// Align timed rows with the canonical committed transcript.
///
/// The spans let callers recover punctuation and capitalization without
/// inventing timestamps for characters that have no row of their own. The walk
/// stops at the first row absent from the committed prefix, because no later
/// row can be committed either.
fn align_units(committed: &Vec<char>, units: &[Unit]) -> (result: (usize, Vec<Option<Span>>))
    ensures
        span_views(result.1@) == alignment(committed@, unit_rows(units@)).spans,
        result.0 == aligned_count(committed@, unit_rows(units@)),
        result.1@.len() == result.0,
        result.0 <= units@.len(),
{
    let ghost all = unit_rows(units@);
    let mut spans: Vec<Option<Span>> = Vec::new();
    let mut cursor: usize = 0;
    let mut index: usize = 0;
    assert(all.take(0) =~= Seq::empty());
    assert(span_views(spans@) =~= Seq::empty());
    while index < units.len()
        invariant
            all == unit_rows(units@),
            index <= units@.len(),
            cursor <= committed.len(),
            spans@.len() == index,
            ({
                let so_far = alignment(committed@, all.take(index as int));
                &&& so_far.complete
                &&& so_far.cursor == cursor
                &&& so_far.spans == span_views(spans@)
            }),
        decreases units@.len() - index,
    {
        let needle = chars_of(trim(units[index].text.as_str()));
        let ghost before = span_views(spans@);
        proof {
            assert(all.take(index + 1).drop_last() =~= all.take(index as int));
            assert(all.take(index + 1).last() == units@[index as int]@);
            found_in_bounds(committed@, cursor as int, needle@);
        }
        if needle.len() == 0 {
            spans.push(None);
            assert(span_views(spans@) =~= before.push(None));
        } else {
            match find_chars(committed, cursor, &needle) {
                Some(start) => {
                    assert(start + needle@.len() <= committed.len());
                    let end: usize = start + needle.len();
                    spans.push(Some(Span { start, end }));
                    assert(span_views(spans@) =~= before.push(Some((start as int, end as int))));
                    cursor = end;
                },
                None => {
                    proof {
                        alignment_stops(committed@, all, index as int);
                    }
                    return (index, spans);
                },
            }
        }
        index = index + 1;
    }
    assert(all.take(units@.len() as int) =~= all);
    (units.len(), spans)
}

/// Once a row is not found, no later row is looked for.
proof fn alignment_stops(committed: Seq<char>, rows: Seq<Row>, at: int)
    requires
        0 <= at < rows.len(),
        !alignment(committed, rows.take(at + 1)).complete,
    ensures
        alignment(committed, rows) == alignment(committed, rows.take(at + 1)),
    decreases rows.len(),
{
    if at + 1 == rows.len() {
        assert(rows.take(at + 1) =~= rows);
    } else {
        let front = rows.drop_last();
        assert(front.take(at + 1) =~= rows.take(at + 1));
        alignment_stops(committed, front, at);
    }
}

/// The nearest span in front of `index`, if any.
fn previous_span(spans: &Vec<Option<Span>>, index: usize) -> (found: Option<Span>)
    requires
        index <= spans@.len(),
    ensures
        (match found {
            Some(place) => Some((place.start as int, place.end as int)),
            None => None,
        }) == span_before(span_views(spans@), index as int),
{
    let mut at: usize = index;
    while at > 0
        invariant
            at <= spans@.len(),
            span_before(span_views(spans@), index as int) == span_before(
                span_views(spans@),
                at as int,
            ),
        decreases at,
    {
        if let Some(place) = spans[at - 1] {
            assert(span_views(spans@)[at - 1] == Some((place.start as int, place.end as int)));
            return Some(place);
        }
        assert(span_views(spans@)[at - 1] is None);
        at = at - 1;
    }
    None
}

/// The nearest span from `index` on, if any.
fn next_span(spans: &Vec<Option<Span>>, index: usize) -> (found: Option<Span>)
    requires
        index <= spans@.len(),
    ensures
        (match found {
            Some(place) => Some((place.start as int, place.end as int)),
            None => None,
        }) == span_from(span_views(spans@), index as int),
{
    let mut at: usize = index;
    while at < spans.len()
        invariant
            at <= spans@.len(),
            span_from(span_views(spans@), index as int) == span_from(span_views(spans@), at as int),
        decreases spans@.len() - at,
    {
        if let Some(place) = spans[at] {
            assert(span_views(spans@)[at as int] == Some((place.start as int, place.end as int)));
            return Some(place);
        }
        assert(span_views(spans@)[at as int] is None);
        at = at + 1;
    }
    None
}

/// Whether the characters from `from` to `to` are nothing but punctuation.
fn punctuation_only(text: &Vec<char>, from: usize, to: usize) -> (only: bool)
    requires
        from <= to <= text@.len(),
    ensures
        only == is_punctuation(text@.subrange(from as int, to as int)),
{
    let ghost part = text@.subrange(from as int, to as int);
    let mut at: usize = from;
    while at < to
        invariant
            from <= at <= to <= text@.len(),
            part == text@.subrange(from as int, to as int),
            forall|i: int|
                0 <= i < at - from ==> !text::is_letter_or_digit(#[trigger] part[i])
                    && !text::is_control_code(part[i]),
        decreases to - at,
    {
        assert(part[at - from] == text@[at as int]);
        if text[at].is_alphanumeric() || text[at].is_control() {
            return false;
        }
        at = at + 1;
    }
    true
}

/// Recover punctuation immediately surrounding one aligned timed row.
fn canonical_unit_text(
    committed: &str,
    chars: &Vec<char>,
    spans: &Vec<Option<Span>>,
    index: usize,
    fallback: &str,
) -> (canonical: String)
    requires
        chars@ == committed@,
        exists|cursor: int|
            spans_in_order(span_views(spans@), cursor, committed@.len() as int),
    ensures
        canonical@ == canonical_text(committed@, span_views(spans@), index as int, fallback@),
{
    if index >= spans.len() {
        return fallback.to_owned();
    }
    let ghost views = span_views(spans@);
    let place = match spans[index] {
        Some(place) => place,
        None => {
            assert(views[index as int] is None);
            return fallback.to_owned();
        },
    };
    let previous = previous_span(spans, index);
    let next = next_span(spans, index + 1);
    proof {
        assert(views[index as int] == Some((place.start as int, place.end as int)));
        neighbours_are_apart(views, index as int, committed@.len() as int);
    }

    let low: usize = match previous {
        Some(span) => span.end,
        None => 0,
    };
    let mut from: usize = place.start;
    while from > low && !chars[from - 1].is_whitespace()
        invariant
            low <= from <= place.start <= chars@.len(),
            run_start(chars@, low as int, place.start as int) == run_start(
                chars@,
                low as int,
                from as int,
            ),
        decreases from,
    {
        from = from - 1;
    }
    if !((previous.is_none() || from > low) && punctuation_only(chars, from, place.start)) {
        from = place.start;
    }

    let high: usize = match next {
        Some(span) => span.start,
        None => chars.len(),
    };
    let mut to: usize = place.end;
    while to < high && !chars[to].is_whitespace()
        invariant
            place.end <= to <= high <= chars@.len(),
            run_end(chars@, place.end as int, high as int) == run_end(
                chars@,
                to as int,
                high as int,
            ),
        decreases high - to,
    {
        to = to + 1;
    }
    if !punctuation_only(chars, place.end, to) {
        to = place.end;
    }
    committed.substring_char(from, to).to_owned()
}

/// A span lies between its neighbours.
proof fn neighbours_are_apart(spans: Seq<Option<(int, int)>>, index: int, len: int)
    requires
        0 <= index < spans.len(),
        spans[index] is Some,
        exists|cursor: int| spans_in_order(spans, cursor, len),
    ensures
        0 <= (spans[index]->0).0 <= (spans[index]->0).1 <= len,
        span_before(spans, index) matches Some((_, end)) ==> 0 <= end <= (spans[index]->0).0,
        span_from(spans, index + 1) matches Some((start, _)) ==> (spans[index]->0).1 <= start <= len,
{
    let cursor = choose|cursor: int| spans_in_order(spans, cursor, len);
    let before = span_before_is_a_span(spans, index);
    let after = span_from_is_a_span(spans, index + 1);
}

proof fn span_before_is_a_span(spans: Seq<Option<(int, int)>>, index: int) -> (at: int)
    requires
        0 <= index <= spans.len(),
    ensures
        span_before(spans, index) is Some ==> 0 <= at < index && spans[at] == span_before(
            spans,
            index,
        ),
    decreases index,
{
    if index <= 0 {
        0
    } else if spans[index - 1] is Some {
        index - 1
    } else {
        span_before_is_a_span(spans, index - 1)
    }
}

proof fn span_from_is_a_span(spans: Seq<Option<(int, int)>>, index: int) -> (at: int)
    requires
        0 <= index <= spans.len(),
    ensures
        span_from(spans, index) is Some ==> index <= at < spans.len() && spans[at] == span_from(
            spans,
            index,
        ),
    decreases spans.len() - index,
{
    if index >= spans.len() {
        index
    } else if spans[index] is Some {
        index
    } else {
        span_from_is_a_span(spans, index + 1)
    }
}

/// How much further the family must consume, without changing its mind about
/// the text, before the trailing row is released.
///
/// A word can be committed as a character prefix, "Ur" with "du" still to come,
/// so the trailing row is held back; without a release the last word before a
/// pause would be stranded until somebody spoke again. The margin is measured
/// from the last time the committed text *grew*: a row's own timestamp is no
/// evidence about its text.
pub const HOLDBACK_SETTLE_MS: i64 = 500;

/// How much of a stream has gone out, as a mathematical value.
pub struct Tracker {
    pub emitted_words: nat,
    pub emitted_bytes: nat,
    pub emitted_up_to_ms: i64,
    pub pending: Option<(i64, i64)>,
    pub observed_len: nat,
    pub last_growth_ms: i64,
}

/// The part of a text behind its first `count` bytes, or all of it where that
/// is not between two characters.
pub open spec fn tail_from(text: Seq<char>, count: int) -> Seq<char> {
    let bytes = utf8::encode_utf8(text);
    if utf8::is_char_boundary(bytes, count) {
        utf8::decode_utf8(bytes.subrange(count, bytes.len() as int))
    } else {
        text
    }
}

/// How far rows may go out before one that ends beyond the drained audio.
pub open spec fn drained_to(rows: Seq<Row>, from: int, to: int, audio_ms: i64) -> int
    decreases to - from,
{
    if from >= to || (audio_ms > 0 && rows[from].t1_ms > audio_ms) {
        from
    } else {
        drained_to(rows, from + 1, to, audio_ms)
    }
}

/// What goes out for the rows from `from` to `to`: rows with text, under their
/// canonical text, with times that are never negative in length.
pub open spec fn rows_out(
    committed: Seq<char>,
    spans: Seq<Option<(int, int)>>,
    rows: Seq<Row>,
    from: int,
    to: int,
) -> Seq<Row>
    decreases to - from,
{
    if to <= from {
        Seq::empty()
    } else {
        let before = rows_out(committed, spans, rows, from, to - 1);
        let row = rows[to - 1];
        if is_blank_text(row.text) {
            before
        } else {
            before.push(
                Row {
                    text: canonical_text(committed, spans, to - 1, text::trimmed(row.text)),
                    t0_ms: later(row.t0_ms, 0),
                    t1_ms: later(row.t1_ms, row.t0_ms),
                },
            )
        }
    }
}

/// The latest end among rows that went out, and what was there before.
pub open spec fn latest_end(rows: Seq<Row>, base: i64) -> i64
    decreases rows.len(),
{
    if rows.len() == 0 {
        base
    } else {
        later(latest_end(rows.drop_last(), base), rows.last().t1_ms)
    }
}

impl Tracker {
    /// Nothing has gone out.
    pub open spec fn initial() -> Tracker {
        Tracker {
            emitted_words: 0,
            emitted_bytes: 0,
            emitted_up_to_ms: 0,
            pending: None,
            observed_len: 0,
            last_growth_ms: 0,
        }
    }

    /// The tracker once the committed text was looked at. Committed text is
    /// append-only, so a length change is a growth.
    pub open spec fn observing(self, committed: Seq<char>, audio_ms: i64) -> Tracker {
        if text::utf8_len(committed) != self.observed_len {
            Tracker {
                observed_len: text::utf8_len(committed),
                last_growth_ms: audio_ms,
                ..self
            }
        } else {
            self
        }
    }

    /// Whether the family has consumed enough audio without appending anything.
    pub open spec fn has_settled(self, audio_ms: i64) -> bool {
        audio_ms - self.last_growth_ms >= HOLDBACK_SETTLE_MS
    }

    /// Whether the time since the text last grew can be expressed.
    pub open spec fn settle_fits(self, audio_ms: i64) -> bool {
        i64::MIN <= audio_ms - self.last_growth_ms <= i64::MAX
    }

    /// How many rows are safe to go out: all of them at the end; else those the
    /// committed text covers but the trailing one, which may still grow, unless
    /// nothing can follow it and the text has settled.
    pub open spec fn covered(
        self,
        committed: Seq<char>,
        rows: Seq<Row>,
        audio_ms: i64,
        finishing: bool,
    ) -> int {
        let aligned = aligned_count(committed, rows);
        if finishing {
            rows.len() as int
        } else if aligned > 0 && aligned == rows.len() && audio_ms > 0 && self.has_settled(
            audio_ms,
        ) {
            aligned
        } else if aligned > 0 {
            aligned - 1
        } else {
            0
        }
    }

    /// The first row to go out. Re-segmentation can merge rows, so the covered
    /// count is not guaranteed to be monotonic even though the text is.
    pub open spec fn first_out(
        self,
        committed: Seq<char>,
        rows: Seq<Row>,
        audio_ms: i64,
        finishing: bool,
    ) -> int {
        let covered = self.covered(committed, rows, audio_ms, finishing);
        if self.emitted_words <= covered {
            self.emitted_words as int
        } else {
            covered
        }
    }

    /// Behind the last row to go out.
    pub open spec fn end_out(
        self,
        committed: Seq<char>,
        rows: Seq<Row>,
        audio_ms: i64,
        finishing: bool,
    ) -> int {
        let covered = self.covered(committed, rows, audio_ms, finishing);
        let first = self.first_out(committed, rows, audio_ms, finishing);
        if finishing {
            covered
        } else {
            drained_to(rows, first, covered, audio_ms)
        }
    }

    /// The span of text that goes out for a family without alignment: what was
    /// committed since, up to the drain point.
    pub open spec fn untimed_out(self, committed: Seq<char>, audio_ms: i64) -> Seq<Row> {
        let delta = text::trimmed(tail_from(committed, self.emitted_bytes as int));
        if text::utf8_len(committed) <= self.emitted_bytes || delta.len() == 0 {
            Seq::empty()
        } else {
            seq![
                Row {
                    text: delta,
                    t0_ms: self.emitted_up_to_ms,
                    t1_ms: later(audio_ms, self.emitted_up_to_ms),
                },
            ]
        }
    }

    /// What goes out.
    pub open spec fn out(
        self,
        committed: Seq<char>,
        rows: Seq<Row>,
        audio_ms: i64,
        finishing: bool,
    ) -> Seq<Row> {
        let observed = self.observing(committed, audio_ms);
        if rows.len() == 0 {
            observed.untimed_out(committed, audio_ms)
        } else {
            rows_out(
                committed,
                alignment(committed, rows).spans,
                rows,
                observed.first_out(committed, rows, audio_ms, finishing),
                observed.end_out(committed, rows, audio_ms, finishing),
            )
        }
    }

    /// The tracker afterwards.
    pub open spec fn after(
        self,
        committed: Seq<char>,
        rows: Seq<Row>,
        audio_ms: i64,
        finishing: bool,
    ) -> Tracker {
        let observed = self.observing(committed, audio_ms);
        let out = self.out(committed, rows, audio_ms, finishing);
        let length = text::utf8_len(committed);
        if rows.len() == 0 {
            Tracker {
                emitted_bytes: if length <= self.emitted_bytes {
                    self.emitted_bytes
                } else {
                    length
                },
                emitted_up_to_ms: if out.len() == 0 {
                    self.emitted_up_to_ms
                } else {
                    out[0].t1_ms
                },
                ..observed
            }
        } else {
            let first = observed.first_out(committed, rows, audio_ms, finishing);
            let end = observed.end_out(committed, rows, audio_ms, finishing);
            let emitted_words = if end > first {
                end as nat
            } else {
                self.emitted_words
            };
            Tracker {
                emitted_words,
                emitted_bytes: length,
                emitted_up_to_ms: latest_end(out, self.emitted_up_to_ms),
                pending: if emitted_words < rows.len() {
                    Some((rows[emitted_words as int].t0_ms, rows[emitted_words as int].t1_ms))
                } else {
                    None
                },
                ..observed
            }
        }
    }
}

/// Tracks how much of a stream's committed text has already been emitted.
///
/// One instance per stream; drop it when the stream is reset or finalized.
#[derive(Debug)]
pub struct CommitTracker {
    /// Number of word rows already emitted.
    emitted_words: usize,
    /// Bytes of the committed prefix already emitted. Only used by the untimed
    /// fallback, where there are no word rows to count.
    emitted_bytes: usize,
    /// End of the last emitted word, for synthesizing spans in the fallback.
    emitted_up_to_ms: i64,
    /// Start and end of the first row not yet emitted, if any. Nothing may be
    /// published at or after its start until that row goes out, or it would be
    /// dragged forward to make room.
    pending: Option<(i64, i64)>,
    /// Length of the committed text when it was last seen to grow, and the
    /// family's audio edge at that moment.
    observed_len: usize,
    last_growth_ms: i64,
}

impl View for CommitTracker {
    type V = Tracker;

    closed spec fn view(&self) -> Tracker {
        Tracker {
            emitted_words: self.emitted_words as nat,
            emitted_bytes: self.emitted_bytes as nat,
            emitted_up_to_ms: self.emitted_up_to_ms,
            pending: self.pending,
            observed_len: self.observed_len as nat,
            last_growth_ms: self.last_growth_ms,
        }
    }
}

impl Default for CommitTracker {
    fn default() -> (tracker: Self)
        ensures
            tracker@ == Tracker::initial(),
    {
        CommitTracker {
            emitted_words: 0,
            emitted_bytes: 0,
            emitted_up_to_ms: 0,
            pending: None,
            observed_len: 0,
            last_growth_ms: 0,
        }
    }
}

impl CommitTracker {
    /// Words newly covered by `committed` that have not been emitted yet.
    ///
    /// `audio_committed_ms` is how far the family has drained the audio; pass 0
    /// to skip the temporal check, where the family does not report progress.
    pub fn take_new(&mut self, committed: &str, units: &[Unit], audio_committed_ms: i64) -> (words:
        Vec<TimedWord>)
        requires
            audio_committed_ms > 0 ==> old(self)@.observing(
                committed@,
                audio_committed_ms,
            ).settle_fits(audio_committed_ms),
        ensures
            timed_rows(words@) == old(self)@.out(
                committed@,
                unit_rows(units@),
                audio_committed_ms,
                false,
            ),
            final(self)@ == old(self)@.after(
                committed@,
                unit_rows(units@),
                audio_committed_ms,
                false,
            ),
    {
        self.take(committed, units, audio_committed_ms, false)
    }

    /// Everything left, ignoring both stability checks. For the end of a stream.
    pub fn take_final(&mut self, committed: &str, units: &[Unit], audio_committed_ms: i64) -> (
        words: Vec<TimedWord>)
        ensures
            timed_rows(words@) == old(self)@.out(
                committed@,
                unit_rows(units@),
                audio_committed_ms,
                true,
            ),
            final(self)@ == old(self)@.after(
                committed@,
                unit_rows(units@),
                audio_committed_ms,
                true,
            ),
    {
        self.take(committed, units, audio_committed_ms, true)
    }

    fn take(
        &mut self,
        committed: &str,
        units: &[Unit],
        audio_committed_ms: i64,
        finishing: bool,
    ) -> (words: Vec<TimedWord>)
        requires
            audio_committed_ms > 0 && !finishing ==> old(self)@.observing(
                committed@,
                audio_committed_ms,
            ).settle_fits(audio_committed_ms),
        ensures
            timed_rows(words@) == old(self)@.out(
                committed@,
                unit_rows(units@),
                audio_committed_ms,
                finishing,
            ),
            final(self)@ == old(self)@.after(
                committed@,
                unit_rows(units@),
                audio_committed_ms,
                finishing,
            ),
    {
        let ghost before = self@;
        let ghost rows = unit_rows(units@);
        let length: usize = committed.as_bytes().len();
        if length != self.observed_len {
            self.observed_len = length;
            self.last_growth_ms = audio_committed_ms;
        }
        let ghost observed = self@;
        assert(observed == before.observing(committed@, audio_committed_ms));
        if units.len() == 0 {
            return self.take_untimed(committed, audio_committed_ms);
        }

        let chars = chars_of(committed);
        let (aligned, spans) = align_units(&chars, units);
        proof {
            rows_align_in_order(committed@, rows);
        }
        let covered: usize = if finishing {
            units.len()
        } else {
            // Anything with a row after it has provably ended, so hold back
            // exactly one row, unless no successor can arrive to release it: a
            // row followed by tentative content may still absorb it and grow.
            let settled = aligned > 0 && aligned == units.len() && audio_committed_ms > 0
                && self.text_has_settled(audio_committed_ms);
            if settled {
                aligned
            } else if aligned > 0 {
                aligned - 1
            } else {
                0
            }
        };
        let start: usize = if self.emitted_words <= covered {
            self.emitted_words
        } else {
            covered
        };
        assert(covered == observed.covered(committed@, rows, audio_committed_ms, finishing));
        assert(start == observed.first_out(committed@, rows, audio_committed_ms, finishing));

        let ghost views = alignment(committed@, rows).spans;
        let mut out: Vec<TimedWord> = Vec::new();
        let mut index: usize = start;
        let mut drained = true;
        assert(timed_rows(out@) =~= Seq::empty());
        while drained && index < covered
            invariant
                start <= index <= covered <= units@.len(),
                rows == unit_rows(units@),
                chars@ == committed@,
                views == span_views(spans@),
                exists|cursor: int| spans_in_order(views, cursor, committed@.len() as int),
                timed_rows(out@) == rows_out(committed@, views, rows, start as int, index as int),
                self@ == (Tracker {
                    emitted_words: if index > start {
                        index as nat
                    } else {
                        before.emitted_words
                    },
                    emitted_up_to_ms: latest_end(timed_rows(out@), before.emitted_up_to_ms),
                    ..observed
                }),
                !finishing ==> drained_to(
                    rows,
                    start as int,
                    covered as int,
                    audio_committed_ms,
                ) == if drained {
                    drained_to(rows, index as int, covered as int, audio_committed_ms)
                } else {
                    index as int
                },
                finishing ==> drained,
            decreases covered - index, drained as int,
        {
            let word = &units[index];
            assert(rows[index as int] == word@);
            // The family has not drained this far yet: stop, and pick the word
            // up on a later call.
            if !finishing && audio_committed_ms > 0 && word.t1_ms > audio_committed_ms {
                drained = false;
            } else {
                let fallback = trim(word.text.as_str());
                self.emitted_words = index + 1;
                if !fallback.is_empty() {
                    // Some model families put punctuation only in the committed
                    // transcript while their timed rows contain bare words.
                    // Project the surrounding punctuation onto the row.
                    let text = canonical_unit_text(committed, &chars, &spans, index, fallback);
                    // Guard against a family that emits zero- or
                    // negative-length spans.
                    let t1_ms: i64 = if word.t1_ms >= word.t0_ms {
                        word.t1_ms
                    } else {
                        word.t0_ms
                    };
                    let t0_ms: i64 = if word.t0_ms >= 0 {
                        word.t0_ms
                    } else {
                        0
                    };
                    if t1_ms > self.emitted_up_to_ms {
                        self.emitted_up_to_ms = t1_ms;
                    }
                    let ghost so_far = timed_rows(out@);
                    out.push(TimedWord { text, t0_ms, t1_ms });
                    assert(timed_rows(out@) =~= rows_out(
                        committed@,
                        views,
                        rows,
                        start as int,
                        index + 1,
                    ));
                    assert(timed_rows(out@).drop_last() =~= so_far);
                }
                index = index + 1;
            }
        }

        self.emitted_bytes = length;
        self.pending = if self.emitted_words < units.len() {
            let unit = &units[self.emitted_words];
            assert(rows[self.emitted_words as int] == unit@);
            Some((unit.t0_ms, unit.t1_ms))
        } else {
            None
        };
        out
    }

    /// The first row still waiting to go out, as start and end milliseconds.
    pub fn pending(&self) -> (pending: Option<(i64, i64)>)
        ensures
            pending == self@.pending,
    {
        self.pending
    }

    /// Whether a row is waiting whose ambiguity the family has already
    /// resolved, so it can be released without waiting for a successor.
    pub fn pending_is_settled(&self, audio_committed_ms: i64) -> (settled: bool)
        requires
            self@.pending is Some ==> self@.settle_fits(audio_committed_ms),
        ensures
            settled == (self@.pending is Some && self@.has_settled(audio_committed_ms)),
    {
        self.pending.is_some() && self.text_has_settled(audio_committed_ms)
    }

    /// Whether the time since the text last grew can be expressed.
    pub fn settle_is_measurable(&self, audio_committed_ms: i64) -> (measurable: bool)
        ensures
            measurable == self@.settle_fits(audio_committed_ms),
    {
        audio_committed_ms.checked_sub(self.last_growth_ms).is_some()
    }

    /// Whether the family has consumed [`HOLDBACK_SETTLE_MS`] of audio without
    /// appending anything, so the trailing row has provably stopped growing.
    fn text_has_settled(&self, audio_committed_ms: i64) -> (settled: bool)
        requires
            self@.settle_fits(audio_committed_ms),
        ensures
            settled == self@.has_settled(audio_committed_ms),
    {
        audio_committed_ms - self.last_growth_ms >= HOLDBACK_SETTLE_MS
    }

    /// How far the timeline may be closed.
    ///
    /// Closing past a pending row's start would force that row forward when it
    /// finally goes out, since output timestamps only move forward. So the
    /// frontier stops there, and reaches the family's committed edge only when
    /// nothing is waiting.
    pub fn frontier(&self, audio_committed_ms: i64) -> (frontier_ms: i64)
        ensures
            frontier_ms == match self@.pending {
                Some((t0_ms, _)) => if t0_ms < audio_committed_ms {
                    t0_ms
                } else {
                    audio_committed_ms
                },
                None => audio_committed_ms,
            },
            frontier_ms <= audio_committed_ms,
            self@.pending matches Some((t0_ms, _)) ==> frontier_ms <= t0_ms,
    {
        match self.pending {
            Some((t0_ms, _)) => if t0_ms < audio_committed_ms {
                t0_ms
            } else {
                audio_committed_ms
            },
            None => audio_committed_ms,
        }
    }

    /// A family that produced no timed rows: emit the new committed text as a
    /// single span ending at the family's drain point.
    fn take_untimed(&mut self, committed: &str, audio_committed_ms: i64) -> (words: Vec<TimedWord>)
        ensures
            timed_rows(words@) == old(self)@.untimed_out(committed@, audio_committed_ms),
            ({
                let length = text::utf8_len(committed@);
                let out = old(self)@.untimed_out(committed@, audio_committed_ms);
                final(self)@ == (Tracker {
                    emitted_bytes: if length <= old(self)@.emitted_bytes {
                        old(self)@.emitted_bytes
                    } else {
                        length
                    },
                    emitted_up_to_ms: if out.len() == 0 {
                        old(self)@.emitted_up_to_ms
                    } else {
                        out[0].t1_ms
                    },
                    ..old(self)@
                })
            }),
    {
        broadcast use {utf8::encode_utf8_valid_utf8, utf8::encode_utf8_decode_utf8};

        let mut out: Vec<TimedWord> = Vec::new();
        assert(timed_rows(out@) =~= Seq::empty());
        let length: usize = committed.as_bytes().len();
        if length <= self.emitted_bytes {
            return out;
        }
        // The committed text is append-only, but be defensive about a family
        // that rewrites it anyway: only trust the tail if the prefix still ends
        // between two characters.
        let delta = if committed.is_char_boundary(self.emitted_bytes) {
            committed.split_at(self.emitted_bytes).1
        } else {
            committed
        };
        assert(delta@ == tail_from(committed@, self.emitted_bytes as int));
        let text = trim(delta);
        self.emitted_bytes = length;
        if text.is_empty() {
            return out;
        }
        let t0_ms: i64 = self.emitted_up_to_ms;
        let t1_ms: i64 = if audio_committed_ms > t0_ms {
            audio_committed_ms
        } else {
            t0_ms
        };
        self.emitted_up_to_ms = t1_ms;
        out.push(TimedWord { text: text.to_owned(), t0_ms, t1_ms });
        assert(timed_rows(out@) =~= old(self)@.untimed_out(committed@, audio_committed_ms));
        out
    }
}

/// Rows drain up to a row that has not ended, and no further on a second look.
proof fn draining_stops(rows: Seq<Row>, from: int, to: int, audio_ms: i64)
    requires
        0 <= from <= to <= rows.len(),
    ensures
        ({
            let end = drained_to(rows, from, to, audio_ms);
            &&& from <= end <= to
            &&& drained_to(rows, end, to, audio_ms) == end
            &&& end < to ==> audio_ms > 0 && rows[end].t1_ms > audio_ms
            &&& forall|i: int|
                from <= i < end && audio_ms > 0 ==> (#[trigger] rows[i]).t1_ms <= audio_ms
        }),
    decreases to - from,
{
    if from < to && !(audio_ms > 0 && rows[from].t1_ms > audio_ms) {
        draining_stops(rows, from + 1, to, audio_ms);
    }
}

/// The rows that a call lets out, and where they lie.
proof fn rows_out_bounds(
    tracker: Tracker,
    committed: Seq<char>,
    rows: Seq<Row>,
    audio_ms: i64,
    finishing: bool,
)
    ensures
        ({
            let covered = tracker.covered(committed, rows, audio_ms, finishing);
            let first = tracker.first_out(committed, rows, audio_ms, finishing);
            let end = tracker.end_out(committed, rows, audio_ms, finishing);
            &&& 0 <= first <= end <= covered <= rows.len()
            &&& end > first ==> first == tracker.emitted_words
        }),
{
    rows_align_in_order(committed, rows);
    let covered = tracker.covered(committed, rows, audio_ms, finishing);
    let first = tracker.first_out(committed, rows, audio_ms, finishing);
    draining_stops(rows, first, covered, audio_ms);
}

/// Output is append-only and each row goes out once: the count of emitted rows
/// never falls, and a call lets out exactly the rows between the count before
/// it and the count after it.
pub proof fn each_row_goes_out_once(
    tracker: Tracker,
    committed: Seq<char>,
    rows: Seq<Row>,
    audio_ms: i64,
    finishing: bool,
)
    requires
        rows.len() > 0,
    ensures
        ({
            let after = tracker.after(committed, rows, audio_ms, finishing);
            &&& tracker.emitted_words <= after.emitted_words
            &&& tracker.out(committed, rows, audio_ms, finishing) == rows_out(
                committed,
                alignment(committed, rows).spans,
                rows,
                tracker.emitted_words as int,
                after.emitted_words as int,
            )
        }),
{
    let observed = tracker.observing(committed, audio_ms);
    rows_out_bounds(observed, committed, rows, audio_ms, finishing);
}

proof fn rows_out_splits(
    committed: Seq<char>,
    spans: Seq<Option<(int, int)>>,
    rows: Seq<Row>,
    from: int,
    mid: int,
    to: int,
)
    requires
        from <= mid <= to,
    ensures
        rows_out(committed, spans, rows, from, to) == rows_out(committed, spans, rows, from, mid)
            + rows_out(committed, spans, rows, mid, to),
    decreases to - mid,
{
    let head = rows_out(committed, spans, rows, from, mid);
    if mid == to {
        assert(rows_out(committed, spans, rows, mid, to) =~= Seq::empty());
        assert(head + rows_out(committed, spans, rows, mid, to) =~= head);
    } else {
        rows_out_splits(committed, spans, rows, from, mid, to - 1);
        assert(rows_out(committed, spans, rows, from, to) =~= head + rows_out(
            committed,
            spans,
            rows,
            mid,
            to,
        ));
    }
}

/// Letting words out as they settle loses nothing against waiting for the end:
/// what goes out of a snapshot before the end and at the end is, put together,
/// what the end alone lets out.
pub proof fn incremental_output_adds_up(
    tracker: Tracker,
    committed: Seq<char>,
    rows: Seq<Row>,
    audio_ms: i64,
    drained_ms: i64,
)
    requires
        rows.len() > 0,
    ensures
        tracker.out(committed, rows, audio_ms, false) + tracker.after(
            committed,
            rows,
            audio_ms,
            false,
        ).out(committed, rows, drained_ms, true) == tracker.out(committed, rows, drained_ms, true),
{
    let middle = tracker.after(committed, rows, audio_ms, false);
    each_row_goes_out_once(tracker, committed, rows, audio_ms, false);
    each_row_goes_out_once(middle, committed, rows, drained_ms, true);
    each_row_goes_out_once(tracker, committed, rows, drained_ms, true);
    let whole = tracker.after(committed, rows, drained_ms, true);
    let last = middle.after(committed, rows, drained_ms, true);
    rows_out_bounds(
        tracker.observing(committed, audio_ms),
        committed,
        rows,
        audio_ms,
        false,
    );
    assert(whole.emitted_words == last.emitted_words);
    rows_out_splits(
        committed,
        alignment(committed, rows).spans,
        rows,
        tracker.emitted_words as int,
        middle.emitted_words as int,
        last.emitted_words as int,
    );
}

/// The same snapshot again, at the end of a stream or before it, lets nothing out
/// and changes nothing more: the row that waits is the one that waited.
pub proof fn a_repeated_snapshot_emits_nothing(
    tracker: Tracker,
    committed: Seq<char>,
    rows: Seq<Row>,
    audio_ms: i64,
    finishing: bool,
)
    ensures
        ({
            let after = tracker.after(committed, rows, audio_ms, finishing);
            &&& after.out(committed, rows, audio_ms, finishing) == Seq::<Row>::empty()
            &&& after.after(committed, rows, audio_ms, finishing) == after
        }),
{
    let observed = tracker.observing(committed, audio_ms);
    let after = tracker.after(committed, rows, audio_ms, finishing);
    assert(after.observing(committed, audio_ms) == after);
    if rows.len() > 0 {
        rows_out_bounds(observed, committed, rows, audio_ms, finishing);
        let covered = observed.covered(committed, rows, audio_ms, finishing);
        let first = observed.first_out(committed, rows, audio_ms, finishing);
        draining_stops(rows, first, covered, audio_ms);
        assert(after.covered(committed, rows, audio_ms, finishing) == covered);
    }
}

/// The rows that carry text.
pub open spec fn spoken(rows: Seq<Row>) -> Seq<Row> {
    rows.filter(|row: Row| !is_blank_text(row.text))
}

/// Whether words have the times of rows, one for one and in order: from no earlier
/// than zero, and over no negative length.
pub open spec fn timed_like(words: Seq<Row>, rows: Seq<Row>) -> bool {
    &&& words.len() == rows.len()
    &&& forall|i: int|
        0 <= i < words.len() ==> (#[trigger] words[i]).t0_ms == later(rows[i].t0_ms, 0)
            && words[i].t1_ms == later(rows[i].t1_ms, rows[i].t0_ms)
}

/// Finalizing leaves nothing: one word goes out for each row with text that is
/// left, in order, whatever is committed and drained; no row is waiting afterwards,
/// and whatever is asked of the same snapshot next gives nothing.
pub proof fn finalizing_leaves_nothing(
    tracker: Tracker,
    committed: Seq<char>,
    rows: Seq<Row>,
    audio_ms: i64,
    again_finishing: bool,
)
    requires
        rows.len() > 0,
    ensures
        ({
            let done = if tracker.emitted_words <= rows.len() {
                tracker.emitted_words as int
            } else {
                rows.len() as int
            };
            let after = tracker.after(committed, rows, audio_ms, true);
            &&& timed_like(
                tracker.out(committed, rows, audio_ms, true),
                spoken(rows.skip(done)),
            )
            &&& after.pending is None
            &&& after.emitted_words >= rows.len()
            &&& after.out(committed, rows, audio_ms, again_finishing) == Seq::<Row>::empty()
            &&& after.after(committed, rows, audio_ms, again_finishing).pending is None
        }),
{
    let observed = tracker.observing(committed, audio_ms);
    rows_out_bounds(observed, committed, rows, audio_ms, true);
    let after = tracker.after(committed, rows, audio_ms, true);
    assert(after.observing(committed, audio_ms) == after);
    rows_out_bounds(after, committed, rows, audio_ms, again_finishing);
    let first = observed.first_out(committed, rows, audio_ms, true);
    rows_with_text_go_out(
        committed,
        alignment(committed, rows).spans,
        rows,
        first,
        rows.len() as int,
    );
    assert(rows.subrange(first, rows.len() as int) =~= rows.skip(first));
}

proof fn rows_with_text_go_out(
    committed: Seq<char>,
    spans: Seq<Option<(int, int)>>,
    rows: Seq<Row>,
    from: int,
    to: int,
)
    requires
        0 <= from <= to <= rows.len(),
    ensures
        timed_like(rows_out(committed, spans, rows, from, to), spoken(rows.subrange(from, to))),
    decreases to - from,
{
    reveal(Seq::filter);
    if from < to {
        rows_with_text_go_out(committed, spans, rows, from, to - 1);
        assert(rows.subrange(from, to).drop_last() =~= rows.subrange(from, to - 1));
    }
}

/// The trailing row that the committed text covers is held back while it may still
/// grow, and exactly that one. A call lets out rows up to the one in front of it,
/// and that row too once nothing can follow it and the text has not grown for long
/// enough; rows that the committed text does not cover never go out. It stops
/// earlier only at a row that ends beyond the drained audio.
pub proof fn the_trailing_row_is_held_back(
    tracker: Tracker,
    committed: Seq<char>,
    rows: Seq<Row>,
    audio_ms: i64,
)
    requires
        rows.len() > 0,
    ensures
        ({
            let aligned = aligned_count(committed, rows);
            let after = tracker.after(committed, rows, audio_ms, false);
            let settled = aligned == rows.len() && audio_ms > 0 && audio_ms - after.last_growth_ms
                >= HOLDBACK_SETTLE_MS;
            let bound = if settled {
                aligned
            } else {
                aligned - 1
            };
            &&& tracker.out(committed, rows, audio_ms, false) == rows_out(
                committed,
                alignment(committed, rows).spans,
                rows,
                tracker.emitted_words as int,
                after.emitted_words as int,
            )
            &&& after.emitted_words > tracker.emitted_words ==> after.emitted_words <= bound
            &&& aligned == 0 ==> tracker.out(committed, rows, audio_ms, false) == Seq::<
                Row,
            >::empty()
            &&& audio_ms > 0 ==> forall|i: int|
                tracker.emitted_words <= i < after.emitted_words ==> (#[trigger] rows[i]).t1_ms
                    <= audio_ms
            &&& after.emitted_words < bound ==> audio_ms > 0
                && rows[after.emitted_words as int].t1_ms > audio_ms
        }),
{
    rows_align_in_order(committed, rows);
    each_row_goes_out_once(tracker, committed, rows, audio_ms, false);
    let observed = tracker.observing(committed, audio_ms);
    rows_out_bounds(observed, committed, rows, audio_ms, false);
    let covered = observed.covered(committed, rows, audio_ms, false);
    let first = observed.first_out(committed, rows, audio_ms, false);
    draining_stops(rows, first, covered, audio_ms);
}

/// Whether a text is without whitespace.
pub open spec fn is_unbroken(text: Seq<char>) -> bool {
    forall|i: int| 0 <= i < text.len() ==> !text::is_blank(#[trigger] text[i])
}

/// A row that stands in the committed text goes out as its own text with nothing
/// but punctuation around it, and no whitespace between.
pub proof fn aligned_rows_keep_their_text(committed: Seq<char>, rows: Seq<Row>, index: int)
    requires
        0 <= index < alignment(committed, rows).spans.len(),
        !is_blank_text(rows[index].text),
    ensures
        ({
            let spans = alignment(committed, rows).spans;
            let own = text::trimmed(rows[index].text);
            &&& spans[index] is Some
            &&& ({
                let (start, end) = spans[index]->0;
                let from = canonical_start(committed, spans, index, start);
                let to = canonical_end(committed, spans, index, end);
                &&& 0 <= from <= start <= end <= to <= committed.len()
                &&& is_punctuation(committed.subrange(from, start))
                &&& is_unbroken(committed.subrange(from, start))
                &&& is_punctuation(committed.subrange(end, to))
                &&& is_unbroken(committed.subrange(end, to))
                &&& canonical_text(committed, spans, index, own) == committed.subrange(from, start)
                    + own + committed.subrange(end, to)
            })
        }),
{
    rows_align_in_order(committed, rows);
    let result = alignment(committed, rows);
    let spans = result.spans;
    assert(spans_in_order(spans, result.cursor, committed.len() as int));
    neighbours_are_apart(spans, index, committed.len() as int);
    let (start, end) = spans[index]->0;
    let low = match span_before(spans, index) {
        Some((_, stop)) => stop,
        None => 0,
    };
    let high = match span_from(spans, index + 1) {
        Some((begin, _)) => begin,
        None => committed.len() as int,
    };
    runs_are_unbroken(committed, low, start);
    runs_are_unbroken(committed, end, high);
    let from = canonical_start(committed, spans, index, start);
    let to = canonical_end(committed, spans, index, end);
    assert(committed.subrange(start, start) =~= Seq::empty());
    assert(committed.subrange(end, end) =~= Seq::empty());
    assert(committed.subrange(from, to) =~= committed.subrange(from, start) + committed.subrange(
        start,
        end,
    ) + committed.subrange(end, to));
}

/// No character goes out with two rows: the texts that two rows go out with stand
/// one behind the other in the committed text.
pub proof fn rows_share_no_text(committed: Seq<char>, rows: Seq<Row>, first: int, second: int)
    requires
        0 <= first < second < alignment(committed, rows).spans.len(),
        alignment(committed, rows).spans[first] is Some,
        alignment(committed, rows).spans[second] is Some,
    ensures
        ({
            let spans = alignment(committed, rows).spans;
            canonical_end(committed, spans, first, (spans[first]->0).1) <= canonical_start(
                committed,
                spans,
                second,
                (spans[second]->0).0,
            )
        }),
{
    rows_align_in_order(committed, rows);
    let result = alignment(committed, rows);
    let spans = result.spans;
    assert(spans_in_order(spans, result.cursor, committed.len() as int));
    neighbours_are_apart(spans, first, committed.len() as int);
    neighbours_are_apart(spans, second, committed.len() as int);
    let next = span_behind_comes_first(spans, first + 1, second);
    let previous = span_in_front_comes_last(spans, second, first);
    let end = (spans[first]->0).1;
    let start = (spans[second]->0).0;
    let high = (spans[next]->0).0;
    let low = (spans[previous]->0).1;
    runs_are_unbroken(committed, end, high);
    runs_are_unbroken(committed, low, start);
    if next == second {
        assert(previous == first);
    } else {
        assert(next <= previous);
        assert(high <= low);
    }
}

/// Runs stay between their bounds, hold no whitespace, and end at it.
proof fn runs_are_unbroken(text: Seq<char>, low: int, high: int)
    requires
        low <= high,
    ensures
        ({
            let from = run_start(text, low, high);
            let to = run_end(text, low, high);
            &&& low <= from <= high
            &&& low <= to <= high
            &&& forall|i: int| from <= i < high ==> !text::is_blank(#[trigger] text[i])
            &&& forall|i: int| low <= i < to ==> !text::is_blank(#[trigger] text[i])
            &&& from > low ==> text::is_blank(text[from - 1]) && to < from
        }),
    decreases high - low,
{
    if low < high {
        runs_are_unbroken(text, low, high - 1);
        runs_are_unbroken(text, low + 1, high);
    }
}

/// The nearest span from a place on is at no later place than any other.
proof fn span_behind_comes_first(spans: Seq<Option<(int, int)>>, index: int, at: int) -> (near: int)
    requires
        0 <= index <= at < spans.len(),
        spans[at] is Some,
    ensures
        index <= near <= at,
        spans[near] is Some,
        spans[near] == span_from(spans, index),
        forall|i: int| index <= i < near ==> #[trigger] spans[i] is None,
    decreases at - index,
{
    if spans[index] is Some {
        index
    } else {
        span_behind_comes_first(spans, index + 1, at)
    }
}

/// The nearest span in front of a place is at no earlier place than any other.
proof fn span_in_front_comes_last(spans: Seq<Option<(int, int)>>, index: int, at: int) -> (near:
    int)
    requires
        0 <= at < index <= spans.len(),
        spans[at] is Some,
    ensures
        at <= near < index,
        spans[near] is Some,
        spans[near] == span_before(spans, index),
        forall|i: int| near < i < index ==> #[trigger] spans[i] is None,
    decreases index - at,
{
    if spans[index - 1] is Some {
        index - 1
    } else {
        span_in_front_comes_last(spans, index - 1, at)
    }
}

/// The texts of rows, one behind the other.
pub open spec fn text_of_rows(rows: Seq<Row>) -> Seq<char>
    decreases rows.len(),
{
    if rows.len() == 0 {
        Seq::empty()
    } else {
        text_of_rows(rows.drop_last()) + rows.last().text
    }
}

/// The texts of tokens that are not blank, one behind the other.
pub open spec fn text_of_pieces(tokens: Seq<Piece>) -> Seq<char>
    decreases tokens.len(),
{
    if tokens.len() == 0 {
        Seq::empty()
    } else if is_blank_text(tokens.last().text) {
        text_of_pieces(tokens.drop_last())
    } else {
        text_of_pieces(tokens.drop_last()) + tokens.last().text
    }
}

/// Joining tokens into words loses no text and adds none: the words, one behind
/// the other, read as the tokens that are not blank.
pub proof fn joining_keeps_the_text(tokens: Seq<Piece>)
    ensures
        text_of_rows(joined(tokens)) == text_of_pieces(tokens),
        joined(tokens).len() <= tokens.len(),
        joined(tokens).len() == 0 ==> joining(tokens).start_next,
    decreases tokens.len(),
{
    if tokens.len() > 0 {
        let front = tokens.drop_last();
        let piece = tokens.last();
        joining_keeps_the_text(front);
        let before = joining(front).rows;
        let after = joined(tokens);
        if !is_blank_text(piece.text) {
            if before.len() > 0 && !starts_word(joining(front), piece) {
                assert(after.drop_last() =~= before.drop_last());
                assert(text_of_rows(before.drop_last()) + (before.last().text + piece.text)
                    =~= text_of_rows(before.drop_last()) + before.last().text + piece.text);
            } else {
                assert(after.drop_last() =~= before);
            }
        }
    }
}

/// No aligned row is lost. A transcript that reports no alignment has no rows. One that
/// has words has one row per word, one that only has segments one row per segment, in
/// order, each with its text and its times; one with neither has its tokens, joined.
pub proof fn no_aligned_row_is_lost(transcript: Transcript)
    ensures
        ({
            let rows = finest_rows(transcript);
            let timed = transcript.timestamp_kind != TimestampKind::Untimed;
            &&& !timed ==> rows.len() == 0
            &&& timed && transcript.words@.len() > 0 ==> rows.len() == transcript.words@.len()
                && forall|i: int|
                0 <= i < rows.len() ==> (#[trigger] rows[i]).text == transcript.words@[i].text@
                    && rows[i].t0_ms == transcript.words@[i].t0_ms && rows[i].t1_ms
                    == transcript.words@[i].t1_ms
            &&& timed && transcript.words@.len() == 0 && transcript.segments@.len() > 0
                ==> rows.len() == transcript.segments@.len() && forall|i: int|
                0 <= i < rows.len() ==> (#[trigger] rows[i]).text == transcript.segments@[i].text@
                    && rows[i].t0_ms == transcript.segments@[i].t0_ms && rows[i].t1_ms
                    == transcript.segments@[i].t1_ms
            &&& timed && transcript.words@.len() == 0 && transcript.segments@.len() == 0 ==> rows
                == joined(pieces(transcript.tokens@))
        }),
        pieces(transcript.tokens@).len() == transcript.tokens@.len(),
        forall|i: int|
            0 <= i < transcript.tokens@.len() ==> (#[trigger] pieces(transcript.tokens@)[i]).text
                == transcript.tokens@[i].text@ && pieces(transcript.tokens@)[i].word_index
                == transcript.tokens@[i].word_index && pieces(transcript.tokens@)[i].t0_ms
                == transcript.tokens@[i].t0_ms && pieces(transcript.tokens@)[i].t1_ms
                == transcript.tokens@[i].t1_ms,
{
}

/// A text is blank exactly where it holds nothing but whitespace.
pub proof fn blank_text_is_all_whitespace(text: Seq<char>)
    ensures
        is_blank_text(text) <==> forall|i: int|
            0 <= i < text.len() ==> text::is_blank(#[trigger] text[i]),
{
    let ends = text::trimming_takes_whitespace_only(text);
    if !is_blank_text(text) {
        assert(!text::is_blank(text[ends.0]));
    } else {
        assert(ends.0 == ends.1);
        assert forall|i: int| 0 <= i < text.len() implies text::is_blank(#[trigger] text[i]) by {
            if i < ends.0 {
            } else {
                assert(i >= ends.1);
            }
        }
    }
}

/// What one more token does to the words before it. A blank one changes none. Another
/// begins a word, with its own text and times, where it is the first, where whitespace
/// stands in front of it, where the family gives it another word than the token in
/// front of it, and where the family gives it none and it begins with whitespace.
/// Otherwise it goes on with the last word, which then ends no sooner than either.
pub proof fn a_token_begins_a_word_or_goes_on(tokens: Seq<Piece>, piece: Piece)
    ensures
        ({
            let before = joined(tokens);
            let after = joined(tokens.push(piece));
            let begins = tokens.len() == 0 || is_blank_text(tokens.last().text) || (
            piece.word_index >= 0 && piece.word_index != tokens.last().word_index) || (
            piece.word_index < 0 && text::is_blank(piece.text[0]));
            &&& is_blank_text(piece.text) ==> after == before
            &&& !is_blank_text(piece.text) && begins ==> after == before.push(
                Row { text: piece.text, t0_ms: piece.t0_ms, t1_ms: piece.t1_ms },
            )
            &&& !is_blank_text(piece.text) && !begins ==> {
                &&& before.len() > 0 && after.len() == before.len()
                &&& after.drop_last() == before.drop_last()
                &&& after.last().text == before.last().text + piece.text
                &&& after.last().t0_ms == before.last().t0_ms
                &&& after.last().t1_ms >= before.last().t1_ms && after.last().t1_ms >= piece.t1_ms
                &&& after.last().t1_ms == before.last().t1_ms || after.last().t1_ms == piece.t1_ms
            }
        }),
        joined(Seq::empty()).len() == 0,
{
    let longer = tokens.push(piece);
    assert(longer.drop_last() =~= tokens);
    joining_keeps_the_text(tokens);
    let state = joining(tokens);
    if tokens.len() > 0 {
        let inner = joining(tokens.drop_last());
        assert(state == join_one(inner, tokens.last()));
    }
    blank_text_is_all_whitespace(piece.text);
    let after = joined(longer);
    if !is_blank_text(piece.text) && state.rows.len() > 0 && !starts_word(state, piece) {
        assert(after.drop_last() =~= state.rows.drop_last());
    }
}

/// Each row aligns at the first place where its text stands behind the rows before it,
/// and the walk stops only at a row with text that stands nowhere behind them.
pub proof fn rows_align_at_their_first_place(committed: Seq<char>, rows: Seq<Row>)
    ensures
        ({
            let result = alignment(committed, rows);
            let spans = result.spans;
            &&& result.cursor == 0 || exists|k: int|
                0 <= k < spans.len() && (#[trigger] spans[k]) is Some && (spans[k]->0).1
                    == result.cursor
            &&& forall|i: int, j: int|
                #![trigger spans[i], occurs_at(committed, j, text::trimmed(rows[i].text))]
                0 <= i < spans.len() && spans[i] is Some && 0 <= j < (spans[i]->0).0
                    && ends_by(spans.take(i), j) ==> !occurs_at(
                    committed,
                    j,
                    text::trimmed(rows[i].text),
                )
            &&& spans.len() < rows.len() ==> !is_blank_text(rows[spans.len() as int].text)
                && forall|j: int|
                0 <= j && ends_by(spans, j) ==> !(#[trigger] occurs_at(
                    committed,
                    j,
                    text::trimmed(rows[spans.len() as int].text),
                ))
        }),
    decreases rows.len(),
{
    if rows.len() > 0 {
        let front = rows.drop_last();
        rows_align_at_their_first_place(committed, front);
        rows_align_in_order(committed, front);
        let before = alignment(committed, front);
        let result = alignment(committed, rows);
        let spans = result.spans;
        let needle = text::trimmed(rows.last().text);
        found_in_bounds(committed, before.cursor, needle);
        assert forall|i: int, j: int|
            #![trigger spans[i], occurs_at(committed, j, text::trimmed(rows[i].text))]
            0 <= i < spans.len() && spans[i] is Some && 0 <= j < (spans[i]->0).0 && ends_by(
                spans.take(i),
                j,
            ) implies !occurs_at(committed, j, text::trimmed(rows[i].text)) by {
            if i < before.spans.len() {
                assert(spans[i] == before.spans[i] && rows[i] == front[i]);
                assert(spans.take(i) =~= before.spans.take(i));
            } else {
                assert(spans.take(i) =~= before.spans);
                assert(before.cursor <= j);
            }
        }
        if before.complete {
            if result.spans.len() < rows.len() {
                assert(result.spans == before.spans);
                assert forall|j: int| 0 <= j && ends_by(spans, j) implies !(#[trigger] occurs_at(
                    committed,
                    j,
                    needle,
                )) by {
                    assert(before.cursor <= j);
                }
            } else if needle.len() > 0 {
                assert(spans[spans.len() - 1] is Some);
            } else if result.cursor != 0 {
                let k = choose|k: int|
                    0 <= k < before.spans.len() && (#[trigger] before.spans[k]) is Some && (
                    before.spans[k]->0).1 == before.cursor;
                assert(spans[k] == before.spans[k]);
            }
        } else {
            assert(rows[spans.len() as int] == front[spans.len() as int]);
        }
    }
}

/// Whether all of some spans end by a place.
pub open spec fn ends_by(spans: Seq<Option<(int, int)>>, place: int) -> bool {
    forall|k: int| 0 <= k < spans.len() && (#[trigger] spans[k]) is Some ==> (spans[k]->0).1 <= place
}

/// All the punctuation right behind a row goes out with it: a run that holds nothing
/// else and reaches up to whitespace, to the next row or to the end of the text is
/// taken in whole. And nothing is taken in that is no such run.
pub proof fn punctuation_behind_a_row_is_taken_in(
    committed: Seq<char>,
    rows: Seq<Row>,
    index: int,
    stop: int,
)
    requires
        0 <= index < alignment(committed, rows).spans.len(),
        alignment(committed, rows).spans[index] is Some,
    ensures
        ({
            let spans = alignment(committed, rows).spans;
            let end = (spans[index]->0).1;
            let to = canonical_end(committed, spans, index, end);
            &&& end <= stop <= committed.len() && is_unbroken(committed.subrange(end, stop))
                && is_punctuation(committed.subrange(end, stop)) && starts_from(
                spans,
                index,
                stop,
            ) && (stop == committed.len() || text::is_blank(committed[stop]) || exists|k: int|
                index < k < spans.len() && (#[trigger] spans[k]) is Some && (spans[k]->0).0 == stop)
                ==> to == stop
            &&& to > end ==> to == committed.len() || text::is_blank(committed[to]) || exists|
                k: int,
            |
                index < k < spans.len() && (#[trigger] spans[k]) is Some && (spans[k]->0).0 == to
        }),
{
    rows_align_in_order(committed, rows);
    let result = alignment(committed, rows);
    let spans = result.spans;
    assert(spans_in_order(spans, result.cursor, committed.len() as int));
    neighbours_are_apart(spans, index, committed.len() as int);
    let end = (spans[index]->0).1;
    let near = span_from_is_a_span(spans, index + 1);
    let next = span_from(spans, index + 1);
    let high = match next {
        Some((begin, _)) => begin,
        None => committed.len() as int,
    };
    runs_are_unbroken(committed, end, high);
    run_ends_at_whitespace(committed, end, high);
    if end <= stop <= committed.len() && is_unbroken(committed.subrange(end, stop))
        && is_punctuation(committed.subrange(end, stop)) && starts_from(spans, index, stop) && (stop
        == committed.len() || text::is_blank(committed[stop]) || exists|k: int|
        index < k < spans.len() && (#[trigger] spans[k]) is Some && (spans[k]->0).0 == stop) {
        if next is Some {
            assert(stop <= (spans[near]->0).0);
        }
        assert(stop <= high);
        if stop < high && stop < committed.len() && !text::is_blank(committed[stop]) {
            let k = choose|k: int|
                index < k < spans.len() && (#[trigger] spans[k]) is Some && (spans[k]->0).0 == stop;
            let first = span_behind_comes_first(spans, index + 1, k);
            assert(false);
        }
        assert forall|i: int| end <= i < stop implies !text::is_blank(#[trigger] committed[i]) by {
            assert(committed.subrange(end, stop)[i - end] == committed[i]);
        }
        run_end_is(committed, end, high, stop);
    }
    let to = canonical_end(committed, spans, index, end);
    if to > end && to < committed.len() && !text::is_blank(committed[to]) {
        assert(to == high);
        assert(spans[near] is Some && (spans[near]->0).0 == to);
    }
}

/// Whether all spans behind one start at a place or behind it.
pub open spec fn starts_from(spans: Seq<Option<(int, int)>>, index: int, place: int) -> bool {
    forall|k: int|
        index < k < spans.len() && (#[trigger] spans[k]) is Some ==> place <= (spans[k]->0).0
}

proof fn run_ends_at_whitespace(text: Seq<char>, low: int, high: int)
    requires
        low <= high,
    ensures
        run_end(text, low, high) < high ==> text::is_blank(text[run_end(text, low, high)]),
    decreases high - low,
{
    if low < high {
        run_ends_at_whitespace(text, low + 1, high);
    }
}

proof fn run_end_is(text: Seq<char>, low: int, high: int, stop: int)
    requires
        low <= stop <= high,
        forall|i: int| low <= i < stop ==> !text::is_blank(#[trigger] text[i]),
        stop == high || text::is_blank(text[stop]),
    ensures
        run_end(text, low, high) == stop,
    decreases high - low,
{
    if low < stop {
        run_end_is(text, low + 1, high, stop);
    }
}

proof fn run_start_is(text: Seq<char>, low: int, high: int, begin: int)
    requires
        low <= begin <= high,
        forall|i: int| begin <= i < high ==> !text::is_blank(#[trigger] text[i]),
        begin == low || text::is_blank(text[begin - 1]),
    ensures
        run_start(text, low, high) == begin,
    decreases high - low,
{
    if begin < high {
        run_start_is(text, low, high - 1, begin);
    }
}

/// All the punctuation right in front of a row goes out with it: a run that holds
/// nothing else and reaches back to whitespace behind the rows before, or to the start
/// of the text where there are none, is taken in whole. And nothing is taken in that is
/// no such run.
pub proof fn punctuation_in_front_of_a_row_is_taken_in(
    committed: Seq<char>,
    rows: Seq<Row>,
    index: int,
    begin: int,
)
    requires
        0 <= index < alignment(committed, rows).spans.len(),
        alignment(committed, rows).spans[index] is Some,
    ensures
        ({
            let spans = alignment(committed, rows).spans;
            let start = (spans[index]->0).0;
            let from = canonical_start(committed, spans, index, start);
            let first = forall|k: int| 0 <= k < index ==> (#[trigger] spans[k]) is None;
            &&& 0 <= begin <= start && is_unbroken(committed.subrange(begin, start))
                && is_punctuation(committed.subrange(begin, start)) && ((begin == 0 && first) || (
            begin > 0 && text::is_blank(committed[begin - 1]) && ends_by(
                spans.take(index),
                begin - 1,
            ))) ==> from == begin
            &&& from < start ==> (from == 0 && first) || (from > 0 && text::is_blank(
                committed[from - 1],
            ))
        }),
{
    rows_align_in_order(committed, rows);
    let result = alignment(committed, rows);
    let spans = result.spans;
    assert(spans_in_order(spans, result.cursor, committed.len() as int));
    neighbours_are_apart(spans, index, committed.len() as int);
    let start = (spans[index]->0).0;
    let near = span_before_is_a_span(spans, index);
    let previous = span_before(spans, index);
    let low = match previous {
        Some((_, stop)) => stop,
        None => 0,
    };
    let first = forall|k: int| 0 <= k < index ==> (#[trigger] spans[k]) is None;
    if previous is None {
        assert forall|k: int| 0 <= k < index implies (#[trigger] spans[k]) is None by {
            if spans[k] is Some {
                let found = span_in_front_comes_last(spans, index, k);
            }
        }
    }
    runs_are_unbroken(committed, low, start);
    if 0 <= begin <= start && is_unbroken(committed.subrange(begin, start)) && is_punctuation(
        committed.subrange(begin, start),
    ) && ((begin == 0 && first) || (begin > 0 && text::is_blank(committed[begin - 1]) && ends_by(
        spans.take(index),
        begin - 1,
    ))) {
        if previous is Some {
            assert(spans.take(index)[near] == spans[near]);
            assert(low <= begin - 1);
        }
        assert forall|i: int| begin <= i < start implies !text::is_blank(
            #[trigger] committed[i],
        ) by {
            assert(committed.subrange(begin, start)[i - begin] == committed[i]);
        }
        run_start_is(committed, low, start, begin);
    }
}

/// A row goes out as one word: under its text in the committed text where it stands
/// there, else under its own, trimmed; from its start, but not from before zero, to its
/// end, but not to before its start. A blank row goes out as none.
pub proof fn a_row_goes_out_as_one_word(
    committed: Seq<char>,
    spans: Seq<Option<(int, int)>>,
    rows: Seq<Row>,
    from: int,
    at: int,
)
    requires
        from <= at < rows.len(),
    ensures
        ({
            let before = rows_out(committed, spans, rows, from, at);
            let after = rows_out(committed, spans, rows, from, at + 1);
            let row = rows[at];
            let own = text::trimmed(row.text);
            &&& is_blank_text(row.text) ==> after == before
            &&& !is_blank_text(row.text) ==> {
                &&& after.len() == before.len() + 1
                &&& after.drop_last() == before
                &&& after.last().t0_ms == if row.t0_ms > 0 {
                    row.t0_ms
                } else {
                    0
                }
                &&& after.last().t1_ms == if row.t1_ms > row.t0_ms {
                    row.t1_ms
                } else {
                    row.t0_ms
                }
                &&& at < spans.len() && at >= 0 && spans[at] is Some ==> after.last().text
                    == committed.subrange(
                    canonical_start(committed, spans, at, (spans[at]->0).0),
                    canonical_end(committed, spans, at, (spans[at]->0).1),
                )
                &&& !(0 <= at < spans.len() && spans[at] is Some) ==> after.last().text == own
            }
        }),
        rows_out(committed, spans, rows, from, from).len() == 0,
{
    let before = rows_out(committed, spans, rows, from, at);
    let after = rows_out(committed, spans, rows, from, at + 1);
    if !is_blank_text(rows[at].text) {
        assert(after.drop_last() =~= before);
    }
}

/// Without alignment the text goes out as it grows: what was appended since, trimmed,
/// as one word that lasts from the end of the word before to the drained audio, and
/// never a shorter time than none. Text that has not grown, or has only grown by
/// whitespace, gives nothing.
pub proof fn untimed_text_goes_out_as_it_grows(
    tracker: Tracker,
    shown: Seq<char>,
    more: Seq<char>,
    audio_ms: i64,
    finishing: bool,
)
    requires
        tracker.emitted_bytes == text::utf8_len(shown),
    ensures
        ({
            let none = Seq::<Row>::empty();
            let out = tracker.out(shown + more, none, audio_ms, finishing);
            let after = tracker.after(shown + more, none, audio_ms, finishing);
            let end = if audio_ms > tracker.emitted_up_to_ms {
                audio_ms
            } else {
                tracker.emitted_up_to_ms
            };
            &&& is_blank_text(more) ==> out.len() == 0 && after.emitted_up_to_ms
                == tracker.emitted_up_to_ms
            &&& !is_blank_text(more) ==> out.len() == 1 && out[0].text == text::trimmed(more)
                && out[0].t0_ms == tracker.emitted_up_to_ms && out[0].t1_ms == end
                && after.emitted_up_to_ms == end
            &&& after.emitted_bytes == text::utf8_len(shown + more)
            &&& after.emitted_words == tracker.emitted_words && after.pending == tracker.pending
        }),
{
    let whole = shown + more;
    let count = shown.len() as int;
    let bytes = utf8::encode_utf8(whole);
    text::encoding_concatenates(shown, more);
    assert(whole.take(count) =~= shown);
    text::prefix_ends_are_boundaries(whole, count);
    assert(bytes.subrange(text::utf8_len(shown) as int, bytes.len() as int) =~= utf8::encode_utf8(
        more,
    ));
    utf8::encode_utf8_decode_utf8(more);
    if more.len() == 0 {
        assert(text::trimmed(more).len() == 0);
    } else {
        assert(utf8::encode_utf8(more).len() > 0) by {
            reveal_with_fuel(utf8::encode_utf8, 2);
        }
    }
}

/// What is kept between two calls: the row that waits is the first that has not gone
/// out, the text counts as grown exactly where its length changed, and the watermark is
/// the latest end that has gone out.
pub proof fn what_a_tracker_keeps(
    tracker: Tracker,
    committed: Seq<char>,
    rows: Seq<Row>,
    audio_ms: i64,
    finishing: bool,
)
    requires
        rows.len() > 0,
    ensures
        ({
            let after = tracker.after(committed, rows, audio_ms, finishing);
            let out = tracker.out(committed, rows, audio_ms, finishing);
            &&& after.pending is Some <==> after.emitted_words < rows.len()
            &&& after.pending is Some ==> (after.pending->0).0
                == rows[after.emitted_words as int].t0_ms && (after.pending->0).1
                == rows[after.emitted_words as int].t1_ms
            &&& after.observed_len == text::utf8_len(committed) && after.emitted_bytes
                == text::utf8_len(committed)
            &&& after.last_growth_ms == if text::utf8_len(committed) == tracker.observed_len {
                tracker.last_growth_ms
            } else {
                audio_ms
            }
            &&& after.emitted_up_to_ms >= tracker.emitted_up_to_ms
            &&& forall|i: int|
                0 <= i < out.len() ==> (#[trigger] out[i]).t1_ms <= after.emitted_up_to_ms
            &&& after.emitted_up_to_ms == tracker.emitted_up_to_ms || exists|i: int|
                0 <= i < out.len() && (#[trigger] out[i]).t1_ms == after.emitted_up_to_ms
        }),
{
    the_latest_end_is_the_latest(
        tracker.out(committed, rows, audio_ms, finishing),
        tracker.emitted_up_to_ms,
    );
}

proof fn the_latest_end_is_the_latest(rows: Seq<Row>, base: i64)
    ensures
        latest_end(rows, base) >= base,
        forall|i: int| 0 <= i < rows.len() ==> (#[trigger] rows[i]).t1_ms <= latest_end(rows, base),
        latest_end(rows, base) == base || exists|i: int|
            0 <= i < rows.len() && (#[trigger] rows[i]).t1_ms == latest_end(rows, base),
    decreases rows.len(),
{
    if rows.len() > 0 {
        let front = rows.drop_last();
        the_latest_end_is_the_latest(front, base);
        assert forall|i: int| 0 <= i < rows.len() implies (#[trigger] rows[i]).t1_ms <= latest_end(
            rows,
            base,
        ) by {
            if i < front.len() {
                assert(front[i] == rows[i]);
            }
        }
        if latest_end(rows, base) != base {
            if latest_end(front, base) >= rows.last().t1_ms {
                let i = choose|i: int|
                    0 <= i < front.len() && (#[trigger] front[i]).t1_ms == latest_end(front, base);
                assert(rows[i].t1_ms == latest_end(rows, base));
            } else {
                assert(rows[rows.len() - 1].t1_ms == latest_end(rows, base));
            }
        }
    }
}

/// A tracker starts with nothing emitted, nothing waiting and nothing observed.
pub proof fn a_tracker_starts_empty()
    ensures
        ({
            let fresh = Tracker::initial();
            &&& fresh.emitted_words == 0 && fresh.emitted_bytes == 0 && fresh.emitted_up_to_ms == 0
            &&& fresh.pending is None && fresh.observed_len == 0 && fresh.last_growth_ms == 0
        }),
{
}

/// Text has settled exactly where half a second of audio was drained since it last
/// grew.
pub proof fn text_settles_in_half_a_second(tracker: Tracker, audio_ms: i64)
    ensures
        tracker.has_settled(audio_ms) <==> audio_ms >= tracker.last_growth_ms + 500,
{
}


/// Every word that a family aligned is a row, and every segment where it aligned no
/// words, in order, each with its own text and times; and a family that reports no
/// alignment has no rows.
pub proof fn every_aligned_row_is_taken(transcript: Transcript, rows: Vec<Unit>)
    requires
        call_ensures(units, (&transcript,), rows),
    ensures
        transcript.timestamp_kind == TimestampKind::Untimed ==> rows@.len() == 0,
        transcript.timestamp_kind != TimestampKind::Untimed && transcript.words@.len() > 0
            ==> rows@.len() == transcript.words@.len() && forall|i: int|
            0 <= i < rows@.len() ==> (#[trigger] rows@[i]).text@ == transcript.words@[i].text@
                && rows@[i].t0_ms == transcript.words@[i].t0_ms && rows@[i].t1_ms
                == transcript.words@[i].t1_ms,
        transcript.timestamp_kind != TimestampKind::Untimed && transcript.words@.len() == 0
            && transcript.segments@.len() > 0 ==> rows@.len() == transcript.segments@.len()
            && forall|i: int|
            0 <= i < rows@.len() ==> (#[trigger] rows@[i]).text@ == transcript.segments@[i].text@
                && rows@[i].t0_ms == transcript.segments@[i].t0_ms && rows@[i].t1_ms
                == transcript.segments@[i].t1_ms,
{
    no_aligned_row_is_lost(transcript);
    let found = unit_rows(rows@);
    assert(found.len() == rows@.len());
    assert forall|i: int| 0 <= i < rows@.len() implies found[i] == (#[trigger] rows@[i])@ by {
    }
}

/// The timeline is closed up to the first row that waits, or up to what the family has
/// committed to where that is sooner or nothing waits.
pub proof fn the_timeline_is_closed_up_to_what_waits(
    tracker: CommitTracker,
    audio_committed_ms: i64,
    pending: Option<(i64, i64)>,
    frontier_ms: i64,
)
    requires
        call_ensures(CommitTracker::pending, (&tracker,), pending),
        call_ensures(CommitTracker::frontier, (&tracker, audio_committed_ms), frontier_ms),
    ensures
        frontier_ms <= audio_committed_ms,
        pending is None ==> frontier_ms == audio_committed_ms,
        pending matches Some((t0_ms, _)) ==> frontier_ms <= t0_ms && (frontier_ms == t0_ms
            || frontier_ms == audio_committed_ms),
{
}

/// A row that waits has settled once half a second of audio went by in which the text
/// did not grow.
pub proof fn a_waiting_row_settles(
    tracker: CommitTracker,
    audio_committed_ms: i64,
    pending: Option<(i64, i64)>,
    settled: bool,
)
    requires
        call_ensures(CommitTracker::pending, (&tracker,), pending),
        call_ensures(
            CommitTracker::pending_is_settled,
            (&tracker, audio_committed_ms),
            settled,
        ),
    ensures
        settled <==> pending is Some && audio_committed_ms - tracker@.last_growth_ms >= 500,
{
}


/// A text is punctuation exactly where each part of it is: nothing at all is, and a
/// single character is unless it is a letter, a digit or a control code.
pub proof fn punctuation_is_told_part_by_part(front: Seq<char>, back: Seq<char>, character: char)
    ensures
        is_punctuation(Seq::empty()),
        is_punctuation(front + back) <==> is_punctuation(front) && is_punctuation(back),
        is_punctuation(seq![character]) <==> !text::is_letter_or_digit(character)
            && !text::is_control_code(character),
{
    let whole = front + back;
    if is_punctuation(whole) {
        assert forall|i: int| 0 <= i < front.len() implies !text::is_letter_or_digit(
            #[trigger] front[i],
        ) && !text::is_control_code(front[i]) by {
            assert(whole[i] == front[i]);
        }
        assert forall|i: int| 0 <= i < back.len() implies !text::is_letter_or_digit(
            #[trigger] back[i],
        ) && !text::is_control_code(back[i]) by {
            assert(whole[front.len() + i] == back[i]);
        }
    }
    assert(seq![character][0] == character);
}

/// A row stands in a text exactly where the text is something, the row, and something
/// more: also at its very beginning and at its very end.
pub proof fn a_row_stands_where_it_was_put(before: Seq<char>, row: Seq<char>, after: Seq<char>)
    ensures
        occurs_at(before + row + after, before.len() as int, row),
        forall|text: Seq<char>, at: int| #[trigger]
            occurs_at(text, at, row) ==> 0 <= at <= text.len() - row.len() && text == text.take(at)
                + row + text.skip(at + row.len()),
{
    let whole = before + row + after;
    assert(whole.subrange(before.len() as int, before.len() + row.len() as int) =~= row);
    assert forall|text: Seq<char>, at: int| #[trigger] occurs_at(text, at, row) implies 0 <= at
        <= text.len() - row.len() && text == text.take(at) + row + text.skip(at + row.len()) by {
        assert(text.take(at) + text.subrange(at, at + row.len()) + text.skip(at + row.len())
            =~= text);
    }
}

} // verus!
