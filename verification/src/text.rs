//! Text as sequences of characters, and where its UTF-8 bytes break.
use vstd::prelude::*;
use vstd::utf8;

verus! {

/// Bytes that the UTF-8 form of `text` takes.
pub open spec fn utf8_len(text: Seq<char>) -> nat {
    utf8::encode_utf8(text).len()
}

/// The longest run of whole characters from the front of `text` whose UTF-8
/// form takes no more than `limit` bytes.
pub open spec fn truncated(text: Seq<char>, limit: nat) -> Seq<char>
    decreases text.len(),
{
    if utf8_len(text) <= limit || text.len() == 0 {
        text
    } else {
        truncated(text.drop_last(), limit)
    }
}

/// Encoding goes character by character, so it splits where the text does.
pub proof fn encoding_concatenates(front: Seq<char>, back: Seq<char>)
    ensures
        utf8::encode_utf8(front + back) == utf8::encode_utf8(front) + utf8::encode_utf8(back),
    decreases front.len(),
{
    if front.len() == 0 {
        assert(front + back =~= back);
    } else {
        encoding_concatenates(front.drop_first(), back);
        assert((front + back).drop_first() =~= front.drop_first() + back);
    }
}

/// A longer run of characters takes more bytes.
pub proof fn prefixes_grow(text: Seq<char>, shorter: int, longer: int)
    requires
        0 <= shorter < longer <= text.len(),
    ensures
        utf8_len(text.take(shorter)) < utf8_len(text.take(longer)) <= utf8_len(text),
{
    let middle = text.subrange(shorter, longer);
    let rest = text.skip(longer);
    encoding_concatenates(text.take(shorter), middle);
    assert(text.take(shorter) + middle =~= text.take(longer));
    encoding_concatenates(text.take(longer), rest);
    assert(text.take(longer) + rest =~= text);
    assert(utf8_len(middle) > 0);
}

/// The end of a run of characters is a boundary of the encoded text.
pub proof fn prefix_ends_are_boundaries(text: Seq<char>, count: int)
    requires
        0 <= count <= text.len(),
    ensures
        utf8::is_char_boundary(utf8::encode_utf8(text), utf8_len(text.take(count)) as int),
    decreases text.len(),
{
    broadcast use utf8::encode_utf8_valid_utf8;

    let bytes = utf8::encode_utf8(text);
    if count == 0 {
        assert(text.take(0) =~= Seq::empty());
    } else {
        let tail = text.drop_first();
        prefix_ends_are_boundaries(tail, count - 1);
        utf8::encode_utf8_first_scalar(text);
        assert(utf8::pop_first_scalar(bytes) =~= utf8::encode_utf8(tail));
        assert(text.take(count).drop_first() =~= tail.take(count - 1));
        if count < text.len() {
            prefixes_grow(text, count, text.len() as int);
        } else {
            assert(text.take(count) =~= text);
        }
    }
}

/// Every boundary of the encoded text is the end of some run of characters.
pub proof fn boundaries_are_prefix_ends(text: Seq<char>, index: int) -> (count: int)
    requires
        utf8::is_char_boundary(utf8::encode_utf8(text), index),
    ensures
        0 <= count <= text.len(),
        utf8_len(text.take(count)) == index,
        utf8::encode_utf8(text).subrange(0, index) == utf8::encode_utf8(text.take(count)),
        utf8::encode_utf8(text).subrange(index, utf8_len(text) as int) == utf8::encode_utf8(
            text.skip(count),
        ),
    decreases text.len(),
{
    broadcast use utf8::encode_utf8_valid_utf8;

    let bytes = utf8::encode_utf8(text);
    if index == 0 {
        assert(text.take(0) =~= Seq::empty());
        assert(text.skip(0) =~= text);
        assert(bytes.subrange(0, 0) =~= Seq::empty());
        assert(bytes.subrange(0, bytes.len() as int) =~= bytes);
        0
    } else {
        let tail = text.drop_first();
        utf8::encode_utf8_first_scalar(text);
        assert(utf8::pop_first_scalar(bytes) =~= utf8::encode_utf8(tail));
        let rest = boundaries_are_prefix_ends(tail, index - utf8::length_of_first_scalar(bytes));
        let count = rest + 1;
        assert(text.take(count).drop_first() =~= tail.take(rest));
        encoding_concatenates(text.take(count), text.skip(count));
        assert(text.take(count) + text.skip(count) =~= text);
        assert(bytes.subrange(0, index) =~= utf8::encode_utf8(text.take(count)));
        assert(bytes.subrange(index, bytes.len() as int) =~= utf8::encode_utf8(text.skip(count)));
        count
    }
}

/// Two texts with one encoding are one text.
pub proof fn encoding_is_injective(left: Seq<char>, right: Seq<char>)
    requires
        utf8::encode_utf8(left) == utf8::encode_utf8(right),
    ensures
        left == right,
{
    utf8::encode_utf8_decode_utf8(left);
    utf8::encode_utf8_decode_utf8(right);
}

/// The longest run within the limit is the one after which no run fits.
proof fn truncated_is_the_last_fit(text: Seq<char>, limit: nat, count: int)
    requires
        0 <= count <= text.len(),
        utf8_len(text.take(count)) <= limit,
        count < text.len() ==> utf8_len(text.take(count + 1)) > limit,
    ensures
        truncated(text, limit) == text.take(count),
    decreases text.len(),
{
    if count == text.len() {
        assert(text.take(count) =~= text);
    } else {
        if count + 1 < text.len() {
            prefixes_grow(text, count + 1, text.len() as int);
        }
        assert(text.take(text.len() as int) =~= text);
        assert(utf8_len(text) > limit);
        let shorter = text.drop_last();
        assert(shorter.take(count) =~= text.take(count));
        if count < shorter.len() {
            assert(shorter.take(count + 1) =~= text.take(count + 1));
        }
        truncated_is_the_last_fit(shorter, limit, count);
    }
}

/// What is left after truncation is a front part of the text that fits, and
/// nothing is cut from a text that fits whole.
pub proof fn truncation_keeps_a_fitting_prefix(text: Seq<char>, limit: nat)
    ensures
        truncated(text, limit).is_prefix_of(text),
        utf8_len(truncated(text, limit)) <= limit,
        utf8_len(text) <= limit ==> truncated(text, limit) == text,
    decreases text.len(),
{
    if utf8_len(text) > limit && text.len() > 0 {
        truncation_keeps_a_fitting_prefix(text.drop_last(), limit);
    }
}

/// The longest front part of `text` that breaks between two characters and
/// takes at most `limit` bytes.
pub fn truncate_on_character_boundary(text: &str, limit: usize) -> (front: &str)
    ensures
        front@ == truncated(text@, limit as nat),
{
    broadcast use utf8::encode_utf8_valid_utf8;

    if text.as_bytes().len() <= limit {
        return text;
    }
    let mut end: usize = limit;
    while end > 0 && !text.is_char_boundary(end)
        invariant
            end <= limit < utf8_len(text@),
            forall|i: int|
                end < i <= limit ==> !#[trigger] utf8::is_char_boundary(utf8::encode_utf8(text@), i),
        decreases end,
    {
        end = end - 1;
    }
    let front = text.split_at(end).0;
    proof {
        let count = boundaries_are_prefix_ends(text@, end as int);
        encoding_is_injective(front@, text@.take(count));
        if count < text@.len() {
            prefixes_grow(text@, count, count + 1);
            prefix_ends_are_boundaries(text@, count + 1);
        }
        truncated_is_the_last_fit(text@, limit as nat, count);
    }
    front
}

/// Whether a character has Unicode's White_Space property.
pub open spec fn is_blank(character: char) -> bool {
    let code = character as u32;
    ||| 0x9 <= code <= 0xd
    ||| code == 0x20
    ||| code == 0x85
    ||| code == 0xa0
    ||| code == 0x1680
    ||| 0x2000 <= code <= 0x200a
    ||| code == 0x2028
    ||| code == 0x2029
    ||| code == 0x202f
    ||| code == 0x205f
    ||| code == 0x3000
}

/// Whether `char::is_alphanumeric` accepts a character outside ASCII.
pub uninterp spec fn is_alphanumeric_beyond_ascii(character: char) -> bool;

/// Whether a character has Unicode's Alphabetic property or is numeric: in ASCII
/// the digits and the letters.
pub open spec fn is_letter_or_digit(character: char) -> bool {
    let code = character as u32;
    if code <= 0x7f {
        ||| 0x30 <= code <= 0x39
        ||| 0x41 <= code <= 0x5a
        ||| 0x61 <= code <= 0x7a
    } else {
        is_alphanumeric_beyond_ascii(character)
    }
}

/// Whether a character is a control code: Unicode's general category Cc, which
/// is fixed to these two ranges.
pub open spec fn is_control_code(character: char) -> bool {
    character as u32 <= 0x1f || 0x7f <= character as u32 <= 0x9f
}

/// `char::is_whitespace`: exactly the characters with the White_Space property.
pub assume_specification[ char::is_whitespace ](c: char) -> (blank: bool)
    ensures
        blank == is_blank(c),
;

/// `char::is_alphanumeric`: in ASCII exactly the digits and the letters. Outside
/// ASCII the answer depends on the character alone, and which characters it is yes
/// for is Unicode's table, and is left unsaid.
pub assume_specification[ char::is_alphanumeric ](c: char) -> (alphanumeric: bool)
    ensures
        alphanumeric == is_letter_or_digit(c),
        c as u32 > 0x7f ==> alphanumeric == is_alphanumeric_beyond_ascii(c),
;

/// `char::is_control`: exactly the control codes.
pub assume_specification[ char::is_control ](c: char) -> (control: bool)
    ensures
        control == is_control_code(c),
;

/// `text` without the whitespace in front.
pub open spec fn trimmed_front(text: Seq<char>) -> Seq<char>
    decreases text.len(),
{
    if text.len() > 0 && is_blank(text[0]) {
        trimmed_front(text.drop_first())
    } else {
        text
    }
}

/// `text` without the whitespace behind.
pub open spec fn trimmed_back(text: Seq<char>) -> Seq<char>
    decreases text.len(),
{
    if text.len() > 0 && is_blank(text.last()) {
        trimmed_back(text.drop_last())
    } else {
        text
    }
}

/// `text` without the whitespace around it.
pub open spec fn trimmed(text: Seq<char>) -> Seq<char> {
    trimmed_back(trimmed_front(text))
}

/// The characters of a text.
pub fn chars_of(text: &str) -> (chars: Vec<char>)
    ensures
        chars@ == text@,
{
    let mut chars: Vec<char> = Vec::new();
    for character in it: text.chars()
        invariant
            it.seq() == text@,
            chars@ == text@.take(it.index() as int),
    {
        chars.push(character);
        assert(chars@ =~= text@.take(it.index() + 1));
    }
    assert(text@.take(text@.len() as int) =~= text@);
    chars
}

/// The text without the whitespace around it.
pub fn trim(text: &str) -> (inner: &str)
    ensures
        inner@ == trimmed(text@),
{
    let chars = chars_of(text);
    let mut from: usize = 0;
    assert(chars@.skip(0) =~= chars@);
    while from < chars.len() && chars[from].is_whitespace()
        invariant
            from <= chars@.len(),
            trimmed_front(chars@) == trimmed_front(chars@.skip(from as int)),
        decreases chars@.len() - from,
    {
        assert(chars@.skip(from as int).drop_first() =~= chars@.skip(from + 1));
        from = from + 1;
    }
    let mut to: usize = chars.len();
    let ghost front = chars@.skip(from as int);
    assert(front.take(to - from) =~= front);
    while to > from && chars[to - 1].is_whitespace()
        invariant
            from <= to <= chars@.len(),
            front == chars@.skip(from as int),
            trimmed_back(front) == trimmed_back(front.take(to - from)),
        decreases to,
    {
        assert(front.take(to - from).drop_last() =~= front.take(to - from - 1));
        to = to - 1;
    }
    assert(front.take(to - from) =~= text@.subrange(from as int, to as int));
    text.substring_char(from, to)
}

/// Whether two texts are the same.
pub fn same_text(left: &str, right: &str) -> (same: bool)
    ensures
        same == (left@ == right@),
{
    let one = chars_of(left);
    let other = chars_of(right);
    if one.len() != other.len() {
        return false;
    }
    let mut index: usize = 0;
    while index < one.len()
        invariant
            index <= one@.len(),
            one@ == left@ && other@ == right@,
            one@.len() == other@.len(),
            forall|i: int| 0 <= i < index ==> one@[i] == other@[i],
        decreases one@.len() - index,
    {
        if one[index] != other[index] {
            assert(left@[index as int] != right@[index as int]);
            return false;
        }
        index = index + 1;
    }
    assert(one@ =~= other@);
    true
}

/// A text behind another.
pub fn prefixed(prefix: &str, text: &str) -> (whole: String)
    ensures
        whole@ == prefix@ + text@,
{
    let mut whole = prefix.to_owned();
    whole.append(text);
    whole
}

/// Trimming takes away whitespace and nothing else, and all of it: what is left is
/// one stretch of the text, with nothing but whitespace in front of it and behind
/// it, and neither its first nor its last character is whitespace.
pub proof fn trimming_takes_whitespace_only(text: Seq<char>) -> (ends: (int, int))
    ensures
        0 <= ends.0 <= ends.1 <= text.len(),
        trimmed(text) == text.subrange(ends.0, ends.1),
        forall|i: int| 0 <= i < ends.0 ==> is_blank(#[trigger] text[i]),
        forall|i: int| ends.1 <= i < text.len() ==> is_blank(#[trigger] text[i]),
        ends.0 < ends.1 ==> !is_blank(text[ends.0]) && !is_blank(text[ends.1 - 1]),
{
    let from = trimming_the_front(text);
    let rest = trimmed_front(text);
    let to = trimming_the_back(rest);
    assert(rest.take(to) =~= text.subrange(from, from + to));
    assert forall|i: int| from + to <= i < text.len() implies is_blank(#[trigger] text[i]) by {
        assert(rest[i - from] == text[i]);
    }
    if to > 0 {
        assert(rest[0] == text[from] && rest[to - 1] == text[from + to - 1]);
    }
    (from, from + to)
}

/// What is trimmed off the front is whitespace, up to the first character that is
/// none.
pub proof fn trimming_the_front(text: Seq<char>) -> (from: int)
    ensures
        0 <= from <= text.len(),
        trimmed_front(text) == text.skip(from),
        forall|i: int| 0 <= i < from ==> is_blank(#[trigger] text[i]),
        from < text.len() ==> !is_blank(text[from]),
    decreases text.len(),
{
    if text.len() > 0 && is_blank(text[0]) {
        let rest = text.drop_first();
        let from = trimming_the_front(rest);
        assert(rest.skip(from) =~= text.skip(from + 1));
        assert forall|i: int| 0 <= i < from + 1 implies is_blank(#[trigger] text[i]) by {
            if i > 0 {
                assert(rest[i - 1] == text[i]);
            }
        }
        from + 1
    } else {
        assert(text.skip(0) =~= text);
        0
    }
}

/// What is trimmed off the back is whitespace, down to the last character that is
/// none.
pub proof fn trimming_the_back(text: Seq<char>) -> (to: int)
    ensures
        0 <= to <= text.len(),
        trimmed_back(text) == text.take(to),
        forall|i: int| to <= i < text.len() ==> is_blank(#[trigger] text[i]),
        to > 0 ==> !is_blank(text[to - 1]),
    decreases text.len(),
{
    if text.len() > 0 && is_blank(text.last()) {
        let rest = text.drop_last();
        let to = trimming_the_back(rest);
        assert(rest.take(to) =~= text.take(to));
        assert forall|i: int| to <= i < text.len() implies is_blank(#[trigger] text[i]) by {
            if i < rest.len() {
                assert(rest[i] == text[i]);
            }
        }
        to
    } else {
        assert(text.take(text.len() as int) =~= text);
        text.len() as int
    }
}

/// Truncation cuts no more than it has to: where anything is cut, the very next
/// character would no longer have fit.
pub proof fn truncation_cuts_no_more_than_needed(text: Seq<char>, limit: nat)
    ensures
        ({
            let count = truncated(text, limit).len() as int;
            &&& truncated(text, limit) == text.take(count)
            &&& count < text.len() ==> utf8_len(text.take(count + 1)) > limit
        }),
    decreases text.len(),
{
    if utf8_len(text) <= limit || text.len() == 0 {
        assert(text.take(text.len() as int) =~= text);
    } else {
        let shorter = text.drop_last();
        truncation_cuts_no_more_than_needed(shorter, limit);
        truncation_keeps_a_fitting_prefix(shorter, limit);
        let count = truncated(shorter, limit).len() as int;
        assert(shorter.take(count) =~= text.take(count));
        if count < shorter.len() {
            assert(shorter.take(count + 1) =~= text.take(count + 1));
        } else {
            assert(text.take(count + 1) =~= text);
        }
    }
}


/// Trimming takes whitespace off both ends, all of it and nothing else.
pub proof fn a_trimmed_text_has_no_edges(text: &str, inner: &str) -> (ends: (int, int))
    requires
        call_ensures(trim, (text,), inner),
    ensures
        0 <= ends.0 <= ends.1 <= text@.len(),
        inner@ == text@.subrange(ends.0, ends.1),
        forall|i: int| 0 <= i < ends.0 ==> is_blank(#[trigger] text@[i]),
        forall|i: int| ends.1 <= i < text@.len() ==> is_blank(#[trigger] text@[i]),
        inner@.len() > 0 ==> !is_blank(inner@[0]) && !is_blank(inner@.last()),
{
    trimming_takes_whitespace_only(text@)
}

/// A text that is cut is cut between two characters, fits the limit, and would not with
/// one character more.
pub proof fn a_text_is_cut_where_it_must_be(text: &str, limit: usize, front: &str)
    requires
        call_ensures(truncate_on_character_boundary, (text, limit), front),
    ensures
        front@ == text@.take(front@.len() as int),
        utf8_len(front@) <= limit,
        front@.len() < text@.len() ==> utf8_len(text@.take(1int + front@.len())) > limit,
{
    truncation_cuts_no_more_than_needed(text@, limit as nat);
    truncation_keeps_a_fitting_prefix(text@, limit as nat);
}


/// In ASCII the whitespace is space, tab, line feed, vertical tab, form feed and carriage
/// return; letters and digits are what they are; and nothing is two of these.
pub proof fn ascii_characters_are_of_one_kind(character: char)
    requires
        character < '\u{80}',
    ensures
        is_blank(character) <==> character == ' ' || character == '\t' || character == '\n'
            || character == '\u{b}' || character == '\u{c}' || character == '\r',
        is_letter_or_digit(character) <==> '0' <= character <= '9' || 'A' <= character <= 'Z'
            || 'a' <= character <= 'z',
        is_control_code(character) <==> character < ' ' || character == '\u{7f}',
        !(is_blank(character) && is_letter_or_digit(character)),
        !(is_control_code(character) && is_letter_or_digit(character)),
{
}

} // verus!
