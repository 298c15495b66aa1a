//! AMF0 serialization for FLV script-data subtitle messages.
//!
//! The shape is dictated by FFmpeg's `flv_data_packet()` in
//! `libavformat/flvdec.c`, which is the reader every consumer of this stream
//! ultimately goes through:
//!
//! * the message name must be `onTextData`, `onCaption`, or `onCaptionInfo`;
//! * the payload must be an ECMA mixed array, an object, or a strict array;
//! * within a mixed array or object, the cue text lives in a property literally
//!   named `text`, holding an AMF0 string.
//!
//! That reader stops at the *first* `text` property it finds, so exactly one
//! is written, and it is written first.
use crate::bytes;
use crate::bytes::{push_u16_be, push_u32_be, push_u64_be};
use crate::text;
use crate::text::truncate_on_character_boundary;
use vstd::arithmetic::power2;
use vstd::prelude::*;
use vstd::utf8;

verus! {

/// AMF0 type marker of a number.
pub const MARKER_NUMBER: u8 = 0x00;

/// AMF0 type marker of a string.
pub const MARKER_STRING: u8 = 0x02;

/// AMF0 type marker of an ECMA mixed array.
pub const MARKER_MIXED_ARRAY: u8 = 0x08;

/// AMF0 type marker that ends an object or a mixed array.
pub const MARKER_OBJECT_END: u8 = 0x09;

/// The longest UTF-8 string an AMF0 short string can carry.
///
/// Longer text would need the AMF0 *long* string type, which FFmpeg's
/// `flv_data_packet` does not accept for the `text` property: it reads a
/// 16-bit length unconditionally. Longer text is truncated rather than written
/// as an unreadable tag.
pub const MAXIMUM_TEXT_BYTES: usize = 0xffff;

/// The script-data message name carrying a cue.
///
/// Both variants reach the identical branch of FFmpeg's demuxer and produce a
/// text subtitle stream. They differ only in log noise, which is why the
/// default is not the more familiar name.
#[derive(Clone, Copy, Debug, PartialEq, Eq, Structural)]
pub enum MessageName {
    /// Reaches `flv_data_packet` without comment.
    OnCaption,
    /// Identical handling, but FFmpeg logs "OnTextData packet is not
    /// implemented" once per cue before decoding it correctly. Offered for
    /// consumers that match on the name.
    OnTextData,
}

impl Default for MessageName {
    fn default() -> (name: Self)
        ensures
            name == MessageName::OnCaption,
    {
        MessageName::OnCaption
    }
}

impl MessageName {
    /// The name as it is written on the wire.
    pub open spec fn text(self) -> Seq<char> {
        match self {
            MessageName::OnCaption => "onCaption"@,
            MessageName::OnTextData => "onTextData"@,
        }
    }

    /// The name as it is written on the wire.
    pub fn as_str(self) -> (name: &'static str)
        ensures
            name@ == self.text(),
    {
        match self {
            MessageName::OnCaption => "onCaption",
            MessageName::OnTextData => "onTextData",
        }
    }
}

/// An AMF0 short string without its type marker: the length, then as many
/// bytes as a 16-bit length can count.
pub open spec fn string_body(value: Seq<u8>) -> Seq<u8> {
    let length = if value.len() <= 0xffff {
        value.len() as int
    } else {
        0xffff
    };
    bytes::be_u16(length) + value.take(length)
}

/// An AMF0 short string value.
pub open spec fn string_value(value: Seq<u8>) -> Seq<u8> {
    seq![MARKER_STRING] + string_body(value)
}

/// The exponent of the largest power of two that is not above `value`.
pub open spec fn leading_exponent(value: int) -> int
    decreases value,
{
    if value < 2 {
        0
    } else {
        1 + leading_exponent(value / 2)
    }
}

/// The 64 bits that stand for the whole number `value` in IEEE 754 double
/// precision: a biased exponent and the fraction beyond the leading bit.
pub open spec fn double_bits(value: int) -> int {
    if value == 0 {
        0
    } else {
        let exponent = leading_exponent(value);
        (1023 + exponent) * 0x10_0000_0000_0000 + (value - power2::pow2(exponent as nat)) * power2::pow2(
            (52 - exponent) as nat,
        )
    }
}

/// An AMF0 number value.
pub open spec fn number_value(value: int) -> Seq<u8> {
    seq![MARKER_NUMBER] + bytes::be_u64(double_bits(value))
}

/// The properties that follow the text of a message.
pub open spec fn duration_property(duration_ms: Option<u32>) -> Seq<u8> {
    match duration_ms {
        Some(duration) => string_body(utf8::encode_utf8("duration"@)) + number_value(
            duration as int,
        ),
        None => Seq::empty(),
    }
}

/// Properties that a message has.
pub open spec fn property_count(duration_ms: Option<u32>) -> int {
    if duration_ms is Some {
        2
    } else {
        1
    }
}

/// The AMF0 body of a subtitle message: its name, then a mixed array that
/// holds the text first.
pub open spec fn message_body(
    name: MessageName,
    text: Seq<char>,
    duration_ms: Option<u32>,
) -> Seq<u8> {
    string_value(utf8::encode_utf8(name.text()))
        + seq![MARKER_MIXED_ARRAY]
        + bytes::be_u32(property_count(duration_ms))
        + string_body(utf8::encode_utf8("text"@))
        + string_value(utf8::encode_utf8(text::truncated(text, MAXIMUM_TEXT_BYTES as nat)))
        + duration_property(duration_ms)
        + seq![0u8, 0u8, MARKER_OBJECT_END]
}

/// The leading power of two of a number is at most that number and above its
/// half.
proof fn leading_power_bounds(value: int)
    requires
        value >= 1,
    ensures
        leading_exponent(value) >= 0,
        power2::pow2(leading_exponent(value) as nat) <= value < 2 * power2::pow2(leading_exponent(value) as nat),
    decreases value,
{
    power2::lemma2_to64();
    power2::lemma2_to64_rest();
    if value >= 2 {
        leading_power_bounds(value / 2);
        power2::lemma_pow2_unfold(leading_exponent(value) as nat);
    }
}

/// The bits of a whole number in IEEE 754 double precision.
fn double_bits_of(value: u32) -> (result: u64)
    ensures
        result == double_bits(value as int),
{
    if value == 0 {
        return 0;
    }
    let mut power: u64 = 1;
    let mut scale: u64 = 0x10_0000_0000_0000;
    let mut exponent: u64 = 0;
    let mut rest: u32 = value;
    proof {
        power2::lemma2_to64();
    power2::lemma2_to64_rest();
        leading_power_bounds(value as int);
    }
    while rest >= 2
        invariant
            1 <= rest,
            exponent <= 31,
            rest < power2::pow2((32 - exponent) as nat),
            power == power2::pow2(exponent as nat),
            scale == power2::pow2((52 - exponent) as nat),
            power <= 0x8000_0000,
            leading_exponent(value as int) == exponent + leading_exponent(rest as int),
        decreases rest,
    {
        proof {
            power2::lemma2_to64();
    power2::lemma2_to64_rest();
            power2::lemma_pow2_unfold((exponent + 1) as nat);
            power2::lemma_pow2_unfold((52 - exponent) as nat);
            power2::lemma_pow2_unfold((32 - exponent) as nat);
            if exponent < 31 {
                pow2_grows((exponent + 1) as nat, 31);
            }
        }
        power = power * 2;
        scale = scale / 2;
        exponent = exponent + 1;
        rest = rest / 2;
    }
    proof {
        let fraction = value - power;
        power2::lemma_pow2_pos((52 - exponent) as nat);
        power2::lemma_pow2_adds(exponent as nat, (52 - exponent) as nat);
        power2::lemma2_to64();
    power2::lemma2_to64_rest();
        assert(0 <= fraction * scale < power * scale) by (nonlinear_arith)
            requires
                0 <= fraction < power,
                scale > 0,
        ;
    }
    (1023 + exponent) * 0x10_0000_0000_0000 + (value as u64 - power) * scale
}

/// A power of two with the smaller exponent is not the larger one.
proof fn pow2_grows(small: nat, large: nat)
    requires
        small <= large,
    ensures
        power2::pow2(small) <= power2::pow2(large),
{
    if small < large {
        power2::lemma_pow2_strictly_increases(small, large);
    }
}

/// The double that stands for a whole number has that number's value: the
/// fraction with its leading one, at the scale of the exponent, is the number. That of
/// zero has no bit set.
pub proof fn double_bits_keep_the_value(value: u32)
    requires
        value > 0,
    ensures
        double_bits(0) == 0,
        ({
            let exponent = double_bits(value as int) / 0x10_0000_0000_0000 - 1023;
            let fraction = double_bits(value as int) % 0x10_0000_0000_0000;
            &&& 0 <= exponent <= 31
            &&& (0x10_0000_0000_0000 + fraction) * power2::pow2(exponent as nat) == value
                * 0x10_0000_0000_0000
        }),
{
    let exponent = leading_exponent(value as int);
    leading_power_bounds(value as int);
    power2::lemma2_to64();
    power2::lemma2_to64_rest();
    if exponent >= 32 {
        pow2_grows(32, exponent as nat);
    }
    let power = power2::pow2(exponent as nat) as int;
    let scale = power2::pow2((52 - exponent) as nat) as int;
    power2::lemma_pow2_pos((52 - exponent) as nat);
    power2::lemma_pow2_adds(exponent as nat, (52 - exponent) as nat);
    let fraction = (value - power) * scale;
    assert(0 <= fraction < power * scale) by (nonlinear_arith)
        requires
            fraction == (value - power) * scale,
            0 <= value - power < power,
            scale > 0,
    ;
    assert((power * scale + fraction) * power == value * (power * scale)) by (nonlinear_arith)
        requires
            fraction == (value - power) * scale,
    ;
}

fn put_string_body(out: &mut Vec<u8>, value: &str)
    ensures
        final(out)@ == old(out)@ + string_body(utf8::encode_utf8(value@)),
{
    let bytes = value.as_bytes();
    let length: u16 = if bytes.len() <= 0xffff {
        bytes.len() as u16
    } else {
        0xffff
    };
    push_u16_be(out, length);
    out.extend_from_slice(vstd::slice::slice_subrange(bytes, 0, length as usize));
    assert(out@ =~= old(out)@ + string_body(utf8::encode_utf8(value@)));
}

fn put_string(out: &mut Vec<u8>, value: &str)
    ensures
        final(out)@ == old(out)@ + string_value(utf8::encode_utf8(value@)),
{
    out.push(MARKER_STRING);
    put_string_body(out, value);
    assert(out@ =~= old(out)@ + string_value(utf8::encode_utf8(value@)));
}

fn put_property_name(out: &mut Vec<u8>, name: &str)
    ensures
        final(out)@ == old(out)@ + string_body(utf8::encode_utf8(name@)),
{
    put_string_body(out, name);
}

/// The names that a message holds, spelled out in bytes.
proof fn fixed_names_are_short()
    ensures
        utf8::encode_utf8("text"@) == seq![0x74u8, 0x65u8, 0x78u8, 0x74u8],
        utf8::encode_utf8("duration"@).len() == 8,
        utf8::encode_utf8("onCaption"@).len() == 9,
        utf8::encode_utf8("onTextData"@).len() == 10,
{
    reveal_strlit("text");
    reveal_strlit("duration");
    reveal_strlit("onCaption");
    reveal_strlit("onTextData");
    utf8::is_ascii_chars_encode_utf8("text"@);
    utf8::is_ascii_chars_encode_utf8("duration"@);
    utf8::is_ascii_chars_encode_utf8("onCaption"@);
    utf8::is_ascii_chars_encode_utf8("onTextData"@);
    assert(utf8::encode_utf8("text"@) =~= seq![0x74u8, 0x65u8, 0x78u8, 0x74u8]);
}

/// Serialize the AMF0 body of a script-data subtitle message.
///
/// The result is the tag *body* only: the FLV tag header framing it belongs to
/// the caller, which is the only party that knows the stream's timestamps.
///
/// `text` is truncated to [`MAXIMUM_TEXT_BYTES`] on a UTF-8 character boundary.
/// An empty `text` is meaningful and is written as such: it is how this
/// transport expresses "clear the display".
pub fn script_data_body(name: MessageName, text: &str, duration_ms: Option<u32>) -> (body: Vec<u8>)
    ensures
        body@ == message_body(name, text@, duration_ms),
        body@.len() <= MAXIMUM_TEXT_BYTES + 64,
{
    let fitting = truncate_on_character_boundary(text, MAXIMUM_TEXT_BYTES);
    proof {
        text::truncation_keeps_a_fitting_prefix(text@, MAXIMUM_TEXT_BYTES as nat);
        fixed_names_are_short();
    }

    let mut out: Vec<u8> = Vec::with_capacity(64 + fitting.as_bytes().len());
    put_string(&mut out, name.as_str());

    // A mixed array rather than an object: this is what Wowza and the wider FLV
    // caption ecosystem emit, and FFmpeg accepts it on the same path.
    out.push(MARKER_MIXED_ARRAY);
    let count: u32 = if duration_ms.is_some() {
        2
    } else {
        1
    };
    push_u32_be(&mut out, count);

    // `text` is written first so a reader scanning for it stops immediately.
    put_property_name(&mut out, "text");
    put_string(&mut out, fitting);

    // An advisory end time for readers that want one. FFmpeg ignores it and
    // resolves a cue's end from its successor.
    if let Some(duration) = duration_ms {
        put_property_name(&mut out, "duration");
        out.push(MARKER_NUMBER);
        push_u64_be(&mut out, double_bits_of(duration));
    }

    // Object end marker: an empty property name followed by the end type.
    out.push(0x00);
    out.push(0x00);
    out.push(MARKER_OBJECT_END);
    assert(out@ =~= message_body(name, text@, duration_ms));
    out
}

/// The short string that `body` holds from `at` on, and where it ends.
pub open spec fn string_at(body: Seq<u8>, at: int) -> Option<(Seq<u8>, int)> {
    if at < 0 || at + 2 > body.len() {
        None
    } else {
        let end = at + 2 + bytes::u16_at(body, at);
        if end > body.len() {
            None
        } else {
            Some((body.subrange(at + 2, end), end))
        }
    }
}

/// The first `text` property among the properties that `body` holds from `at`
/// on, found by walking them as FFmpeg's reader does.
pub open spec fn text_property_from(body: Seq<u8>, at: int) -> Option<Seq<u8>>
    decreases body.len() - at,
{
    match string_at(body, at) {
        None => None,
        Some((name, kind_at)) => if name.len() == 0 || kind_at >= body.len() {
            None
        } else if body[kind_at] == MARKER_STRING {
            match string_at(body, kind_at + 1) {
                None => None,
                Some((value, next)) => if name == utf8::encode_utf8("text"@) {
                    Some(value)
                } else {
                    text_property_from(body, next)
                },
            }
        } else if body[kind_at] == MARKER_NUMBER && kind_at + 9 <= body.len() {
            text_property_from(body, kind_at + 9)
        } else {
            None
        },
    }
}

/// The text that a reader finds in a message body.
pub open spec fn text_property(body: Seq<u8>) -> Option<Seq<u8>> {
    match string_at(body, 1) {
        None => None,
        Some((_, array_at)) => if body[0] == MARKER_STRING && body[array_at] == MARKER_MIXED_ARRAY {
            text_property_from(body, array_at + 5)
        } else {
            None
        },
    }
}

/// A short string that was written is read back whole.
proof fn a_written_string_reads_back(front: Seq<u8>, value: Seq<u8>, back: Seq<u8>)
    requires
        value.len() <= 0xffff,
    ensures
        string_at(front + string_body(value) + back, front.len() as int) == Some(
            (value, (front.len() + 2 + value.len()) as int),
        ),
{
    let head = bytes::be_u16(value.len() as int);
    let at = front.len() as int;
    bytes::be_u16_reads_back(value.len() as int);
    assert(string_body(value) =~= head + value);
    string_at_a_length(front + string_body(value) + back, at, head, value.len() as int);
    assert((front + (head + value) + back).subrange(at + 2, at + 2 + value.len()) =~= value);
}

/// A string is as long as the two bytes in front of it say.
proof fn string_at_a_length(body: Seq<u8>, at: int, head: Seq<u8>, length: int)
    requires
        0 <= at,
        head.len() == 2,
        bytes::u16_at(head, 0) == length,
        at + 2 + length <= body.len(),
        0 <= length,
        body[at] == head[0],
        body[at + 1] == head[1],
    ensures
        string_at(body, at) == Some((body.subrange(at + 2, at + 2 + length), at + 2 + length)),
{
}

/// The text of a cue survives the wire: whatever follows it in the message, a
/// reader finds exactly the text that was written, cut to the longest run of
/// whole characters that a short string can hold. Empty text is found as such.
pub proof fn the_text_property_round_trips(
    name: MessageName,
    text: Seq<char>,
    duration_ms: Option<u32>,
)
    ensures
        text_property(message_body(name, text, duration_ms)) == Some(
            utf8::encode_utf8(text::truncated(text, MAXIMUM_TEXT_BYTES as nat)),
        ),
        text::utf8_len(text) <= MAXIMUM_TEXT_BYTES ==> text_property(
            message_body(name, text, duration_ms),
        ) == Some(utf8::encode_utf8(text)),
{
    text::truncation_keeps_a_fitting_prefix(text, MAXIMUM_TEXT_BYTES as nat);
    fixed_names_are_short();
    the_first_property_is_found(
        utf8::encode_utf8(name.text()),
        bytes::be_u32(property_count(duration_ms)),
        utf8::encode_utf8(text::truncated(text, MAXIMUM_TEXT_BYTES as nat)),
        duration_property(duration_ms),
    );
}

/// A reader finds the property that a message holds first.
#[verifier::spinoff_prover]
#[verifier::rlimit(60)]
proof fn the_first_property_is_found(
    name: Seq<u8>,
    count: Seq<u8>,
    value: Seq<u8>,
    more: Seq<u8>,
)
    requires
        name.len() <= 0xffff,
        count.len() == 4,
        value.len() <= 0xffff,
    ensures
        text_property(
            string_value(name) + seq![MARKER_MIXED_ARRAY] + count + string_body(
                utf8::encode_utf8("text"@),
            ) + string_value(value) + more + seq![0u8, 0u8, MARKER_OBJECT_END],
        ) == Some(value),
{
    let key = utf8::encode_utf8("text"@);
    let end = seq![0u8, 0u8, MARKER_OBJECT_END];
    let body = string_value(name) + seq![MARKER_MIXED_ARRAY] + count + string_body(key)
        + string_value(value) + more + end;
    let array_at = 3 + name.len() as int;
    let kind_at = array_at + 5 + 6;
    assert(key.len() == 4) by {
        fixed_names_are_short();
    }
    assert(string_at(body, 1) == Some((name, array_at)) && body[0] == MARKER_STRING
        && body[array_at] == MARKER_MIXED_ARRAY) by {
        let front = seq![MARKER_STRING];
        let back = seq![MARKER_MIXED_ARRAY] + count + string_body(key) + string_value(value) + more
            + end;
        string_body_len(name);
        assert(body =~= front + string_body(name) + back);
        a_written_string_reads_back(front, name, back);
    }
    assert(string_at(body, array_at + 5) == Some((key, kind_at)) && body[kind_at]
        == MARKER_STRING && kind_at < body.len()) by {
        let front = string_value(name) + seq![MARKER_MIXED_ARRAY] + count;
        let back = string_value(value) + more + end;
        string_body_len(name);
        string_body_len(key);
        assert(body =~= front + string_body(key) + back);
        a_written_string_reads_back(front, key, back);
    }
    assert(string_at(body, kind_at + 1) matches Some((found, _)) && found == value) by {
        let front = string_value(name) + seq![MARKER_MIXED_ARRAY] + count + string_body(key)
            + seq![MARKER_STRING];
        let back = more + end;
        string_body_len(name);
        string_body_len(key);
        assert(body =~= front + string_body(value) + back);
        a_written_string_reads_back(front, value, back);
    }
    a_found_text_is_the_property(body, array_at, kind_at);
}

/// Bytes that a short string takes.
proof fn string_body_len(value: Seq<u8>)
    requires
        value.len() <= 0xffff,
    ensures
        string_body(value).len() == 2 + value.len(),
{
}

/// The walk over the properties ends at a first property that is named `text`.
proof fn a_found_text_is_the_property(body: Seq<u8>, array_at: int, kind_at: int)
    requires
        string_at(body, 1) matches Some((_, end)) && end == array_at,
        body[0] == MARKER_STRING,
        body[array_at] == MARKER_MIXED_ARRAY,
        string_at(body, array_at + 5) == Some((utf8::encode_utf8("text"@), kind_at)),
        kind_at < body.len(),
        body[kind_at] == MARKER_STRING,
        string_at(body, kind_at + 1) is Some,
    ensures
        string_at(body, kind_at + 1) matches Some((value, _)) && text_property(body) == Some(value),
{
    fixed_names_are_short();
}

/// A message is short enough for the size field of a tag, whatever its text.
pub proof fn a_message_is_short(name: MessageName, text: Seq<char>, duration_ms: Option<u32>)
    ensures
        message_body(name, text, duration_ms).len() <= 0xffff + 64,
{
    text::truncation_keeps_a_fitting_prefix(text, MAXIMUM_TEXT_BYTES as nat);
    fixed_names_are_short();
}

/// Where the text property of a message ends.
pub open spec fn text_end(name: MessageName, text: Seq<char>) -> int {
    17int + utf8::encode_utf8(name.text()).len() + text::utf8_len(
        text::truncated(text, MAXIMUM_TEXT_BYTES as nat),
    )
}

/// A message is laid out as its readers expect: a string with the message's name,
/// then a mixed array that says how many properties it holds, the text first, the
/// duration behind it where there is one, and the end marker last.
#[verifier::spinoff_prover]
#[verifier::rlimit(60)]
pub proof fn a_message_is_laid_out_as_expected(
    name: MessageName,
    text: Seq<char>,
    duration_ms: Option<u32>,
)
    ensures
        ({
            let body = message_body(name, text, duration_ms);
            let spelled = match name {
                MessageName::OnCaption => utf8::encode_utf8("onCaption"@),
                MessageName::OnTextData => utf8::encode_utf8("onTextData"@),
            };
            let array_at = 3 + spelled.len() as int;
            let end = text_end(name, text);
            &&& body[0] == 2
            &&& string_at(body, 1) == Some((spelled, array_at))
            &&& body[array_at] == 8
            &&& bytes::u32_at(body, array_at + 1) == if duration_ms is Some {
                2int
            } else {
                1int
            }
            &&& body.len() >= 3
            &&& body[body.len() - 3] == 0 && body[body.len() - 2] == 0 && body[body.len() - 1] == 9
            &&& duration_ms is None ==> body.len() == end + 3
            &&& duration_ms is Some ==> {
                &&& body.len() == end + 22
                &&& string_at(body, end) == Some((utf8::encode_utf8("duration"@), end + 10))
                &&& body[end + 10] == 0
                &&& body.subrange(end + 11, end + 19) == bytes::be_u64(
                    double_bits(duration_ms->0 as int),
                )
            }
        }),
{
    let cut = utf8::encode_utf8(text::truncated(text, MAXIMUM_TEXT_BYTES as nat));
    let spelled = utf8::encode_utf8(name.text());
    let key = utf8::encode_utf8("text"@);
    let marker = seq![0u8, 0u8, MARKER_OBJECT_END];
    let count = bytes::be_u32(property_count(duration_ms));
    let body = message_body(name, text, duration_ms);
    let end = text_end(name, text);
    text::truncation_keeps_a_fitting_prefix(text, MAXIMUM_TEXT_BYTES as nat);
    fixed_names_are_short();
    string_body_len(spelled);
    string_body_len(key);
    string_body_len(cut);
    let front = string_value(spelled) + seq![MARKER_MIXED_ARRAY] + count + string_body(key)
        + string_value(cut);
    assert(front.len() == end);
    let back = seq![MARKER_MIXED_ARRAY] + count + string_body(key) + string_value(cut)
        + duration_property(duration_ms) + marker;
    assert(body =~= seq![MARKER_STRING] + string_body(spelled) + back);
    a_written_string_reads_back(seq![MARKER_STRING], spelled, back);
    let array_at = 3 + spelled.len() as int;
    assert(body[array_at + 1] == count[0] && body[array_at + 2] == count[1] && body[array_at + 3]
        == count[2] && body[array_at + 4] == count[3]);
    bytes::be_u32_reads_back(property_count(duration_ms));
    if let Some(duration) = duration_ms {
        let label = utf8::encode_utf8("duration"@);
        let bits = bytes::be_u64(double_bits(duration as int));
        string_body_len(label);
        let rest = seq![MARKER_NUMBER] + bits + marker;
        assert(body =~= front + string_body(label) + rest);
        a_written_string_reads_back(front, label, rest);
        assert(body.subrange(end + 11, end + 19) =~= bits);
    } else {
        assert(body =~= front + marker);
    }
}

} // verus!
