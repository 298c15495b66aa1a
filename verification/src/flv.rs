//! FLV tag framing and just enough header parsing to splice into a tag stream.
//!
//! Tag *bodies* are deliberately not parsed. The elements ask exactly one
//! question about the muxed stream that flows through them, which timestamp
//! the muxer has reached, and that stands in the 11-byte tag header.
//! Everything else is forwarded byte for byte.
use crate::bytes;
use crate::bytes::{push_u24_be, push_u32_be};
use vstd::prelude::*;

verus! {

/// FLV tag header length: type, size, timestamp, extended timestamp, stream id.
pub const TAG_HEADER_LEN: usize = 11;

/// Size of the `PreviousTagSize` field that follows every tag.
pub const PREVIOUS_TAG_SIZE_LEN: usize = 4;

/// `TagType` for script data (AMF0 metadata), from the FLV specification.
pub const TAG_TYPE_SCRIPT_DATA: u8 = 18;

/// The largest timestamp an FLV tag can express.
///
/// 24 bits of timestamp plus an 8-bit extension, treated as a signed 32-bit
/// value by every reader in practice.
pub const MAXIMUM_TIMESTAMP_MS: u64 = 0x7fff_ffff;

/// A parsed FLV tag header.
#[derive(Clone, Copy, Debug, PartialEq, Eq, Structural)]
pub struct TagHeader {
    pub tag_type: u8,
    pub body_size: usize,
    pub timestamp_ms: u32,
}

impl TagHeader {
    /// Bytes that a tag with this header occupies.
    pub open spec fn spec_total_len(self) -> int {
        TAG_HEADER_LEN + self.body_size + PREVIOUS_TAG_SIZE_LEN
    }

    /// Total bytes this tag occupies, including header and trailing size field.
    pub fn total_len(self) -> (len: usize)
        requires
            self.spec_total_len() <= usize::MAX,
        ensures
            len == self.spec_total_len(),
    {
        TAG_HEADER_LEN + self.body_size + PREVIOUS_TAG_SIZE_LEN
    }
}

/// What the first eleven bytes of `data` say, read as a tag header.
pub open spec fn tag_header(data: Seq<u8>) -> Option<TagHeader> {
    if data.len() < TAG_HEADER_LEN {
        None
    } else {
        Some(
            TagHeader {
                // The high bits of the type byte are the filter and reserved flags.
                tag_type: (data[0] % 0x20) as u8,
                body_size: bytes::u24_at(data, 1) as usize,
                timestamp_ms: (data[7] * 0x100_0000 + bytes::u24_at(data, 4)) as u32,
            },
        )
    }
}

/// Parse a tag header from the front of `data`, if enough bytes are present.
pub fn parse_tag_header(data: &[u8]) -> (header: Option<TagHeader>)
    ensures
        header == tag_header(data@),
        header is Some <==> data@.len() >= TAG_HEADER_LEN,
{
    if data.len() < TAG_HEADER_LEN {
        return None;
    }
    let tag_type: u8 = data[0] % 0x20;
    let body_size: u32 = data[1] as u32 * 0x1_0000 + data[2] as u32 * 0x100 + data[3] as u32;
    let lower: u32 = data[4] as u32 * 0x1_0000 + data[5] as u32 * 0x100 + data[6] as u32;
    let timestamp_ms: u32 = data[7] as u32 * 0x100_0000 + lower;
    Some(TagHeader { tag_type, body_size: body_size as usize, timestamp_ms })
}

/// `value`, or the largest 32-bit number where it does not fit.
pub open spec fn saturate_u32(value: int) -> int {
    if value <= u32::MAX {
        value
    } else {
        u32::MAX as int
    }
}

/// The bytes of a whole FLV tag: header, body and the trailing size field.
pub open spec fn flv_tag(tag_type: u8, timestamp_ms: int, body: Seq<u8>) -> Seq<u8> {
    seq![tag_type]
        + bytes::be_u24(saturate_u32(body.len() as int))
        // Timestamps split as UI24 lower bits followed by a separate high byte.
        + bytes::be_u24(timestamp_ms)
        + seq![(timestamp_ms / 0x100_0000) as u8]
        // StreamID is always zero.
        + seq![0u8, 0u8, 0u8]
        + body
        + bytes::be_u32(saturate_u32(TAG_HEADER_LEN + body.len()))
}

/// The bytes of a script-data tag.
pub open spec fn script_tag(timestamp_ms: int, body: Seq<u8>) -> Seq<u8> {
    flv_tag(TAG_TYPE_SCRIPT_DATA, timestamp_ms, body)
}

/// Frame a tag body as a complete FLV tag of the given type.
pub fn frame_tag(tag_type: u8, timestamp_ms: u32, body: &[u8]) -> (tag: Vec<u8>)
    requires
        TAG_HEADER_LEN + body@.len() + PREVIOUS_TAG_SIZE_LEN <= isize::MAX,
    ensures
        tag@ == flv_tag(tag_type, timestamp_ms as int, body@),
{
    let mut tag: Vec<u8> = Vec::with_capacity(TAG_HEADER_LEN + body.len() + PREVIOUS_TAG_SIZE_LEN);
    tag.push(tag_type);

    let body_size: u32 = if body.len() as u64 <= u32::MAX as u64 {
        body.len() as u32
    } else {
        u32::MAX
    };
    push_u24_be(&mut tag, body_size);
    push_u24_be(&mut tag, timestamp_ms);
    tag.push((timestamp_ms / 0x100_0000) as u8);
    tag.push(0);
    tag.push(0);
    tag.push(0);
    tag.extend_from_slice(body);

    let tag_len: usize = TAG_HEADER_LEN + body.len();
    let trailer: u32 = if tag_len as u64 <= u32::MAX as u64 {
        tag_len as u32
    } else {
        u32::MAX
    };
    push_u32_be(&mut tag, trailer);
    assert(tag@ =~= flv_tag(tag_type, timestamp_ms as int, body@));
    tag
}

/// Frame an already-serialized script-data body as a complete FLV tag.
///
/// The returned bytes are self-contained and position-independent: an FLV body
/// is a flat sequence of such tags, which is precisely what makes splicing one
/// in downstream of a muxer sound.
pub fn script_data_tag(timestamp_ms: u32, body: &[u8]) -> (tag: Vec<u8>)
    requires
        TAG_HEADER_LEN + body@.len() + PREVIOUS_TAG_SIZE_LEN <= isize::MAX,
    ensures
        tag@ == script_tag(timestamp_ms as int, body@),
{
    frame_tag(TAG_TYPE_SCRIPT_DATA, timestamp_ms, body)
}

/// Whether `data` is exactly one whole tag.
pub open spec fn is_one_tag(data: Seq<u8>) -> bool {
    tag_header(data) matches Some(header) && header.spec_total_len() == data.len()
}

/// Whether `data` is exactly one whole FLV tag, no more and no less.
pub fn is_exactly_one_tag(data: &[u8]) -> (whole: bool)
    ensures
        whole == is_one_tag(data@),
{
    match parse_tag_header(data) {
        Some(header) => {
            data.len() >= TAG_HEADER_LEN + PREVIOUS_TAG_SIZE_LEN
                && header.body_size == data.len() - TAG_HEADER_LEN - PREVIOUS_TAG_SIZE_LEN
        },
        None => false,
    }
}

/// The whole tags that `data` consists of, one after another, or `None` where
/// it ends inside a tag.
pub open spec fn split_tags(data: Seq<u8>) -> Option<Seq<Seq<u8>>>
    decreases data.len(),
{
    if data.len() == 0 {
        Some(Seq::empty())
    } else {
        match tag_header(data) {
            None => None,
            Some(header) => {
                let len = header.spec_total_len();
                if len > data.len() {
                    None
                } else {
                    match split_tags(data.subrange(len, data.len() as int)) {
                        None => None,
                        Some(rest) => Some(seq![data.subrange(0, len)] + rest),
                    }
                }
            },
        }
    }
}

/// A framed tag parses back to its inputs, and it occupies exactly the bytes
/// that its header says, for every body whose size the header can hold.
pub proof fn a_framed_tag_parses_back(tag_type: u8, timestamp_ms: u32, body: Seq<u8>)
    requires
        tag_type < 0x20,
        body.len() < 0x100_0000,
    ensures
        tag_header(flv_tag(tag_type, timestamp_ms as int, body)) == Some(
            (TagHeader { tag_type, body_size: body.len() as usize, timestamp_ms }),
        ),
        is_one_tag(flv_tag(tag_type, timestamp_ms as int, body)),
        flv_tag(tag_type, timestamp_ms as int, body).subrange(
            TAG_HEADER_LEN as int,
            TAG_HEADER_LEN + body.len(),
        ) == body,
{
    let tag = flv_tag(tag_type, timestamp_ms as int, body);
    let size = bytes::be_u24(body.len() as int);
    let lower = bytes::be_u24(timestamp_ms as int);
    assert(tag[0] == tag_type);
    assert(tag[1] == size[0] && tag[2] == size[1] && tag[3] == size[2]);
    assert(tag[4] == lower[0] && tag[5] == lower[1] && tag[6] == lower[2]);
    assert(tag[7] == (timestamp_ms / 0x100_0000) as u8);
    assert(tag.subrange(TAG_HEADER_LEN as int, TAG_HEADER_LEN + body.len()) =~= body);
    bytes::be_u24_reads_back(body.len() as int);
    bytes::be_u24_reads_back(timestamp_ms as int);
    assert(bytes::u24_at(tag, 1) == body.len());
    assert(bytes::u24_at(tag, 4) == timestamp_ms as int % 0x100_0000);
}

/// The size field that trails a tag counts header and body, and not itself.
pub proof fn the_trailing_size_excludes_itself(tag_type: u8, timestamp_ms: u32, body: Seq<u8>)
    requires
        TAG_HEADER_LEN + body.len() <= u32::MAX,
    ensures
        ({
            let tag = flv_tag(tag_type, timestamp_ms as int, body);
            bytes::u32_at(tag, tag.len() - PREVIOUS_TAG_SIZE_LEN) == tag.len() - PREVIOUS_TAG_SIZE_LEN
        }),
{
    let tag = flv_tag(tag_type, timestamp_ms as int, body);
    let at = TAG_HEADER_LEN + body.len();
    let trailer = bytes::be_u32(at);
    assert(tag.len() == at + PREVIOUS_TAG_SIZE_LEN);
    assert(tag[at] == trailer[0]);
    assert(tag[at + 1] == trailer[1]);
    assert(tag[at + 2] == trailer[2]);
    assert(tag[at + 3] == trailer[3]);
    bytes::be_u32_reads_back(at);
}

/// A tag in front of a stream is split off whole and leaves the rest alone.
proof fn split_after_one_tag(tag: Seq<u8>, rest: Seq<u8>)
    requires
        is_one_tag(tag),
        split_tags(rest) is Some,
    ensures
        split_tags(tag + rest) == Some(seq![tag] + split_tags(rest)->0),
{
    let data = tag + rest;
    assert(bytes::u24_at(data, 1) == bytes::u24_at(tag, 1));
    assert(bytes::u24_at(data, 4) == bytes::u24_at(tag, 4));
    assert(tag_header(data) == tag_header(tag));
    assert(data.subrange(tag.len() as int, data.len() as int) =~= rest);
    assert(data.subrange(0, tag.len() as int) =~= tag);
}

/// Tag streams concatenate: the tags of the whole are those of the first part
/// followed by those of the second.
pub proof fn tag_streams_concatenate(first: Seq<u8>, second: Seq<u8>)
    requires
        split_tags(first) is Some,
        split_tags(second) is Some,
    ensures
        split_tags(first + second) == Some(split_tags(first)->0 + split_tags(second)->0),
    decreases first.len(),
{
    if first.len() == 0 {
        assert(first + second =~= second);
        assert(split_tags(first)->0 + split_tags(second)->0 =~= split_tags(second)->0);
    } else {
        let len = tag_header(first)->0.spec_total_len();
        let tag = first.subrange(0, len);
        let rest = first.subrange(len, first.len() as int);
        tag_streams_concatenate(rest, second);
        assert(bytes::u24_at(tag, 1) == bytes::u24_at(first, 1));
        assert(bytes::u24_at(tag, 4) == bytes::u24_at(first, 4));
        assert(is_one_tag(tag));
        split_after_one_tag(tag, rest + second);
        assert(first + second =~= tag + (rest + second));
        assert(split_tags(first)->0 + split_tags(second)->0 =~= seq![tag] + (split_tags(rest)->0
            + split_tags(second)->0));
    }
}

/// Splicing is sound: a framed tag put between two tags of a stream shows up
/// as one more tag, and every other tag of the stream stays as it was.
pub proof fn a_spliced_tag_leaves_the_stream_intact(
    before: Seq<u8>,
    after: Seq<u8>,
    tag_type: u8,
    timestamp_ms: u32,
    body: Seq<u8>,
)
    requires
        split_tags(before) is Some,
        split_tags(after) is Some,
        tag_type < 0x20,
        body.len() < 0x100_0000,
    ensures
        ({
            let tag = flv_tag(tag_type, timestamp_ms as int, body);
            split_tags(before + tag + after) == Some(
                split_tags(before)->0 + seq![tag] + split_tags(after)->0,
            )
        }),
{
    let tag = flv_tag(tag_type, timestamp_ms as int, body);
    a_framed_tag_parses_back(tag_type, timestamp_ms, body);
    split_after_one_tag(tag, after);
    tag_streams_concatenate(before, tag + after);
    assert(before + tag + after =~= before + (tag + after));
    assert(split_tags(before)->0 + seq![tag] + split_tags(after)->0 =~= split_tags(before)->0 + (
    seq![tag] + split_tags(after)->0));
}

/// A tag is its header, its body and its trailing size and nothing else, and the
/// stream id in the header is zero.
pub proof fn a_tag_is_header_body_and_size(tag_type: u8, timestamp_ms: u32, body: Seq<u8>)
    ensures
        ({
            let tag = flv_tag(tag_type, timestamp_ms as int, body);
            &&& tag.len() == 11 + body.len() + 4
            &&& tag[0] == tag_type
            &&& tag[8] == 0 && tag[9] == 0 && tag[10] == 0
            &&& tag.subrange(11, 11int + body.len()) == body
        }),
{
    let tag = flv_tag(tag_type, timestamp_ms as int, body);
    assert(tag.subrange(11, 11int + body.len()) =~= body);
}

/// What a header says is what its bytes say, whatever follows them: the low five
/// bits of the first byte are the type, the next three bytes the size, and the
/// timestamp is the fourth byte of its field followed by the first three.
pub proof fn a_header_says_what_its_bytes_say(data: Seq<u8>, more: Seq<u8>)
    requires
        data.len() >= 11,
    ensures
        ({
            let header = tag_header(data);
            &&& header is Some
            &&& header->0.tag_type < 32 && (data[0] - header->0.tag_type) % 32 == 0
            &&& header->0.body_size == data[1] * 65536 + data[2] * 256 + data[3]
            &&& header->0.timestamp_ms == data[7] * 16777216 + data[4] * 65536 + data[5] * 256
                + data[6]
            &&& tag_header(data + more) == header
            &&& is_one_tag(data) <==> data.len() == 15 + data[1] * 65536 + data[2] * 256 + data[3]
        }),
        tag_header(data.take(10)) is None,
{
    let whole = data + more;
    assert(bytes::u24_at(whole, 1) == bytes::u24_at(data, 1));
    assert(bytes::u24_at(whole, 4) == bytes::u24_at(data, 4));
}


/// A tag is read as it was framed, and is one whole tag.
pub proof fn a_framed_tag_is_read_back(
    tag_type: u8,
    timestamp_ms: u32,
    body: &[u8],
    tag: Vec<u8>,
    data: &[u8],
    header: Option<TagHeader>,
    whole: bool,
)
    requires
        call_ensures(frame_tag, (tag_type, timestamp_ms, body), tag),
        data@ == tag@,
        call_ensures(parse_tag_header, (data,), header),
        call_ensures(is_exactly_one_tag, (data,), whole),
        body@.len() < 0x100_0000,
        tag_type < 0x20,
    ensures
        header is Some,
        header->0.tag_type == tag_type,
        header->0.body_size == body@.len(),
        header->0.timestamp_ms == timestamp_ms,
        whole,
        tag@.len() == body@.len() + 15,
        tag@.subrange(11, 11int + body@.len()) == body@,
{
    a_framed_tag_parses_back(tag_type, timestamp_ms, body@);
    a_tag_is_header_body_and_size(tag_type, timestamp_ms, body@);
}

} // verus!
