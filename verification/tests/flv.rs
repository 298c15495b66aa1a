use gst_plugins::flv::{
    frame_tag, is_exactly_one_tag, parse_tag_header, script_data_tag, TAG_HEADER_LEN,
    TAG_TYPE_SCRIPT_DATA,
};

#[test]
fn a_framed_tag_parses_back_to_its_inputs() {
  let body = b"body bytes".as_slice();
  let tag = script_data_tag(1_234, body);

  let header = parse_tag_header(&tag).expect("header");
  assert_eq!(header.tag_type, TAG_TYPE_SCRIPT_DATA);
  assert_eq!(header.body_size, body.len());
  assert_eq!(header.timestamp_ms, 1_234);
  assert_eq!(header.total_len(), tag.len());
}

#[test]
fn the_trailing_size_field_excludes_itself() {
  let body = b"x".as_slice();
  let tag = script_data_tag(0, body);
  let trailer = u32::from_be_bytes(tag[tag.len() - 4..].try_into().unwrap()) as usize;
  assert_eq!(trailer, TAG_HEADER_LEN + body.len());
}

#[test]
fn timestamps_above_the_ui24_range_use_the_extension_byte() {
  let timestamp = 0x0100_0001;
  let tag = script_data_tag(timestamp, b"x");
  assert_eq!(tag[7], 0x01, "extension byte carries the high bits");
  assert_eq!(parse_tag_header(&tag).unwrap().timestamp_ms, timestamp);
}

#[test]
fn a_short_buffer_yields_no_header() {
  assert!(parse_tag_header(&[0u8; TAG_HEADER_LEN - 1]).is_none());
}

#[test]
fn a_script_tag_has_the_documented_layout() {
    let tag = script_data_tag(0x0102_0304, b"ab");
    assert_eq!(
        tag,
        [
            18, 0, 0, 2, // type and size
            2, 3, 4, 1, // timestamp, high byte last
            0, 0, 0, // stream id
            b'a', b'b', // body
            0, 0, 0, 13, // size of the tag
        ]
    );
}

#[test]
fn the_flags_of_the_type_byte_are_masked_out() {
    let mut tag = frame_tag(9, 5, b"x");
    tag[0] |= 0x20;
    assert_eq!(parse_tag_header(&tag).unwrap().tag_type, 9);
}

#[test]
fn whole_tags_are_told_from_anything_else() {
    let tag = script_data_tag(7, b"body");
    assert!(is_exactly_one_tag(&tag));
    assert!(!is_exactly_one_tag(&tag[..tag.len() - 1]));
    let mut two = tag.clone();
    two.extend_from_slice(&tag);
    assert!(!is_exactly_one_tag(&two));
    assert!(!is_exactly_one_tag(&[]));
}

#[test]
fn a_spliced_tag_shows_up_as_one_more_tag() {
    let mut stream = frame_tag(9, 0, b"video");
    stream.extend_from_slice(&script_data_tag(10, b"cue"));
    stream.extend_from_slice(&frame_tag(8, 20, b"audio"));
    let mut cursor = 0;
    let mut seen = Vec::new();
    while let Some(header) = parse_tag_header(&stream[cursor..]) {
        seen.push((header.tag_type, header.timestamp_ms));
        cursor += header.total_len();
    }
    assert_eq!(cursor, stream.len());
    assert_eq!(seen, [(9, 0), (18, 10), (8, 20)]);
}
