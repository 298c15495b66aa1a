use gst_plugins::amf::{
    script_data_body, MessageName, MARKER_MIXED_ARRAY, MARKER_NUMBER, MARKER_STRING,
    MAXIMUM_TEXT_BYTES,
};

/// Walk a serialized body the way FFmpeg's reader does, returning the text.
fn read_text_property(body: &[u8]) -> Option<String> {
  let mut cursor = 0usize;

  assert_eq!(body[cursor], MARKER_STRING);
  cursor += 1;
  let name_length = u16::from_be_bytes([body[cursor], body[cursor + 1]]) as usize;
  cursor += 2 + name_length;

  assert_eq!(body[cursor], MARKER_MIXED_ARRAY);
  cursor += 1 + 4;

  loop {
    let property_length = u16::from_be_bytes([body[cursor], body[cursor + 1]]) as usize;
    cursor += 2;
    if property_length == 0 {
      return None;
    }
    let property = std::str::from_utf8(&body[cursor..cursor + property_length]).unwrap();
    cursor += property_length;
    let kind = body[cursor];
    cursor += 1;
    match kind {
      MARKER_STRING => {
        let length = u16::from_be_bytes([body[cursor], body[cursor + 1]]) as usize;
        cursor += 2;
        let value = std::str::from_utf8(&body[cursor..cursor + length]).unwrap();
        cursor += length;
        if property == "text" {
          return Some(value.to_owned());
        }
      }
      MARKER_NUMBER => cursor += 8,
      other => panic!("unexpected AMF0 type {other:#x}"),
    }
  }
}

#[test]
fn message_name_is_the_first_amf0_string() {
  let body = script_data_body(MessageName::OnCaption, "hello", None);
  assert_eq!(body[0], MARKER_STRING);
  assert_eq!(&body[3..3 + 9], b"onCaption");
}

#[test]
fn text_property_round_trips() {
  let body = script_data_body(MessageName::OnCaption, "hello world", None);
  assert_eq!(read_text_property(&body).as_deref(), Some("hello world"));
}

#[test]
fn an_empty_cue_is_written_rather_than_omitted() {
  // This is the clear-display signal; dropping it would leave the previous
  // caption on screen forever, since cues end only when replaced.
  let body = script_data_body(MessageName::OnCaption, "", None);
  assert_eq!(read_text_property(&body).as_deref(), Some(""));
}

#[test]
fn text_precedes_duration_so_a_reader_stops_early() {
  let body = script_data_body(MessageName::OnCaption, "cue", Some(1_000));
  assert_eq!(read_text_property(&body).as_deref(), Some("cue"));
}

#[test]
fn multibyte_text_truncates_on_a_character_boundary() {
  let text = "é".repeat(MAXIMUM_TEXT_BYTES);
  let body = script_data_body(MessageName::OnCaption, &text, None);
  let recovered = read_text_property(&body).expect("text property");
  assert!(recovered.len() <= MAXIMUM_TEXT_BYTES);
  assert!(recovered.chars().all(|character| character == 'é'));
}

#[test]
fn message_names_are_spelled_as_readers_expect() {
    assert_eq!(MessageName::OnCaption.as_str(), "onCaption");
    assert_eq!(MessageName::OnTextData.as_str(), "onTextData");
    assert_eq!(MessageName::default(), MessageName::OnCaption);
}

#[test]
fn a_body_has_the_documented_layout() {
    let body = script_data_body(MessageName::OnTextData, "hi", None);
    let mut expected = vec![2, 0, 10];
    expected.extend_from_slice(b"onTextData");
    expected.extend_from_slice(&[8, 0, 0, 0, 1, 0, 4]);
    expected.extend_from_slice(b"text");
    expected.extend_from_slice(&[2, 0, 2, b'h', b'i', 0, 0, 9]);
    assert_eq!(body, expected);
}

#[test]
fn durations_are_milliseconds_in_double_precision() {
    for duration_ms in [0u32, 1, 999, 1_000, 1_500, 123_456_789, u32::MAX] {
        let body = script_data_body(MessageName::OnCaption, "", Some(duration_ms));
        let number: [u8; 8] = body[body.len() - 11..body.len() - 3].try_into().unwrap();
        assert_eq!(body[body.len() - 12], MARKER_NUMBER);
        assert_eq!(f64::from_be_bytes(number), f64::from(duration_ms));
    }
}
