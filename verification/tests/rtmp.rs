use gst_plugins::flv::{is_exactly_one_tag, parse_tag_header};
use gst_plugins::rtmp::{
    accept_failed, frame_flv_tag, is_client_disconnect, listening_port, nanoseconds_timeout,
    nodelay_failed, CreateStep, DataStep, EndReason, IoKind, Listener, MediaKind, Next,
    PublishStep, Received, Relay, SessionEnd, SessionFailure, Settings, TagTooLarge, WorkerOutput,
    MAXIMUM_PAYLOAD_BYTES,
};

fn open_listener(keep_listening: bool) -> Listener {
    Listener::new(None, None, keep_listening)
}

fn failed(failure: SessionFailure) -> SessionEnd {
    SessionEnd::Failed { failure, error: "gone".into() }
}

#[test]
fn the_defaults_are_the_documented_ones() {
    let settings = Settings::default();
    assert_eq!(settings.address, "0.0.0.0");
    assert_eq!(settings.port, 1935);
    assert!(settings.tcp_nodelay);
    assert_eq!(settings.accept_timeout, 0);
    assert_eq!(settings.handshake_timeout, 10_000_000_000);
    assert_eq!(settings.read_timeout, 0);
    assert_eq!(settings.write_timeout, 10_000_000_000);
    assert_eq!(settings.graceful_shutdown_timeout, 0);
    assert!(!settings.keep_listening);
    assert_eq!(settings.application, None);
    assert_eq!(settings.stream_key, None);
    assert_eq!(nanoseconds_timeout(0), None);
    assert_eq!(nanoseconds_timeout(7), Some(7));
    assert_eq!(listening_port(0, 4_000), 4_000);
    assert_eq!(listening_port(1935, 4_000), 1935);
}

#[test]
fn a_message_is_framed_as_one_tag() {
    let tag = frame_flv_tag(9, 0x0a0b_0c0d, b"abc").unwrap();
    assert_eq!(
        tag,
        [9, 0, 0, 3, 0x0b, 0x0c, 0x0d, 0x0a, 0, 0, 0, b'a', b'b', b'c', 0, 0, 0, 14]
    );
    assert!(is_exactly_one_tag(&tag));
}

#[test]
fn payloads_beyond_the_size_field_are_refused() {
    let largest = vec![0; MAXIMUM_PAYLOAD_BYTES];
    let tag = frame_flv_tag(8, 0, &largest).unwrap();
    assert_eq!(parse_tag_header(&tag).unwrap().body_size, MAXIMUM_PAYLOAD_BYTES);
    let too_large = vec![0; MAXIMUM_PAYLOAD_BYTES + 1];
    assert_eq!(frame_flv_tag(8, 0, &too_large), Err(TagTooLarge));
    assert!(matches!(
        open_listener(false).on_data(MediaKind::Audio, 0, &too_large),
        DataStep::Fail(text) if text == "RTMP media message exceeds the FLV 24-bit tag-size limit"
    ));
}

#[test]
fn a_session_sends_its_header_once() {
    let mut listener = open_listener(true);
    assert!(matches!(
        listener.on_publish("live", "key"),
        PublishStep::Accept { connection_id: 1 }
    ));
    assert_eq!(
        listener.ensure_header(),
        Some(b"FLV\x01\x05\x00\x00\x00\x09\x00\x00\x00\x00".to_vec())
    );
    assert_eq!(listener.ensure_header(), None);
    for (kind, tag_type) in [
        (MediaKind::Audio, 8),
        (MediaKind::Video, 9),
        (MediaKind::Amf0, 18),
    ] {
        match listener.on_data(kind, 40, b"x") {
            DataStep::Send(tag) => {
                let header = parse_tag_header(&tag).unwrap();
                assert_eq!((header.tag_type, header.timestamp_ms), (tag_type, 40));
            }
            other => panic!("expected a tag, got {other:?}"),
        }
    }
    listener.begin_session();
    assert!(listener.ensure_header().is_some());
}

#[test]
fn names_must_match_where_they_are_configured() {
    let listener = || Listener::new(Some("live".into()), Some("key".into()), false);
    assert!(matches!(
        listener().on_publish("live", "key"),
        PublishStep::Accept { .. }
    ));
    for (app, key) in [("live", "other"), ("other", "key"), ("Live", "key"), ("live", "")] {
        assert!(matches!(
            listener().on_publish(app, key),
            PublishStep::Fail(text)
                if text == "RTMP publisher did not match the configured application and stream key"
        ));
    }
}

#[test]
fn a_rejected_publisher_is_forgotten() {
    let mut listener = Listener::new(Some("live".into()), None, true);
    assert!(matches!(listener.on_publish("vod", "key"), PublishStep::Reject));
    let (outputs, next) = listener.after_session(failed(SessionFailure::Other));
    assert!(outputs.is_empty());
    assert_eq!(next, Next::Listen);
    listener.begin_session();
    assert!(matches!(
        listener.on_publish("live", "key"),
        PublishStep::Accept { connection_id: 1 }
    ));
    listener.begin_session();
    assert!(matches!(
        listener.on_publish("live", "key"),
        PublishStep::Accept { connection_id: 2 }
    ));
}

#[test]
fn a_clean_goodbye_ends_the_stream() {
    let mut listener = open_listener(false);
    listener.on_publish("live", "key");
    let (outputs, next) = listener.after_session(SessionEnd::Unpublished);
    assert!(matches!(
        outputs[..],
        [
            WorkerOutput::PublishEnded { connection_id: 1, reason: EndReason::Unpublished },
            WorkerOutput::Eos
        ]
    ));
    assert_eq!(next, Next::Stop);
}

#[test]
fn a_close_is_a_warning_and_still_the_end_of_the_stream() {
    let broken_pipe = || failed(SessionFailure::Io(IoKind::BrokenPipe));
    for end in [SessionEnd::Closed, broken_pipe()] {
        let mut listener = open_listener(false);
        listener.on_publish("live", "key");
        let (outputs, next) = listener.after_session(end);
        assert!(matches!(
            &outputs[..],
            [
                WorkerOutput::PublishEnded { connection_id: 1, reason: EndReason::Disconnect },
                WorkerOutput::Warning(text),
                WorkerOutput::Eos
            ] if text == "RTMP publisher disconnected without unpublishing"
        ));
        assert_eq!(next, Next::Stop);
    }
}

#[test]
fn a_listener_that_keeps_listening_outlives_its_publishers() {
    let mut listener = open_listener(true);
    listener.on_publish("live", "key");
    let (outputs, next) = listener.after_session(SessionEnd::Unpublished);
    assert_eq!((outputs.len(), next), (1, Next::Listen));
    let (outputs, next) = listener.after_session(SessionEnd::Closed);
    assert_eq!((outputs.len(), next), (2, Next::Listen));
    let (outputs, next) = listener.after_session(failed(SessionFailure::Timeout));
    assert!(matches!(
        outputs[..],
        [WorkerOutput::PublishEnded { connection_id: 1, reason: EndReason::Disconnect }]
    ));
    assert_eq!(next, Next::Listen);
    let (outputs, next) = listener.after_session(failed(SessionFailure::Other));
    assert!(matches!(
        &outputs[..],
        [
            WorkerOutput::PublishEnded { connection_id: 1, reason: EndReason::Error },
            WorkerOutput::Error(text)
        ] if text == "RTMP session failed: gone"
    ));
    assert_eq!(next, Next::Stop);
}

#[test]
fn a_connection_that_never_published_has_no_end() {
    let listener = open_listener(false);
    let (outputs, next) = listener.after_session(failed(SessionFailure::Timeout));
    assert!(matches!(
        &outputs[..],
        [WorkerOutput::Error(text)] if text == "RTMP session failed: gone"
    ));
    assert_eq!(next, Next::Stop);
}

#[test]
fn vanished_publishers_are_told_from_failures() {
    for kind in [
        IoKind::ConnectionAborted,
        IoKind::ConnectionReset,
        IoKind::UnexpectedEof,
        IoKind::BrokenPipe,
    ] {
        assert!(is_client_disconnect(SessionFailure::Io(kind)));
    }
    assert!(is_client_disconnect(SessionFailure::Timeout));
    assert!(!is_client_disconnect(SessionFailure::Io(IoKind::Other)));
    assert!(!is_client_disconnect(SessionFailure::Other));
}

#[test]
fn reasons_and_errors_are_spelled_out() {
    assert_eq!(EndReason::Unpublished.name(), "unpublished");
    assert_eq!(EndReason::Disconnect.name(), "disconnect");
    assert_eq!(EndReason::Error.name(), "error");
    assert!(matches!(
        accept_failed("busy"),
        WorkerOutput::Error(text) if text == "Failed to accept RTMP publisher: busy"
    ));
    assert!(matches!(
        nodelay_failed("busy"),
        WorkerOutput::Error(text) if text == "Failed to configure TCP_NODELAY: busy"
    ));
}

#[test]
fn publishers_are_announced_with_their_first_buffer() {
    let mut relay = Relay::default();
    let mut receive = |output| relay.on_received(Received::Output(output), false);
    assert!(matches!(
        receive(WorkerOutput::PublishStarted { connection_id: 1 }),
        CreateStep::Wait
    ));
    assert!(matches!(receive(WorkerOutput::Wake), CreateStep::Wait));
    assert!(matches!(
        receive(WorkerOutput::Data(vec![1])),
        CreateStep::Push { new_stream: false, publish_start: Some(1), .. }
    ));
    assert!(matches!(
        receive(WorkerOutput::Data(vec![2])),
        CreateStep::Push { new_stream: false, publish_start: None, .. }
    ));
    assert!(matches!(
        receive(WorkerOutput::PublishEnded { connection_id: 1, reason: EndReason::Disconnect }),
        CreateStep::Ended { connection_id: 1, reason: EndReason::Disconnect }
    ));
    receive(WorkerOutput::PublishStarted { connection_id: 2 });
    assert!(matches!(
        receive(WorkerOutput::Data(vec![3])),
        CreateStep::Push { new_stream: true, publish_start: Some(2), data } if data == [3]
    ));
}

#[test]
fn the_source_ends_with_its_listener() {
    let mut relay = Relay::default();
    assert!(matches!(relay.on_received(Received::TimedOut, false), CreateStep::Wait));
    assert!(matches!(relay.on_received(Received::Disconnected, false), CreateStep::Eos));
    assert!(matches!(relay.on_received(Received::Disconnected, true), CreateStep::Flushing));
    let output = |output| Received::Output(output);
    assert!(matches!(relay.on_received(output(WorkerOutput::Eos), false), CreateStep::Eos));
    assert!(matches!(
        relay.on_received(output(WorkerOutput::Warning("w".into())), false),
        CreateStep::Warn(text) if text == "w"
    ));
    assert!(matches!(
        relay.on_received(output(WorkerOutput::Error("e".into())), false),
        CreateStep::Fail(text) if text == "e"
    ));
}
