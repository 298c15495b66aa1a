//! What the RTMP listener source decides.
//!
//! A publisher connects, and its media messages are relayed as an FLV byte
//! stream: one header per publisher session, then one tag per message. The
//! session itself (sockets, handshake, chunks) is the element's; what follows
//! from each of its events is decided here, on both sides of the queue between
//! the listener and the source pad.
use crate::flv;
use crate::flv::frame_tag;
use crate::text::{prefixed, same_text};
use vstd::prelude::*;

verus! {

/// `TagType` for audio, from the FLV specification.
pub const TAG_TYPE_AUDIO: u8 = 8;

/// `TagType` for video, from the FLV specification.
pub const TAG_TYPE_VIDEO: u8 = 9;

/// The largest payload whose size an FLV tag can express.
pub const MAXIMUM_PAYLOAD_BYTES: usize = 0x00ff_ffff;

/// The header of an FLV stream with audio and video, and the empty size field
/// in front of its first tag.
pub open spec fn flv_header() -> Seq<u8> {
    seq![0x46u8, 0x4c, 0x56, 1, 5, 0, 0, 0, 9, 0, 0, 0, 0]
}

/// The header of an FLV stream.
fn stream_header() -> (header: Vec<u8>)
    ensures
        header@ == flv_header(),
{
    let header: Vec<u8> = vec![0x46u8, 0x4c, 0x56, 1, 5, 0, 0, 0, 9, 0, 0, 0, 0];
    assert(header@ =~= flv_header());
    header
}

/// What the listener is told to do. Times are in nanoseconds, and zero disables
/// a timeout.
#[derive(Debug)]
pub struct Settings {
    pub address: String,
    pub port: u16,
    pub tcp_nodelay: bool,
    pub accept_timeout: u64,
    pub handshake_timeout: u64,
    pub read_timeout: u64,
    pub write_timeout: u64,
    /// How long an active publisher is waited for on shutdown; zero closes the
    /// connection immediately.
    pub graceful_shutdown_timeout: u64,
    /// Wait for another publisher after a disconnect instead of ending.
    pub keep_listening: bool,
    pub application: Option<String>,
    pub stream_key: Option<String>,
}

impl Default for Settings {
    fn default() -> (settings: Self)
        ensures
            settings.address@ == "0.0.0.0"@,
            settings.port == 1935,
            settings.tcp_nodelay,
            settings.accept_timeout == 0,
            settings.handshake_timeout == 10_000_000_000,
            settings.read_timeout == 0,
            settings.write_timeout == 10_000_000_000,
            settings.graceful_shutdown_timeout == 0,
            !settings.keep_listening,
            settings.application is None,
            settings.stream_key is None,
    {
        Settings {
            address: "0.0.0.0".to_owned(),
            port: 1935,
            tcp_nodelay: true,
            accept_timeout: 0,
            handshake_timeout: 10_000_000_000,
            read_timeout: 0,
            write_timeout: 10_000_000_000,
            graceful_shutdown_timeout: 0,
            keep_listening: false,
            application: None,
            stream_key: None,
        }
    }
}

/// A timeout in nanoseconds, where zero stands for none.
pub fn nanoseconds_timeout(nanoseconds: u64) -> (timeout: Option<u64>)
    ensures
        timeout == if nanoseconds == 0 {
            None
        } else {
            Some(nanoseconds)
        },
{
    if nanoseconds == 0 {
        None
    } else {
        Some(nanoseconds)
    }
}

/// The port that is listened on, given the one that was asked for: port zero
/// takes whichever is free.
pub fn listening_port(asked: u16, local: u16) -> (port: u16)
    ensures
        port == if asked == 0 {
            local
        } else {
            asked
        },
{
    if asked == 0 {
        local
    } else {
        asked
    }
}

/// Why a publisher is gone, as downstream is told.
#[derive(Clone, Copy, Debug, PartialEq, Eq, Structural)]
pub enum EndReason {
    Unpublished,
    Disconnect,
    Error,
}

impl EndReason {
    /// How the reason is spelled.
    pub open spec fn spelling(self) -> Seq<char> {
        match self {
            EndReason::Unpublished => "unpublished"@,
            EndReason::Disconnect => "disconnect"@,
            EndReason::Error => "error"@,
        }
    }

    /// How the reason is spelled.
    pub fn name(self) -> (name: &'static str)
        ensures
            name@ == self.spelling(),
    {
        match self {
            EndReason::Unpublished => "unpublished",
            EndReason::Disconnect => "disconnect",
            EndReason::Error => "error",
        }
    }
}

/// What goes from the listener to the source pad.
#[derive(Debug)]
pub enum WorkerOutput {
    Data(Vec<u8>),
    PublishStarted { connection_id: u64 },
    PublishEnded { connection_id: u64, reason: EndReason },
    Warning(String),
    Error(String),
    Eos,
    /// Only ends a wait.
    Wake,
}

/// What goes from the listener to the source pad, as a mathematical value.
pub enum Message {
    Data(Seq<u8>),
    PublishStarted { connection_id: u64 },
    PublishEnded { connection_id: u64, reason: EndReason },
    Warning(Seq<char>),
    Error(Seq<char>),
    Eos,
    Wake,
}

impl View for WorkerOutput {
    type V = Message;

    open spec fn view(&self) -> Message {
        match *self {
            WorkerOutput::Data(data) => Message::Data(data@),
            WorkerOutput::PublishStarted { connection_id } => Message::PublishStarted {
                connection_id,
            },
            WorkerOutput::PublishEnded { connection_id, reason } => Message::PublishEnded {
                connection_id,
                reason,
            },
            WorkerOutput::Warning(text) => Message::Warning(text@),
            WorkerOutput::Error(text) => Message::Error(text@),
            WorkerOutput::Eos => Message::Eos,
            WorkerOutput::Wake => Message::Wake,
        }
    }
}

/// Outputs as mathematical values.
pub open spec fn messages(outputs: Seq<WorkerOutput>) -> Seq<Message> {
    outputs.map_values(|output: WorkerOutput| output@)
}

/// Why a connection was lost.
#[derive(Clone, Copy, Debug, PartialEq, Eq, Structural)]
pub enum IoKind {
    ConnectionAborted,
    ConnectionReset,
    UnexpectedEof,
    BrokenPipe,
    Other,
}

/// How a session failed.
#[derive(Clone, Copy, Debug, PartialEq, Eq, Structural)]
pub enum SessionFailure {
    /// Reading or writing failed.
    Io(IoKind),
    /// The publisher did not send or take anything in time.
    Timeout,
    /// The protocol was violated, or something else went wrong.
    Other,
}

/// Whether a failure means that the connection is closed.
pub open spec fn is_closed(failure: SessionFailure) -> bool {
    failure matches SessionFailure::Io(kind) && kind != IoKind::Other
}

/// Whether the session ended because the publisher vanished.
pub open spec fn vanished(failure: SessionFailure) -> bool {
    is_closed(failure) || failure == SessionFailure::Timeout
}

/// Whether the session ended because the publisher closed the connection. A
/// killed client surfaces as a broken pipe on the next write.
fn closed_connection(failure: SessionFailure) -> (closed: bool)
    ensures
        closed == is_closed(failure),
{
    match failure {
        SessionFailure::Io(kind) => kind != IoKind::Other,
        _ => false,
    }
}

/// Whether the session ended because the publisher vanished rather than because
/// this element or the network stack misbehaved.
pub fn is_client_disconnect(failure: SessionFailure) -> (disconnect: bool)
    ensures
        disconnect == vanished(failure),
{
    match failure {
        SessionFailure::Timeout => true,
        _ => closed_connection(failure),
    }
}

/// How a session ended.
#[derive(Debug)]
pub enum SessionEnd {
    /// The publisher said goodbye.
    Unpublished,
    /// The publisher closed the connection without saying so.
    Closed,
    /// The session failed; the text says how.
    Failed { failure: SessionFailure, error: String },
}

/// What the listener does next.
#[derive(Clone, Copy, Debug, PartialEq, Eq, Structural)]
pub enum Next {
    /// Wait for another publisher.
    Listen,
    Stop,
}

/// What a media message holds.
#[derive(Clone, Copy, Debug, PartialEq, Eq, Structural)]
pub enum MediaKind {
    Audio,
    Video,
    /// Metadata in AMF0.
    Amf0,
}

impl MediaKind {
    /// The type of the tag that relays such a message.
    pub open spec fn spec_tag_type(self) -> u8 {
        match self {
            MediaKind::Audio => TAG_TYPE_AUDIO,
            MediaKind::Video => TAG_TYPE_VIDEO,
            MediaKind::Amf0 => flv::TAG_TYPE_SCRIPT_DATA,
        }
    }

    /// The type of the tag that relays such a message.
    pub fn tag_type(self) -> (tag_type: u8)
        ensures
            tag_type == self.spec_tag_type(),
    {
        match self {
            MediaKind::Audio => TAG_TYPE_AUDIO,
            MediaKind::Video => TAG_TYPE_VIDEO,
            MediaKind::Amf0 => flv::TAG_TYPE_SCRIPT_DATA,
        }
    }
}

/// A payload is longer than the size field of a tag can say.
#[derive(Clone, Copy, Debug, PartialEq, Eq, Structural)]
pub struct TagTooLarge;

impl TagTooLarge {
    /// The error in words.
    pub fn message(self) -> (text: String)
        ensures
            text@ == "RTMP media message exceeds the FLV 24-bit tag-size limit"@,
    {
        "RTMP media message exceeds the FLV 24-bit tag-size limit".to_owned()
    }
}

/// Frame the payload of a message as a whole FLV tag.
pub fn frame_flv_tag(tag_type: u8, timestamp: u32, payload: &[u8]) -> (result: Result<
    Vec<u8>,
    TagTooLarge,
>)
    ensures
        result is Err <==> payload@.len() > MAXIMUM_PAYLOAD_BYTES,
        result is Ok <==> payload@.len() < 0x100_0000,
        result matches Ok(tag) ==> tag@ == flv::flv_tag(tag_type, timestamp as int, payload@),
{
    if payload.len() > MAXIMUM_PAYLOAD_BYTES {
        return Err(TagTooLarge);
    }
    Ok(frame_tag(tag_type, timestamp, payload))
}

/// What follows from a publisher's wish to publish.
#[derive(Debug)]
pub enum PublishStep {
    /// Announce the publisher under this number, then send the header.
    Accept { connection_id: u64 },
    /// End the session, and wait for another publisher.
    Reject,
    /// Report the error and stop.
    Fail(String),
}

/// What a publisher's wish leads to, as a mathematical value.
pub enum Published {
    Accept { connection_id: u64 },
    Reject,
    Fail(Seq<char>),
}

impl View for PublishStep {
    type V = Published;

    open spec fn view(&self) -> Published {
        match *self {
            PublishStep::Accept { connection_id } => Published::Accept { connection_id },
            PublishStep::Reject => Published::Reject,
            PublishStep::Fail(text) => Published::Fail(text@),
        }
    }
}

/// What follows from a media message.
#[derive(Debug)]
pub enum DataStep {
    /// Send a tag.
    Send(Vec<u8>),
    /// Report the error and stop.
    Fail(String),
}

/// The listener, as a mathematical value.
pub struct Listening {
    pub application: Option<Seq<char>>,
    pub stream_key: Option<Seq<char>>,
    pub keep_listening: bool,
    pub next_connection_id: u64,
    pub rejected: bool,
    /// The number of the publisher of this session, or zero.
    pub connection_id: u64,
    pub header_sent: bool,
}

/// Whether a name is as configured; anything is where nothing is configured.
pub open spec fn allowed(expected: Option<Seq<char>>, name: Seq<char>) -> bool {
    expected matches Some(text) ==> text == name
}

/// The end of a publisher, where there is one.
pub open spec fn publish_end(connection_id: u64, reason: EndReason) -> Seq<Message> {
    if connection_id == 0 {
        Seq::empty()
    } else {
        seq![Message::PublishEnded { connection_id, reason }]
    }
}

/// How an error is reported that ended a session.
pub open spec fn session_failed(error: Seq<char>) -> Message {
    Message::Error("RTMP session failed: "@ + error)
}

/// What is said of a publisher that left without a word.
pub open spec fn disconnected() -> Message {
    Message::Warning("RTMP publisher disconnected without unpublishing"@)
}

impl Listening {
    /// The listener at the start of a session.
    pub open spec fn fresh(self) -> Listening {
        Listening { rejected: false, connection_id: 0, header_sent: false, ..self }
    }

    /// Whether a publisher may publish.
    pub open spec fn accepts(self, app_name: Seq<char>, stream_name: Seq<char>) -> bool {
        allowed(self.application, app_name) && allowed(self.stream_key, stream_name)
    }

    /// What a publisher's wish leads to.
    pub open spec fn published(self, app_name: Seq<char>, stream_name: Seq<char>) -> (
        Listening,
        Published,
    ) {
        if self.accepts(app_name, stream_name) {
            (
                Listening {
                    connection_id: self.next_connection_id,
                    next_connection_id: if self.next_connection_id == u64::MAX {
                        0
                    } else {
                        (self.next_connection_id + 1) as u64
                    },
                    ..self
                },
                Published::Accept { connection_id: self.next_connection_id },
            )
        } else if self.keep_listening {
            (Listening { rejected: true, ..self }, Published::Reject)
        } else {
            (
                self,
                Published::Fail(
                    "RTMP publisher did not match the configured application and stream key"@,
                ),
            )
        }
    }

    /// What is sent when a session has ended, and what comes next.
    ///
    /// A close is a warning at most: it becomes the end of the stream, so that
    /// downstream can drain rather than hang.
    pub open spec fn ended(self, end: SessionEnd) -> (Seq<Message>, Next) {
        let next = if self.keep_listening {
            Next::Listen
        } else {
            Next::Stop
        };
        let last = if self.keep_listening {
            Seq::empty()
        } else {
            seq![Message::Eos]
        };
        if self.keep_listening && self.rejected {
            (Seq::empty(), Next::Listen)
        } else {
            match end {
                SessionEnd::Unpublished => (
                    publish_end(self.connection_id, EndReason::Unpublished) + last,
                    next,
                ),
                SessionEnd::Closed => (
                    publish_end(self.connection_id, EndReason::Disconnect) + seq![disconnected()]
                        + last,
                    next,
                ),
                SessionEnd::Failed { failure, error } => if !vanished(failure) {
                    (
                        publish_end(self.connection_id, EndReason::Error) + seq![
                            session_failed(error@),
                        ],
                        Next::Stop,
                    )
                } else if self.keep_listening {
                    (publish_end(self.connection_id, EndReason::Disconnect), Next::Listen)
                } else if is_closed(failure) {
                    (
                        publish_end(self.connection_id, EndReason::Disconnect) + seq![
                            disconnected(),
                            Message::Eos,
                        ],
                        Next::Stop,
                    )
                } else {
                    (
                        publish_end(self.connection_id, EndReason::Disconnect) + seq![
                            session_failed(error@),
                        ],
                        Next::Stop,
                    )
                },
            }
        }
    }
}

/// The listener: what it accepts, and where its current session stands.
pub struct Listener {
    application: Option<String>,
    stream_key: Option<String>,
    keep_listening: bool,
    next_connection_id: u64,
    rejected: bool,
    connection_id: u64,
    header_sent: bool,
}

/// A text that may be missing, as a mathematical value.
pub open spec fn optional_text(text: Option<String>) -> Option<Seq<char>> {
    match text {
        Some(text) => Some(text@),
        None => None,
    }
}

impl View for Listener {
    type V = Listening;

    closed spec fn view(&self) -> Listening {
        Listening {
            application: optional_text(self.application),
            stream_key: optional_text(self.stream_key),
            keep_listening: self.keep_listening,
            next_connection_id: self.next_connection_id,
            rejected: self.rejected,
            connection_id: self.connection_id,
            header_sent: self.header_sent,
        }
    }
}

/// Whether a name is as configured.
fn matches_configured(expected: &Option<String>, name: &str) -> (matches: bool)
    ensures
        matches == allowed(optional_text(*expected), name@),
{
    match expected {
        Some(text) => same_text(text.as_str(), name),
        None => true,
    }
}

/// The error for a publisher that could not be accepted.
pub fn accept_failed(error: &str) -> (output: WorkerOutput)
    ensures
        output@ == Message::Error("Failed to accept RTMP publisher: "@ + error@),
{
    WorkerOutput::Error(prefixed("Failed to accept RTMP publisher: ", error))
}

/// The error for a connection that could not be configured.
pub fn nodelay_failed(error: &str) -> (output: WorkerOutput)
    ensures
        output@ == Message::Error("Failed to configure TCP_NODELAY: "@ + error@),
{
    WorkerOutput::Error(prefixed("Failed to configure TCP_NODELAY: ", error))
}

impl Listener {
    /// A listener before its first session.
    pub fn new(application: Option<String>, stream_key: Option<String>, keep_listening: bool) -> (
        listener: Self)
        ensures
            listener@ == (Listening {
                application: optional_text(application),
                stream_key: optional_text(stream_key),
                keep_listening,
                next_connection_id: 1,
                rejected: false,
                connection_id: 0,
                header_sent: false,
            }),
    {
        Listener {
            application,
            stream_key,
            keep_listening,
            next_connection_id: 1,
            rejected: false,
            connection_id: 0,
            header_sent: false,
        }
    }

    /// Start a session with the next connection.
    pub fn begin_session(&mut self)
        ensures
            final(self)@ == old(self)@.fresh(),
    {
        self.rejected = false;
        self.connection_id = 0;
        self.header_sent = false;
    }

    /// A publisher wants to publish.
    pub fn on_publish(&mut self, app_name: &str, stream_name: &str) -> (step: PublishStep)
        ensures
            (final(self)@, step@) == old(self)@.published(app_name@, stream_name@),
    {
        let app_matches = matches_configured(&self.application, app_name);
        let key_matches = matches_configured(&self.stream_key, stream_name);
        if !app_matches || !key_matches {
            if self.keep_listening {
                self.rejected = true;
                return PublishStep::Reject;
            }
            return PublishStep::Fail(
                "RTMP publisher did not match the configured application and stream key".to_owned(),
            );
        }
        let connection_id: u64 = self.next_connection_id;
        self.next_connection_id = connection_id.wrapping_add(1);
        self.connection_id = connection_id;
        PublishStep::Accept { connection_id }
    }

    /// The header of the stream, where the session has not sent it yet.
    pub fn ensure_header(&mut self) -> (header: Option<Vec<u8>>)
        ensures
            final(self)@ == (Listening { header_sent: true, ..old(self)@ }),
            header is Some <==> !old(self)@.header_sent,
            header matches Some(data) ==> data@ == flv_header(),
    {
        if self.header_sent {
            return None;
        }
        self.header_sent = true;
        Some(stream_header())
    }

    /// The tag that relays a media message, or the error where it is too long.
    pub fn on_data(&self, kind: MediaKind, timestamp: u32, payload: &[u8]) -> (step: DataStep)
        ensures
            payload@.len() <= MAXIMUM_PAYLOAD_BYTES ==> (step matches DataStep::Send(tag) && tag@
                == flv::flv_tag(kind.spec_tag_type(), timestamp as int, payload@)),
            payload@.len() > MAXIMUM_PAYLOAD_BYTES ==> (step matches DataStep::Fail(text) && text@
                == "RTMP media message exceeds the FLV 24-bit tag-size limit"@),
            step is Send <==> payload@.len() < 0x100_0000,
    {
        match frame_flv_tag(kind.tag_type(), timestamp, payload) {
            Ok(tag) => DataStep::Send(tag),
            Err(error) => DataStep::Fail(error.message()),
        }
    }

    /// A session has ended. Returns what is to be sent, in order, and what comes
    /// once all of it was.
    pub fn after_session(&self, end: SessionEnd) -> (result: (Vec<WorkerOutput>, Next))
        ensures
            (messages(result.0@), result.1) == self@.ended(end),
    {
        let mut outputs: Vec<WorkerOutput> = Vec::new();
        if self.keep_listening && self.rejected {
            assert(messages(outputs@) =~= Seq::empty());
            return (outputs, Next::Listen);
        }
        let ghost expected = self@.ended(end).0;
        match end {
            SessionEnd::Unpublished => {
                self.end_publish(&mut outputs, EndReason::Unpublished);
                if self.keep_listening {
                    assert(messages(outputs@) =~= expected);
                    return (outputs, Next::Listen);
                }
                outputs.push(WorkerOutput::Eos);
                assert(messages(outputs@) =~= expected);
                (outputs, Next::Stop)
            },
            SessionEnd::Closed => {
                self.end_publish(&mut outputs, EndReason::Disconnect);
                outputs.push(
                    WorkerOutput::Warning(
                        "RTMP publisher disconnected without unpublishing".to_owned(),
                    ),
                );
                if self.keep_listening {
                    assert(messages(outputs@) =~= expected);
                    return (outputs, Next::Listen);
                }
                outputs.push(WorkerOutput::Eos);
                assert(messages(outputs@) =~= expected);
                (outputs, Next::Stop)
            },
            SessionEnd::Failed { failure, error } => {
                let client_disconnect = is_client_disconnect(failure);
                self.end_publish(
                    &mut outputs,
                    if client_disconnect {
                        EndReason::Disconnect
                    } else {
                        EndReason::Error
                    },
                );
                if self.keep_listening && client_disconnect {
                    assert(messages(outputs@) =~= expected);
                    return (outputs, Next::Listen);
                }
                if closed_connection(failure) {
                    outputs.push(
                        WorkerOutput::Warning(
                            "RTMP publisher disconnected without unpublishing".to_owned(),
                        ),
                    );
                    outputs.push(WorkerOutput::Eos);
                } else {
                    outputs.push(
                        WorkerOutput::Error(prefixed("RTMP session failed: ", error.as_str())),
                    );
                }
                assert(messages(outputs@) =~= expected);
                (outputs, Next::Stop)
            },
        }
    }

    /// Announce the end of the publisher, where there is one.
    fn end_publish(&self, outputs: &mut Vec<WorkerOutput>, reason: EndReason)
        requires
            old(outputs)@.len() == 0,
        ensures
            messages(final(outputs)@) == publish_end(self@.connection_id, reason),
    {
        if self.connection_id != 0 {
            outputs.push(WorkerOutput::PublishEnded { connection_id: self.connection_id, reason });
        }
        assert(messages(outputs@) =~= publish_end(self.connection_id, reason));
    }
}

/// What the source pad received from the queue.
#[derive(Debug)]
pub enum Received {
    Output(WorkerOutput),
    /// Nothing came for a while.
    TimedOut,
    /// The listener is gone.
    Disconnected,
}

/// What the source pad does next.
#[derive(Debug)]
pub enum CreateStep {
    /// Receive again.
    Wait,
    /// Push a buffer, in order behind the events that start a new stream and the
    /// event that announces a publisher, where they are due. The first buffer of
    /// a new stream is marked as discontinuous.
    Push { data: Vec<u8>, new_stream: bool, publish_start: Option<u64> },
    /// Announce the end of a publisher, downstream and on the bus.
    Ended { connection_id: u64, reason: EndReason },
    Warn(String),
    Fail(String),
    /// Return that the stream has ended.
    Eos,
    /// Return that the pad is flushing.
    Flushing,
}

/// Where the source pad stands between two buffers.
#[derive(Clone, Copy, Debug, PartialEq, Eq, Structural)]
pub struct Relay {
    /// The last publisher left; the next buffer starts a new stream.
    pub new_stream_pending: bool,
    /// The publisher to announce in front of its first buffer.
    pub pending_publish_start: Option<u64>,
}

impl Default for Relay {
    fn default() -> (relay: Self)
        ensures
            relay == (Relay { new_stream_pending: false, pending_publish_start: None }),
    {
        Relay { new_stream_pending: false, pending_publish_start: None }
    }
}

/// What the source pad does about what it received, and where it stands then.
pub open spec fn relayed(relay: Relay, received: Received, flushing: bool) -> (Relay, CreateStep) {
    match received {
        Received::TimedOut => (relay, CreateStep::Wait),
        Received::Disconnected => (
            relay,
            if flushing {
                CreateStep::Flushing
            } else {
                CreateStep::Eos
            },
        ),
        Received::Output(output) => match output {
            WorkerOutput::Wake => (relay, CreateStep::Wait),
            WorkerOutput::Eos => (relay, CreateStep::Eos),
            WorkerOutput::Warning(text) => (relay, CreateStep::Warn(text)),
            WorkerOutput::Error(text) => (relay, CreateStep::Fail(text)),
            WorkerOutput::PublishStarted { connection_id } => (
                Relay { pending_publish_start: Some(connection_id), ..relay },
                CreateStep::Wait,
            ),
            WorkerOutput::PublishEnded { connection_id, reason } => (
                Relay { new_stream_pending: true, ..relay },
                CreateStep::Ended { connection_id, reason },
            ),
            WorkerOutput::Data(data) => (
                Relay { new_stream_pending: false, pending_publish_start: None },
                CreateStep::Push {
                    data,
                    new_stream: relay.new_stream_pending,
                    publish_start: relay.pending_publish_start,
                },
            ),
        },
    }
}

impl Relay {
    /// Decide what to do about what was received. `flushing` is whether the pad
    /// is flushing by then.
    pub fn on_received(&mut self, received: Received, flushing: bool) -> (step: CreateStep)
        ensures
            (*final(self), step) == relayed(*old(self), received, flushing),
    {
        match received {
            Received::TimedOut => CreateStep::Wait,
            Received::Disconnected => if flushing {
                CreateStep::Flushing
            } else {
                CreateStep::Eos
            },
            Received::Output(output) => match output {
                WorkerOutput::Wake => CreateStep::Wait,
                WorkerOutput::Eos => CreateStep::Eos,
                WorkerOutput::Warning(text) => CreateStep::Warn(text),
                WorkerOutput::Error(text) => CreateStep::Fail(text),
                WorkerOutput::PublishStarted { connection_id } => {
                    self.pending_publish_start = Some(connection_id);
                    CreateStep::Wait
                },
                WorkerOutput::PublishEnded { connection_id, reason } => {
                    self.new_stream_pending = true;
                    CreateStep::Ended { connection_id, reason }
                },
                WorkerOutput::Data(data) => {
                    let new_stream = self.new_stream_pending;
                    let publish_start = self.pending_publish_start;
                    self.new_stream_pending = false;
                    self.pending_publish_start = None;
                    CreateStep::Push { data, new_stream, publish_start }
                },
            },
        }
    }
}

/// A media message.
pub struct Media {
    pub kind: MediaKind,
    pub timestamp: u32,
    pub payload: Seq<u8>,
}

/// The tag that relays a media message.
pub open spec fn media_tag(media: Media) -> Seq<u8> {
    flv::flv_tag(media.kind.spec_tag_type(), media.timestamp as int, media.payload)
}

/// The bytes that relay media messages, one tag behind another.
pub open spec fn media_tags(media: Seq<Media>) -> Seq<u8>
    decreases media.len(),
{
    if media.len() == 0 {
        Seq::empty()
    } else {
        media_tags(media.drop_last()) + media_tag(media.last())
    }
}

/// The bytes that a session sends for media messages: the header where it was
/// not sent yet, and then the tag of each.
pub open spec fn session_bytes(header_sent: bool, media: Seq<Media>) -> Seq<u8>
    decreases media.len(),
{
    if media.len() == 0 {
        Seq::empty()
    } else {
        let header = if header_sent {
            Seq::empty()
        } else {
            flv_header()
        };
        header + media_tag(media[0]) + session_bytes(true, media.drop_first())
    }
}

/// A relayed message parses back: its tag says its type, its length and its
/// timestamp, and holds its payload untouched.
pub proof fn a_relayed_message_parses_back(media: Media)
    requires
        media.payload.len() <= MAXIMUM_PAYLOAD_BYTES,
    ensures
        flv::tag_header(media_tag(media)) == Some(
            (flv::TagHeader {
                tag_type: media.kind.spec_tag_type(),
                body_size: media.payload.len() as usize,
                timestamp_ms: media.timestamp,
            }),
        ),
        flv::is_one_tag(media_tag(media)),
        media_tag(media).subrange(
            flv::TAG_HEADER_LEN as int,
            flv::TAG_HEADER_LEN + media.payload.len(),
        ) == media.payload,
{
    flv::a_framed_tag_parses_back(media.kind.spec_tag_type(), media.timestamp, media.payload);
}

proof fn tags_grow_at_the_front(media: Seq<Media>)
    requires
        media.len() > 0,
    ensures
        media_tags(media) == media_tag(media[0]) + media_tags(media.drop_first()),
    decreases media.len(),
{
    if media.len() == 1 {
        assert(media.drop_last() =~= Seq::empty());
        assert(media.drop_first() =~= Seq::empty());
        assert(media_tags(media.drop_last()) =~= Seq::empty());
        assert(media_tags(media) =~= media_tag(media[0]) + media_tags(media.drop_first()));
    } else {
        tags_grow_at_the_front(media.drop_last());
        assert(media.drop_last().drop_first() =~= media.drop_first().drop_last());
        assert(media_tags(media) =~= media_tag(media[0]) + (media_tags(
            media.drop_first().drop_last(),
        ) + media_tag(media.last())));
    }
}

proof fn later_messages_add_no_header(media: Seq<Media>)
    ensures
        session_bytes(true, media) == media_tags(media),
    decreases media.len(),
{
    if media.len() > 0 {
        later_messages_add_no_header(media.drop_first());
        tags_grow_at_the_front(media);
        assert(session_bytes(true, media) =~= media_tag(media[0]) + media_tags(media.drop_first()));
    }
}

proof fn media_tags_split(media: Seq<Media>)
    requires
        forall|i: int|
            0 <= i < media.len() ==> (#[trigger] media[i]).payload.len() <= MAXIMUM_PAYLOAD_BYTES,
    ensures
        flv::split_tags(media_tags(media)) == Some(
            media.map_values(|message: Media| media_tag(message)),
        ),
    decreases media.len(),
{
    let tags = media.map_values(|message: Media| media_tag(message));
    if media.len() == 0 {
        assert(tags =~= Seq::empty());
    } else {
        let front = media.drop_last();
        assert forall|i: int| 0 <= i < front.len() implies (#[trigger] front[i]).payload.len()
            <= MAXIMUM_PAYLOAD_BYTES by {
            assert(front[i] == media[i]);
        }
        media_tags_split(front);
        let tag = media_tag(media.last());
        a_relayed_message_parses_back(media.last());
        let rest = tag.subrange(tag.len() as int, tag.len() as int);
        assert(rest =~= Seq::empty());
        assert(tag.subrange(0, tag.len() as int) =~= tag);
        assert(flv::split_tags(rest) == Some(Seq::<Seq<u8>>::empty()));
        assert(flv::split_tags(tag) == Some(seq![tag] + Seq::<Seq<u8>>::empty()));
        assert(seq![tag] + Seq::<Seq<u8>>::empty() =~= seq![tag]);
        flv::tag_streams_concatenate(media_tags(front), tag);
        assert(tags =~= front.map_values(|message: Media| media_tag(message)) + seq![tag]);
    }
}

/// A session is one FLV stream: its one header, and behind it exactly one whole
/// tag per message, in order.
pub proof fn a_session_is_one_stream(media: Seq<Media>)
    requires
        media.len() > 0,
        forall|i: int|
            0 <= i < media.len() ==> (#[trigger] media[i]).payload.len() <= MAXIMUM_PAYLOAD_BYTES,
    ensures
        session_bytes(false, media) == flv_header() + media_tags(media),
        flv::split_tags(media_tags(media)) == Some(
            media.map_values(|message: Media| media_tag(message)),
        ),
{
    later_messages_add_no_header(media.drop_first());
    tags_grow_at_the_front(media);
    assert(session_bytes(false, media) =~= flv_header() + (media_tag(media[0]) + media_tags(
        media.drop_first(),
    )));
    media_tags_split(media);
}

/// A publisher that is turned away while the listener keeps listening leaves no
/// trace: nothing is sent, however its session ends, and the next session starts
/// as if it had never come.
pub proof fn a_rejected_publisher_leaves_no_trace(
    listener: Listening,
    app_name: Seq<char>,
    stream_name: Seq<char>,
    end: SessionEnd,
)
    requires
        listener.keep_listening,
        !listener.accepts(app_name, stream_name),
    ensures
        ({
            let (after, step) = listener.published(app_name, stream_name);
            &&& step == Published::Reject
            &&& after.ended(end) == (Seq::<Message>::empty(), Next::Listen)
            &&& after.fresh() == listener.fresh()
        }),
{
}

/// Every publisher that was accepted is announced to be gone, first of all and
/// with the number it was announced with, however its session ends, unless a
/// later wish to publish in the same session was turned away. And no number is
/// used twice, until all were used.
pub proof fn an_accepted_publisher_is_seen_off(
    listener: Listening,
    app_name: Seq<char>,
    stream_name: Seq<char>,
    end: SessionEnd,
)
    requires
        listener.accepts(app_name, stream_name),
        0 < listener.next_connection_id < u64::MAX,
        !(listener.keep_listening && listener.rejected),
    ensures
        ({
            let (after, step) = listener.published(app_name, stream_name);
            &&& step == Published::Accept { connection_id: listener.next_connection_id }
            &&& after.ended(end).0.len() > 0
            &&& after.ended(end).0[0] matches Message::PublishEnded { connection_id, .. }
                && connection_id == listener.next_connection_id
            &&& after.next_connection_id > listener.next_connection_id
            &&& after.fresh().next_connection_id == after.next_connection_id
        }),
{
}

/// A listener that keeps listening stops only for a session that failed on its
/// own account, and one that does not always stops; whenever a stream is over
/// for good the last message says so, as its end or as an error.
pub proof fn a_listener_stops_with_a_word(listener: Listening, end: SessionEnd)
    ensures
        ({
            let (sent, next) = listener.ended(end);
            &&& !listener.keep_listening ==> next == Next::Stop
            &&& listener.keep_listening && next == Next::Stop ==> (end matches SessionEnd::Failed {
                failure,
                ..
            } && !vanished(failure))
            &&& next == Next::Stop ==> sent.len() > 0 && (sent.last() == Message::Eos
                || sent.last() is Error)
        }),
{
}

/// A publisher is announced in front of its first buffer and only there, however
/// long that takes to come; and the buffer after a publisher left starts a new
/// stream.
pub proof fn publishers_are_announced_in_front_of_their_first_buffer(
    relay: Relay,
    connection_id: u64,
    first: Vec<u8>,
    second: Vec<u8>,
    flushing: bool,
)
    ensures
        ({
            let started = relayed(
                relay,
                Received::Output(WorkerOutput::PublishStarted { connection_id }),
                flushing,
            ).0;
            let (after, step) = relayed(
                started,
                Received::Output(WorkerOutput::Data(first)),
                flushing,
            );
            let (_, later) = relayed(
                after,
                Received::Output(WorkerOutput::Data(second)),
                flushing,
            );
            &&& relayed(started, Received::TimedOut, flushing).0 == started
            &&& relayed(started, Received::Output(WorkerOutput::Wake), flushing).0 == started
            &&& step == CreateStep::Push {
                data: first,
                new_stream: relay.new_stream_pending,
                publish_start: Some(connection_id),
            }
            &&& later == CreateStep::Push { data: second, new_stream: false, publish_start: None }
        }),
        forall|reason: EndReason|
            (#[trigger] relayed(
                relay,
                Received::Output(WorkerOutput::PublishEnded { connection_id, reason }),
                flushing,
            )).0.new_stream_pending,
{
}

/// Downstream is told of a publisher's end as it was, whatever the configuration:
/// that it unpublished exactly where it said so, that it disconnected where it
/// closed the connection or vanished, and that there was an error where the session
/// failed otherwise. The end is told once, first of all, under the publisher's
/// number; without a publisher none is told.
pub proof fn an_end_is_told_as_it_was(listener: Listening, end: SessionEnd)
    requires
        !(listener.keep_listening && listener.rejected),
    ensures
        ({
            let sent = listener.ended(end).0;
            let id = listener.connection_id;
            &&& id == 0 ==> forall|i: int|
                0 <= i < sent.len() ==> !((#[trigger] sent[i]) is PublishEnded)
            &&& id != 0 ==> {
                &&& sent.len() > 0
                &&& sent[0] is PublishEnded
                &&& sent[0]->PublishEnded_connection_id == id
                &&& sent[0]->reason == EndReason::Unpublished <==> end is Unpublished
                &&& sent[0]->reason == EndReason::Disconnect <==> (end is Closed || (
                end matches SessionEnd::Failed { failure, .. } && (failure == SessionFailure::Timeout
                    || failure == SessionFailure::Io(IoKind::ConnectionAborted) || failure
                    == SessionFailure::Io(IoKind::ConnectionReset) || failure == SessionFailure::Io(
                    IoKind::UnexpectedEof,
                ) || failure == SessionFailure::Io(IoKind::BrokenPipe))))
                &&& sent[0]->reason == EndReason::Error <==> (end matches SessionEnd::Failed {
                    failure,
                    ..
                } && (failure == SessionFailure::Other || failure == SessionFailure::Io(
                    IoKind::Other,
                )))
                &&& forall|i: int|
                    0 < i < sent.len() ==> !((#[trigger] sent[i]) is PublishEnded)
            }
            &&& forall|i: int|
                0 <= i < sent.len() ==> !((#[trigger] sent[i]) is PublishStarted) && !(sent[i]
                    is Data) && !(sent[i] is Wake)
        }),
{
}

/// How a session ended is told alike by any two listeners: the publisher's end does
/// not depend on what a listener accepts or on whether it keeps listening.
pub proof fn the_reason_does_not_depend_on_the_configuration(
    one: Listening,
    other: Listening,
    end: SessionEnd,
)
    requires
        one.connection_id == other.connection_id,
        one.connection_id != 0,
        !(one.keep_listening && one.rejected),
        !(other.keep_listening && other.rejected),
    ensures
        one.ended(end).0[0] == other.ended(end).0[0],
{
}

/// What is said behind the end of the publisher, where there is one.
pub open spec fn behind_the_end(connection_id: u64, sent: Seq<Message>) -> Seq<Message> {
    if connection_id == 0 {
        sent
    } else {
        sent.drop_first()
    }
}

/// The stream ends where, and only where, a listener that does not keep listening
/// lost its publisher to a goodbye or a closed connection. A closed connection is
/// warned of, unless the listener goes on after a failure that means no more than
/// that. Every other failure is an error, in its own words, and the last word; and
/// the listener goes on exactly where it keeps listening and there was no error.
pub proof fn what_is_said_after_a_session(listener: Listening, end: SessionEnd)
    requires
        !(listener.keep_listening && listener.rejected),
    ensures
        ({
            let (sent, next) = listener.ended(end);
            let rest = behind_the_end(listener.connection_id, sent);
            let warning = Message::Warning("RTMP publisher disconnected without unpublishing"@);
            &&& end is Unpublished ==> rest == if listener.keep_listening {
                Seq::<Message>::empty()
            } else {
                seq![Message::Eos]
            }
            &&& end is Closed ==> rest == if listener.keep_listening {
                seq![warning]
            } else {
                seq![warning, Message::Eos]
            }
            &&& end matches SessionEnd::Failed { failure, error } ==> match failure {
                SessionFailure::Io(IoKind::Other) | SessionFailure::Other => rest == seq![
                    Message::Error("RTMP session failed: "@ + error@),
                ],
                SessionFailure::Timeout => rest == if listener.keep_listening {
                    Seq::<Message>::empty()
                } else {
                    seq![Message::Error("RTMP session failed: "@ + error@)]
                },
                SessionFailure::Io(_) => rest == if listener.keep_listening {
                    Seq::<Message>::empty()
                } else {
                    seq![warning, Message::Eos]
                },
            }
            &&& next == Next::Listen <==> listener.keep_listening && (rest.len() == 0 || !(
            rest.last() is Error))
        }),
{
    let (sent, next) = listener.ended(end);
    let rest = behind_the_end(listener.connection_id, sent);
    let warning = Message::Warning("RTMP publisher disconnected without unpublishing"@);
    match end {
        SessionEnd::Unpublished => {
            if listener.keep_listening {
                assert(rest =~= Seq::<Message>::empty());
            } else {
                assert(rest =~= seq![Message::Eos]);
            }
        },
        SessionEnd::Closed => {
            if listener.keep_listening {
                assert(rest =~= seq![warning]);
            } else {
                assert(rest =~= seq![warning, Message::Eos]);
            }
        },
        SessionEnd::Failed { failure, error } => {
            if !vanished(failure) {
                assert(rest =~= seq![Message::Error("RTMP session failed: "@ + error@)]);
            } else if listener.keep_listening {
                assert(rest =~= Seq::<Message>::empty());
            } else if is_closed(failure) {
                assert(rest =~= seq![warning, Message::Eos]);
            } else {
                assert(rest =~= seq![Message::Error("RTMP session failed: "@ + error@)]);
            }
        },
    }
}

/// A publisher is accepted exactly where it gives every name that is configured,
/// letter for letter; a name that is not configured is free. One that is not
/// accepted is turned away where the listener keeps listening, and stops it
/// otherwise. Whatever is decided, the configuration stays.
pub proof fn only_configured_names_are_accepted(
    listener: Listening,
    app_name: Seq<char>,
    stream_name: Seq<char>,
)
    ensures
        ({
            let (after, step) = listener.published(app_name, stream_name);
            let matching = (listener.application is None || listener.application == Some(app_name))
                && (listener.stream_key is None || listener.stream_key == Some(stream_name));
            &&& step is Accept <==> matching
            &&& step is Reject <==> !matching && listener.keep_listening
            &&& step is Fail <==> !matching && !listener.keep_listening
            &&& step matches Published::Fail(text) ==> text
                == "RTMP publisher did not match the configured application and stream key"@
            &&& after.application == listener.application && after.stream_key
                == listener.stream_key && after.keep_listening == listener.keep_listening
            &&& after.header_sent == listener.header_sent
            &&& after.rejected == (listener.rejected || step is Reject)
            &&& !(step is Accept) ==> after.connection_id == listener.connection_id
                && after.next_connection_id == listener.next_connection_id
        }),
{
}

/// Publishers are numbered one after another from the listener's next number on:
/// whoever is accepted is told of under the number it was accepted under, and the
/// next one gets the number behind it.
pub proof fn publishers_are_numbered_in_order(
    listener: Listening,
    app_name: Seq<char>,
    stream_name: Seq<char>,
)
    requires
        listener.next_connection_id < u64::MAX,
        listener.published(app_name, stream_name).1 is Accept,
    ensures
        ({
            let (after, step) = listener.published(app_name, stream_name);
            let (_, again) = after.fresh().published(app_name, stream_name);
            &&& step->connection_id == listener.next_connection_id
            &&& after.connection_id == step->connection_id
            &&& again is Accept && again->connection_id == step->connection_id + 1
        }),
{
}

/// A new session starts with nothing of the last one: no publisher, none turned
/// away, no header sent; what is configured and the numbers go on.
pub proof fn a_session_starts_clean(listener: Listening, end: SessionEnd)
    ensures
        ({
            let fresh = listener.fresh();
            &&& fresh.connection_id == 0 && !fresh.rejected && !fresh.header_sent
            &&& fresh.next_connection_id == listener.next_connection_id
            &&& fresh.application == listener.application && fresh.stream_key
                == listener.stream_key && fresh.keep_listening == listener.keep_listening
            &&& forall|i: int|
                0 <= i < fresh.ended(end).0.len() ==> !((#[trigger] fresh.ended(end).0[i])
                    is PublishEnded)
        }),
{
}

/// The stream begins as FLV has it: the signature, version one, audio and video
/// announced, a header of nine bytes, and an empty size in front of the first tag.
pub proof fn the_header_announces_audio_and_video()
    ensures
        ({
            let header = flv_header();
            &&& header.len() == 13
            &&& header[0] == 0x46 && header[1] == 0x4c && header[2] == 0x56
            &&& header[3] == 1
            &&& header[4] == 0x04 + 0x01
            &&& crate::bytes::u32_at(header, 5) == header.len() - 4
            &&& crate::bytes::u32_at(header, 9) == 0
        }),
{
}

/// Audio goes out in tags of type eight, video in tags of type nine and metadata in
/// tags of type eighteen, as a reader of the tag finds.
pub proof fn kinds_go_out_under_their_types(media: Media)
    requires
        media.payload.len() < 0x100_0000,
    ensures
        ({
            let header = flv::tag_header(media_tag(media));
            &&& header is Some
            &&& media.kind == MediaKind::Audio <==> header->0.tag_type == 8
            &&& media.kind == MediaKind::Video <==> header->0.tag_type == 9
            &&& media.kind == MediaKind::Amf0 <==> header->0.tag_type == 18
            &&& header->0.timestamp_ms == media.timestamp
            &&& header->0.body_size == media.payload.len()
            &&& flv::is_one_tag(media_tag(media))
        }),
{
    a_relayed_message_parses_back(media);
}

/// The source pad hands everything on once, unaltered: data as a buffer, a
/// publisher's end under its number and reason, a warning and an error in their
/// words, the end as the end. Waiting changes nothing, and nothing but data moves
/// what is owed to the next buffer forward.
pub proof fn everything_received_is_handed_on(
    relay: Relay,
    data: Vec<u8>,
    text: String,
    connection_id: u64,
    reason: EndReason,
    flushing: bool,
)
    ensures
        relayed(relay, Received::Output(WorkerOutput::Data(data)), flushing).1
            matches CreateStep::Push { data: pushed, new_stream, publish_start } && pushed == data
            && new_stream == relay.new_stream_pending && publish_start
            == relay.pending_publish_start,
        relayed(relay, Received::Output(WorkerOutput::Data(data)), flushing).0
            == (Relay { new_stream_pending: false, pending_publish_start: None }),
        relayed(
            relay,
            Received::Output(WorkerOutput::PublishEnded { connection_id, reason }),
            flushing,
        ) == (
            Relay {
                new_stream_pending: true,
                pending_publish_start: relay.pending_publish_start,
            },
            CreateStep::Ended { connection_id, reason },
        ),
        relayed(
            relay,
            Received::Output(WorkerOutput::PublishStarted { connection_id }),
            flushing,
        ) == (
            Relay {
                new_stream_pending: relay.new_stream_pending,
                pending_publish_start: Some(connection_id),
            },
            CreateStep::Wait,
        ),
        relayed(relay, Received::Output(WorkerOutput::Warning(text)), flushing) == (
            relay,
            CreateStep::Warn(text),
        ),
        relayed(relay, Received::Output(WorkerOutput::Error(text)), flushing) == (
            relay,
            CreateStep::Fail(text),
        ),
        relayed(relay, Received::Output(WorkerOutput::Eos), flushing) == (relay, CreateStep::Eos),
        relayed(relay, Received::Output(WorkerOutput::Wake), flushing) == (relay, CreateStep::Wait),
        relayed(relay, Received::TimedOut, flushing) == (relay, CreateStep::Wait),
        relayed(relay, Received::Disconnected, true) == (relay, CreateStep::Flushing),
        relayed(relay, Received::Disconnected, false) == (relay, CreateStep::Eos),
{
}

/// A stream that a second publisher resumes is marked: the first buffer behind the
/// end of the one before starts a new stream and announces the new publisher, and
/// the buffer behind that does neither.
pub proof fn a_resumed_stream_is_marked(
    relay: Relay,
    ended: u64,
    reason: EndReason,
    started: u64,
    first: Vec<u8>,
    second: Vec<u8>,
)
    ensures
        ({
            let gone = relayed(
                relay,
                Received::Output(WorkerOutput::PublishEnded { connection_id: ended, reason }),
                false,
            ).0;
            let back = relayed(
                gone,
                Received::Output(WorkerOutput::PublishStarted { connection_id: started }),
                false,
            ).0;
            let (after, step) = relayed(back, Received::Output(WorkerOutput::Data(first)), false);
            let (_, next) = relayed(after, Received::Output(WorkerOutput::Data(second)), false);
            &&& step == CreateStep::Push {
                data: first,
                new_stream: true,
                publish_start: Some(started),
            }
            &&& next == CreateStep::Push { data: second, new_stream: false, publish_start: None }
        }),
{
}


/// The end of a session is told downstream as it was: a publisher that was announced is
/// announced to have ended, once and before all else, as unpublished where it said so,
/// as disconnected where it vanished, and as an error where the session failed
/// otherwise. Whether the listener goes on listening changes nothing of that.
pub proof fn a_session_ends_as_it_did(
    listener: Listener,
    end: SessionEnd,
    result: (Vec<WorkerOutput>, Next),
)
    requires
        call_ensures(Listener::after_session, (&listener, end), result),
        !(listener@.keep_listening && listener@.rejected),
        listener@.connection_id != 0,
    ensures
        result.0@.len() > 0,
        result.0@[0] matches WorkerOutput::PublishEnded { connection_id, reason } && connection_id
            == listener@.connection_id && match end {
            SessionEnd::Unpublished => reason == EndReason::Unpublished,
            SessionEnd::Closed => reason == EndReason::Disconnect,
            SessionEnd::Failed { failure, .. } => match failure {
                SessionFailure::Timeout => reason == EndReason::Disconnect,
                SessionFailure::Other => reason == EndReason::Error,
                SessionFailure::Io(kind) => if kind == IoKind::Other {
                    reason == EndReason::Error
                } else {
                    reason == EndReason::Disconnect
                },
            },
        },
        forall|i: int| 0 < i < result.0@.len() ==> !((#[trigger] result.0@[i]) is PublishEnded),
{
    an_end_is_told_as_it_was(listener@, end);
    let sent = messages(result.0@);
    assert(sent.len() == result.0@.len());
    assert forall|i: int| 0 <= i < sent.len() implies sent[i] == (#[trigger] result.0@[i])@ by {
    }
}

/// A listener that is to go on listening does so unless the session failed for another
/// reason than a publisher that vanished, and then the stream has not ended. One that is
/// not to stops, and the stream ends where the publisher left.
pub proof fn what_comes_after_a_session(
    listener: Listener,
    end: SessionEnd,
    result: (Vec<WorkerOutput>, Next),
)
    requires
        call_ensures(Listener::after_session, (&listener, end), result),
    ensures
        !listener@.keep_listening ==> result.1 == Next::Stop,
        listener@.keep_listening && !(end is Failed) ==> result.1 == Next::Listen,
        listener@.keep_listening && listener@.rejected ==> result.1 == Next::Listen
            && result.0@.len() == 0,
        result.1 == Next::Listen ==> forall|i: int|
            0 <= i < result.0@.len() ==> !((#[trigger] result.0@[i]) is Eos) && !(result.0@[i]
                is Error),
        !listener@.keep_listening && !(end is Failed) ==> result.0@.len() > 0 && result.0@.last()
            is Eos,
{
    let sent = messages(result.0@);
    assert(sent.len() == result.0@.len());
    assert forall|i: int| 0 <= i < sent.len() implies sent[i] == (#[trigger] result.0@[i])@ by {
    }
}

/// A publisher is accepted exactly where both its names are as configured; a name that
/// is not configured may be any. Accepted publishers are numbered one after the other,
/// and refusing one counts as nothing.
pub proof fn who_is_accepted(
    listener: &mut Listener,
    app_name: &str,
    stream_name: &str,
    step: PublishStep,
)
    requires
        call_ensures(Listener::on_publish, (listener, app_name, stream_name), step),
    ensures
        step is Accept <==> (old(listener)@.application is None || old(listener)@.application->0
            == app_name@) && (old(listener)@.stream_key is None || old(listener)@.stream_key->0
            == stream_name@),
        step is Accept ==> step->connection_id == old(listener)@.next_connection_id && final(listener)@.connection_id == step->connection_id,
        step is Accept && old(listener)@.next_connection_id < u64::MAX ==> final(listener)@.next_connection_id == step->connection_id + 1,
        !(step is Accept) ==> final(listener)@.next_connection_id == old(listener)@.next_connection_id && final(listener)@.connection_id == old(listener)@.connection_id,
        step is Reject ==> old(listener)@.keep_listening && final(listener)@.rejected,
        step is Fail ==> !old(listener)@.keep_listening,
{
}

/// A session sends its header once.
pub proof fn the_header_goes_out_once(
    first: &mut Listener,
    header: Option<Vec<u8>>,
    then: &mut Listener,
    again: Option<Vec<u8>>,
)
    requires
        call_ensures(Listener::ensure_header, (first,), header),
        call_ensures(Listener::ensure_header, (then,), again),
        *old(then) == *final(first),
    ensures
        again is None,
        !old(first)@.header_sent ==> header is Some,
        header is Some ==> header->0@ == seq![0x46u8, 0x4c, 0x56, 1, 5, 0, 0, 0, 9, 0, 0, 0, 0],
{
}

/// What is received leads to what it stands for, with its own data, text, number and
/// reason; a stream that ended is marked as new with the next buffer, a publisher is
/// announced with its first, and each once.
pub proof fn what_is_received_is_passed_on(
    relay: &mut Relay,
    received: Received,
    flushing: bool,
    step: CreateStep,
)
    requires
        call_ensures(Relay::on_received, (relay, received, flushing), step),
    ensures
        received is TimedOut ==> step is Wait && *final(relay) == *old(relay),
        received is Disconnected ==> *final(relay) == *old(relay) && (if flushing {
            step is Flushing
        } else {
            step is Eos
        }),
        received matches Received::Output(output) ==> match output {
            WorkerOutput::Data(data) => {
                &&& step == (CreateStep::Push {
                    data,
                    new_stream: old(relay).new_stream_pending,
                    publish_start: old(relay).pending_publish_start,
                })
                &&& !final(relay).new_stream_pending && final(relay).pending_publish_start is None
            },
            WorkerOutput::PublishStarted { connection_id } => {
                &&& step is Wait
                &&& final(relay).pending_publish_start == Some(connection_id)
                &&& final(relay).new_stream_pending == old(relay).new_stream_pending
            },
            WorkerOutput::PublishEnded { connection_id, reason } => {
                &&& step == (CreateStep::Ended { connection_id, reason })
                &&& final(relay).new_stream_pending
                &&& final(relay).pending_publish_start == old(relay).pending_publish_start
            },
            WorkerOutput::Warning(text) => step == CreateStep::Warn(text) && *final(relay) == *old(relay),
            WorkerOutput::Error(text) => step == CreateStep::Fail(text) && *final(relay) == *old(relay),
            WorkerOutput::Eos => step is Eos && *final(relay) == *old(relay),
            WorkerOutput::Wake => step is Wait && *final(relay) == *old(relay),
        },
{
}

/// A timeout of nothing is none, and any other is as long as it says; and the port that
/// was asked for is the one that is listened on, unless any was to do.
pub proof fn what_was_configured_holds(
    nanoseconds: u64,
    timeout: Option<u64>,
    asked: u16,
    local: u16,
    port: u16,
)
    requires
        call_ensures(nanoseconds_timeout, (nanoseconds,), timeout),
        call_ensures(listening_port, (asked, local), port),
    ensures
        timeout is None <==> nanoseconds == 0,
        timeout is Some ==> timeout->0 == nanoseconds,
        asked != 0 ==> port == asked,
        asked == 0 ==> port == local,
{
}

} // verus!
