//! The RTMP handshake and session reducers of `rml_rtmp`, and the plain
//! values in which the rest of the library reads what they hand out.
//!
//! Both reducers are black boxes: what they answer depends on their hidden
//! state, on the clock and on random numbers. Nothing is stated of their
//! answers here; the functions of this module only make the calls and turn
//! the crate's values into values of this library.

use rml_rtmp::handshake::Handshake;
use rml_rtmp::handshake::HandshakeError;
use rml_rtmp::handshake::HandshakeProcessResult;
use rml_rtmp::handshake::PeerType;
use rml_rtmp::sessions::ServerSession;
use rml_rtmp::sessions::ServerSessionConfig;
use rml_rtmp::sessions::ServerSessionError;
use rml_rtmp::sessions::ServerSessionEvent;
use rml_rtmp::sessions::ServerSessionResult;
use vstd::prelude::*;

verus! {

/// `rml_rtmp::handshake::Handshake`, the state of one handshake.
#[verifier::external_type_specification]
#[verifier::external_body]
pub struct ExHandshake(Handshake);

/// `rml_rtmp::handshake::HandshakeError`, why a handshake refused bytes.
#[verifier::external_type_specification]
#[verifier::external_body]
pub struct ExHandshakeError(HandshakeError);

/// `rml_rtmp::sessions::ServerSession`, the state of one session.
#[verifier::external_type_specification]
#[verifier::external_body]
pub struct ExServerSession(ServerSession);

/// `rml_rtmp::sessions::ServerSessionError`, why a session refused bytes or a request.
#[verifier::external_type_specification]
#[verifier::external_body]
pub struct ExServerSessionError(ServerSessionError);

/// `rml_rtmp::sessions::ServerSessionEvent`, an event as the session raises it.
#[verifier::external_type_specification]
#[verifier::external_body]
pub struct ExServerSessionEvent(ServerSessionEvent);

/// `rml_rtmp::sessions::ServerSessionResult`, a result as the session hands it out.
#[verifier::external_type_specification]
#[verifier::external_body]
pub struct ExServerSessionResult(ServerSessionResult);

/// What the handshake answers to a batch of bytes.
#[derive(Debug)]
pub enum HandshakeStep {
    /// More bytes are needed; `response_bytes` go to the peer.
    InProgress { response_bytes: Vec<u8> },
    /// The handshake is over; `response_bytes` go to the peer and
    /// `remaining_bytes` belong to the session that follows.
    Completed { response_bytes: Vec<u8>, remaining_bytes: Vec<u8> },
}

/// An event that the session raises, with what the driver reads of it.
#[derive(Debug)]
pub enum SessionEvent {
    ClientChunkSizeChanged,
    ConnectionRequested { request_id: u32 },
    ReleaseStreamRequested,
    PublishStreamRequested { request_id: u32 },
    PublishStreamFinished,
    StreamMetadataChanged,
    AudioDataReceived,
    VideoDataReceived { timestamp: u32, data: Vec<u8> },
    UnhandleableAmf0Command,
    PlayStreamRequested,
    PlayStreamFinished,
    AcknowledgementReceived,
    PingResponseReceived,
}

/// One result of the session, its event still as the session made it.
#[derive(Debug)]
pub enum RawSessionResult {
    OutboundResponse(Vec<u8>),
    RaisedEvent(ServerSessionEvent),
    UnhandleableMessageReceived,
}

/// One result of the session.
#[derive(Debug)]
pub enum SessionResult {
    /// Bytes that must go to the peer, in the order in which they came.
    OutboundResponse(Vec<u8>),
    /// An event for the driver to act on.
    RaisedEvent(SessionEvent),
    /// A message that the session could not handle.
    UnhandleableMessageReceived,
}

/// `Handshake::new` for the server's side of a connection.
#[verifier::external_body]
pub(crate) fn handshake_new() -> (handshake: Handshake) {
    Handshake::new(PeerType::Server)
}

/// `Handshake::process_bytes`: feeds bytes of the peer to the handshake. The
/// answer says whether the handshake is over and what to send back; nothing
/// is known of it beforehand.
#[verifier::external_body]
pub(crate) fn handshake_process_bytes(handshake: &mut Handshake, data: &[u8]) -> (r: Result<
    HandshakeStep,
    HandshakeError,
>) {
    match handshake.process_bytes(data)? {
        HandshakeProcessResult::InProgress { response_bytes } => Ok(
            HandshakeStep::InProgress { response_bytes },
        ),
        HandshakeProcessResult::Completed { response_bytes, remaining_bytes } => Ok(
            HandshakeStep::Completed { response_bytes, remaining_bytes },
        ),
    }
}

/// `ServerSession::new` with the configuration of `ServerSessionConfig::new`:
/// a session and the first results that it wants handled.
#[verifier::external_body]
pub(crate) fn session_new() -> (r: Result<
    (ServerSession, Vec<ServerSessionResult>),
    ServerSessionError,
>) {
    ServerSession::new(ServerSessionConfig::new())
}

/// `ServerSession::handle_input`: feeds bytes of the peer to the session.
#[verifier::external_body]
pub(crate) fn session_handle_input(session: &mut ServerSession, bytes: &[u8]) -> (r: Result<
    Vec<ServerSessionResult>,
    ServerSessionError,
>) {
    session.handle_input(bytes)
}

/// `ServerSession::accept_request`: accepts the request of the given id.
#[verifier::external_body]
pub(crate) fn session_accept_request(session: &mut ServerSession, request_id: u32) -> (r: Result<
    Vec<ServerSessionResult>,
    ServerSessionError,
>) {
    session.accept_request(request_id)
}

/// Tells the three variants of a `ServerSessionResult` apart and takes the
/// bytes out of an outbound packet.
#[verifier::external_body]
pub(crate) fn split_result(result: ServerSessionResult) -> (raw: RawSessionResult) {
    match result {
        ServerSessionResult::OutboundResponse(packet) => RawSessionResult::OutboundResponse(packet.bytes),
        ServerSessionResult::RaisedEvent(event) => RawSessionResult::RaisedEvent(event),
        ServerSessionResult::UnhandleableMessageReceived(_) => RawSessionResult::UnhandleableMessageReceived,
    }
}

/// Tells the variants of a `ServerSessionEvent` apart and keeps the request
/// id of a request and the timestamp and payload of video data.
#[verifier::external_body]
pub(crate) fn plain_event(event: ServerSessionEvent) -> (plain: SessionEvent) {
    match event {
        ServerSessionEvent::ClientChunkSizeChanged { .. } => SessionEvent::ClientChunkSizeChanged,
        ServerSessionEvent::ConnectionRequested { request_id, .. } => SessionEvent::ConnectionRequested { request_id },
        ServerSessionEvent::ReleaseStreamRequested { .. } => SessionEvent::ReleaseStreamRequested,
        ServerSessionEvent::PublishStreamRequested { request_id, .. } => SessionEvent::PublishStreamRequested { request_id },
        ServerSessionEvent::PublishStreamFinished { .. } => SessionEvent::PublishStreamFinished,
        ServerSessionEvent::StreamMetadataChanged { .. } => SessionEvent::StreamMetadataChanged,
        ServerSessionEvent::AudioDataReceived { .. } => SessionEvent::AudioDataReceived,
        ServerSessionEvent::VideoDataReceived { data, timestamp, .. } => SessionEvent::VideoDataReceived { timestamp: timestamp.value, data: data.to_vec() },
        ServerSessionEvent::UnhandleableAmf0Command { .. } => SessionEvent::UnhandleableAmf0Command,
        ServerSessionEvent::PlayStreamRequested { .. } => SessionEvent::PlayStreamRequested,
        ServerSessionEvent::PlayStreamFinished { .. } => SessionEvent::PlayStreamFinished,
        ServerSessionEvent::AcknowledgementReceived { .. } => SessionEvent::AcknowledgementReceived,
        ServerSessionEvent::PingResponseReceived { .. } => SessionEvent::PingResponseReceived,
    }
}

/// Turns the results of the session into results of this library, in order.
pub(crate) fn intake(raw: Vec<ServerSessionResult>) -> (results: Vec<SessionResult>)
    ensures
        results@.len() == raw@.len(),
{
    let ghost total = raw@.len();
    let mut raw = raw;
    let mut reversed: Vec<SessionResult> = Vec::new();
    while raw.len() > 0
        invariant
            reversed@.len() + raw@.len() == total,
        decreases raw@.len(),
    {
        match raw.pop() {
            Some(result) => {
                let plain = match split_result(result) {
                    RawSessionResult::OutboundResponse(bytes) => SessionResult::OutboundResponse(
                        bytes,
                    ),
                    RawSessionResult::RaisedEvent(event) => SessionResult::RaisedEvent(
                        plain_event(event),
                    ),
                    RawSessionResult::UnhandleableMessageReceived => {
                        SessionResult::UnhandleableMessageReceived
                    },
                };
                reversed.push(plain);
            },
            None => {},
        }
    }
    let mut results: Vec<SessionResult> = Vec::new();
    while reversed.len() > 0
        invariant
            results@.len() + reversed@.len() == total,
        decreases reversed@.len(),
    {
        match reversed.pop() {
            Some(plain) => {
                results.push(plain);
            },
            None => {},
        }
    }
    results
}

} // verus!
