//! The driver of one RTMP connection: the handshake, and the loop that turns
//! the results of the session into bytes for the peer, video payloads for the
//! frame extractor, and the decision to close.

use crate::chunk::Chunk;
use crate::decoding_frames::FrameExtractor;
use crate::flv_file::flv_header;
use crate::rtmp::handshake_new;
use crate::rtmp::handshake_process_bytes;
use crate::rtmp::intake;
use crate::rtmp::session_accept_request;
use crate::rtmp::session_handle_input;
use crate::rtmp::session_new;
use crate::rtmp::HandshakeStep;
use crate::rtmp::SessionEvent;
use crate::rtmp::SessionResult;
use rml_rtmp::handshake::Handshake;
use rml_rtmp::handshake::HandshakeError;
use rml_rtmp::sessions::ServerSession;
use rml_rtmp::sessions::ServerSessionError;
use std::collections::VecDeque;
use std::sync::mpsc::SyncSender;
use vstd::prelude::*;

verus! {

/// Why a connection cannot go on.
#[derive(Debug)]
pub enum ConnectionError {
    /// The handshake refused the peer's bytes.
    Handshake(HandshakeError),
    /// The session refused the peer's bytes or a request to accept.
    Session(ServerSessionError),
    /// The peer changed its chunk size, which this driver does not support.
    UnsupportedChunkSizeChange,
    /// The decoder's end of the chunk queue is gone.
    PipelineClosed,
    /// More requests were accepted in one drain than can be counted.
    RequestFlood,
}

/// What the driver has to do after it handled one result.
#[derive(Debug)]
pub enum SessionResultAction {
    /// Send these bytes to the peer.
    SendBytes(Vec<u8>),
    /// Handle these results too, after those that wait already.
    HandleMoreSessionResults(Vec<SessionResult>),
    /// Nothing.
    NoAction,
    /// Close the connection once the bytes to send are sent.
    CloseConnection,
}

/// What a result of the session means to the driver.
pub enum Handling {
    /// Bytes for the peer.
    Send(Seq<u8>),
    /// A request to connect or to publish, which is accepted.
    Accept(u32),
    /// A video payload with its timestamp, which goes to the frame extractor.
    Forward(u32, Seq<u8>),
    /// The end of publishing or of playing, which closes the connection.
    Close,
    /// A change of the peer's chunk size, which ends the connection in error.
    Unsupported,
    /// Anything else: nothing is done.
    Ignore,
}

/// What an event means to the driver.
pub open spec fn event_handling(event: SessionEvent) -> Handling {
    match event {
        SessionEvent::ConnectionRequested { request_id } => Handling::Accept(request_id),
        SessionEvent::PublishStreamRequested { request_id } => Handling::Accept(request_id),
        SessionEvent::VideoDataReceived { timestamp, data } => Handling::Forward(timestamp, data@),
        SessionEvent::PublishStreamFinished => Handling::Close,
        SessionEvent::PlayStreamFinished => Handling::Close,
        SessionEvent::ClientChunkSizeChanged => Handling::Unsupported,
        _ => Handling::Ignore,
    }
}

/// What a result means to the driver.
pub open spec fn handling(result: SessionResult) -> Handling {
    match result {
        SessionResult::OutboundResponse(bytes) => Handling::Send(bytes@),
        SessionResult::RaisedEvent(event) => event_handling(event),
        SessionResult::UnhandleableMessageReceived => Handling::Ignore,
    }
}

/// What each of a sequence of results means, in order.
pub open spec fn handlings(results: Seq<SessionResult>) -> Seq<Handling> {
    results.map_values(|result: SessionResult| handling(result))
}

/// The bytes for the peer among what was handled, in order.
pub open spec fn outbound_bytes(handled: Seq<Handling>) -> Seq<u8>
    decreases handled.len(),
{
    if handled.len() == 0 {
        Seq::empty()
    } else {
        outbound_bytes(handled.drop_last()) + match handled.last() {
            Handling::Send(bytes) => bytes,
            _ => Seq::empty(),
        }
    }
}

/// The video payloads among what was handled, in order.
pub open spec fn forwarded(handled: Seq<Handling>) -> Seq<(u32, Seq<u8>)>
    decreases handled.len(),
{
    if handled.len() == 0 {
        Seq::empty()
    } else {
        forwarded(handled.drop_last()) + match handled.last() {
            Handling::Forward(timestamp, data) => seq![(timestamp, data)],
            _ => Seq::empty(),
        }
    }
}

/// How many requests were accepted among what was handled.
pub open spec fn accepts(handled: Seq<Handling>) -> nat
    decreases handled.len(),
{
    if handled.len() == 0 {
        0
    } else {
        accepts(handled.drop_last()) + if handled.last() is Accept {
            1nat
        } else {
            0nat
        }
    }
}

/// Whether anything among what was handled asks to close the connection.
pub open spec fn closes(handled: Seq<Handling>) -> bool {
    exists|i: int| 0 <= i < handled.len() && #[trigger] handled[i] is Close
}

/// Whether a change of chunk size is among what was handled.
pub open spec fn has_unsupported(handled: Seq<Handling>) -> bool {
    exists|i: int| 0 <= i < handled.len() && #[trigger] handled[i] is Unsupported
}

/// Whether the driver can handle all of these without asking the session or
/// the frame extractor for anything: bytes to send, closes, and what is ignored.
pub open spec fn all_inert(handled: Seq<Handling>) -> bool {
    forall|i: int|
        0 <= i < handled.len() ==> {
            ||| #[trigger] handled[i] is Send
            ||| handled[i] is Close
            ||| handled[i] is Ignore
        }
}

/// What handling one more result adds to each summary of what was handled.
pub proof fn lemma_handled_push(handled: Seq<Handling>, next: Handling)
    ensures
        outbound_bytes(handled.push(next)) == outbound_bytes(handled) + match next {
            Handling::Send(bytes) => bytes,
            _ => Seq::empty(),
        },
        forwarded(handled.push(next)) == forwarded(handled) + match next {
            Handling::Forward(timestamp, data) => seq![(timestamp, data)],
            _ => Seq::empty(),
        },
        accepts(handled.push(next)) == accepts(handled) + if next is Accept {
            1nat
        } else {
            0nat
        },
        closes(handled.push(next)) == (closes(handled) || next is Close),
        has_unsupported(handled.push(next)) == (has_unsupported(handled) || next is Unsupported),
{
    let longer = handled.push(next);
    assert(longer.drop_last() == handled);
    assert(longer.last() == next);
    if closes(handled) {
        let i = choose|i: int| 0 <= i < handled.len() && #[trigger] handled[i] is Close;
        assert(longer[i] is Close);
    }
    if next is Close {
        assert(longer[handled.len() as int] is Close);
    }
    if closes(longer) {
        let i = choose|i: int| 0 <= i < longer.len() && #[trigger] longer[i] is Close;
        if i < handled.len() {
            assert(handled[i] is Close);
        }
    }
    if has_unsupported(handled) {
        let i = choose|i: int| 0 <= i < handled.len() && #[trigger] handled[i] is Unsupported;
        assert(longer[i] is Unsupported);
    }
    if next is Unsupported {
        assert(longer[handled.len() as int] is Unsupported);
    }
    if has_unsupported(longer) {
        let i = choose|i: int| 0 <= i < longer.len() && #[trigger] longer[i] is Unsupported;
        if i < handled.len() {
            assert(handled[i] is Unsupported);
        }
    }
}

/// Whether a result is a request that the driver accepts.
pub fn is_request(result: &SessionResult) -> (b: bool)
    ensures
        b == (handling(*result) is Accept),
{
    match result {
        SessionResult::RaisedEvent(SessionEvent::ConnectionRequested { .. }) => true,
        SessionResult::RaisedEvent(SessionEvent::PublishStreamRequested { .. }) => true,
        _ => false,
    }
}

/// The server's side of the handshake that opens a connection.
pub struct HandshakeDriver {
    handshake: Handshake,
    seen: Ghost<Seq<u8>>,
    over: Ghost<bool>,
}

impl HandshakeDriver {
    /// Every byte of the peer that the handshake was given so far, in order,
    /// however the reads cut them up.
    pub closed spec fn fed(&self) -> Seq<u8> {
        self.seen@
    }

    /// Whether the handshake has answered that it is over.
    pub closed spec fn is_complete(&self) -> bool {
        self.over@
    }

    /// A handshake that has seen no bytes yet and is not over.
    pub fn new() -> (r: Self)
        ensures
            r.fed() == Seq::<u8>::empty(),
            !r.is_complete(),
    {
        Self { handshake: handshake_new(), seen: Ghost(Seq::empty()), over: Ghost(false) }
    }

    /// Feeds the bytes read from the peer to the handshake, behind those
    /// that it was given before. The answer holds the bytes to send back and,
    /// once the handshake is over, the bytes that belong to the session;
    /// bytes that the handshake refuses end the connection. The handshake is
    /// over from the first answer that says so.
    pub fn process_bytes(&mut self, bytes: &[u8]) -> (r: Result<HandshakeStep, ConnectionError>)
        ensures
            final(self).fed() == old(self).fed() + bytes@,
            match r {
                Ok(step) => final(self).is_complete() == (old(self).is_complete()
                    || step is Completed),
                Err(e) => e is Handshake && final(self).is_complete() == old(self).is_complete(),
            },
    {
        let answer = handshake_process_bytes(&mut self.handshake, bytes);
        proof {
            self.seen@ = self.seen@ + bytes@;
        }
        match answer {
            Ok(step) => {
                proof {
                    if step is Completed {
                        self.over@ = true;
                    }
                }
                Ok(step)
            },
            Err(e) => Err(ConnectionError::Handshake(e)),
        }
    }
}

/// One client's session, the results of it that wait to be handled, and the
/// frame extractor that its video goes to.
pub struct ConnectionManager {
    session: ServerSession,
    server_session_results: VecDeque<SessionResult>,
    frame_decoder: FrameExtractor,
    log: Ghost<Seq<Handling>>,
    input: Ghost<Seq<Seq<u8>>>,
}

/// Whether `r` and the change from `before` to `after` are what handling a
/// result that means `h` may lead to.
pub open spec fn handled_as(
    h: Handling,
    before: ConnectionManager,
    after: ConnectionManager,
    r: Result<SessionResultAction, ConnectionError>,
) -> bool {
    match h {
        Handling::Send(bytes) => {
            &&& after.extractor() == before.extractor()
            &&& r matches Ok(SessionResultAction::SendBytes(sent))
            &&& sent@ == bytes
        },
        Handling::Accept(_) => {
            &&& after.extractor() == before.extractor()
            &&& match r {
                Ok(action) => action is HandleMoreSessionResults,
                Err(e) => e is Session,
            }
        },
        Handling::Forward(timestamp, data) => {
            &&& match r {
                Ok(action) => {
                    &&& action is NoAction
                    &&& after.well_formed()
                    &&& after.extractor().payloads() == before.extractor().payloads().push(
                        (timestamp, data),
                    )
                },
                Err(e) => e is PipelineClosed,
            }
            &&& 15 + data.len() <= before.extractor().room() ==> r is Ok
        },
        Handling::Close => {
            &&& after.extractor() == before.extractor()
            &&& r matches Ok(SessionResultAction::CloseConnection)
        },
        Handling::Unsupported => {
            &&& after.extractor() == before.extractor()
            &&& r matches Err(ConnectionError::UnsupportedChunkSizeChange)
        },
        Handling::Ignore => {
            &&& after.extractor() == before.extractor()
            &&& r matches Ok(SessionResultAction::NoAction)
        },
    }
}

impl ConnectionManager {
    /// What the results that wait to be handled mean, oldest first.
    pub closed spec fn pending(&self) -> Seq<Handling> {
        handlings(self.server_session_results@)
    }

    /// What every result drained so far meant, oldest first.
    pub closed spec fn handled(&self) -> Seq<Handling> {
        self.log@
    }

    /// Every batch of the peer's bytes that the session was given so far,
    /// oldest first: what the session's answers rest on.
    pub closed spec fn fed(&self) -> Seq<Seq<u8>> {
        self.input@
    }

    /// The frame extractor of this connection.
    pub closed spec fn extractor(&self) -> FrameExtractor {
        self.frame_decoder
    }

    /// The frame extractor's invariant.
    pub open spec fn well_formed(&self) -> bool {
        self.extractor().well_formed()
    }

    /// How many results wait to be handled.
    pub fn pending_count(&self) -> (n: usize)
        ensures
            n == self.pending().len(),
    {
        self.server_session_results.len()
    }

    /// Starts the session of a connection whose handshake left
    /// `remaining_bytes` over, and the frame extractor that feeds `sender`.
    /// The session is given the bytes left over; its first results and its
    /// results for those bytes wait to be handled; nothing was handled yet
    /// and no video was taken.
    pub fn connect(remaining_bytes: &[u8], sender: SyncSender<Chunk>) -> (r: Result<
        Self,
        ConnectionError,
    >)
        ensures
            match r {
                Ok(manager) => {
                    &&& manager.well_formed()
                    &&& manager.handled() == Seq::<Handling>::empty()
                    &&& manager.fed() == seq![remaining_bytes@]
                    &&& manager.extractor().payloads() == Seq::<(u32, Seq<u8>)>::empty()
                    &&& manager.extractor().stream() == flv_header()
                },
                Err(e) => e is Session,
            },
    {
        let (session, packets_to_send) = match session_new() {
            Ok(started) => started,
            Err(e) => {
                return Err(ConnectionError::Session(e));
            },
        };
        let mut session = session;
        let packets_to_send2 = match session_handle_input(&mut session, remaining_bytes) {
            Ok(results) => results,
            Err(e) => {
                return Err(ConnectionError::Session(e));
            },
        };
        let frame_decoder = FrameExtractor::new(sender);
        let mut manager = Self {
            session,
            server_session_results: VecDeque::new(),
            frame_decoder,
            log: Ghost(Seq::empty()),
            input: Ghost(Seq::empty().push(remaining_bytes@)),
        };
        manager.queue_results(intake(packets_to_send));
        manager.queue_results(intake(packets_to_send2));
        Ok(manager)
    }

    /// Puts results behind those that wait already, in their order.
    pub fn queue_results(&mut self, results: Vec<SessionResult>)
        ensures
            final(self).pending() == old(self).pending() + handlings(results@),
            final(self).handled() == old(self).handled(),
            final(self).fed() == old(self).fed(),
            final(self).extractor() == old(self).extractor(),
    {
        let mut results = results;
        let ghost all = results@;
        let mut behind: VecDeque<SessionResult> = VecDeque::new();
        while results.len() > 0
            invariant
                results@.len() <= all.len(),
                results@ == all.take(results@.len() as int),
                behind@ == all.skip(results@.len() as int),
            decreases results@.len(),
        {
            match results.pop() {
                Some(result) => {
                    behind.push_front(result);
                    assert(behind@ =~= all.skip(results@.len() as int));
                    assert(results@ =~= all.take(results@.len() as int));
                },
                None => {},
            }
        }
        assert(behind@ =~= all);
        self.server_session_results.append(&mut behind);
        assert(handlings(old(self).server_session_results@ + all) =~= handlings(
            old(self).server_session_results@,
        ) + handlings(all));
    }

    /// Feeds bytes read from the peer to the session and puts its results
    /// behind those that wait already. The session has taken the bytes
    /// whether it answers with results or refuses them.
    pub fn feed_input(&mut self, bytes: &[u8]) -> (r: Result<(), ConnectionError>)
        ensures
            final(self).fed() == old(self).fed().push(bytes@),
            final(self).handled() == old(self).handled(),
            final(self).extractor() == old(self).extractor(),
            match r {
                Ok(()) => old(self).pending().is_prefix_of(final(self).pending()),
                Err(e) => e is Session && final(self).pending() == old(self).pending(),
            },
    {
        let answer = session_handle_input(&mut self.session, bytes);
        proof {
            self.input@ = self.input@.push(bytes@);
        }
        match answer {
            Ok(results) => {
                let plain = intake(results);
                self.queue_results(plain);
                assert(old(self).pending().is_prefix_of(self.pending())) by {
                    assert((old(self).pending() + handlings(plain@)).subrange(
                        0,
                        old(self).pending().len() as int,
                    ) =~= old(self).pending());
                }
                Ok(())
            },
            Err(e) => Err(ConnectionError::Session(e)),
        }
    }

    /// Acts on one event: accepts a request to connect or to publish and
    /// hands back what the session answers, forwards video to the frame
    /// extractor, asks to close when publishing or playing has finished,
    /// refuses a change of chunk size, and does nothing for any other event.
    pub fn process_server_session_event(&mut self, e: SessionEvent) -> (r: Result<
        SessionResultAction,
        ConnectionError,
    >)
        requires
            old(self).well_formed(),
        ensures
            final(self).pending() == old(self).pending(),
            final(self).handled() == old(self).handled(),
            final(self).fed() == old(self).fed(),
            handled_as(event_handling(e), *old(self), *final(self), r),
    {
        match e {
            SessionEvent::ConnectionRequested { request_id } => {
                match session_accept_request(&mut self.session, request_id) {
                    Ok(results) => Ok(SessionResultAction::HandleMoreSessionResults(intake(results))),
                    Err(e) => Err(ConnectionError::Session(e)),
                }
            },
            SessionEvent::PublishStreamRequested { request_id } => {
                match session_accept_request(&mut self.session, request_id) {
                    Ok(results) => Ok(SessionResultAction::HandleMoreSessionResults(intake(results))),
                    Err(e) => Err(ConnectionError::Session(e)),
                }
            },
            SessionEvent::VideoDataReceived { timestamp, data } => {
                match self.frame_decoder.send_bytes(timestamp, data.as_slice()) {
                    Ok(()) => Ok(SessionResultAction::NoAction),
                    Err(_) => Err(ConnectionError::PipelineClosed),
                }
            },
            SessionEvent::ClientChunkSizeChanged => Err(ConnectionError::UnsupportedChunkSizeChange),
            SessionEvent::PublishStreamFinished => Ok(SessionResultAction::CloseConnection),
            SessionEvent::PlayStreamFinished => Ok(SessionResultAction::CloseConnection),
            SessionEvent::AudioDataReceived => Ok(SessionResultAction::NoAction),
            SessionEvent::ReleaseStreamRequested => Ok(SessionResultAction::NoAction),
            SessionEvent::StreamMetadataChanged => Ok(SessionResultAction::NoAction),
            SessionEvent::UnhandleableAmf0Command => Ok(SessionResultAction::NoAction),
            SessionEvent::PlayStreamRequested => Ok(SessionResultAction::NoAction),
            SessionEvent::AcknowledgementReceived => Ok(SessionResultAction::NoAction),
            SessionEvent::PingResponseReceived => Ok(SessionResultAction::NoAction),
        }
    }

    /// Acts on one result: bytes for the peer are handed back to be sent, an
    /// event is acted on, and a message that the session could not handle is
    /// dropped.
    pub fn process_server_session_result(&mut self, ssr: SessionResult) -> (r: Result<
        SessionResultAction,
        ConnectionError,
    >)
        requires
            old(self).well_formed(),
        ensures
            final(self).pending() == old(self).pending(),
            final(self).handled() == old(self).handled(),
            final(self).fed() == old(self).fed(),
            handled_as(handling(ssr), *old(self), *final(self), r),
    {
        match ssr {
            SessionResult::RaisedEvent(e) => self.process_server_session_event(e),
            SessionResult::OutboundResponse(bytes) => Ok(SessionResultAction::SendBytes(bytes)),
            SessionResult::UnhandleableMessageReceived => Ok(SessionResultAction::NoAction),
        }
    }

    /// Handles every result that waits, and every result that handling them
    /// brings, until none is left. Hands back the bytes to send to the peer
    /// and whether the connection is to be closed after they are sent.
    ///
    /// The results are handled in the order in which they wait; the answers
    /// to accepted requests wait behind the results that were there before.
    pub fn process_message_buffer(&mut self) -> (r: Result<(Vec<u8>, bool), ConnectionError>)
        requires
            old(self).well_formed(),
        ensures
            old(self).handled().is_prefix_of(final(self).handled()),
            final(self).fed() == old(self).fed(),
            ({
                let fresh = final(self).handled().skip(old(self).handled().len() as int);
                match r {
                    Ok((bytes_to_send, connection_should_close)) => {
                        &&& final(self).well_formed()
                        &&& final(self).pending().len() == 0
                        &&& old(self).pending().is_prefix_of(fresh)
                        &&& bytes_to_send@ == outbound_bytes(fresh)
                        &&& connection_should_close == closes(fresh)
                        &&& final(self).extractor().payloads() == old(self).extractor().payloads()
                            + forwarded(fresh)
                        &&& !has_unsupported(fresh)
                    },
                    Err(e) => {
                        &&& fresh.len() > 0
                        &&& match e {
                            ConnectionError::UnsupportedChunkSizeChange => fresh.last() is Unsupported,
                            ConnectionError::Session(_) => fresh.last() is Accept,
                            ConnectionError::RequestFlood => fresh.last() is Accept && accepts(fresh)
                                > usize::MAX,
                            ConnectionError::PipelineClosed => fresh.last() is Forward,
                            ConnectionError::Handshake(_) => false,
                        }
                    },
                }
            }),
            all_inert(old(self).pending()) ==> {
                &&& r is Ok
                &&& final(self).handled() == old(self).handled() + old(self).pending()
            },
    {
        let mut connection_should_close: bool = false;
        let mut bytes_to_send: Vec<u8> = Vec::new();
        let mut accepted: usize = 0;
        let ghost mut fresh: Seq<Handling> = Seq::empty();
        proof {
            assert(old(self).handled() + fresh =~= old(self).handled());
            assert(fresh + self.pending() =~= old(self).pending());
            assert(old(self).extractor().payloads() + forwarded(fresh)
                =~= old(self).extractor().payloads());
        }
        while self.server_session_results.len() > 0
            invariant
                self.well_formed(),
                self.fed() == old(self).fed(),
                self.handled() == old(self).handled() + fresh,
                old(self).pending().is_prefix_of(fresh + self.pending()),
                all_inert(old(self).pending()) ==> fresh + self.pending() == old(self).pending(),
                bytes_to_send@ == outbound_bytes(fresh),
                connection_should_close == closes(fresh),
                self.extractor().payloads() == old(self).extractor().payloads() + forwarded(fresh),
                !has_unsupported(fresh),
                accepted == accepts(fresh),
            decreases usize::MAX - accepted, self.server_session_results@.len(),
        {
            let ghost before = *self;
            let ghost done = fresh;
            match self.server_session_results.pop_front() {
                Some(ssr) => {
                    let ghost h = handling(ssr);
                    proof {
                        fresh = fresh.push(h);
                        self.log@ = self.log@.push(h);
                        lemma_handled_push(done, h);
                        assert(before.pending() =~= seq![h] + self.pending());
                        assert(fresh + self.pending() =~= done + before.pending());
                        assert(self.handled() =~= old(self).handled() + fresh);
                        if all_inert(old(self).pending()) {
                            assert(old(self).pending()[done.len() as int] == h);
                        }
                    }
                    if is_request(&ssr) && accepted == usize::MAX {
                        proof {
                            assert(self.handled().skip(old(self).handled().len() as int) =~= fresh);
                        }
                        return Err(ConnectionError::RequestFlood);
                    }
                    let ghost waiting = self.pending();
                    match self.process_server_session_result(ssr) {
                        Ok(SessionResultAction::SendBytes(b)) => {
                            let mut b = b;
                            bytes_to_send.append(&mut b);
                        },
                        Ok(SessionResultAction::HandleMoreSessionResults(srs)) => {
                            accepted = accepted + 1;
                            self.queue_results(srs);
                            proof {
                                assert(old(self).pending().is_prefix_of(fresh + self.pending())) by {
                                    assert((fresh + waiting + handlings(srs@)).subrange(
                                        0,
                                        old(self).pending().len() as int,
                                    ) =~= (fresh + waiting).subrange(
                                        0,
                                        old(self).pending().len() as int,
                                    ));
                                    assert(fresh + self.pending() =~= fresh + waiting + handlings(
                                        srs@,
                                    ));
                                }
                            }
                        },
                        Ok(SessionResultAction::CloseConnection) => {
                            connection_should_close = true;
                        },
                        Ok(SessionResultAction::NoAction) => {
                            proof {
                                if h is Forward {
                                    assert(self.extractor().payloads() =~= old(
                                        self
                                    ).extractor().payloads() + forwarded(fresh));
                                }
                            }
                        },
                        Err(e) => {
                            proof {
                                assert(self.handled().skip(old(self).handled().len() as int)
                                    =~= fresh);
                            }
                            return Err(e);
                        },
                    }
                },
                None => {},
            }
        }
        proof {
            assert(self.handled().skip(old(self).handled().len() as int) =~= fresh);
            assert(self.pending().len() == 0);
            assert(fresh + self.pending() =~= fresh);
        }
        Ok((bytes_to_send, connection_should_close))
    }
}

} // verus!
