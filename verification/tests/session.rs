use anonynews_rs::chunk::Chunk;
use anonynews_rs::chunk::CHUNK_SIZE;
use anonynews_rs::connection_manager::is_request;
use anonynews_rs::connection_manager::ConnectionError;
use anonynews_rs::connection_manager::ConnectionManager;
use anonynews_rs::connection_manager::HandshakeDriver;
use anonynews_rs::connection_manager::SessionResultAction;
use anonynews_rs::custom_ffmpeg_io::CustomFFMpegRead;
use anonynews_rs::custom_ffmpeg_io::MPSCReader;
use anonynews_rs::rtmp::HandshakeStep;
use anonynews_rs::rtmp::SessionEvent;
use anonynews_rs::rtmp::SessionResult;
use bytes::Bytes;
use rml_rtmp::handshake::Handshake;
use rml_rtmp::handshake::HandshakeProcessResult;
use rml_rtmp::handshake::PeerType;
use rml_rtmp::sessions::ClientSession;
use rml_rtmp::sessions::ClientSessionConfig;
use rml_rtmp::sessions::ClientSessionEvent;
use rml_rtmp::sessions::ClientSessionResult;
use rml_rtmp::sessions::PublishRequestType;
use rml_rtmp::time::RtmpTimestamp;
use std::sync::mpsc::sync_channel;
use std::sync::mpsc::Receiver;

const HEADER: [u8; 13] = [
    0x46, 0x4C, 0x56, 0x01, 0x05, 0x00, 0x00, 0x00, 0x09, 0x00, 0x00, 0x00, 0x00,
];

fn started(capacity: usize) -> (ConnectionManager, Receiver<Chunk>) {
    let (tx, rx) = sync_channel::<Chunk>(capacity);
    let mut manager = ConnectionManager::connect(&[], tx).unwrap();
    manager.process_message_buffer().unwrap();
    (manager, rx)
}

fn video(timestamp: u32, data: Vec<u8>) -> SessionResult {
    SessionResult::RaisedEvent(SessionEvent::VideoDataReceived { timestamp, data })
}

fn event(e: SessionEvent) -> SessionResult {
    SessionResult::RaisedEvent(e)
}

/// The client's handshake bytes: C0 and C1, then C2.
fn client_handshake() -> (Vec<u8>, Vec<u8>) {
    let mut client = Handshake::new(PeerType::Client);
    let mut server = Handshake::new(PeerType::Server);
    let c0_c1 = client.generate_outbound_p0_and_p1().unwrap();
    let answer = match server.process_bytes(&c0_c1).unwrap() {
        HandshakeProcessResult::InProgress { response_bytes } => response_bytes,
        HandshakeProcessResult::Completed { .. } => panic!("too early"),
    };
    let c2 = match client.process_bytes(&answer).unwrap() {
        HandshakeProcessResult::Completed { response_bytes, .. } => response_bytes,
        HandshakeProcessResult::InProgress { .. } => panic!("client not done"),
    };
    (c0_c1, c2)
}

/// Bytes of every outbound packet among the results, and the events.
fn client_side(results: Vec<ClientSessionResult>) -> (Vec<u8>, Vec<ClientSessionEvent>) {
    let mut bytes = Vec::new();
    let mut events = Vec::new();
    for result in results {
        match result {
            ClientSessionResult::OutboundResponse(packet) => bytes.extend(packet.bytes),
            ClientSessionResult::RaisedEvent(e) => events.push(e),
            ClientSessionResult::UnhandleableMessageReceived(_) => {}
        }
    }
    (bytes, events)
}

#[test]
fn handshake_in_two_reads_leaves_nothing_over() {
    let (c0_c1, c2) = client_handshake();
    assert_eq!(c0_c1.len(), 1 + 1536);
    assert_eq!(c2.len(), 1536);
    let mut driver = HandshakeDriver::new();
    match driver.process_bytes(&c0_c1).unwrap() {
        HandshakeStep::InProgress { response_bytes } => {
            assert_eq!(response_bytes.len(), 1 + 1536 + 1536);
            assert_eq!(response_bytes[0], 3);
        }
        HandshakeStep::Completed { .. } => panic!("completed before C2"),
    }
    match driver.process_bytes(&c2).unwrap() {
        HandshakeStep::Completed {
            response_bytes,
            remaining_bytes,
        } => {
            assert!(response_bytes.is_empty());
            assert!(remaining_bytes.is_empty());
        }
        HandshakeStep::InProgress { .. } => panic!("not completed after C2"),
    }
}

#[test]
fn handshake_completes_whatever_the_splits_and_keeps_the_tail() {
    let tail: Vec<u8> = vec![0xDE, 0xAD, 0xBE, 0xEF, 0x01];
    for step in [1usize, 7, 100, 1536, 1537, 3071, 3074, 5000] {
        let (c0_c1, c2) = client_handshake();
        let mut all = c0_c1;
        all.extend(c2);
        all.extend(&tail);
        let mut driver = HandshakeDriver::new();
        let mut sent = Vec::new();
        let mut after_handshake: Option<Vec<u8>> = None;
        for piece in all.chunks(step) {
            if let Some(session_bytes) = after_handshake.as_mut() {
                session_bytes.extend_from_slice(piece);
                continue;
            }
            match driver.process_bytes(piece).unwrap() {
                HandshakeStep::InProgress { response_bytes } => sent.extend(response_bytes),
                HandshakeStep::Completed {
                    response_bytes,
                    remaining_bytes,
                } => {
                    sent.extend(response_bytes);
                    after_handshake = Some(remaining_bytes);
                }
            }
        }
        assert_eq!(sent.len(), 1 + 1536 + 1536);
        assert_eq!(after_handshake, Some(tail.clone()));
    }
}

#[test]
fn handshake_with_tail_in_one_read_returns_the_tail() {
    let (c0_c1, c2) = client_handshake();
    let mut all = c0_c1;
    all.extend(c2);
    all.extend([9u8, 8, 7]);
    let mut driver = HandshakeDriver::new();
    match driver.process_bytes(&all).unwrap() {
        HandshakeStep::Completed {
            remaining_bytes, ..
        } => assert_eq!(remaining_bytes, vec![9, 8, 7]),
        HandshakeStep::InProgress { .. } => panic!("not completed"),
    }
}

#[test]
fn handshake_with_no_bytes_makes_no_progress_and_no_error() {
    let mut driver = HandshakeDriver::new();
    match driver.process_bytes(&[]).unwrap() {
        HandshakeStep::InProgress { .. } => {}
        HandshakeStep::Completed { .. } => panic!("completed on nothing"),
    }
}

#[test]
fn handshake_refuses_another_version() {
    let mut driver = HandshakeDriver::new();
    let r = driver.process_bytes(&[6u8; 1537]);
    assert!(matches!(r, Err(ConnectionError::Handshake(_))));
}

#[test]
fn a_new_connection_has_the_sessions_first_packets_waiting() {
    let (tx, _rx) = sync_channel::<Chunk>(4);
    let mut manager = ConnectionManager::connect(&[], tx).unwrap();
    assert!(manager.pending_count() > 0);
    let (bytes, close) = manager.process_message_buffer().unwrap();
    assert!(!bytes.is_empty());
    assert!(!close);
    assert_eq!(manager.pending_count(), 0);
}

#[test]
fn connect_refuses_bytes_that_are_no_chunk_stream() {
    let (tx, _rx) = sync_channel::<Chunk>(4);
    let r = ConnectionManager::connect(&[0xFF; 64], tx);
    assert!(matches!(r, Err(ConnectionError::Session(_))));
}

#[test]
fn drain_is_a_fixpoint() {
    let (mut manager, _rx) = started(4);
    assert_eq!(manager.pending_count(), 0);
    let (bytes, close) = manager.process_message_buffer().unwrap();
    assert!(bytes.is_empty());
    assert!(!close);
    assert_eq!(manager.pending_count(), 0);
}

#[test]
fn drain_sends_outbound_bytes_in_order() {
    let (mut manager, _rx) = started(4);
    manager.queue_results(vec![
        SessionResult::OutboundResponse(vec![1, 2]),
        SessionResult::UnhandleableMessageReceived,
        SessionResult::OutboundResponse(Vec::new()),
        event(SessionEvent::AudioDataReceived),
        SessionResult::OutboundResponse(vec![3]),
    ]);
    manager.queue_results(vec![SessionResult::OutboundResponse(vec![4, 5])]);
    assert_eq!(manager.pending_count(), 6);
    let (bytes, close) = manager.process_message_buffer().unwrap();
    assert_eq!(bytes, vec![1, 2, 3, 4, 5]);
    assert!(!close);
    assert_eq!(manager.pending_count(), 0);
}

#[test]
fn drain_closes_iff_something_finished() {
    for (finisher, expected) in [
        (Some(SessionEvent::PublishStreamFinished), true),
        (Some(SessionEvent::PlayStreamFinished), true),
        (Some(SessionEvent::ReleaseStreamRequested), false),
        (Some(SessionEvent::PlayStreamRequested), false),
        (None, false),
    ] {
        let (mut manager, _rx) = started(4);
        manager.queue_results(vec![SessionResult::OutboundResponse(vec![1])]);
        if let Some(e) = finisher {
            manager.queue_results(vec![event(e)]);
        }
        manager.queue_results(vec![SessionResult::OutboundResponse(vec![2])]);
        let (bytes, close) = manager.process_message_buffer().unwrap();
        assert_eq!(bytes, vec![1, 2]);
        assert_eq!(close, expected);
        assert_eq!(manager.pending_count(), 0);
    }
}

#[test]
fn events_that_are_only_noted_do_nothing() {
    let (mut manager, rx) = started(4);
    manager.queue_results(vec![
        event(SessionEvent::AudioDataReceived),
        event(SessionEvent::ReleaseStreamRequested),
        event(SessionEvent::StreamMetadataChanged),
        event(SessionEvent::UnhandleableAmf0Command),
        event(SessionEvent::PlayStreamRequested),
        event(SessionEvent::AcknowledgementReceived),
        event(SessionEvent::PingResponseReceived),
    ]);
    let (bytes, close) = manager.process_message_buffer().unwrap();
    assert!(bytes.is_empty());
    assert!(!close);
    assert!(rx.try_recv().is_err());
}

#[test]
fn a_change_of_chunk_size_is_an_error() {
    let (mut manager, _rx) = started(4);
    manager.queue_results(vec![
        SessionResult::OutboundResponse(vec![1]),
        event(SessionEvent::ClientChunkSizeChanged),
        SessionResult::OutboundResponse(vec![2]),
    ]);
    let r = manager.process_message_buffer();
    assert!(matches!(r, Err(ConnectionError::UnsupportedChunkSizeChange)));
}

#[test]
fn accepting_an_unknown_request_is_a_session_error() {
    let (mut manager, _rx) = started(4);
    manager.queue_results(vec![event(SessionEvent::ConnectionRequested { request_id: 77 })]);
    let r = manager.process_message_buffer();
    assert!(matches!(r, Err(ConnectionError::Session(_))));
}

#[test]
fn is_request_tells_requests_from_the_rest() {
    assert!(is_request(&event(SessionEvent::ConnectionRequested { request_id: 0 })));
    assert!(is_request(&event(SessionEvent::PublishStreamRequested { request_id: 5 })));
    assert!(!is_request(&event(SessionEvent::PlayStreamRequested)));
    assert!(!is_request(&event(SessionEvent::PublishStreamFinished)));
    assert!(!is_request(&video(0, vec![1])));
    assert!(!is_request(&SessionResult::OutboundResponse(vec![1])));
    assert!(!is_request(&SessionResult::UnhandleableMessageReceived));
}

#[test]
fn one_result_at_a_time() {
    let (mut manager, _rx) = started(4);
    let r = manager.process_server_session_result(SessionResult::OutboundResponse(vec![4, 2]));
    assert!(matches!(r, Ok(SessionResultAction::SendBytes(b)) if b == vec![4, 2]));
    let r = manager.process_server_session_result(SessionResult::UnhandleableMessageReceived);
    assert!(matches!(r, Ok(SessionResultAction::NoAction)));
    let r = manager.process_server_session_event(SessionEvent::PublishStreamFinished);
    assert!(matches!(r, Ok(SessionResultAction::CloseConnection)));
    let r = manager.process_server_session_event(SessionEvent::PlayStreamFinished);
    assert!(matches!(r, Ok(SessionResultAction::CloseConnection)));
    let r = manager.process_server_session_event(SessionEvent::ClientChunkSizeChanged);
    assert!(matches!(r, Err(ConnectionError::UnsupportedChunkSizeChange)));
    let r = manager.process_server_session_event(SessionEvent::VideoDataReceived {
        timestamp: 1,
        data: vec![1, 2, 3],
    });
    assert!(matches!(r, Ok(SessionResultAction::NoAction)));
    assert_eq!(manager.pending_count(), 0);
}

#[test]
fn a_small_video_payload_waits_in_the_first_chunk() {
    let (mut manager, rx) = started(4);
    manager.queue_results(vec![video(0, vec![0x55; 32])]);
    let (bytes, close) = manager.process_message_buffer().unwrap();
    assert!(bytes.is_empty());
    assert!(!close);
    assert!(rx.try_recv().is_err());
}

#[test]
fn video_payloads_come_out_as_header_and_tags() {
    let (mut manager, rx) = started(8);
    let first: Vec<u8> = (0..1000u32).map(|i| i as u8).collect();
    let second: Vec<u8> = (0..1005u32).map(|i| (i * 3) as u8).collect();
    manager.queue_results(vec![
        video(0x0100_0002, first.clone()),
        SessionResult::OutboundResponse(vec![7]),
        video(40, second.clone()),
    ]);
    let (bytes, close) = manager.process_message_buffer().unwrap();
    assert_eq!(bytes, vec![7]);
    assert!(!close);

    let mut expected = HEADER.to_vec();
    expected.extend([9, 0, 0x03, 0xE8, 0, 0, 2, 1, 0, 0, 0]);
    expected.extend(&first);
    expected.extend([0, 0, 0x03, 0xF3]);
    expected.extend([9, 0, 0x03, 0xED, 0, 0, 40, 0, 0, 0, 0]);
    expected.extend(&second);
    expected.extend([0, 0, 0x03, 0xF8]);
    assert_eq!(expected.len(), 2 * CHUNK_SIZE);

    let mut reader = MPSCReader::new(rx);
    let mut buf = vec![0u8; 4 * CHUNK_SIZE];
    assert_eq!(reader.read(&mut buf), Ok(2048));
    assert_eq!(&buf[..2 * CHUNK_SIZE], &expected[..]);
}

#[test]
fn video_for_a_decoder_that_is_gone_closes_the_pipeline() {
    let (mut manager, rx) = started(4);
    drop(rx);
    manager.queue_results(vec![video(0, vec![1; 32])]);
    assert!(manager.process_message_buffer().is_ok());
    manager.queue_results(vec![video(40, vec![2; 4000])]);
    let r = manager.process_message_buffer();
    assert!(matches!(r, Err(ConnectionError::PipelineClosed)));
}

#[test]
fn feed_input_refuses_bytes_that_are_no_chunk_stream() {
    let (mut manager, _rx) = started(4);
    let r = manager.feed_input(&[0xFF; 64]);
    assert!(matches!(r, Err(ConnectionError::Session(_))));
    assert_eq!(manager.pending_count(), 0);
}

#[test]
fn a_client_connects_publishes_video_and_finishes() {
    let (c0_c1, c2) = client_handshake();
    let mut driver = HandshakeDriver::new();
    driver.process_bytes(&c0_c1).unwrap();
    let remaining = match driver.process_bytes(&c2).unwrap() {
        HandshakeStep::Completed {
            remaining_bytes, ..
        } => remaining_bytes,
        HandshakeStep::InProgress { .. } => panic!("handshake not completed"),
    };
    assert!(remaining.is_empty());

    let (tx, rx) = sync_channel::<Chunk>(16);
    let mut manager = ConnectionManager::connect(&remaining, tx).unwrap();
    let (mut client, first) = ClientSession::new(ClientSessionConfig::new()).unwrap();
    let (mut to_server, _) = client_side(first);

    let (to_client, close) = manager.process_message_buffer().unwrap();
    assert!(!close);
    let (more, _) = client_side(client.handle_input(&to_client).unwrap());
    to_server.extend(more);

    let (request, _) = client_side(vec![client.request_connection("live".to_string()).unwrap()]);
    to_server.extend(request);
    manager.feed_input(&to_server).unwrap();
    let (to_client, close) = manager.process_message_buffer().unwrap();
    assert!(!close);
    assert_eq!(manager.pending_count(), 0);
    let (mut to_server, events) = client_side(client.handle_input(&to_client).unwrap());
    assert!(events.contains(&ClientSessionEvent::ConnectionRequestAccepted));

    let publish = client
        .request_publishing("key".to_string(), PublishRequestType::Live)
        .unwrap();
    to_server.extend(client_side(vec![publish]).0);
    manager.feed_input(&to_server).unwrap();
    let mut accepted = false;
    for _ in 0..4 {
        let (to_client, close) = manager.process_message_buffer().unwrap();
        assert!(!close);
        let (to_server, events) = client_side(client.handle_input(&to_client).unwrap());
        accepted = accepted || events.contains(&ClientSessionEvent::PublishRequestAccepted);
        manager.feed_input(&to_server).unwrap();
    }
    assert!(accepted);

    let payload: Vec<u8> = (0..2020u32).map(|i| (i * 5 + 1) as u8).collect();
    let sent = client
        .publish_video_data(Bytes::from(payload.clone()), RtmpTimestamp::new(1234), false)
        .unwrap();
    manager.feed_input(&client_side(vec![sent]).0).unwrap();
    let (_, close) = manager.process_message_buffer().unwrap();
    assert!(!close);

    let mut expected = HEADER.to_vec();
    expected.extend([9, 0, 0x07, 0xE4, 0, 0x04, 0xD2, 0, 0, 0, 0]);
    expected.extend(&payload);
    expected.extend([0, 0, 0x07, 0xEF]);
    assert_eq!(expected.len(), 2 * CHUNK_SIZE);
    let mut reader = MPSCReader::new(rx);
    let mut buf = vec![0u8; 4 * CHUNK_SIZE];
    assert_eq!(reader.read(&mut buf), Ok(2048));
    assert_eq!(&buf[..2 * CHUNK_SIZE], &expected[..]);

    let (stop, _) = client_side(client.stop_publishing().unwrap());
    manager.feed_input(&stop).unwrap();
    let (_, close) = manager.process_message_buffer().unwrap();
    assert!(close);
    assert_eq!(manager.pending_count(), 0);
}
