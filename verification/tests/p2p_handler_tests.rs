use p2p_handler::connection::Frame;
use p2p_handler::error::Error;
use p2p_handler::handler::{Handler, MessageOutcome};
use p2p_handler::manager::{Manager, ReceiveOutcome};
use p2p_handler::message::Message;
use p2p_handler::session::{Session, SocketAddr};
use p2p_handler::{
    FIRST_CONNECTION_TOKEN, FIRST_WAIT_SYNC_TOKEN, LAST_CONNECTION_TOKEN, LAST_WAIT_SYNC_TOKEN,
    MAX_CONNECTIONS, MAX_SYNC_WAITS,
};

fn addr(ip: u32, port: u16) -> SocketAddr {
    SocketAddr { ip, port }
}

fn sync_frame(nonce: u64) -> Vec<u8> {
    let mut frame = vec![1u8];
    for i in 0..8 {
        frame.push((nonce >> (56 - 8 * i)) as u8);
    }
    frame
}

#[test]
fn token_generator_hands_out_each_token_once() {
    let mut gen = p2p_handler::token_generator::TokenGenerator::new(1, 32);
    let mut seen = Vec::new();
    for _ in 0..32 {
        let t = gen.gen().expect("token available");
        assert!((1..33).contains(&t));
        assert!(!seen.contains(&t));
        seen.push(t);
    }
    assert_eq!(gen.gen(), None);
    assert!(gen.restore(seen[7]));
    assert!(!gen.restore(seen[7]));
    assert!(!gen.restore(0));
    assert!(!gen.restore(33));
    assert_eq!(gen.gen(), Some(seen[7]));
    assert_eq!(gen.gen(), None);
}

#[test]
fn s1_inbound_happy_path() {
    let mut handler = Handler::new();
    let peer = addr(0x0a000001, 3485);
    let session = Session { secret: 77, nonce: 0x1122334455667788 };
    let outcome = handler.message(Message::RegisterSession(peer, session));
    assert_eq!(outcome, Ok(MessageOutcome::Done));

    let (token, timer) = handler.accepted(peer).expect("capacity available");
    assert!((FIRST_CONNECTION_TOKEN..LAST_CONNECTION_TOKEN).contains(&token));
    assert!((FIRST_WAIT_SYNC_TOKEN..LAST_WAIT_SYNC_TOKEN).contains(&timer));
    assert_eq!(handler.manager().timer_of_stream(token), Some(timer));

    let res = handler.stream_readable(token, &sync_frame(session.nonce));
    match res {
        Ok(ReceiveOutcome::HandshakeCompleted { leftover }) => assert!(leftover.is_empty()),
        other => panic!("expected handshake completion, got {:?}", other),
    }
    // the session is consumed, the timer disarmed, an Ack queued
    assert!(!handler.manager().has_registered_session(session.nonce));
    assert_eq!(handler.manager().timer_of_stream(token), None);
    assert!(handler.manager().has_connection(token));
    assert_eq!(handler.stream_writable(token), Ok(vec![Frame::Ack]));
    assert_eq!(handler.node_token_to_address(&token), Some(peer));
    assert_eq!(handler.address_to_node_token(&peer), Some(token));
}

#[test]
fn s2_handshake_timeout_frees_everything() {
    let mut handler = Handler::new();
    let peer = addr(7, 42);
    let (token, timer) = handler.accepted(peer).expect("capacity available");
    assert_eq!(handler.manager().live_stream_count(), 1);

    assert_eq!(handler.timeout(timer), Some(token));
    assert!(!handler.manager().has_unprocessed(token));
    assert_eq!(handler.manager().timer_of_stream(token), None);
    assert_eq!(handler.manager().stream_of_timer(timer), None);
    assert_eq!(handler.node_token_to_address(&token), None);
    assert_eq!(handler.manager().live_stream_count(), 0);
    // firing again is a no-op
    assert_eq!(handler.timeout(timer), None);
    // the stream token is reusable
    let (token2, _) = handler.accepted(peer).expect("token reusable");
    assert!((FIRST_CONNECTION_TOKEN..LAST_CONNECTION_TOKEN).contains(&token2));
}

#[test]
fn s3_outbound_path() {
    let mut handler = Handler::new();
    let peer = addr(0xc0a80101, 9000);
    let session = Session { secret: 5, nonce: 99 };
    let outcome = handler.message(Message::RequestConnection(peer, session));
    assert_eq!(outcome, Ok(MessageOutcome::OpenConnection(peer)));

    let token = handler.connection_opened(peer).expect("session was registered");
    // Sync(nonce) is queued, no timer armed, directory entries installed
    assert_eq!(handler.stream_writable(token), Ok(vec![Frame::Sync(99)]));
    assert_eq!(handler.manager().timer_of_stream(token), None);
    assert_eq!(handler.node_token_to_address(&token), Some(peer));
    assert_eq!(handler.address_to_node_token(&peer), Some(token));
}

#[test]
fn s4_capacity_saturation() {
    let mut handler = Handler::new();
    for i in 0..MAX_CONNECTIONS as u32 {
        let peer = addr(100 + i, 1000);
        let session = Session { secret: 1, nonce: 10_000 + i as u64 };
        handler.message(Message::RegisterSession(peer, session)).expect("fresh session");
        let (token, _) = handler.accepted(peer).expect("capacity available");
        let res = handler.stream_readable(token, &sync_frame(session.nonce));
        assert!(matches!(res, Ok(ReceiveOutcome::HandshakeCompleted { .. })));
    }
    assert_eq!(handler.manager().live_stream_count(), MAX_CONNECTIONS);

    let peer = addr(999, 1000);
    let session = Session { secret: 1, nonce: 1 };
    handler.message(Message::RegisterSession(peer, session)).expect("fresh session");
    assert_eq!(handler.accepted(peer), Err(Error::TooManyConnections));
    // no token leaked by the failed accept
    assert_eq!(handler.manager().live_stream_count(), MAX_CONNECTIONS);
    assert_eq!(handler.accepted(peer), Err(Error::TooManyConnections));

    // tearing one connection down frees a slot again
    let victim = handler.address_to_node_token(&addr(100, 1000)).expect("live connection");
    assert!(handler.stream_hup(victim));
    assert_eq!(handler.deregister_stream(victim), Ok(true));
    assert_eq!(handler.manager().live_stream_count(), MAX_CONNECTIONS - 1);
    assert!(handler.accepted(peer).is_ok());
}

#[test]
fn too_many_waiting_sync_is_reported_before_streams_run_out() {
    let mut handler = Handler::new();
    for i in 0..MAX_SYNC_WAITS as u32 {
        handler.accepted(addr(200 + i, 7)).expect("timer available");
    }
    assert_eq!(handler.accepted(addr(300, 7)), Err(Error::TooManyWaitingSync));
    assert_eq!(handler.manager().live_stream_count(), MAX_SYNC_WAITS);
}

#[test]
fn s5_duplicate_session_registration() {
    let mut handler = Handler::new();
    let peer = addr(1, 1);
    let s1 = Session { secret: 11, nonce: 501 };
    let s2 = Session { secret: 22, nonce: 502 };
    assert_eq!(handler.message(Message::RegisterSession(peer, s1)), Ok(MessageOutcome::Done));
    assert_eq!(
        handler.message(Message::RegisterSession(peer, s2)),
        Err(Error::SessionAlreadyRegistered)
    );
    // the first session is the one the next accept from the peer consults
    assert!(handler.manager().has_registered_session(s1.nonce));
    assert!(!handler.manager().has_registered_session(s2.nonce));

    let (token, _) = handler.accepted(peer).expect("capacity available");
    let res = handler.stream_readable(token, &sync_frame(s1.nonce));
    assert!(matches!(res, Ok(ReceiveOutcome::HandshakeCompleted { .. })));
    assert!(!handler.manager().has_registered_session(s1.nonce));
}

#[test]
fn sync_naming_the_rejected_session_fails() {
    let mut handler = Handler::new();
    let peer = addr(1, 1);
    let s1 = Session { secret: 11, nonce: 501 };
    let s2 = Session { secret: 22, nonce: 502 };
    handler.message(Message::RegisterSession(peer, s1)).expect("fresh session");
    let _ = handler.message(Message::RegisterSession(peer, s2));
    let (token, _) = handler.accepted(peer).expect("capacity available");
    assert_eq!(
        handler.stream_readable(token, &sync_frame(s2.nonce)),
        Err(Error::UnregisteredNonce)
    );
}

#[test]
fn s6_hangup_before_handshake() {
    let mut handler = Handler::new();
    let peer = addr(9, 9);
    let (token, timer) = handler.accepted(peer).expect("capacity available");

    assert!(handler.stream_hup(token));
    assert_eq!(handler.node_token_to_address(&token), None);
    assert_eq!(handler.address_to_node_token(&peer), None);

    assert_eq!(handler.deregister_stream(token), Ok(false));
    assert!(!handler.manager().has_unprocessed(token));
    assert_eq!(handler.manager().timer_of_stream(token), None);
    assert_eq!(handler.manager().stream_of_timer(timer), None);
    assert_eq!(handler.manager().live_stream_count(), 0);
    // the late timer firing finds nothing
    assert_eq!(handler.timeout(timer), None);
}

#[test]
fn eviction_is_idempotent_in_either_order() {
    let peer = addr(3, 3);

    let mut m = Manager::listen();
    let (t1, tt1) = m.accept(peer).expect("capacity available");
    assert!(m.remove_waiting_sync_by_stream_token(t1).is_some());
    assert_eq!(m.remove_waiting_sync_by_timer_token(tt1), None);
    assert!(m.remove_waiting_sync_by_stream_token(t1).is_none());
    assert!(!m.has_unprocessed(t1));
    assert_eq!(m.timer_of_stream(t1), None);
    assert_eq!(m.stream_of_timer(tt1), None);
    assert_eq!(m.live_stream_count(), 0);

    let mut m = Manager::listen();
    let (t2, tt2) = m.accept(peer).expect("capacity available");
    assert_eq!(m.remove_waiting_sync_by_timer_token(tt2), Some(t2));
    assert!(m.remove_waiting_sync_by_stream_token(t2).is_none());
    assert_eq!(m.remove_waiting_sync_by_timer_token(tt2), None);
    assert!(!m.has_unprocessed(t2));
    assert_eq!(m.timer_of_stream(t2), None);
    assert_eq!(m.stream_of_timer(tt2), None);
    assert_eq!(m.live_stream_count(), 0);
}

#[test]
fn token_conservation_is_observable() {
    let mut m = Manager::listen();
    assert_eq!(m.live_stream_count(), 0);
    let (t1, _) = m.accept(addr(1, 1)).expect("capacity available");
    let (_t2, tt2) = m.accept(addr(2, 2)).expect("capacity available");
    assert_eq!(m.live_stream_count(), 2);

    let peer = addr(5, 5);
    m.register_session(peer, Session { secret: 9, nonce: 5005 }).expect("fresh session");
    let t3 = m.connect(peer).expect("session registered");
    assert_eq!(m.live_stream_count(), 3);

    m.remove_waiting_sync_by_timer_token(tt2);
    assert_eq!(m.live_stream_count(), 2);
    m.deregister_connection(t3);
    assert_eq!(m.live_stream_count(), 1);
    assert!(m.remove_waiting_sync_by_stream_token(t1).is_some());
    assert_eq!(m.live_stream_count(), 0);
}

#[test]
fn partial_sync_arrives_byte_by_byte() {
    let mut handler = Handler::new();
    let peer = addr(8, 8);
    let session = Session { secret: 1, nonce: 0x0102030405060708 };
    handler.message(Message::RegisterSession(peer, session)).expect("fresh session");
    let (token, _) = handler.accepted(peer).expect("capacity available");

    let frame = sync_frame(session.nonce);
    for byte in frame.iter().take(frame.len() - 1) {
        let res = handler.stream_readable(token, &vec![*byte]);
        assert_eq!(res, Ok(ReceiveOutcome::NeedMoreBytes));
    }
    let res = handler.stream_readable(token, &vec![frame[frame.len() - 1]]);
    match res {
        Ok(ReceiveOutcome::HandshakeCompleted { leftover }) => assert!(leftover.is_empty()),
        other => panic!("expected handshake completion, got {:?}", other),
    }
}

#[test]
fn bytes_after_the_sync_frame_are_handed_back() {
    let mut handler = Handler::new();
    let peer = addr(8, 9);
    let session = Session { secret: 1, nonce: 4242 };
    handler.message(Message::RegisterSession(peer, session)).expect("fresh session");
    let (token, _) = handler.accepted(peer).expect("capacity available");

    let mut bytes = sync_frame(session.nonce);
    bytes.extend_from_slice(&[0xde, 0xad, 0xbe, 0xef]);
    match handler.stream_readable(token, &bytes) {
        Ok(ReceiveOutcome::HandshakeCompleted { leftover }) => {
            assert_eq!(leftover, vec![0xde, 0xad, 0xbe, 0xef]);
        },
        other => panic!("expected handshake completion, got {:?}", other),
    }
}

#[test]
fn malformed_first_frame_is_rejected() {
    let mut handler = Handler::new();
    let peer = addr(8, 10);
    let (token, _) = handler.accepted(peer).expect("capacity available");
    let mut bytes = sync_frame(7);
    bytes[0] = 2;
    assert_eq!(handler.stream_readable(token, &bytes), Err(Error::MalformedSync));
}

#[test]
fn unknown_stream_tokens_are_reported() {
    let mut handler = Handler::new();
    assert_eq!(
        handler.stream_readable(5, &vec![1, 2, 3]),
        Err(Error::InvalidStream(5))
    );
    assert_eq!(handler.stream_writable(6), Err(Error::InvalidStream(6)));
    assert_eq!(handler.deregister_stream(7), Err(Error::InvalidStream(7)));
    assert!(handler.register_stream(0).is_ok());
    assert_eq!(handler.register_stream(8), Err(Error::InvalidStream(8)));
    assert_eq!(handler.update_stream(9), Err(Error::InvalidStream(9)));
}

#[test]
fn error_messages_are_stable() {
    assert_eq!(Error::TooManyConnections.message(), "TooManyConnections");
    assert_eq!(Error::TooManyWaitingSync.message(), "TooManyWaitingSync");
    assert_eq!(Error::SessionAlreadyRegistered.message(), "SessionAlreadyRegistered");
    assert_eq!(Error::UnavailableSession.message(), "UnavailableSession");
    assert_eq!(Error::InvalidStream(5).message(), "InvalidStream");
    assert_eq!(Error::InvalidNode(6).message(), "InvalidNode");
    assert_eq!(Error::MalformedSync.message(), "MalformedSync");
    assert_eq!(Error::UnregisteredNonce.message(), "UnregisteredNonce");
}

#[test]
fn connect_without_session_is_unavailable() {
    let mut m = Manager::listen();
    assert_eq!(m.connect(addr(1, 2)), Err(Error::UnavailableSession));
    assert_eq!(m.live_stream_count(), 0);
}

#[test]
fn writing_to_a_pending_stream_is_a_no_op() {
    let mut handler = Handler::new();
    let (token, _) = handler.accepted(addr(4, 4)).expect("capacity available");
    assert_eq!(handler.stream_writable(token), Ok(Vec::new()));
    assert!(handler.manager().has_unprocessed(token));
}

#[test]
fn frames_are_transmitted_in_enqueue_order() {
    let mut handler = Handler::new();
    let peer = addr(12, 12);
    let session = Session { secret: 3, nonce: 31337 };
    handler.message(Message::RegisterSession(peer, session)).expect("fresh session");
    let (token, _) = handler.accepted(peer).expect("capacity available");
    let res = handler.stream_readable(token, &sync_frame(session.nonce));
    assert!(matches!(res, Ok(ReceiveOutcome::HandshakeCompleted { .. })));

    let outcome = handler.message(Message::RequestNegotiation {
        node_id: token,
        extension_name: "gossip".to_string(),
        version: 3,
    });
    assert_eq!(outcome, Ok(MessageOutcome::UpdateRegistration(token)));
    let outcome = handler.message(Message::SendExtensionMessage {
        node_id: token,
        extension_name: "gossip".to_string(),
        need_encryption: true,
        data: vec![10, 20],
    });
    assert_eq!(outcome, Ok(MessageOutcome::UpdateRegistration(token)));

    let frames = handler.stream_writable(token).expect("established connection");
    assert_eq!(
        frames,
        vec![
            Frame::Ack,
            Frame::NegotiationRequest { extension_name: "gossip".to_string(), version: 3 },
            Frame::Extension {
                extension_name: "gossip".to_string(),
                need_encryption: true,
                data: vec![10, 20],
            },
        ]
    );
    // drained: a second writable pass transmits nothing
    assert_eq!(handler.stream_writable(token), Ok(Vec::new()));
}

#[test]
fn commands_for_unknown_nodes_fail() {
    let mut handler = Handler::new();
    let outcome = handler.message(Message::RequestNegotiation {
        node_id: 31,
        extension_name: "sync".to_string(),
        version: 1,
    });
    assert_eq!(outcome, Err(Error::InvalidNode(31)));
    let outcome = handler.message(Message::SendExtensionMessage {
        node_id: 31,
        extension_name: "sync".to_string(),
        need_encryption: false,
        data: Vec::new(),
    });
    assert_eq!(outcome, Err(Error::InvalidNode(31)));
}

#[test]
fn established_connection_bytes_go_to_the_codec() {
    let mut handler = Handler::new();
    let peer = addr(13, 13);
    let session = Session { secret: 3, nonce: 777 };
    handler.message(Message::RegisterSession(peer, session)).expect("fresh session");
    let (token, _) = handler.accepted(peer).expect("capacity available");
    let res = handler.stream_readable(token, &sync_frame(session.nonce));
    assert!(matches!(res, Ok(ReceiveOutcome::HandshakeCompleted { .. })));
    // further bytes on the established stream are the codec's business
    assert_eq!(
        handler.stream_readable(token, &vec![1, 2, 3]),
        Ok(ReceiveOutcome::Established)
    );
}
