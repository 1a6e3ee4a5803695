use talk::frame::Frame;
use talk::multiplex::{Fault, Keeper, Multiplex, PlexError, Received, Role, Routed};

fn carry(frame: Frame) -> Frame {
    Frame::decode(&frame.encode().unwrap()).unwrap()
}

fn message(received: Result<Received, PlexError>) -> Vec<u8> {
    match received {
        Ok(Received::Message(bytes)) => bytes,
        other => panic!("no message: {:?}", other),
    }
}

#[test]
fn exchange_over_one_multiplex() {
    let mut connector = Multiplex::new(Role::Connector, 128);
    let mut listener = Multiplex::new(Role::Listener, 128);

    let stream = connector.connect().unwrap();
    assert_eq!(stream, 0);

    let frame = connector.send(stream, Some(42u32.to_le_bytes().to_vec())).unwrap();
    assert!(matches!(listener.route(carry(frame)), Routed::Opened(0)));
    assert_eq!(message(listener.receive(0)), 42u32.to_le_bytes().to_vec());

    let frame = listener.send(0, Some(43u32.to_le_bytes().to_vec())).unwrap();
    assert!(matches!(connector.route(carry(frame)), Routed::Delivered));
    assert_eq!(message(connector.receive(stream)), 43u32.to_le_bytes().to_vec());

    let close = connector.close(stream).unwrap();
    assert!(matches!(close, Frame::Close { stream_id: 0 }));
    assert!(matches!(listener.route(carry(close)), Routed::Ended));
    assert!(matches!(listener.receive(0), Err(PlexError::StreamClosed)));
    assert!(matches!(connector.receive(stream), Err(PlexError::StreamClosed)));

    let close = listener.close(0).unwrap();
    assert!(matches!(connector.route(carry(close)), Routed::Discarded));
    assert!(listener.close(0).is_none());
}

#[test]
fn dropped_stream_is_opened_already_ended() {
    let mut connector = Multiplex::new(Role::Connector, 128);
    let mut listener = Multiplex::new(Role::Listener, 128);

    let stream = connector.connect().unwrap();
    let close = connector.close(stream).unwrap();
    assert!(matches!(listener.route(carry(close)), Routed::Opened(0)));
    assert_eq!(listener.plex_count(), 1);
    assert!(matches!(listener.receive(stream), Err(PlexError::StreamClosed)));
    assert!(matches!(listener.send(stream, Some(vec![1])), Err(PlexError::StreamClosed)));
    assert!(matches!(listener.route(Frame::Close { stream_id: stream }), Routed::Ended));
    assert!(matches!(listener.route(Frame::Close { stream_id: 1 }), Routed::Discarded));
    assert!(matches!(listener.route(Frame::Close { stream_id: 4 }), Routed::Opened(4)));
    assert!(matches!(listener.route(Frame::Close { stream_id: 2 }), Routed::Discarded));
}

#[test]
fn send_fails_once_the_remote_closed_the_stream() {
    let mut connector = Multiplex::new(Role::Connector, 128);
    let stream = connector.connect().unwrap();
    assert!(connector.send(stream, Some(vec![42])).is_ok());
    assert!(matches!(connector.route(Frame::Close { stream_id: stream }), Routed::Ended));
    assert!(matches!(connector.send(stream, Some(vec![42])), Err(PlexError::StreamClosed)));
    connector.shutdown();
    assert!(matches!(connector.send(stream, Some(vec![42])), Err(PlexError::MultiplexDead)));
}

#[test]
fn stream_ids_follow_the_role() {
    let mut connector = Multiplex::new(Role::Connector, 4);
    let mut listener = Multiplex::new(Role::Listener, 4);
    assert_eq!(connector.connect(), Ok(0));
    assert_eq!(connector.connect(), Ok(2));
    assert_eq!(connector.connect(), Ok(4));
    assert_eq!(listener.connect(), Ok(1));
    assert_eq!(listener.connect(), Ok(3));
    assert_eq!(connector.plex_count(), 3);
    assert!(connector.close(2).is_some());
    assert_eq!(connector.plex_count(), 2);
    assert_eq!(connector.connect(), Ok(6));
}

#[test]
fn messages_arrive_in_order() {
    let mut listener = Multiplex::new(Role::Listener, 8);
    for value in 0u8..5 {
        let routed = listener.route(Frame::Payload { stream_id: 0, bytes: vec![value] });
        if value == 0 {
            assert!(matches!(routed, Routed::Opened(0)));
        } else {
            assert!(matches!(routed, Routed::Delivered));
        }
    }
    for value in 0u8..5 {
        assert_eq!(message(listener.receive(0)), vec![value]);
    }
    assert!(matches!(listener.receive(0), Ok(Received::Pending)));
}

#[test]
fn full_mailbox_hands_the_frame_back() {
    let mut listener = Multiplex::new(Role::Listener, 2);
    assert!(matches!(listener.route(Frame::Payload { stream_id: 0, bytes: vec![1] }), Routed::Opened(0)));
    assert!(matches!(listener.route(Frame::Payload { stream_id: 0, bytes: vec![2] }), Routed::Delivered));
    let blocked = match listener.route(Frame::Payload { stream_id: 0, bytes: vec![3] }) {
        Routed::Blocked(frame) => frame,
        other => panic!("not blocked: {:?}", other),
    };
    assert_eq!(message(listener.receive(0)), vec![1]);
    assert!(matches!(listener.route(blocked), Routed::Delivered));
    assert_eq!(message(listener.receive(0)), vec![2]);
    assert_eq!(message(listener.receive(0)), vec![3]);
}

#[test]
fn close_empties_the_mailbox() {
    let mut listener = Multiplex::new(Role::Listener, 8);
    listener.route(Frame::Payload { stream_id: 2, bytes: vec![1] });
    listener.route(Frame::Payload { stream_id: 2, bytes: vec![2] });
    assert!(matches!(listener.route(Frame::Close { stream_id: 2 }), Routed::Ended));
    assert!(matches!(listener.receive(2), Err(PlexError::StreamClosed)));
    assert!(matches!(listener.route(Frame::Payload { stream_id: 2, bytes: vec![3] }), Routed::Discarded));
}

#[test]
fn stale_and_foreign_ids_open_nothing() {
    let mut listener = Multiplex::new(Role::Listener, 8);
    assert!(matches!(listener.route(Frame::Payload { stream_id: 4, bytes: vec![] }), Routed::Opened(4)));
    assert!(matches!(listener.route(Frame::Payload { stream_id: 2, bytes: vec![] }), Routed::Discarded));
    assert!(matches!(listener.route(Frame::Payload { stream_id: 5, bytes: vec![] }), Routed::Discarded));
    assert!(matches!(listener.route(Frame::Payload { stream_id: 6, bytes: vec![] }), Routed::Opened(6)));
    assert_eq!(listener.plex_count(), 2);
}

#[test]
fn probes_are_answered() {
    let mut connector = Multiplex::new(Role::Connector, 8);
    assert!(matches!(connector.route(Frame::Ping), Routed::Reply));
    assert!(matches!(connector.route(Frame::Pong), Routed::Noted));
}

#[test]
fn a_multiplex_dies_once() {
    let mut connector = Multiplex::new(Role::Connector, 8);
    let stream = connector.connect().unwrap();
    connector.route(Frame::Payload { stream_id: stream, bytes: vec![1] });
    assert_eq!(connector.keep(29_999, 30_000), Keeper::Probe);
    assert!(connector.is_alive());
    assert_eq!(connector.keep(30_000, 30_000), Keeper::Expired);
    assert!(!connector.is_alive());
    assert_eq!(connector.keep(0, 30_000), Keeper::Expired);
    assert!(!connector.is_alive());
    assert_eq!(connector.connect(), Err(PlexError::MultiplexDead));
    assert!(matches!(connector.receive(stream), Err(PlexError::MultiplexDead)));
    assert!(matches!(connector.route(Frame::Ping), Routed::Stopped));
    assert!(connector.close(stream).is_none());
    connector.shutdown();
    connector.bury();
    assert!(!connector.is_alive());
}

#[test]
fn only_faults_of_the_connection_are_fatal() {
    for fault in [Fault::Timeout, Fault::CodecFailed] {
        let mut multiplex = Multiplex::new(Role::Connector, 8);
        assert!(!multiplex.fault(fault));
        assert!(multiplex.is_alive());
    }
    for fault in [Fault::Io, Fault::Cryptographic, Fault::ProtocolViolation] {
        let mut multiplex = Multiplex::new(Role::Connector, 8);
        let stream = multiplex.connect().unwrap();
        assert!(multiplex.fault(fault));
        assert!(!multiplex.is_alive());
        assert!(matches!(multiplex.receive(stream), Err(PlexError::MultiplexDead)));
        assert!(multiplex.fault(fault));
        assert!(!multiplex.is_alive());
    }
}

#[test]
fn unserialisable_message_is_a_codec_failure() {
    let mut connector = Multiplex::new(Role::Connector, 8);
    let stream = connector.connect().unwrap();
    assert!(matches!(connector.send(stream, None), Err(PlexError::CodecFailed)));
    assert!(matches!(connector.send(stream + 2, Some(vec![1])), Err(PlexError::StreamClosed)));
    connector.shutdown();
    assert!(matches!(connector.send(stream, None), Err(PlexError::CodecFailed)));
}
