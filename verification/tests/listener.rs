use talk::frame::Frame;
use talk::hash::Identity;
use talk::listener::PlexListener;
use talk::multiplex::{PlexError, Received, Routed};
use talk::pool::{Connect, PlexConnector, PlexConnectorSettings, PlexHandle};

fn identity(seed: u8) -> Identity {
    Identity::from_hash(talk::hash::Hash::from([seed; 32]))
}

fn carry(frame: Frame) -> Frame {
    Frame::decode(&frame.encode().unwrap()).unwrap()
}

fn value(received: Result<Received, PlexError>) -> u32 {
    match received {
        Ok(Received::Message(bytes)) => u32::from_le_bytes([bytes[0], bytes[1], bytes[2], bytes[3]]),
        other => panic!("no message: {:?}", other),
    }
}

#[test]
fn single() {
    let keys = [identity(1), identity(2)];
    let mut connector = PlexConnector::new(PlexConnectorSettings::default());
    let mut listener = PlexListener::new(128);

    assert_eq!(connector.connect(keys[1]), Connect::Dial);
    let plex = connector.dialed(keys[1], Some(7)).unwrap();
    listener.attach(keys[0], 7);
    assert!(listener.accept().is_none());

    let frame = connector.send(keys[1], plex, Some(42u32.to_le_bytes().to_vec())).unwrap();
    assert!(matches!(listener.route(7, carry(frame)), Routed::Opened(0)));
    let accepted = listener.accept().unwrap();
    assert_eq!(accepted.remote, keys[0]);
    assert_eq!(accepted.plex, PlexHandle { token: 7, stream_id: 0 });
    assert_eq!(value(listener.receive(accepted.plex)), 42u32);

    let frame = listener.send(accepted.plex, Some(43u32.to_le_bytes().to_vec())).unwrap();
    assert!(matches!(connector.route(keys[1], 7, carry(frame)), Routed::Delivered));
    assert_eq!(value(connector.receive(keys[1], plex)), 43u32);

    let close = connector.release(keys[1], plex).unwrap();
    assert!(matches!(listener.route(7, carry(close)), Routed::Ended));
    assert!(matches!(listener.receive(accepted.plex), Err(PlexError::StreamClosed)));
    assert!(matches!(connector.receive(keys[1], plex), Err(PlexError::StreamClosed)));
    assert!(listener.release(accepted.plex).is_some());
    assert!(listener.release(accepted.plex).is_none());
    assert!(listener.accept().is_none());
}

#[test]
fn streams_are_accepted_in_the_order_they_were_opened() {
    let mut listener = PlexListener::new(4);
    listener.attach(identity(1), 10);
    listener.attach(identity(2), 20);
    listener.route(20, Frame::Payload { stream_id: 0, bytes: vec![1] });
    listener.route(10, Frame::Payload { stream_id: 0, bytes: vec![2] });
    listener.route(20, Frame::Payload { stream_id: 2, bytes: vec![3] });
    listener.route(20, Frame::Payload { stream_id: 0, bytes: vec![4] });
    let first = listener.accept().unwrap();
    let second = listener.accept().unwrap();
    let third = listener.accept().unwrap();
    assert_eq!((first.remote, first.plex), (identity(2), PlexHandle { token: 20, stream_id: 0 }));
    assert_eq!((second.remote, second.plex), (identity(1), PlexHandle { token: 10, stream_id: 0 }));
    assert_eq!((third.remote, third.plex), (identity(2), PlexHandle { token: 20, stream_id: 2 }));
    assert!(listener.accept().is_none());
    assert_eq!(value_of(listener.receive(first.plex)), vec![1]);
    assert_eq!(value_of(listener.receive(first.plex)), vec![4]);
}

fn value_of(received: Result<Received, PlexError>) -> Vec<u8> {
    match received {
        Ok(Received::Message(bytes)) => bytes,
        other => panic!("no message: {:?}", other),
    }
}

#[test]
fn listener_drops_dead_multiplexes() {
    let mut listener = PlexListener::new(4);
    listener.attach(identity(1), 10);
    listener.attach(identity(2), 20);
    assert!(matches!(listener.route(30, Frame::Ping), Routed::Stopped));
    assert!(listener.fail(10));
    assert!(!listener.fail(30));
    assert!(matches!(listener.route(10, Frame::Ping), Routed::Stopped));
    listener.sweep();
    assert!(!listener.fail(10));
    assert!(matches!(listener.route(20, Frame::Ping), Routed::Reply));
    let stranger = PlexHandle { token: 10, stream_id: 0 };
    assert!(matches!(listener.receive(stranger), Err(PlexError::MultiplexDead)));
    assert!(matches!(listener.send(stranger, Some(vec![])), Err(PlexError::MultiplexDead)));
}

#[test]
fn receive_drop() {
    let keys = [identity(1), identity(2)];
    let mut connector = PlexConnector::new(PlexConnectorSettings::default());
    let mut listener = PlexListener::new(128);

    assert_eq!(connector.connect(keys[1]), Connect::Dial);
    let plex = connector.dialed(keys[1], Some(7)).unwrap();
    listener.attach(keys[0], 7);
    let close = connector.release(keys[1], plex).unwrap();

    assert!(matches!(listener.route(7, carry(close)), Routed::Opened(0)));
    let accepted = listener.accept().unwrap();
    assert_eq!(accepted.remote, keys[0]);
    assert_eq!(accepted.plex, plex);
    assert!(matches!(listener.receive(accepted.plex), Err(PlexError::StreamClosed)));
}

#[test]
fn receive_send() {
    let keys = [identity(1), identity(2)];
    let mut connector = PlexConnector::new(PlexConnectorSettings::default());
    let mut listener = PlexListener::new(128);

    assert_eq!(connector.connect(keys[1]), Connect::Dial);
    let plex = connector.dialed(keys[1], Some(7)).unwrap();
    listener.attach(keys[0], 7);

    let mut sent: u32 = 0;
    loop {
        let frame = match connector.send(keys[1], plex, Some(42u32.to_le_bytes().to_vec())) {
            Ok(frame) => frame,
            Err(error) => {
                assert_eq!(error, PlexError::StreamClosed);
                break;
            }
        };
        sent += 1;
        assert!(sent <= 10);
        listener.route(7, carry(frame));
        if let Some(accepted) = listener.accept() {
            let close = listener.release(accepted.plex).unwrap();
            assert!(matches!(connector.route(keys[1], 7, carry(close)), Routed::Ended));
        }
    }
    assert_eq!(sent, 1);
}
