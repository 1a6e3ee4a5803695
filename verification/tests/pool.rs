use talk::frame::Frame;
use talk::hash::Identity;
use talk::multiplex::{PlexError, Received, Routed};
use talk::pool::{Connect, PlexHandle, PlexConnector, PlexConnectorError, PlexConnectorSettings, Pool};

fn identity(seed: u8) -> Identity {
    Identity::from_hash(talk::hash::Hash::from([seed; 32]))
}

fn settings(connections_per_remote: usize) -> PlexConnectorSettings {
    PlexConnectorSettings { connections_per_remote, ..Default::default() }
}

fn open(connector: &mut PlexConnector, remote: Identity, next_token: &mut u64) -> PlexHandle {
    match connector.connect(remote) {
        Connect::Dial => {
            *next_token += 1;
            connector.dialed(remote, Some(*next_token)).unwrap()
        }
        Connect::Opened(plex) => plex,
        Connect::Exhausted(token) => panic!("multiplex {} ran out of streams", token),
    }
}

#[test]
fn default_settings() {
    let settings = PlexConnectorSettings::default();
    assert_eq!(settings.connections_per_remote, 8);
    assert_eq!(settings.keep_alive_interval, 10_000);
    assert_eq!(settings.plex_mailbox_depth, 128);
}

#[test]
fn sequence() {
    let mut connector = PlexConnector::new(settings(5));
    let remote = identity(1);
    let mut tokens: u64 = 0;

    for _ in 0..50 {
        let plex = open(&mut connector, remote, &mut tokens);
        assert!(connector.multiplex_count(remote) <= 5);
        assert!(connector.release(remote, plex).is_some());
    }
    assert_eq!(connector.multiplex_count(remote), 5);
    assert_eq!(tokens, 5);
}

#[test]
fn parallel() {
    let mut connector = PlexConnector::new(settings(5));
    let remote = identity(1);
    let mut tokens: u64 = 0;

    let plexes: Vec<PlexHandle> = (0..50).map(|_| open(&mut connector, remote, &mut tokens)).collect();
    assert_eq!(connector.multiplex_count(remote), 5);
    for token in 1..=5u64 {
        assert_eq!(plexes.iter().filter(|plex| plex.token == token).count(), 10);
    }
    for plex in plexes {
        assert!(connector.release(remote, plex).is_some());
    }
}

#[test]
fn multiple_parallel() {
    let mut connector = PlexConnector::new(settings(5));
    let mut tokens: u64 = 0;

    for value in 0..200u32 {
        let remote = identity((value % 4 + 1) as u8);
        open(&mut connector, remote, &mut tokens);
    }
    for seed in 1..=4u8 {
        assert_eq!(connector.multiplex_count(identity(seed)), 5);
    }
    assert_eq!(connector.multiplex_count(identity(5)), 0);
    assert_eq!(tokens, 20);
}

#[test]
fn least_loaded_multiplex_is_chosen_first_found() {
    let mut connector = PlexConnector::new(settings(2));
    let remote = identity(9);
    assert_eq!(connector.connect(remote), Connect::Dial);
    assert_eq!(connector.dialed(remote, Some(10)), Ok(PlexHandle { token: 10, stream_id: 0 }));
    assert_eq!(connector.connect(remote), Connect::Dial);
    assert_eq!(connector.dialed(remote, Some(20)), Ok(PlexHandle { token: 20, stream_id: 0 }));
    assert_eq!(connector.connect(remote), Connect::Opened(PlexHandle { token: 10, stream_id: 2 }));
    assert_eq!(connector.connect(remote), Connect::Opened(PlexHandle { token: 20, stream_id: 2 }));
    assert!(connector.release(remote, PlexHandle { token: 20, stream_id: 0 }).is_some());
    assert!(connector.release(remote, PlexHandle { token: 20, stream_id: 0 }).is_none());
    assert_eq!(connector.connect(remote), Connect::Opened(PlexHandle { token: 20, stream_id: 4 }));
}

#[test]
fn failed_dial_is_connect_failed() {
    let mut connector = PlexConnector::new(settings(1));
    let remote = identity(3);
    assert_eq!(connector.connect(remote), Connect::Dial);
    assert_eq!(connector.dialed(remote, None), Err(PlexConnectorError::ConnectFailed));
    assert_eq!(connector.multiplex_count(remote), 0);
    assert_eq!(connector.dialed(remote, Some(1)), Ok(PlexHandle { token: 1, stream_id: 0 }));
    assert_eq!(connector.dialed(remote, Some(2)), Err(PlexConnectorError::ConnectFailed));
    assert_eq!(connector.multiplex_count(remote), 1);
}

#[test]
fn dead_multiplexes_are_replaced() {
    let mut connector = PlexConnector::new(settings(2));
    let remote = identity(4);
    let mut tokens: u64 = 0;
    open(&mut connector, remote, &mut tokens);
    open(&mut connector, remote, &mut tokens);
    assert!(connector.fail(remote, 1));
    assert!(!connector.fail(remote, 7));
    assert_eq!(connector.multiplex_count(remote), 2);
    assert_eq!(connector.connect(remote), Connect::Dial);
    assert_eq!(connector.multiplex_count(remote), 1);
    assert_eq!(connector.dialed(remote, Some(3)), Ok(PlexHandle { token: 3, stream_id: 0 }));
    assert_eq!(connector.multiplex_count(remote), 2);
}

#[test]
fn keep_alive_prunes_and_pings() {
    let mut connector = PlexConnector::new(settings(2));
    let mut tokens: u64 = 0;
    open(&mut connector, identity(1), &mut tokens);
    open(&mut connector, identity(1), &mut tokens);
    open(&mut connector, identity(2), &mut tokens);
    assert_eq!(connector.keep_alive(), vec![1, 2, 3]);
    assert!(connector.fail(identity(1), 1));
    assert!(connector.fail(identity(2), 3));
    assert_eq!(connector.keep_alive(), vec![2]);
    assert_eq!(connector.multiplex_count(identity(1)), 1);
    assert_eq!(connector.multiplex_count(identity(2)), 0);
}

#[test]
fn pool_prunes_empty_remotes() {
    let mut pool = Pool::new();
    assert_eq!(pool.get_multiplexes(identity(1)), 0);
    assert_eq!(pool.get_multiplexes(identity(2)), 1);
    assert_eq!(pool.get_multiplexes(identity(1)), 0);
    assert_eq!(pool.len(), 2);
    pool.prune();
    assert_eq!(pool.len(), 0);
}

#[test]
fn pooled_streams_carry_messages() {
    let mut connector = PlexConnector::new(settings(1));
    let remote = identity(6);
    let mut tokens: u64 = 0;
    let plex = open(&mut connector, remote, &mut tokens);

    let frame = connector.send(remote, plex, Some(vec![42])).unwrap();
    assert!(matches!(frame, Frame::Payload { stream_id: 0, .. }));
    assert!(matches!(connector.receive(remote, plex), Ok(Received::Pending)));

    let answer = Frame::Payload { stream_id: plex.stream_id, bytes: vec![43] };
    assert!(matches!(connector.route(remote, plex.token, answer), Routed::Delivered));
    match connector.receive(remote, plex) {
        Ok(Received::Message(bytes)) => assert_eq!(bytes, vec![43]),
        other => panic!("no message: {:?}", other),
    }

    assert!(matches!(connector.route(remote, 99, Frame::Ping), Routed::Stopped));
    assert!(matches!(connector.route(identity(7), plex.token, Frame::Ping), Routed::Stopped));
    assert!(matches!(connector.route(remote, plex.token, Frame::Ping), Routed::Reply));

    let stranger = PlexHandle { token: 99, stream_id: 0 };
    assert!(matches!(connector.receive(remote, stranger), Err(PlexError::MultiplexDead)));
    assert!(matches!(connector.send(remote, stranger, Some(vec![])), Err(PlexError::MultiplexDead)));

    assert!(connector.fail(remote, plex.token));
    assert!(matches!(connector.receive(remote, plex), Err(PlexError::MultiplexDead)));
    assert!(matches!(connector.send(remote, plex, Some(vec![1])), Err(PlexError::MultiplexDead)));
    assert!(connector.release(remote, plex).is_none());
}
