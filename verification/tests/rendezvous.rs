use talk::hash::Identity;
use talk::rendezvous::{Address, Connector, ConnectorError, Dialed, Event, Next, Phase};

fn identity(seed: u8) -> Identity {
    Identity::from_hash(talk::hash::Hash::from([seed; 32]))
}

fn address(port: u16) -> Address {
    Address { ip: 0x7f00_0001, port }
}

#[test]
fn cache_hit_dials_at_once() {
    let mut connector = Connector::new();
    connector.cache_address(identity(1), address(1000));
    let mut connecting = connector.connect(identity(1));
    assert!(matches!(connecting.next(), Next::Dial(a) if a == address(1000)));
    let next = connector.advance(&mut connecting, Event::Dialed(Dialed::Authenticated(identity(1))));
    assert!(matches!(next, Next::Finished(Ok(()))));
    assert_eq!(connector.get_address(identity(1)), Some(address(1000)));
}

#[test]
fn cache_miss_asks_the_directory() {
    let mut connector = Connector::new();
    let mut connecting = connector.connect(identity(1));
    assert!(matches!(connecting.next(), Next::Query));
    let next = connector.advance(&mut connecting, Event::Queried(Some(address(2000))));
    assert!(matches!(next, Next::Dial(a) if a == address(2000)));
    assert_eq!(connector.get_address(identity(1)), Some(address(2000)));
    assert_eq!(connector.get_address(identity(2)), None);
}

#[test]
fn unknown_address() {
    let mut connector = Connector::new();
    let mut connecting = connector.connect(identity(1));
    let next = connector.advance(&mut connecting, Event::Queried(None));
    assert!(matches!(next, Next::Finished(Err(ConnectorError::AddressUnknown))));
}

#[test]
fn mismatched_identity_retries_once_on_a_fresh_address() {
    let mut connector = Connector::new();
    connector.cache_address(identity(1), address(1000));
    let mut connecting = connector.connect(identity(1));

    let next = connector.advance(&mut connecting, Event::Dialed(Dialed::Authenticated(identity(2))));
    assert!(matches!(next, Next::Query));
    assert_eq!(connector.get_address(identity(1)), None);

    let next = connector.advance(&mut connecting, Event::Queried(Some(address(1001))));
    assert!(matches!(next, Next::Dial(a) if a == address(1001)));
    assert_eq!(connector.get_address(identity(1)), Some(address(1001)));

    let next = connector.advance(&mut connecting, Event::Dialed(Dialed::Authenticated(identity(2))));
    assert_eq!(
        matches!(next, Next::Finished(Err(ConnectorError::UnexpectedRemote { observed })) if observed == identity(2)),
        true
    );
    assert!(matches!(connecting.phase, Phase::Finished(Err(_))));
    let next = connector.advance(&mut connecting, Event::Queried(Some(address(1002))));
    assert!(matches!(next, Next::Finished(Err(ConnectorError::UnexpectedRemote { .. }))));
}

#[test]
fn mismatched_identity_with_the_same_address_gives_up() {
    let mut connector = Connector::new();
    connector.cache_address(identity(1), address(1000));
    let mut connecting = connector.connect(identity(1));
    connector.advance(&mut connecting, Event::Dialed(Dialed::Authenticated(identity(2))));
    let next = connector.advance(&mut connecting, Event::Queried(Some(address(1000))));
    assert!(
        matches!(next, Next::Finished(Err(ConnectorError::UnexpectedRemote { observed })) if observed == identity(2))
    );
}

#[test]
fn failed_requery_returns_the_first_error() {
    let mut connector = Connector::new();
    connector.cache_address(identity(1), address(1000));
    let mut connecting = connector.connect(identity(1));
    assert!(matches!(
        connector.advance(&mut connecting, Event::Dialed(Dialed::SecureFailed)),
        Next::Query
    ));
    assert!(matches!(
        connector.advance(&mut connecting, Event::Queried(None)),
        Next::Finished(Err(ConnectorError::SecureFailed))
    ));
}

#[test]
fn attempt_judges_each_outcome() {
    let root = identity(1);
    assert_eq!(Connector::attempt(root, Dialed::ConnectionFailed), Err(ConnectorError::ConnectionFailed));
    assert_eq!(Connector::attempt(root, Dialed::SecureFailed), Err(ConnectorError::SecureFailed));
    assert_eq!(Connector::attempt(root, Dialed::AuthenticateFailed), Err(ConnectorError::AuthenticateFailed));
    assert_eq!(Connector::attempt(root, Dialed::Authenticated(root)), Ok(()));
    assert_eq!(
        Connector::attempt(root, Dialed::Authenticated(identity(3))),
        Err(ConnectorError::UnexpectedRemote { observed: identity(3) })
    );
}

#[test]
fn refresh_caches_what_the_directory_gave() {
    let mut connector = Connector::new();
    connector.cache_address(identity(1), address(1));
    connector.cache_address(identity(2), address(2));
    assert!(!connector.refresh(identity(1), address(1), None));
    assert!(!connector.refresh(identity(1), address(1), Some(address(1))));
    assert!(connector.refresh(identity(1), address(1), Some(address(3))));
    assert_eq!(connector.get_address(identity(1)), Some(address(3)));
    assert_eq!(connector.get_address(identity(2)), Some(address(2)));
    connector.forget_address(identity(2));
    assert_eq!(connector.get_address(identity(2)), None);
    assert_eq!(connector.get_address(identity(1)), Some(address(3)));
}
