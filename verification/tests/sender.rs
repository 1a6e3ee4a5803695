use talk::sender::{
    ChannelSender, PlainConnectionError, PlainSender, SecureConnectionError, SecureSender, SenderSettings, Written,
};
use talk::unit::UnitSender;

#[test]
fn plain_send_frames_the_message() {
    let mut sender = PlainSender::new(SenderSettings::default());
    assert_eq!(sender.send_timeout(), None);
    assert_eq!(sender.send(Some(vec![42, 0, 0, 0])), Ok(vec![0, 0, 0, 4, 42, 0, 0, 0]));
    assert_eq!(sender.send(None), Err(PlainConnectionError::SerializeFailed));
}

#[test]
fn configure_replaces_the_settings() {
    let mut sender = PlainSender::new(SenderSettings::default());
    sender.configure(SenderSettings { send_timeout: Some(250), max_frame_bytes: 2 });
    assert_eq!(sender.send_timeout(), Some(250));
    assert_eq!(sender.send(Some(vec![1, 2, 3])), Err(PlainConnectionError::WriteFailed));
    assert_eq!(sender.send(Some(vec![1, 2])), Ok(vec![0, 0, 0, 2, 1, 2]));
}

#[test]
fn write_outcomes() {
    assert_eq!(PlainSender::written(Written::Done), Ok(()));
    assert_eq!(PlainSender::written(Written::TimedOut), Err(PlainConnectionError::SendTimeout));
    assert_eq!(PlainSender::written(Written::Failed), Err(PlainConnectionError::WriteFailed));
    assert_eq!(SecureSender::written(Written::Done), Ok(()));
    assert_eq!(SecureSender::written(Written::TimedOut), Err(SecureConnectionError::SendTimeout));
    assert_ne!(SecureSender::written(Written::TimedOut), SecureSender::written(Written::Failed));
    assert_eq!(SecureSender::written(Written::Failed), Err(SecureConnectionError::WriteFailed));
}

#[test]
fn nonces_count_up_from_zero() {
    let plain = PlainSender::new(SenderSettings::default());
    let mut sender = plain.secure(ChannelSender::new());
    assert_eq!(sender.next_nonce(), Some(0));
    assert_eq!(sender.send(Some(vec![7])), Ok(vec![0, 0, 0, 1, 7]));
    assert_eq!(sender.next_nonce(), Some(1));
    assert_eq!(sender.send(None), Err(SecureConnectionError::EncryptFailed));
    assert_eq!(sender.next_nonce(), Some(1));
    assert_eq!(sender.send_plain(Some(vec![8, 9])), Ok(vec![0, 0, 0, 2, 8, 9]));
    assert_eq!(sender.next_nonce(), Some(2));
    assert_eq!(sender.send_plain(None), Err(SecureConnectionError::MacComputeFailed));
}

#[test]
fn no_nonce_is_used_twice() {
    let mut sender =
        SecureSender::new(UnitSender::new(), ChannelSender { nonce: u64::MAX - 1 }, SenderSettings::default());
    assert_eq!(sender.next_nonce(), Some(u64::MAX - 1));
    assert!(sender.send(Some(vec![1])).is_ok());
    assert_eq!(sender.next_nonce(), None);
    assert_eq!(sender.send(Some(vec![1])), Err(SecureConnectionError::EncryptFailed));
    assert_eq!(sender.send_plain(Some(vec![1])), Err(SecureConnectionError::MacComputeFailed));
}

#[test]
fn receiver_counts_opened_messages() {
    let mut receiver = talk::receiver::SecureReceiver::new();
    assert_eq!(receiver.next_nonce(), Some(0));
    assert_eq!(receiver.receive(Some(vec![1, 2])), Ok(vec![1, 2]));
    assert_eq!(receiver.next_nonce(), Some(1));
    assert_eq!(receiver.receive(None), Err(talk::receiver::ReceiveError::DecryptFailed));
    assert_eq!(receiver.next_nonce(), Some(1));
    assert_eq!(receiver.receive_plain(None), Err(talk::receiver::ReceiveError::MacVerifyFailed));
    assert_eq!(receiver.receive_plain(Some(vec![3])), Ok(vec![3]));
    assert_eq!(receiver.next_nonce(), Some(2));
}
