use talk::frame::Frame;
use talk::unit::{unit_receive, unit_send, UnitSender, WireError, MAX_FRAME_BYTES};

#[test]
fn unit_frame_has_big_endian_length() {
    let frame = unit_send(&[9, 8, 7], MAX_FRAME_BYTES).unwrap();
    assert_eq!(frame, vec![0, 0, 0, 3, 9, 8, 7]);
    let long = unit_send(&vec![5u8; 258], MAX_FRAME_BYTES).unwrap();
    assert_eq!(&long[..4], &[0, 0, 1, 2]);
    assert_eq!(long.len(), 262);
}

#[test]
fn unit_round_trip() {
    let payload: Vec<u8> = (0..=255).collect();
    let mut wire = unit_send(&payload, 256).unwrap();
    wire.extend_from_slice(&[1, 2, 3]);
    assert_eq!(unit_receive(&wire, 256), Ok(Some((payload, 260))));
    assert_eq!(unit_receive(&unit_send(&[], 0).unwrap(), 0), Ok(Some((vec![], 4))));
}

#[test]
fn unit_receive_waits_for_a_whole_frame() {
    let wire = unit_send(&[1, 2, 3, 4], 16).unwrap();
    assert_eq!(unit_receive(&wire[..3], 16), Ok(None));
    assert_eq!(unit_receive(&wire[..7], 16), Ok(None));
    assert_eq!(unit_receive(&wire, 16), Ok(Some((vec![1, 2, 3, 4], 8))));
}

#[test]
fn oversized_frames_are_refused() {
    assert_eq!(unit_send(&[0u8; 17], 16), Err(WireError::ProtocolViolation));
    assert_eq!(unit_receive(&[0, 0, 0, 17], 16), Err(WireError::ProtocolViolation));
    assert_eq!(unit_receive(&[0xff, 0xff, 0xff, 0xff, 1], MAX_FRAME_BYTES), Err(WireError::ProtocolViolation));
    assert_eq!(MAX_FRAME_BYTES, 16 * 1024 * 1024);
}

#[test]
fn unit_sender_clears_on_flush() {
    let mut sender = UnitSender::new();
    sender.write(&[1, 2]);
    sender.write(&[3]);
    assert_eq!(sender.flush(16), Ok(vec![0, 0, 0, 3, 1, 2, 3]));
    assert_eq!(sender.flush(16), Ok(vec![0, 0, 0, 0]));
    sender.write(&[0u8; 20]);
    assert_eq!(sender.flush(16), Err(WireError::ProtocolViolation));
    assert_eq!(sender.flush(16), Ok(vec![0, 0, 0, 0]));
}

#[test]
fn frames_encode_as_tagged_bytes() {
    let payload = Frame::Payload { stream_id: 0x0102_0304, bytes: vec![0xaa, 0xbb] };
    assert_eq!(payload.encode().unwrap(), vec![0, 1, 2, 3, 4, 0, 0, 0, 2, 0xaa, 0xbb]);
    assert_eq!(Frame::Close { stream_id: 7 }.encode().unwrap(), vec![1, 0, 0, 0, 7]);
    assert_eq!(Frame::Ping.encode().unwrap(), vec![2]);
    assert_eq!(Frame::Pong.encode().unwrap(), vec![3]);
}

#[test]
fn frames_round_trip() {
    let wire = Frame::Payload { stream_id: 42, bytes: vec![1, 2, 3] }.encode().unwrap();
    match Frame::decode(&wire) {
        Ok(Frame::Payload { stream_id, bytes }) => {
            assert_eq!(stream_id, 42);
            assert_eq!(bytes, vec![1, 2, 3]);
        }
        other => panic!("unexpected frame: {:?}", other),
    }
    assert!(matches!(
        Frame::decode(&Frame::Close { stream_id: u32::MAX }.encode().unwrap()),
        Ok(Frame::Close { stream_id: u32::MAX })
    ));
    assert!(matches!(Frame::decode(&[2]), Ok(Frame::Ping)));
    assert!(matches!(Frame::decode(&[3]), Ok(Frame::Pong)));
}

#[test]
fn bad_frames_are_protocol_violations() {
    assert!(matches!(Frame::decode(&[]), Err(WireError::ProtocolViolation)));
    assert!(matches!(Frame::decode(&[4]), Err(WireError::ProtocolViolation)));
    assert!(matches!(Frame::decode(&[2, 0]), Err(WireError::ProtocolViolation)));
    assert!(matches!(Frame::decode(&[1, 0, 0, 0]), Err(WireError::ProtocolViolation)));
    assert!(matches!(
        Frame::decode(&[0, 0, 0, 0, 1, 0, 0, 0, 2, 9]),
        Err(WireError::ProtocolViolation)
    ));
    assert!(matches!(
        Frame::decode(&[0, 0, 0, 0, 1, 0, 0, 0, 0, 9]),
        Err(WireError::ProtocolViolation)
    ));
}
