//! The frames that travel over one secure connection, and their encoding.

use crate::unit::be_bytes;
use crate::unit::be_read;
use crate::unit::copy_range;
use crate::unit::get_u32;
use crate::unit::lemma_be_roundtrip;
use crate::unit::put_bytes;
use crate::unit::lemma_unit_roundtrip;
use crate::unit::put_u32;
use crate::unit::unit_frame;
use crate::unit::unit_parse;
use crate::unit::WireError;
use vstd::prelude::*;

verus! {

/// One frame of the multiplexing protocol.
#[derive(Debug)]
pub enum Frame {
    /// One message of a stream. The first payload on an unknown stream opens it.
    Payload { stream_id: u32, bytes: Vec<u8> },
    /// The sender closes its half of the stream.
    Close { stream_id: u32 },
    /// Liveness probe.
    Ping,
    /// Reply to a probe.
    Pong,
}

/// A frame as a mathematical value.
pub enum FrameView {
    Payload { stream_id: u32, bytes: Seq<u8> },
    Close { stream_id: u32 },
    Ping,
    Pong,
}

impl Frame {
    pub open spec fn view(&self) -> FrameView {
        match *self {
            Frame::Payload { stream_id, bytes } => FrameView::Payload { stream_id, bytes: bytes@ },
            Frame::Close { stream_id } => FrameView::Close { stream_id },
            Frame::Ping => FrameView::Ping,
            Frame::Pong => FrameView::Pong,
        }
    }
}

/// The payload's length can be written in four bytes.
pub open spec fn fits(frame: FrameView) -> bool {
    match frame {
        FrameView::Payload { stream_id, bytes } => bytes.len() <= u32::MAX,
        _ => true,
    }
}

/// The frame as bytes: a tag, then the stream id and, for a payload, its
/// length and its bytes; numbers in four bytes, the most significant first.
pub open spec fn encoded(frame: FrameView) -> Seq<u8>
    recommends
        fits(frame),
{
    match frame {
        FrameView::Payload { stream_id, bytes } => seq![0u8] + be_bytes(stream_id) + be_bytes(
            bytes.len() as u32,
        ) + bytes,
        FrameView::Close { stream_id } => seq![1u8] + be_bytes(stream_id),
        FrameView::Ping => seq![2u8],
        FrameView::Pong => seq![3u8],
    }
}

/// The frame that the bytes stand for; `None` where they are no frame: an
/// unknown tag, or a length that differs from what the tag and the payload's
/// announced length ask for.
pub open spec fn decoded(bytes: Seq<u8>) -> Option<FrameView> {
    if bytes.len() == 0 {
        None
    } else if bytes[0] == 0 {
        if bytes.len() >= 9 && be_read(bytes.skip(5)) == bytes.len() - 9 {
            Some(FrameView::Payload { stream_id: be_read(bytes.skip(1)), bytes: bytes.skip(9) })
        } else {
            None
        }
    } else if bytes[0] == 1 {
        if bytes.len() == 5 {
            Some(FrameView::Close { stream_id: be_read(bytes.skip(1)) })
        } else {
            None
        }
    } else if bytes[0] == 2 && bytes.len() == 1 {
        Some(FrameView::Ping)
    } else if bytes[0] == 3 && bytes.len() == 1 {
        Some(FrameView::Pong)
    } else {
        None
    }
}

impl Frame {
    /// The frame as bytes. A payload too long for its length field is refused.
    pub fn encode(&self) -> (bytes: Result<Vec<u8>, WireError>)
        ensures
            bytes.is_ok() <==> fits(self@),
            bytes.is_ok() ==> bytes.unwrap()@ == encoded(self@),
    {
        let mut buffer: Vec<u8> = Vec::new();
        match self {
            Frame::Payload { stream_id, bytes } => {
                if bytes.len() > 0xffff_ffff {
                    return Err(WireError::ProtocolViolation);
                }
                buffer.push(0u8);
                put_u32(&mut buffer, *stream_id);
                put_u32(&mut buffer, bytes.len() as u32);
                put_bytes(&mut buffer, bytes.as_slice());
                assert(buffer@ =~= encoded(self@));
            },
            Frame::Close { stream_id } => {
                buffer.push(1u8);
                put_u32(&mut buffer, *stream_id);
                assert(buffer@ =~= encoded(self@));
            },
            Frame::Ping => {
                buffer.push(2u8);
                assert(buffer@ =~= encoded(self@));
            },
            Frame::Pong => {
                buffer.push(3u8);
                assert(buffer@ =~= encoded(self@));
            },
        }
        Ok(buffer)
    }

    /// The frame that the bytes stand for, or a protocol violation.
    pub fn decode(bytes: &[u8]) -> (frame: Result<Frame, WireError>)
        ensures
            match decoded(bytes@) {
                Some(view) => frame.is_ok() && frame.unwrap()@ == view,
                None => frame == Err::<Frame, WireError>(WireError::ProtocolViolation),
            },
    {
        if bytes.len() == 0 {
            return Err(WireError::ProtocolViolation);
        }
        let tag: u8 = bytes[0];
        if tag == 0 {
            if bytes.len() < 9 {
                return Err(WireError::ProtocolViolation);
            }
            let stream_id: u32 = get_u32(bytes, 1);
            let length: u32 = get_u32(bytes, 5);
            if length as usize != bytes.len() - 9 {
                return Err(WireError::ProtocolViolation);
            }
            let payload = copy_range(bytes, 9, bytes.len());
            assert(payload@ =~= bytes@.skip(9));
            Ok(Frame::Payload { stream_id, bytes: payload })
        } else if tag == 1 {
            if bytes.len() != 5 {
                return Err(WireError::ProtocolViolation);
            }
            Ok(Frame::Close { stream_id: get_u32(bytes, 1) })
        } else if tag == 2 && bytes.len() == 1 {
            Ok(Frame::Ping)
        } else if tag == 3 && bytes.len() == 1 {
            Ok(Frame::Pong)
        } else {
            Err(WireError::ProtocolViolation)
        }
    }
}

/// A frame comes back from its bytes as it went in.
pub proof fn lemma_frame_roundtrip(frame: FrameView)
    requires
        fits(frame),
    ensures
        decoded(encoded(frame)) == Some(frame),
{
    let wire = encoded(frame);
    match frame {
        FrameView::Payload { stream_id, bytes } => {
            let n = bytes.len() as u32;
            lemma_be_roundtrip(stream_id);
            lemma_be_roundtrip(n);
            let after_tag = wire.skip(1);
            let after_id = wire.skip(5);
            assert(after_tag[0] == be_bytes(stream_id)[0] && after_tag[1] == be_bytes(stream_id)[1]
                && after_tag[2] == be_bytes(stream_id)[2] && after_tag[3] == be_bytes(stream_id)[3]);
            assert(after_id[0] == be_bytes(n)[0] && after_id[1] == be_bytes(n)[1] && after_id[2]
                == be_bytes(n)[2] && after_id[3] == be_bytes(n)[3]);
            assert(wire.skip(9) =~= bytes);
        },
        FrameView::Close { stream_id } => {
            lemma_be_roundtrip(stream_id);
            let after_tag = wire.skip(1);
            assert(after_tag[0] == be_bytes(stream_id)[0] && after_tag[1] == be_bytes(stream_id)[1]
                && after_tag[2] == be_bytes(stream_id)[2] && after_tag[3] == be_bytes(stream_id)[3]);
        },
        FrameView::Ping => {},
        FrameView::Pong => {},
    }
}

/// A frame that was encoded and put on the wire as one unit comes back as
/// it went in: the unit layer returns the encoded bytes, whatever follows
/// them on the wire, and they decode to the frame.
pub proof fn lemma_wire_roundtrip(frame: FrameView, max_frame_bytes: u32, rest: Seq<u8>)
    requires
        fits(frame),
        encoded(frame).len() <= max_frame_bytes,
    ensures
        unit_parse(unit_frame(encoded(frame)) + rest, max_frame_bytes) == Ok::<Option<(Seq<u8>, int)>, WireError>(
            Some((encoded(frame), 4 + encoded(frame).len() as int)),
        ),
        decoded(encoded(frame)) == Some(frame),
{
    lemma_unit_roundtrip(encoded(frame), max_frame_bytes, rest);
    lemma_frame_roundtrip(frame);
}

} // verus!
