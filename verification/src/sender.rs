//! The sending halves of a connection: plain, and secured by a channel
//! whose messages are numbered.

use crate::unit::unit_frame;
use crate::unit::UnitSender;
use crate::unit::WireError;
use vstd::prelude::*;

verus! {

/// The settings of a sender.
#[derive(Clone, Copy, Debug, PartialEq, Eq, Structural)]
pub struct SenderSettings {
    /// Milliseconds that one send may take; `None` for no limit.
    pub send_timeout: Option<u64>,
    /// The largest payload that one frame may carry.
    pub max_frame_bytes: u32,
}

impl Default for SenderSettings {
    fn default() -> (settings: SenderSettings)
        ensures
            settings == (SenderSettings { send_timeout: None, max_frame_bytes: 16_777_216 }),
    {
        SenderSettings { send_timeout: None, max_frame_bytes: 16_777_216 }
    }
}

/// Why a send on a plain connection failed.
#[derive(Clone, Copy, Debug, PartialEq, Eq, Structural)]
pub enum PlainConnectionError {
    SerializeFailed,
    SendTimeout,
    WriteFailed,
}

/// Why a send on a secure connection failed.
#[derive(Clone, Copy, Debug, PartialEq, Eq, Structural)]
pub enum SecureConnectionError {
    EncryptFailed,
    MacComputeFailed,
    /// The send timeout ran out: the send failed, the connection did not.
    SendTimeout,
    WriteFailed,
}

/// How writing a frame to the socket ended.
#[derive(Clone, Copy, Debug, PartialEq, Eq, Structural)]
pub enum Written {
    Done,
    /// The send timeout ran out first.
    TimedOut,
    /// The socket reported an error.
    Failed,
}

/// The sending side of a channel: it counts the messages, and the count is
/// the nonce of the next one.
#[derive(Clone, Copy, Debug, PartialEq, Eq, Structural)]
pub struct ChannelSender {
    pub nonce: u64,
}

impl ChannelSender {
    /// The sending side of a fresh channel: its first nonce is 0.
    pub fn new() -> (channel_sender: ChannelSender)
        ensures
            channel_sender.nonce == 0,
    {
        ChannelSender { nonce: 0 }
    }
}

/// The sender of a connection that is not secured yet.
#[derive(Debug)]
pub struct PlainSender {
    unit_sender: UnitSender,
    settings: SenderSettings,
}

impl PlainSender {
    pub closed spec fn settings(&self) -> SenderSettings {
        self.settings
    }

    /// The bytes that wait in the unit sender.
    pub closed spec fn buffered(&self) -> Seq<u8> {
        self.unit_sender@
    }

    pub fn new(settings: SenderSettings) -> (sender: PlainSender)
        ensures
            sender.settings() == settings,
            sender.buffered() == Seq::<u8>::empty(),
    {
        PlainSender { unit_sender: UnitSender::new(), settings }
    }

    pub fn configure(&mut self, settings: SenderSettings)
        ensures
            final(self).settings() == settings,
            final(self).buffered() == old(self).buffered(),
    {
        self.settings = settings;
    }

    /// The milliseconds that writing the next frame may take.
    pub fn send_timeout(&self) -> (timeout: Option<u64>)
        ensures
            timeout == self.settings().send_timeout,
    {
        self.settings.send_timeout
    }

    /// Frames a message that the codec serialised; `None` stands for a
    /// message that it could not serialise. The frame is to be written to
    /// the socket within the send timeout.
    pub fn send(&mut self, encoded: Option<Vec<u8>>) -> (frame: Result<Vec<u8>, PlainConnectionError>)
        ensures
            final(self).settings() == old(self).settings(),
            match encoded {
                None => frame == Err::<Vec<u8>, PlainConnectionError>(PlainConnectionError::SerializeFailed)
                    && final(self).buffered() == old(self).buffered(),
                Some(bytes) => {
                    let payload = old(self).buffered() + bytes@;
                    &&& final(self).buffered() == Seq::<u8>::empty()
                    &&& if payload.len() <= old(self).settings().max_frame_bytes {
                        frame.is_ok() && frame.unwrap()@ == unit_frame(payload)
                    } else {
                        frame == Err::<Vec<u8>, PlainConnectionError>(PlainConnectionError::WriteFailed)
                    }
                },
            },
    {
        match encoded {
            None => Err(PlainConnectionError::SerializeFailed),
            Some(bytes) => {
                self.unit_sender.write(bytes.as_slice());
                match self.unit_sender.flush(self.settings.max_frame_bytes) {
                    Ok(frame) => Ok(frame),
                    Err(WireError::ProtocolViolation) => Err(PlainConnectionError::WriteFailed),
                }
            },
        }
    }

    /// What a send amounts to once the frame was handed to the socket.
    pub fn written(outcome: Written) -> (result: Result<(), PlainConnectionError>)
        ensures
            result == match outcome {
                Written::Done => Ok::<(), PlainConnectionError>(()),
                Written::TimedOut => Err(PlainConnectionError::SendTimeout),
                Written::Failed => Err(PlainConnectionError::WriteFailed),
            },
    {
        match outcome {
            Written::Done => Ok(()),
            Written::TimedOut => Err(PlainConnectionError::SendTimeout),
            Written::Failed => Err(PlainConnectionError::WriteFailed),
        }
    }

    /// The sender of the same connection once a channel is agreed on.
    pub fn secure(self, channel_sender: ChannelSender) -> (sender: SecureSender)
        ensures
            sender.nonce() == channel_sender.nonce,
            sender.settings() == self.settings(),
            sender.buffered() == self.buffered(),
    {
        SecureSender::new(self.unit_sender, channel_sender, self.settings)
    }
}

/// The sender of a secure connection.
#[derive(Debug)]
pub struct SecureSender {
    unit_sender: UnitSender,
    channel_sender: ChannelSender,
    settings: SenderSettings,
}

impl SecureSender {
    /// The nonce under which the next message is sealed.
    pub closed spec fn nonce(&self) -> u64 {
        self.channel_sender.nonce
    }

    pub closed spec fn settings(&self) -> SenderSettings {
        self.settings
    }

    /// The bytes that wait in the unit sender.
    pub closed spec fn buffered(&self) -> Seq<u8> {
        self.unit_sender@
    }

    pub fn new(unit_sender: UnitSender, channel_sender: ChannelSender, settings: SenderSettings) -> (sender:
        SecureSender)
        ensures
            sender.nonce() == channel_sender.nonce,
            sender.settings() == settings,
            sender.buffered() == unit_sender@,
    {
        SecureSender { unit_sender, channel_sender, settings }
    }

    /// The milliseconds that writing the next frame may take.
    pub fn send_timeout(&self) -> (timeout: Option<u64>)
        ensures
            timeout == self.settings().send_timeout,
    {
        self.settings.send_timeout
    }

    /// The nonce under which the next message is to be sealed, or `None`
    /// when every nonce was used: no nonce is ever used twice.
    pub fn next_nonce(&self) -> (nonce: Option<u64>)
        ensures
            nonce == if self.nonce() < u64::MAX {
                Some(self.nonce())
            } else {
                None
            },
    {
        if self.channel_sender.nonce < u64::MAX {
            Some(self.channel_sender.nonce)
        } else {
            None
        }
    }

    /// The common part of both modes of sending.
    fn seal(&mut self, sealed: Option<Vec<u8>>, failure: SecureConnectionError) -> (frame: Result<
        Vec<u8>,
        SecureConnectionError,
    >)
        ensures
            final(self).settings() == old(self).settings(),
            framed(old(self).nonce(), old(self).buffered(), old(self).settings(), sealed, failure, frame),
            final(self).nonce() == if sealed.is_some() && old(self).nonce() < u64::MAX {
                (old(self).nonce() + 1) as u64
            } else {
                old(self).nonce()
            },
            final(self).buffered() == if sealed.is_some() && old(self).nonce() < u64::MAX {
                Seq::<u8>::empty()
            } else {
                old(self).buffered()
            },
    {
        let bytes = match sealed {
            Some(bytes) => bytes,
            None => {
                return Err(failure);
            },
        };
        if self.channel_sender.nonce == u64::MAX {
            return Err(failure);
        }
        self.channel_sender.nonce = self.channel_sender.nonce + 1;
        self.unit_sender.write(bytes.as_slice());
        match self.unit_sender.flush(self.settings.max_frame_bytes) {
            Ok(frame) => Ok(frame),
            Err(WireError::ProtocolViolation) => Err(SecureConnectionError::WriteFailed),
        }
    }

    /// Frames a message that the channel encrypted under `next_nonce`, and
    /// moves on to the next nonce; `None` stands for a message that could
    /// not be encrypted.
    pub fn send(&mut self, sealed: Option<Vec<u8>>) -> (frame: Result<Vec<u8>, SecureConnectionError>)
        ensures
            final(self).settings() == old(self).settings(),
            framed(
                old(self).nonce(),
                old(self).buffered(),
                old(self).settings(),
                sealed,
                SecureConnectionError::EncryptFailed,
                frame,
            ),
            final(self).nonce() == if sealed.is_some() && old(self).nonce() < u64::MAX {
                (old(self).nonce() + 1) as u64
            } else {
                old(self).nonce()
            },
            final(self).buffered() == if sealed.is_some() && old(self).nonce() < u64::MAX {
                Seq::<u8>::empty()
            } else {
                old(self).buffered()
            },
    {
        self.seal(sealed, SecureConnectionError::EncryptFailed)
    }

    /// Frames a message that the channel authenticated under `next_nonce`
    /// without hiding it, and moves on to the next nonce; `None` stands for
    /// a message whose code could not be computed.
    pub fn send_plain(&mut self, sealed: Option<Vec<u8>>) -> (frame: Result<Vec<u8>, SecureConnectionError>)
        ensures
            final(self).settings() == old(self).settings(),
            framed(
                old(self).nonce(),
                old(self).buffered(),
                old(self).settings(),
                sealed,
                SecureConnectionError::MacComputeFailed,
                frame,
            ),
            final(self).nonce() == if sealed.is_some() && old(self).nonce() < u64::MAX {
                (old(self).nonce() + 1) as u64
            } else {
                old(self).nonce()
            },
            final(self).buffered() == if sealed.is_some() && old(self).nonce() < u64::MAX {
                Seq::<u8>::empty()
            } else {
                old(self).buffered()
            },
    {
        self.seal(sealed, SecureConnectionError::MacComputeFailed)
    }

    /// What a send amounts to once the frame was handed to the socket.
    pub fn written(outcome: Written) -> (result: Result<(), SecureConnectionError>)
        ensures
            result == match outcome {
                Written::Done => Ok::<(), SecureConnectionError>(()),
                Written::TimedOut => Err(SecureConnectionError::SendTimeout),
                Written::Failed => Err(SecureConnectionError::WriteFailed),
            },
    {
        match outcome {
            Written::Done => Ok(()),
            Written::TimedOut => Err(SecureConnectionError::SendTimeout),
            Written::Failed => Err(SecureConnectionError::WriteFailed),
        }
    }
}

/// The frame that a secure send gives: the failure of its mode when the
/// message could not be sealed or no nonce is left, a write failure when
/// the sealed bytes are beyond the bound, else the unit frame of what was
/// buffered and the sealed bytes.
pub open spec fn framed(
    nonce: u64,
    buffered: Seq<u8>,
    settings: SenderSettings,
    sealed: Option<Vec<u8>>,
    failure: SecureConnectionError,
    frame: Result<Vec<u8>, SecureConnectionError>,
) -> bool {
    match sealed {
        None => frame == Err::<Vec<u8>, SecureConnectionError>(failure),
        Some(bytes) => if nonce == u64::MAX {
            frame == Err::<Vec<u8>, SecureConnectionError>(failure)
        } else if (buffered + bytes@).len() <= settings.max_frame_bytes {
            frame.is_ok() && frame.unwrap()@ == unit_frame(buffered + bytes@)
        } else {
            frame == Err::<Vec<u8>, SecureConnectionError>(SecureConnectionError::WriteFailed)
        },
    }
}

} // verus!
