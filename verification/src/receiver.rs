//! The receiving half of a secure connection: messages are opened in the
//! order of their nonces, each nonce once.

use crate::sender::framed;
use crate::sender::SecureConnectionError;
use crate::sender::SenderSettings;
use crate::unit::lemma_unit_roundtrip;
use crate::unit::unit_parse;
use crate::unit::WireError;
use vstd::prelude::*;

verus! {

/// Why a receive on a secure connection failed.
#[derive(Clone, Copy, Debug, PartialEq, Eq, Structural)]
pub enum ReceiveError {
    /// The message was tampered with, replayed or out of order.
    DecryptFailed,
    /// The authentication code does not fit the message.
    MacVerifyFailed,
}

/// The receiving side of a channel: it counts the messages that were
/// opened, and the count is the nonce that the next one must carry.
#[derive(Clone, Copy, Debug, PartialEq, Eq, Structural)]
pub struct SecureReceiver {
    nonce: u64,
}

impl SecureReceiver {
    /// The nonce that the next message must have been sealed with.
    pub closed spec fn nonce(&self) -> u64 {
        self.nonce
    }

    /// A receiver that expects the first message of the channel.
    pub fn new() -> (receiver: SecureReceiver)
        ensures
            receiver.nonce() == 0,
    {
        SecureReceiver { nonce: 0 }
    }

    /// The nonce under which the next message is to be opened, or `None`
    /// when every nonce was used.
    pub fn next_nonce(&self) -> (nonce: Option<u64>)
        ensures
            nonce == if self.nonce() < u64::MAX {
                Some(self.nonce())
            } else {
                None
            },
    {
        if self.nonce < u64::MAX {
            Some(self.nonce)
        } else {
            None
        }
    }

    fn open(&mut self, opened: Option<Vec<u8>>, failure: ReceiveError) -> (message: Result<
        Vec<u8>,
        ReceiveError,
    >)
        ensures
            message == taken(old(self).nonce(), opened, failure),
            final(self).nonce() == if message.is_ok() {
                (old(self).nonce() + 1) as u64
            } else {
                old(self).nonce()
            },
    {
        match opened {
            Some(bytes) => {
                if self.nonce == u64::MAX {
                    Err(failure)
                } else {
                    self.nonce = self.nonce + 1;
                    Ok(bytes)
                }
            },
            None => Err(failure),
        }
    }

    /// Takes a message that the channel decrypted under `next_nonce`, and
    /// moves on to the next nonce; `None` stands for a message that did not
    /// decrypt under it, which leaves the nonce as it is.
    pub fn receive(&mut self, opened: Option<Vec<u8>>) -> (message: Result<Vec<u8>, ReceiveError>)
        ensures
            message == taken(old(self).nonce(), opened, ReceiveError::DecryptFailed),
            final(self).nonce() == if message.is_ok() {
                (old(self).nonce() + 1) as u64
            } else {
                old(self).nonce()
            },
    {
        self.open(opened, ReceiveError::DecryptFailed)
    }

    /// Takes a message whose authentication code the channel verified under
    /// `next_nonce`, and moves on to the next nonce; `None` stands for a
    /// message whose code did not verify.
    pub fn receive_plain(&mut self, opened: Option<Vec<u8>>) -> (message: Result<Vec<u8>, ReceiveError>)
        ensures
            message == taken(old(self).nonce(), opened, ReceiveError::MacVerifyFailed),
            final(self).nonce() == if message.is_ok() {
                (old(self).nonce() + 1) as u64
            } else {
                old(self).nonce()
            },
    {
        self.open(opened, ReceiveError::MacVerifyFailed)
    }
}

/// What a receive gives: the opened message while a nonce is left, else the
/// failure of its mode.
pub open spec fn taken(nonce: u64, opened: Option<Vec<u8>>, failure: ReceiveError) -> Result<Vec<u8>, ReceiveError> {
    match opened {
        Some(bytes) => if nonce < u64::MAX {
            Ok(bytes)
        } else {
            Err(failure)
        },
        None => Err(failure),
    }
}

/// The sealed bytes of a message travel unchanged between a sender and a
/// receiver that stand at the same nonce: the frame of a send that leaves
/// an empty buffer behind parses to the sealed bytes, whatever follows it on
/// the wire, and the receive that opens them hands them on. That opening
/// undoes sealing is the channel's law and is not part of this statement.
pub proof fn lemma_sealed_roundtrip(
    nonce: u64,
    settings: SenderSettings,
    sealed: Vec<u8>,
    sender_failure: SecureConnectionError,
    receiver_failure: ReceiveError,
    frame: Result<Vec<u8>, SecureConnectionError>,
    rest: Seq<u8>,
)
    requires
        nonce < u64::MAX,
        sealed@.len() <= settings.max_frame_bytes,
        framed(nonce, Seq::empty(), settings, Some(sealed), sender_failure, frame),
    ensures
        frame.is_ok(),
        unit_parse(frame.unwrap()@ + rest, settings.max_frame_bytes) == Ok::<Option<(Seq<u8>, int)>, WireError>(
            Some((sealed@, 4 + sealed@.len() as int)),
        ),
        taken(nonce, Some(sealed), receiver_failure) == Ok::<Vec<u8>, ReceiveError>(sealed),
{
    assert(Seq::<u8>::empty() + sealed@ =~= sealed@);
    lemma_unit_roundtrip(sealed@, settings.max_frame_bytes, rest);
}

} // verus!
