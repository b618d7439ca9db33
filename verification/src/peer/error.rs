//! What ends a session with a peer.

use crate::messages::FrameError;
use vstd::prelude::*;

verus! {

/// Why a session with a peer ends. Each of them ends that session only.
#[derive(Debug, Clone, Copy, PartialEq, Eq)]
pub enum PeerError {
    /// The peer's handshake differs from what this torrent expects.
    HandshakeMismatch,
    /// The peer sent bytes that are no frame.
    Protocol(FrameError),
    /// The connection was closed or failed.
    PeerDisconnected,
    /// The peer was silent for too long.
    PeerIdle,
}

impl PeerError {
    /// The error in words.
    pub open spec fn words(self) -> Seq<char> {
        match self {
            PeerError::HandshakeMismatch => "The handshake of the peer does not match."@,
            PeerError::Protocol(FrameError::FrameTooLarge) => "The peer sent a frame that is too large."@,
            PeerError::Protocol(FrameError::UndecodablePayload) => "The peer sent a payload that cannot be decoded."@,
            PeerError::PeerDisconnected => "The peer unexpectedly disconnected."@,
            PeerError::PeerIdle => "The peer was idle for too long."@,
        }
    }

    /// The error in words.
    pub fn message(&self) -> (text: &'static str)
        ensures
            text@ == self.words(),
    {
        match self {
            PeerError::HandshakeMismatch => "The handshake of the peer does not match.",
            PeerError::Protocol(FrameError::FrameTooLarge) => "The peer sent a frame that is too large.",
            PeerError::Protocol(FrameError::UndecodablePayload) => "The peer sent a payload that cannot be decoded.",
            PeerError::PeerDisconnected => "The peer unexpectedly disconnected.",
            PeerError::PeerIdle => "The peer was idle for too long.",
        }
    }
}

} // verus!
