//! How far a connection to a peer has come.

use vstd::prelude::*;

verus! {

/// How far a connection to a peer has come.
#[derive(Debug, Clone, Copy, PartialEq, Eq)]
pub enum PeerState {
    /// Before anything has happened.
    NotConnected,
    /// The connection is established.
    Connected,
    /// The handshake has succeeded.
    DataTransfer,
}

impl Default for PeerState {
    fn default() -> (state: Self)
        ensures
            state is NotConnected,
    {
        PeerState::NotConnected
    }
}

} // verus!
