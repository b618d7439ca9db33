//! What a session knows of its peer.

use crate::extensions::ExtensionType;
use crate::peer::handshake::Handshake;
use crate::peer_manager::piece_manager::piece_selector::PeerId;
use crate::peer_manager::{PeerConn, ReqMessage, ReqMsgFromPeer};
use vstd::prelude::*;

verus! {

/// An extension that the peer offers, with the id under which the peer wants
/// to be sent its messages.
#[derive(Debug, Clone, Copy, PartialEq)]
pub struct Negotiated {
    pub id: u8,
    pub kind: ExtensionType,
}

/// What a session knows of its peer.
#[derive(Debug)]
pub struct PeerStateInner {
    /// The id of the peer.
    pub peer_id: PeerId,
    /// Whether this client chokes the peer.
    pub am_choking: bool,
    /// Whether this client is interested in the peer.
    pub am_interested: bool,
    /// Whether the peer chokes this client.
    pub peer_choking: bool,
    /// Whether the peer is interested in this client.
    pub peer_interested: bool,
    /// The pieces that the peer says it has.
    pub has: Vec<bool>,
    /// The extensions that the peer offers; `None` if the peer does not
    /// speak the extension protocol.
    pub extensions: Option<Vec<Negotiated>>,
}

impl PeerStateInner {
    /// What is known of a peer after its handshake: both sides choke and
    /// neither is interested, the peer's pieces are not known, and there is
    /// a table of extensions if the peer offers the extension protocol.
    pub fn new(handshake: &Handshake) -> (state: Self)
        ensures
            state.peer_id == handshake.peer_id,
            state.am_choking,
            !state.am_interested,
            state.peer_choking,
            !state.peer_interested,
            state.has@.len() == 0,
            state.extensions is Some <==> (handshake.reserved()[5] & 0x10 == 0x10),
            state.extensions is Some ==> state.extensions->0@.len() == 0,
    {
        let extensions: Option<Vec<Negotiated>> = if handshake.has_extensions_enabled() {
            Some(Vec::new())
        } else {
            None
        };
        PeerStateInner {
            peer_id: handshake.peer_id,
            am_choking: true,
            am_interested: false,
            peer_choking: true,
            peer_interested: false,
            has: Vec::new(),
            extensions,
        }
    }

    /// The message by which the session makes itself known to the
    /// coordinator. It is sent before any other.
    pub fn connect_to_peer_manager(&self) -> (msg: ReqMsgFromPeer)
        ensures
            msg.peer_id == self.peer_id,
            msg.msg == ReqMessage::NewConnection(
                PeerConn { peer_id: self.peer_id, extensions: self.extensions is Some },
            ),
    {
        ReqMsgFromPeer {
            peer_id: self.peer_id,
            msg: ReqMessage::NewConnection(
                PeerConn { peer_id: self.peer_id, extensions: self.extensions.is_some() },
            ),
        }
    }
}

} // verus!
