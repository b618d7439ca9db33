//! The extension protocol: what a peer and this client can do beyond the base
//! protocol, and what comes of an extension's messages.

pub mod factory;
pub mod handshake;
pub mod magnet_links;

use crate::extensions::handshake::AdditionalHandshakeInfo;
use crate::messages::PeerMessage;
use vstd::prelude::*;

verus! {

/// The extensions that this client knows.
#[derive(Debug, Clone, Copy, PartialEq, Eq, Hash)]
pub enum ExtensionType {
    /// The handshake of the extension protocol, which always has the id 0.
    Handshake,
    /// The exchange of a torrent's `info` dictionary, `ut_metadata`.
    Metadata,
}

/// The bytes of `ut_metadata`.
pub open spec fn metadata_name() -> Seq<u8> {
    seq![117u8, 116, 95, 109, 101, 116, 97, 100, 97, 116, 97]
}

impl ExtensionType {
    /// The id under which this client wants to be sent the extension's
    /// messages.
    pub open spec fn spec_id(self) -> u8 {
        match self {
            ExtensionType::Handshake => 0,
            ExtensionType::Metadata => 1,
        }
    }

    /// The id under which this client wants to be sent the extension's
    /// messages.
    pub fn id(self) -> (id: u8)
        ensures
            id == self.spec_id(),
    {
        match self {
            ExtensionType::Handshake => 0,
            ExtensionType::Metadata => 1,
        }
    }

    /// The extension that this client wants to be sent under `id`.
    pub fn from_id(id: u8) -> (kind: Option<ExtensionType>)
        ensures
            kind == if id == 0 {
                Some(ExtensionType::Handshake)
            } else if id == 1 {
                Some(ExtensionType::Metadata)
            } else {
                None
            },
    {
        if id == 0 {
            Some(ExtensionType::Handshake)
        } else if id == 1 {
            Some(ExtensionType::Metadata)
        } else {
            None
        }
    }

    /// The name of the extension in a handshake, for the extensions that have
    /// one.
    pub fn name(self) -> (name: Option<Vec<u8>>)
        ensures
            self is Handshake ==> name is None,
            self is Metadata ==> name is Some && name->0@ == metadata_name(),
    {
        match self {
            ExtensionType::Handshake => None,
            ExtensionType::Metadata => {
                let name: Vec<u8> = vec![117u8, 116, 95, 109, 101, 116, 97, 100, 97, 116, 97];
                assert(name@ =~= metadata_name());
                Some(name)
            },
        }
    }

    /// The extension with the name `name`.
    pub fn from_name(name: &[u8]) -> (kind: Option<ExtensionType>)
        ensures
            kind == if name@ == metadata_name() {
                Some(ExtensionType::Metadata)
            } else {
                None
            },
    {
        let known: Vec<u8> = vec![117u8, 116, 95, 109, 101, 116, 97, 100, 97, 116, 97];
        assert(known@ =~= metadata_name());
        if crate::peer::handshake::same_bytes(name, known.as_slice()) {
            Some(ExtensionType::Metadata)
        } else {
            None
        }
    }
}

/// The extensions that this client offers in its handshake. The handshake
/// itself is always offered.
pub fn active_extensions() -> (list: Vec<ExtensionType>)
    ensures
        list@ == seq![ExtensionType::Metadata],
{
    let list: Vec<ExtensionType> = vec![ExtensionType::Metadata];
    assert(list@ =~= seq![ExtensionType::Metadata]);
    list
}

/// What an extension tells the coordinator.
#[derive(Clone, Debug, PartialEq)]
pub enum ExtensionMessage {
    /// The peer can be asked for a block of the `info` dictionary.
    NeedMetadataPiece,
    /// The peer sent a block of the `info` dictionary.
    ReceivedMetadataPiece { piece_index: u32, data: Vec<u8> },
    /// The peer said how long the `info` dictionary is.
    GotMetadataLength(usize),
}

/// What an extension tells the coordinator.
pub ghost enum ExtensionMessageView {
    NeedMetadataPiece,
    ReceivedMetadataPiece { piece_index: u32, data: Seq<u8> },
    GotMetadataLength(usize),
}

impl View for ExtensionMessage {
    type V = ExtensionMessageView;

    open spec fn view(&self) -> ExtensionMessageView {
        match self {
            ExtensionMessage::NeedMetadataPiece => ExtensionMessageView::NeedMetadataPiece,
            ExtensionMessage::ReceivedMetadataPiece { piece_index, data } => {
                ExtensionMessageView::ReceivedMetadataPiece {
                    piece_index: *piece_index,
                    data: data@,
                }
            },
            ExtensionMessage::GotMetadataLength(length) => ExtensionMessageView::GotMetadataLength(
                *length,
            ),
        }
    }
}

/// What a session is to do after an extension has looked at a message.
#[derive(Debug, PartialEq)]
pub enum ExtensionAction {
    /// Send a message to the peer.
    SendPeer(PeerMessage),
    /// Send a message to the coordinator.
    SendPeerManager(ExtensionMessage),
    /// Do these one after the other.
    Multiple(Vec<ExtensionAction>),
    /// Do nothing.
    Nothing,
}

/// What every extension does.
pub trait ExtensionHandler {
    /// Looks at the payload of a message that the peer sent for this
    /// extension.
    fn handle_message(&self, data: &[u8]) -> ExtensionAction;

    /// Is called when the peer's handshake has named this extension.
    fn on_handshake(&self, additional_info: &AdditionalHandshakeInfo) -> ExtensionAction;

    /// The extension that this is.
    fn get_ext_type(&self) -> ExtensionType;
}

} // verus!
