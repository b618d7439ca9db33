use codecrafters_bittorrent::extensions::{ExtensionMessage, ExtensionType};
use codecrafters_bittorrent::messages::payloads::{
    BasicExtensionPayload, BitfieldPayload, HavePayload, NoPayload, RequestPiecePayload,
    ResponsePiecePayload,
};
use codecrafters_bittorrent::messages::{FrameError, PeerMessage};
use codecrafters_bittorrent::peer::conn::{Negotiated, PeerStateInner};
use codecrafters_bittorrent::peer::error::PeerError;
use codecrafters_bittorrent::peer::extensions::{enter_offer, find_negotiated};
use codecrafters_bittorrent::peer::handshake::Handshake;
use codecrafters_bittorrent::peer::states::PeerState;
use codecrafters_bittorrent::peer::{Msg, Peer, PeerAction, MAX_IDLE_TICKS};
use codecrafters_bittorrent::peer_manager::{PeerConn, ReqMessage, ResMessage};
use codecrafters_bittorrent::torrent::InfoHash;

const REMOTE: [u8; 20] = [0x77; 20];

fn handshake(extensions: bool) -> Handshake {
    let mut remote = Handshake::new(InfoHash([1; 20]), REMOTE);
    if !extensions {
        remote.reserved = [0; 8];
    }
    remote
}

fn session(extensions: bool) -> Peer {
    Peer::new(&handshake(extensions)).0
}

fn to_manager(msg: ReqMessage) -> PeerAction {
    PeerAction::SendPeerManager(msg)
}

#[test]
fn a_session_begins_choked_and_not_interested() {
    let (peer, registration) = Peer::new(&handshake(true));
    assert_eq!(peer.get_id(), REMOTE);
    assert!(peer.state.am_choking);
    assert!(!peer.state.am_interested);
    assert!(peer.state.peer_choking);
    assert!(!peer.state.peer_interested);
    assert!(peer.state.has.is_empty());
    assert_eq!(peer.state.extensions, Some(vec![]));
    assert_eq!(peer.queue.have_sent, 0);
    assert!(peer.queue.to_send.is_empty());
    assert_eq!(registration.peer_id, REMOTE);
    assert_eq!(
        registration.msg,
        ReqMessage::NewConnection(PeerConn { peer_id: REMOTE, extensions: true })
    );
    let plain = PeerStateInner::new(&handshake(false));
    assert_eq!(plain.extensions, None);
    assert_eq!(
        plain.connect_to_peer_manager().msg,
        ReqMessage::NewConnection(PeerConn { peer_id: REMOTE, extensions: false })
    );
    assert_eq!(PeerState::default(), PeerState::NotConnected);
}

#[test]
fn start_unchokes_and_asks_what_we_have() {
    let mut peer = session(true);
    let actions = peer.start();
    assert!(!peer.state.am_choking);
    assert_eq!(
        actions,
        vec![
            PeerAction::SendPeer(PeerMessage::Extended(BasicExtensionPayload {
                extension_id: 0,
                data: b"d1:md11:ut_metadatai1eee".to_vec(),
            })),
            to_manager(ReqMessage::WhatDoWeHave),
        ]
    );
    let mut plain = session(false);
    assert_eq!(plain.start(), vec![to_manager(ReqMessage::WhatDoWeHave)]);
}

#[test]
fn set_interested_tells_the_peer_only_of_a_change() {
    let mut peer = session(false);
    assert_eq!(peer.set_interested(false), vec![]);
    assert_eq!(peer.set_interested(true), vec![PeerAction::SendPeer(PeerMessage::Interested(NoPayload))]);
    assert!(peer.state.am_interested);
    assert_eq!(peer.set_interested(true), vec![]);
    assert_eq!(
        peer.set_interested(false),
        vec![PeerAction::SendPeer(PeerMessage::NotInterested(NoPayload))]
    );
    assert!(!peer.state.am_interested);
}

#[test]
fn flags_follow_the_peer() {
    let mut peer = session(false);
    let turn = peer.handle(Msg::Data(PeerMessage::Unchoke(NoPayload)));
    assert!(!peer.state.peer_choking);
    assert_eq!(turn.actions, vec![PeerAction::SendPeer(PeerMessage::Unchoke(NoPayload))]);
    assert!(!turn.ended);
    assert_eq!(peer.handle(Msg::Data(PeerMessage::Choke(NoPayload))).actions, vec![]);
    assert!(peer.state.peer_choking);
    peer.handle(Msg::Data(PeerMessage::Interested(NoPayload)));
    assert!(peer.state.peer_interested);
    peer.handle(Msg::Data(PeerMessage::NotInterested(NoPayload)));
    assert!(!peer.state.peer_interested);
    assert_eq!(peer.handle(Msg::Data(PeerMessage::KeepAlive(NoPayload))).actions, vec![]);
    assert_eq!(
        peer.handle(Msg::Data(PeerMessage::Cancel(RequestPiecePayload::new(0, 0, 1)))).actions,
        vec![]
    );
}

#[test]
fn messages_of_the_peer_go_to_the_coordinator() {
    let mut peer = session(false);
    let have = HavePayload { piece_index: 2 };
    assert_eq!(
        peer.handle(Msg::Data(PeerMessage::Have(have))).actions,
        vec![to_manager(ReqMessage::PeerHas(have))]
    );
    assert_eq!(peer.state.has, vec![false, false, true]);
    peer.handle(Msg::Data(PeerMessage::Have(HavePayload { piece_index: 0 })));
    assert_eq!(peer.state.has, vec![true, false, true]);
    let bitfield = BitfieldPayload { pieces_available: vec![false, true] };
    assert_eq!(
        peer.handle(Msg::Data(PeerMessage::Bitfield(bitfield.clone()))).actions,
        vec![to_manager(ReqMessage::PeerBitfield(bitfield))]
    );
    assert_eq!(peer.state.has, vec![false, true]);
    let request = RequestPiecePayload::new(1, 2, 3);
    assert_eq!(
        peer.handle(Msg::Data(PeerMessage::Request(request))).actions,
        vec![to_manager(ReqMessage::NeedBlock(request))]
    );
    let block = ResponsePiecePayload { index: 1, begin: 2, block: vec![3] };
    assert_eq!(
        peer.handle(Msg::Data(PeerMessage::Piece(block.clone()))).actions,
        vec![to_manager(ReqMessage::GotBlock(block))]
    );
    assert_eq!(peer.queue.have_sent, 0);
}

#[test]
fn messages_of_the_coordinator() {
    let mut peer = session(false);
    assert_eq!(
        peer.handle(Msg::Manager(ResMessage::StartDownload)).actions,
        vec![to_manager(ReqMessage::NeedBlockQueue)]
    );
    assert_eq!(
        peer.handle(Msg::Manager(ResMessage::FinishedPiece(4))).actions,
        vec![PeerAction::SendPeer(PeerMessage::Have(HavePayload { piece_index: 4 }))]
    );
    let block = ResponsePiecePayload { index: 1, begin: 2, block: vec![3] };
    assert_eq!(
        peer.handle(Msg::Manager(ResMessage::Block(Some(block.clone())))).actions,
        vec![PeerAction::SendPeer(PeerMessage::Piece(block))]
    );
    assert_eq!(peer.handle(Msg::Manager(ResMessage::Block(None))).actions, vec![]);
    // No extension protocol: the payload is dropped.
    peer.handle(Msg::Manager(ResMessage::ExtensionData(ExtensionType::Metadata, vec![1])));
    assert!(peer.queue.to_send.is_empty());
}

#[test]
fn we_have_sets_the_interest() {
    let bitfield = |bits: Vec<bool>| Msg::Manager(ResMessage::WeHave(BitfieldPayload { pieces_available: bits }));
    let mut peer = session(false);
    // Nothing: the session stays as it is.
    assert_eq!(peer.handle(bitfield(vec![false, false])).actions, vec![]);
    assert!(!peer.state.am_interested);
    // Something: the session is interested and sends the bitfield.
    assert_eq!(
        peer.handle(bitfield(vec![true, false])).actions,
        vec![
            PeerAction::SendPeer(PeerMessage::Interested(NoPayload)),
            PeerAction::SendPeer(PeerMessage::Bitfield(BitfieldPayload { pieces_available: vec![true, false] })),
        ]
    );
    assert!(peer.state.am_interested);
    assert_eq!(
        peer.handle(bitfield(vec![false, true])).actions,
        vec![PeerAction::SendPeer(PeerMessage::Bitfield(BitfieldPayload {
            pieces_available: vec![false, true]
        }))]
    );
    // Everything: the session is no longer interested.
    assert_eq!(
        peer.handle(bitfield(vec![true, true])).actions,
        vec![PeerAction::SendPeer(PeerMessage::NotInterested(NoPayload))]
    );
    assert!(!peer.state.am_interested);
    assert_eq!(peer.handle(bitfield(vec![true, true])).actions, vec![]);
}

#[test]
fn requests_wait_until_the_peer_unchokes() {
    let mut peer = session(false);
    peer.set_interested(true);
    let requests = vec![RequestPiecePayload::new(0, 0, 16384), RequestPiecePayload::new(0, 16384, 100)];
    // The peer chokes: the requests wait.
    assert_eq!(peer.handle(Msg::Manager(ResMessage::NewBlockQueue(requests.clone()))).actions, vec![]);
    assert_eq!(peer.queue.to_send.len(), 2);
    // The peer unchokes: they are sent, and more are asked for.
    assert_eq!(
        peer.handle(Msg::Data(PeerMessage::Unchoke(NoPayload))).actions,
        vec![
            PeerAction::SendPeer(PeerMessage::Unchoke(NoPayload)),
            PeerAction::SendPeer(PeerMessage::Request(requests[0])),
            PeerAction::SendPeer(PeerMessage::Request(requests[1])),
            to_manager(ReqMessage::NeedBlockQueue),
        ]
    );
    assert_eq!(peer.queue.have_sent, 2);
    assert!(peer.queue.to_send.is_empty());
    // While requests are unanswered, nothing more is sent.
    let more = vec![RequestPiecePayload::new(1, 0, 5)];
    assert_eq!(peer.handle(Msg::Manager(ResMessage::NewBlockQueue(more.clone()))).actions, vec![]);
    let block = ResponsePiecePayload { index: 0, begin: 0, block: vec![0; 16384] };
    assert_eq!(
        peer.handle(Msg::Data(PeerMessage::Piece(block.clone()))).actions,
        vec![to_manager(ReqMessage::GotBlock(block.clone()))]
    );
    assert_eq!(peer.queue.have_sent, 1);
    // The last answer: the next requests go out.
    assert_eq!(
        peer.handle(Msg::Data(PeerMessage::Piece(block.clone()))).actions,
        vec![
            to_manager(ReqMessage::GotBlock(block)),
            PeerAction::SendPeer(PeerMessage::Request(more[0])),
            to_manager(ReqMessage::NeedBlockQueue),
        ]
    );
    assert_eq!(peer.queue.have_sent, 1);
}

#[test]
fn finished_file_closes_unless_the_peer_is_interested() {
    let mut peer = session(false);
    let turn = peer.handle(Msg::Manager(ResMessage::FinishedFile));
    assert_eq!(turn.actions, vec![PeerAction::Finish]);
    assert!(turn.ended);
    let mut wanted = session(false);
    wanted.handle(Msg::Data(PeerMessage::Interested(NoPayload)));
    let turn = wanted.handle(Msg::Manager(ResMessage::FinishedFile));
    assert_eq!(turn.actions, vec![]);
    assert!(!turn.ended);
}

#[test]
fn silence_sends_keep_alives_and_then_ends_the_session() {
    assert_eq!(MAX_IDLE_TICKS, 3);
    let mut peer = session(false);
    for _ in 0..2 {
        let turn = peer.handle(Msg::Timeout);
        assert_eq!(turn.actions, vec![PeerAction::SendPeer(PeerMessage::KeepAlive(NoPayload))]);
        assert!(!turn.ended);
    }
    // A message from the peer, and the count begins again.
    peer.handle(Msg::Data(PeerMessage::KeepAlive(NoPayload)));
    assert_eq!(peer.idle_ticks, 0);
    peer.handle(Msg::Timeout);
    peer.handle(Msg::Timeout);
    let turn = peer.handle(Msg::Timeout);
    assert_eq!(turn.actions, vec![PeerAction::Fail(PeerError::PeerIdle)]);
    assert!(turn.ended);
}

#[test]
fn shutdown_tells_the_coordinator() {
    let mut peer = session(false);
    assert_eq!(peer.shutdown(), vec![to_manager(ReqMessage::PeerDisconnected(REMOTE))]);
    let mut interested = session(false);
    interested.set_interested(true);
    assert_eq!(
        interested.shutdown(),
        vec![
            PeerAction::SendPeer(PeerMessage::NotInterested(NoPayload)),
            to_manager(ReqMessage::PeerDisconnected(REMOTE)),
        ]
    );
}

fn extended(extension_id: u8, data: &[u8]) -> Msg {
    Msg::Data(PeerMessage::Extended(BasicExtensionPayload { extension_id, data: data.to_vec() }))
}

#[test]
fn extension_handshake_enters_the_extensions() {
    let mut peer = session(true);
    let turn = peer.handle(extended(0, b"d1:md6:ut_pexi1e11:ut_metadatai3ee13:metadata_sizei40000ee"));
    assert!(!turn.ended);
    assert_eq!(
        turn.actions,
        vec![
            to_manager(ReqMessage::Extension(ExtensionMessage::GotMetadataLength(40000))),
            to_manager(ReqMessage::Extension(ExtensionMessage::NeedMetadataPiece)),
        ]
    );
    assert_eq!(peer.state.extensions, Some(vec![Negotiated { id: 3, kind: ExtensionType::Metadata }]));
    // What the coordinator hands over goes out under the id that the peer wants.
    peer.handle(Msg::Manager(ResMessage::ExtensionData(ExtensionType::Metadata, vec![1, 2])));
    assert_eq!(
        peer.queue.to_send,
        vec![PeerMessage::Extended(BasicExtensionPayload { extension_id: 3, data: vec![1, 2] })]
    );
    // A block of the `info` dictionary comes under the id that this client wants.
    peer.queue.have_sent = 1;
    let turn = peer.handle(extended(1, b"d8:msg_typei1e5:piecei0e10:total_sizei3eeabc"));
    assert_eq!(
        turn.actions,
        vec![to_manager(ReqMessage::Extension(ExtensionMessage::ReceivedMetadataPiece {
            piece_index: 0,
            data: b"abc".to_vec()
        }))]
    );
    assert_eq!(peer.queue.have_sent, 0);
    // An id that this client has not given out.
    assert_eq!(peer.handle(extended(3, b"d8:msg_typei1e5:piecei0e10:total_sizei3eeabc")).actions, vec![]);
    // The peer switches the extension off.
    let turn = peer.handle(extended(0, b"d1:md11:ut_metadatai0eee"));
    assert_eq!(turn.actions, vec![]);
    assert_eq!(peer.state.extensions, Some(vec![]));
    assert_eq!(peer.handle(extended(1, b"d8:msg_typei1e5:piecei0e10:total_sizei3eeabc")).actions, vec![]);
}

#[test]
fn extension_handshake_without_a_length() {
    let mut peer = session(true);
    let turn = peer.handle(extended(0, b"d1:md11:ut_metadatai2eee"));
    assert_eq!(turn.actions, vec![to_manager(ReqMessage::Extension(ExtensionMessage::NeedMetadataPiece))]);
}

#[test]
fn extension_handshake_that_cannot_be_read_ends_the_session() {
    let mut peer = session(true);
    let turn = peer.handle(extended(0, b"not bencode"));
    assert_eq!(turn.actions, vec![PeerAction::Fail(PeerError::Protocol(FrameError::UndecodablePayload))]);
    assert!(turn.ended);
    // Without the extension protocol, nothing is read at all.
    let mut plain = session(false);
    let turn = plain.handle(extended(0, b"not bencode"));
    assert_eq!(turn.actions, vec![]);
    assert!(!turn.ended);
}

#[test]
fn the_table_of_extensions() {
    let mut table = vec![];
    assert_eq!(find_negotiated(&table, ExtensionType::Metadata), None);
    enter_offer(&mut table, 3, ExtensionType::Metadata);
    assert_eq!(find_negotiated(&table, ExtensionType::Metadata), Some(3));
    assert_eq!(find_negotiated(&table, ExtensionType::Handshake), None);
    enter_offer(&mut table, 4, ExtensionType::Metadata);
    assert_eq!(table, vec![Negotiated { id: 4, kind: ExtensionType::Metadata }]);
    enter_offer(&mut table, 0, ExtensionType::Metadata);
    assert_eq!(table, vec![]);
}
