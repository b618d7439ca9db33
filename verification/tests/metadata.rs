use codecrafters_bittorrent::extensions::factory::ExtensionFactory;
use codecrafters_bittorrent::extensions::handshake::{AdditionalHandshakeInfo, HandshakeExtension};
use codecrafters_bittorrent::extensions::magnet_links::metadata_msg::{
    MetadataMsg, MetadataMsgType, MetadataRequester, ReadMsg,
};
use codecrafters_bittorrent::extensions::magnet_links::metadata_piece_manager::{
    MetadataPieceManager, METADATA_BLOCK_SIZE,
};
use codecrafters_bittorrent::extensions::{
    active_extensions, ExtensionAction, ExtensionHandler, ExtensionMessage, ExtensionType,
};
use codecrafters_bittorrent::peer_manager::BlockState;
use codecrafters_bittorrent::torrent::{InfoHash, Metainfo, TorrentError};
use sha1::{Digest, Sha1};

fn sha1_of(bytes: &[u8]) -> [u8; 20] {
    let mut hasher = Sha1::new();
    hasher.update(bytes);
    hasher.finalize().into()
}

#[test]
fn test_new_metadata_piece_manager() {
    let info_hash = InfoHash([0x00; 20]);
    let manager = MetadataPieceManager::new(info_hash);
    assert!(manager.queue().is_empty());
    assert_eq!(manager.bytes().len(), 0);
    assert_eq!(manager.info_hash(), info_hash);
}

#[test]
fn test_set_len() {
    let info_hash = InfoHash([0x00; 20]);
    let mut manager = MetadataPieceManager::new(info_hash);

    // Test initialization
    manager.set_len(METADATA_BLOCK_SIZE * 3 + 100); // 4 blocks
    assert_eq!(manager.queue().len(), 4);
    assert!(manager.queue().iter().all(|&b| b == BlockState::Missing));
    assert_eq!(manager.bytes().len(), METADATA_BLOCK_SIZE * 3 + 100);
    assert!(manager.bytes().iter().all(|b| *b == 0));

    // Test that calling set_len again does nothing if already initialized
    assert!(manager.add_block(0, &[0; METADATA_BLOCK_SIZE])); // Mark one piece as received
    manager.set_len(100);
    assert_eq!(manager.queue().len(), 4); // Should still be 4, not 1
    assert_eq!(manager.queue()[0], BlockState::Finished); // Should still be true
}

#[test]
fn test_add_block() {
    let info_hash = InfoHash([0x00; 20]);
    let mut manager = MetadataPieceManager::new(info_hash);
    manager.set_len(METADATA_BLOCK_SIZE * 2 + 3); // 3 blocks

    let block_data_0 = vec![0x01; METADATA_BLOCK_SIZE];
    let block_data_1 = vec![0x02; METADATA_BLOCK_SIZE];

    manager.add_block(0, &block_data_0);
    assert_eq!(manager.queue()[0], BlockState::Finished);
    assert_eq!(&manager.bytes()[0..METADATA_BLOCK_SIZE], &block_data_0[..]);

    manager.add_block(1, &block_data_1);
    assert_eq!(manager.queue()[1], BlockState::Finished);
    assert_eq!(&manager.bytes()[METADATA_BLOCK_SIZE..METADATA_BLOCK_SIZE * 2], &block_data_1[..]);

    manager.add_block(2, &[1, 2, 3]);
    assert_eq!(manager.queue()[2], BlockState::Finished);
    assert_eq!(&manager.bytes()[METADATA_BLOCK_SIZE * 2..METADATA_BLOCK_SIZE * 2 + 3], &[1, 2, 3]);
}

#[test]
fn test_get_block_req_data() {
    let info_hash = InfoHash([0x00; 20]);
    let mut manager = MetadataPieceManager::new(info_hash);
    manager.set_len(METADATA_BLOCK_SIZE * 3); // 3 blocks

    // Request first block
    let req_data_0 = manager.get_block_req_data().unwrap();
    assert_eq!(req_data_0, b"d8:msg_typei0e5:piecei0ee".to_vec());
    let msg_0: MetadataMsg = MetadataMsg::from_bytes(&req_data_0).unwrap().msg;
    assert_eq!(msg_0.msg_type, MetadataMsgType::Request);
    assert_eq!(msg_0.piece_index, 0);
    assert_eq!(msg_0.total_size, None);
    assert_eq!(manager.queue()[0], BlockState::InProcess);

    // Request second block
    let req_data_1 = manager.get_block_req_data().unwrap();
    assert_eq!(req_data_1, b"d8:msg_typei0e5:piecei1ee".to_vec());
    let msg_1: MetadataMsg = MetadataMsg::from_bytes(&req_data_1).unwrap().msg;
    assert_eq!(msg_1.msg_type, MetadataMsgType::Request);
    assert_eq!(msg_1.piece_index, 1);

    manager.add_block(0, &[0; METADATA_BLOCK_SIZE]);
    manager.add_block(1, &[0; METADATA_BLOCK_SIZE]);
    manager.add_block(2, &[0; METADATA_BLOCK_SIZE]);
    assert!(manager.queue().iter().all(|&b| b == BlockState::Finished));

    // Should return None when all blocks are received
    assert!(manager.get_block_req_data().is_none());
}

#[test]
fn test_check_finished() {
    let metadata_bytes = vec![0x01; METADATA_BLOCK_SIZE];
    let info_hash = InfoHash(sha1_of(&metadata_bytes));
    let mut manager = MetadataPieceManager::new(info_hash);
    manager.set_len(METADATA_BLOCK_SIZE);

    manager.add_block(0, &metadata_bytes);
    assert_eq!(manager.queue(), &vec![BlockState::Finished; 1]);

    assert!(manager.check_finished());

    // simulate not matching metainfo
    manager.add_block(0, &[0x00; METADATA_BLOCK_SIZE]);
    assert!(!manager.check_finished());
    // Queue should be reset
    assert!(manager.queue().iter().all(|&b| b == BlockState::Missing));
}

#[test]
fn test_check_finished_not_all_pieces() {
    let info_hash = InfoHash([0x00; 20]);
    let mut manager = MetadataPieceManager::new(info_hash);
    manager.set_len(METADATA_BLOCK_SIZE * 2);

    let bytes = vec![0x00; METADATA_BLOCK_SIZE];
    manager.add_block(0, &bytes); // Only one piece received
    assert!(!manager.check_finished());
    // queue should still be the same
    assert_eq!(&manager.bytes()[..METADATA_BLOCK_SIZE], &bytes[..]);
    assert_eq!(manager.queue(), &vec![BlockState::Finished, BlockState::Missing]);
}

fn info_dictionary() -> Vec<u8> {
    let mut info = Vec::new();
    info.extend_from_slice(b"d6:lengthi40000e4:name11:a test file12:piece lengthi32768e6:pieces40:");
    info.extend_from_slice(&[0xab; 20]);
    info.extend_from_slice(&[0xcd; 20]);
    info.extend_from_slice(b"7:privatei1ee");
    info
}

#[test]
fn test_get_metadata() {
    let info = info_dictionary();
    let mut manager = MetadataPieceManager::new(InfoHash(sha1_of(&info)));
    manager.set_len(info.len());
    assert!(manager.add_block(0, &info));
    assert!(manager.check_finished());

    let metainfo = manager.get_metadata().unwrap();
    assert_eq!(metainfo.name, "a test file");
    assert_eq!(metainfo.piece_length, 32768);
    assert_eq!(metainfo.get_length(), 40000);
    assert_eq!(metainfo.pieces.0, vec![[0xab; 20], [0xcd; 20]]);
    assert!(metainfo.is_valid());
}

#[test]
fn metadata_that_is_no_info_dictionary() {
    let mut manager = MetadataPieceManager::new(InfoHash([0; 20]));
    manager.set_len(4);
    manager.add_block(0, b"d3:e");
    assert_eq!(manager.get_metadata().err(), Some(TorrentError::InvalidBencode));
    // No length: a torrent of several files.
    assert_eq!(
        Metainfo::from_bencode(b"d4:name1:a12:piece lengthi1e6:pieces0:e").err(),
        Some(TorrentError::InvalidBencode)
    );
    // The pieces are no multiple of 20 bytes.
    assert_eq!(
        Metainfo::from_bencode(b"d6:lengthi1e4:name1:a12:piece lengthi1e6:pieces3:abce").err(),
        Some(TorrentError::InvalidBencode)
    );
    // The name is no UTF-8.
    assert_eq!(
        Metainfo::from_bencode(b"d6:lengthi1e4:name1:\xff12:piece lengthi1e6:pieces0:e").err(),
        Some(TorrentError::InvalidBencode)
    );
    // The piece length does not fit in 32 bits.
    assert_eq!(
        Metainfo::from_bencode(b"d6:lengthi1e4:name1:a12:piece lengthi4294967296e6:pieces0:e").err(),
        Some(TorrentError::InvalidBencode)
    );
    assert!(Metainfo::from_bencode(b"d6:lengthi1e4:name1:a12:piece lengthi4294967295e6:pieces0:e").is_ok());
}

#[test]
fn blocks_that_cannot_be_are_dropped() {
    let mut manager = MetadataPieceManager::new(InfoHash([0; 20]));
    // Before the length is known there is no block.
    assert!(!manager.add_block(0, &[1]));
    manager.set_len(METADATA_BLOCK_SIZE + 10);
    assert_eq!(manager.queue().len(), 2);
    assert!(!manager.add_block(2, &[1]));
    assert!(!manager.add_block(1, &[1; 11]));
    assert!(!manager.add_block(0, &vec![1; METADATA_BLOCK_SIZE + 11]));
    assert!(manager.queue().iter().all(|&b| b == BlockState::Missing));
    assert!(manager.bytes().iter().all(|b| *b == 0));
    assert!(manager.add_block(1, &[1; 10]));
    assert_eq!(manager.queue(), &vec![BlockState::Missing, BlockState::Finished]);
    assert_eq!(&manager.bytes()[METADATA_BLOCK_SIZE..], &[1; 10]);
}

#[test]
fn set_len_of_nothing_and_of_whole_blocks() {
    let mut manager = MetadataPieceManager::new(InfoHash([0; 20]));
    manager.set_len(0);
    assert_eq!(manager.queue().len(), 0);
    // Still not set up: a length that comes later counts.
    manager.set_len(METADATA_BLOCK_SIZE * 2);
    assert_eq!(manager.queue().len(), 2);
    assert_eq!(manager.bytes().len(), 32768);
    let mut one_more = MetadataPieceManager::new(InfoHash([0; 20]));
    one_more.set_len(METADATA_BLOCK_SIZE * 2 + 1);
    assert_eq!(one_more.queue().len(), 3);
}

#[test]
fn check_digest_settles_by_the_hash_it_is_given() {
    let mut manager = MetadataPieceManager::new(InfoHash([5; 20]));
    manager.set_len(3);
    // Not every block has arrived: nothing happens, whatever the hash.
    assert!(!manager.check_digest(&[5; 20]));
    manager.add_block(0, &[1, 2, 3]);
    assert!(manager.check_digest(&[5; 20]));
    assert_eq!(manager.queue(), &vec![BlockState::Finished]);
    assert!(!manager.check_digest(&[6; 20]));
    assert_eq!(manager.queue(), &vec![BlockState::Missing]);
}

#[test]
fn test_req() {
    let msg = MetadataMsg { msg_type: MetadataMsgType::Request, piece_index: 0, total_size: None };
    assert_eq!(String::from_utf8(msg.to_bytes()).unwrap(), "d8:msg_typei0e5:piecei0ee");
    assert_eq!(MetadataMsg::from_bytes(b"d8:msg_typei0e5:piecei0ee").unwrap().msg, msg);
}

#[test]
fn test_data() {
    let metadata_requester = MetadataRequester::new();
    let bytes = b"d8:msg_typei1e5:piecei0e10:total_sizei8eexxxxxxxx";
    let action = metadata_requester.handle_message(bytes);
    assert_eq!(
        action,
        ExtensionAction::SendPeerManager(ExtensionMessage::ReceivedMetadataPiece {
            piece_index: 0,
            data: b"xxxxxxxx".to_vec()
        })
    );
}

#[test]
fn data_is_what_follows_the_dictionary() {
    let requester = MetadataRequester::new();
    // The block is shorter than the whole `info` dictionary.
    let mut bytes = b"d8:msg_typei1e5:piecei2e10:total_sizei40000ee".to_vec();
    bytes.extend_from_slice(&[7; 7232]);
    assert_eq!(
        requester.on_message(&bytes),
        ExtensionAction::SendPeerManager(ExtensionMessage::ReceivedMetadataPiece {
            piece_index: 2,
            data: vec![7; 7232]
        })
    );
    // A request, a reject, an unknown kind, data without a size, and no message at all.
    assert_eq!(requester.on_message(b"d8:msg_typei0e5:piecei0ee"), ExtensionAction::Nothing);
    assert_eq!(requester.on_message(b"d8:msg_typei2e5:piecei0ee"), ExtensionAction::Nothing);
    assert_eq!(
        requester.on_message(b"d8:msg_typei9e5:piecei0e10:total_sizei8eexxxxxxxx"),
        ExtensionAction::Nothing
    );
    assert_eq!(requester.on_message(b"d8:msg_typei1e5:piecei0eexxxxxxxx"), ExtensionAction::Nothing);
    assert_eq!(requester.on_message(b"xxxxxxxx"), ExtensionAction::Nothing);
    assert_eq!(requester.on_message(b""), ExtensionAction::Nothing);
}

#[test]
fn metadata_messages_written_and_read() {
    let data = MetadataMsg { msg_type: MetadataMsgType::Data, piece_index: 12, total_size: Some(40000) };
    assert_eq!(data.to_bytes(), b"d8:msg_typei1e5:piecei12e10:total_sizei40000ee".to_vec());
    assert_eq!(
        MetadataMsg::from_bytes(b"d8:msg_typei1e5:piecei12e10:total_sizei40000eetail"),
        Some(ReadMsg { msg: data, end: 46 })
    );
    let reject = MetadataMsg { msg_type: MetadataMsgType::Reject, piece_index: 4294967295, total_size: None };
    assert_eq!(reject.to_bytes(), b"d8:msg_typei2e5:piecei4294967295ee".to_vec());
    assert_eq!(MetadataMsg::from_bytes(&reject.to_bytes()).unwrap().msg, reject);
    // Keys in another order, and keys that this client does not know, with values of every kind.
    assert_eq!(
        MetadataMsg::from_bytes(b"d1:ali1ei-2e3:abcd1:xleee5:piecei3e8:msg_typei7e1:z0:e").unwrap().msg,
        MetadataMsg { msg_type: MetadataMsgType::Other, piece_index: 3, total_size: None }
    );
    // No piece, a piece that is too large, a negative piece, a dictionary that does not end.
    assert_eq!(MetadataMsg::from_bytes(b"d8:msg_typei0ee"), None);
    assert_eq!(MetadataMsg::from_bytes(b"d8:msg_typei0e5:piecei4294967296ee"), None);
    assert_eq!(MetadataMsg::from_bytes(b"d8:msg_typei0e5:piecei-1ee"), None);
    assert_eq!(MetadataMsg::from_bytes(b"d8:msg_typei0e5:piecei0e"), None);
    assert_eq!(MetadataMsgType::from_id(0), MetadataMsgType::Request);
    assert_eq!(MetadataMsgType::from_id(3), MetadataMsgType::Other);
    assert_eq!(MetadataMsgType::Data.id(), 1);
}

#[test]
fn on_handshake_tells_the_length_and_asks_for_a_piece() {
    let requester = MetadataRequester::new();
    let mut info = AdditionalHandshakeInfo { metadata_size: None, p: None, v: None, yourip: None, reqq: None };
    assert_eq!(
        requester.on_handshake(&info),
        ExtensionAction::SendPeerManager(ExtensionMessage::NeedMetadataPiece)
    );
    assert_eq!(requester.after_handshake(&info), vec![ExtensionMessage::NeedMetadataPiece]);
    info.metadata_size = Some(40000);
    assert_eq!(
        requester.on_handshake(&info),
        ExtensionAction::Multiple(vec![
            ExtensionAction::SendPeerManager(ExtensionMessage::GotMetadataLength(40000)),
            ExtensionAction::SendPeerManager(ExtensionMessage::NeedMetadataPiece),
        ])
    );
    assert_eq!(requester.get_ext_type(), ExtensionType::Metadata);
}

#[test]
fn extension_names_and_ids() {
    assert_eq!(active_extensions(), vec![ExtensionType::Metadata]);
    assert_eq!(ExtensionType::Handshake.id(), 0);
    assert_eq!(ExtensionType::Metadata.id(), 1);
    assert_eq!(ExtensionType::from_id(0), Some(ExtensionType::Handshake));
    assert_eq!(ExtensionType::from_id(1), Some(ExtensionType::Metadata));
    assert_eq!(ExtensionType::from_id(2), None);
    assert_eq!(ExtensionType::Metadata.name(), Some(b"ut_metadata".to_vec()));
    assert_eq!(ExtensionType::Handshake.name(), None);
    assert_eq!(ExtensionType::from_name(b"ut_metadata"), Some(ExtensionType::Metadata));
    assert_eq!(ExtensionType::from_name(b"ut_pex"), None);
    assert!(ExtensionFactory::build(b"ut_metadata").is_some());
    assert!(ExtensionFactory::build(b"ut_metadat").is_none());
    assert!(ExtensionFactory::build(b"").is_none());
}

#[test]
fn own_extension_handshake() {
    assert_eq!(HandshakeExtension::own_bytes(), b"d1:md11:ut_metadatai1eee".to_vec());
    let own = HandshakeExtension::new();
    assert_eq!(own.m.len(), 1);
    assert_eq!(own.m[0].name, b"ut_metadata".to_vec());
    assert_eq!(own.m[0].id, 1);
    assert!(own.other.metadata_size.is_none());
    let read = HandshakeExtension::from_bytes(&HandshakeExtension::own_bytes()).unwrap();
    assert_eq!(read.m.len(), 1);
    assert_eq!(read.m[0].name, b"ut_metadata".to_vec());
    assert_eq!(read.m[0].id, 1);
}

#[test]
fn extension_handshake_of_a_peer() {
    let bytes =
        b"d1:md6:ut_pexi1e11:ut_metadatai3ee13:metadata_sizei40000e1:pi6881e4:reqqi250e1:v10:Peer 1.2.36:yourip4:\x7f\x00\x00\x01e";
    let read = HandshakeExtension::from_bytes(bytes).unwrap();
    assert_eq!(read.m.len(), 2);
    assert_eq!((read.m[0].name.as_slice(), read.m[0].id), (&b"ut_pex"[..], 1));
    assert_eq!((read.m[1].name.as_slice(), read.m[1].id), (&b"ut_metadata"[..], 3));
    assert_eq!(read.other.metadata_size, Some(40000));
    assert_eq!(read.other.p, Some(6881));
    assert_eq!(read.other.reqq, Some(250));
    assert_eq!(read.other.v.as_deref(), Some("Peer 1.2.3"));
    assert!(read.other.yourip.is_some());
    // No `m`, an `m` that is no dictionary, an id that is no byte.
    assert!(HandshakeExtension::from_bytes(b"d1:pi6881ee").is_none());
    assert!(HandshakeExtension::from_bytes(b"d1:mi1ee").is_none());
    assert!(HandshakeExtension::from_bytes(b"d1:md11:ut_metadatai256eee").is_none());
    assert!(HandshakeExtension::from_bytes(b"").is_none());
    // An empty `m` offers nothing.
    assert_eq!(HandshakeExtension::from_bytes(b"d1:mdee").unwrap().m.len(), 0);
}
