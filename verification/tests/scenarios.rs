use codecrafters_bittorrent::extensions::{ExtensionMessage, ExtensionType};
use codecrafters_bittorrent::messages::payloads::{
    BitfieldPayload, HavePayload, RequestPiecePayload, ResponsePiecePayload,
};
use codecrafters_bittorrent::peer_manager::coordinator::{
    Effect, Event, PeerManager, TorrentState,
};
use codecrafters_bittorrent::peer_manager::piece_manager::file_manager::BlockOutcome;
use codecrafters_bittorrent::peer_manager::piece_manager::PieceManager;
use codecrafters_bittorrent::peer_manager::{
    PeerConn, ReqMessage, ReqMsgFromPeer, ResMessage, BLOCK_QUEUE_SIZE_MAX, MAX_PIECES_IN_PARALLEL,
};
use codecrafters_bittorrent::torrent::{Hashes, InfoHash, Key, Metainfo, TorrentError};
use sha1::{Digest, Sha1};

const A: [u8; 20] = [0xa1; 20];
const B: [u8; 20] = [0xb2; 20];

fn sha1_of(bytes: &[u8]) -> [u8; 20] {
    let mut hasher = Sha1::new();
    hasher.update(bytes);
    hasher.finalize().into()
}

fn torrent_of(piece_length: u32, content: &[u8]) -> Metainfo {
    let pieces = content.chunks(piece_length as usize).map(sha1_of).collect();
    Metainfo {
        name: "file".to_string(),
        piece_length,
        pieces: Hashes(pieces),
        length: content.len() as u32,
        files: Key::SingleFile { md5sum: None },
    }
}

fn three_pieces() -> Vec<u8> {
    let mut content = vec![0x41; 32];
    content.extend_from_slice(&[0x42; 32]);
    content.extend_from_slice(&[0x43; 16]);
    content
}

fn from(peer_id: [u8; 20], msg: ReqMessage) -> Event {
    Event::Peer(ReqMsgFromPeer { peer_id, msg })
}

fn connect(peer_id: [u8; 20]) -> Event {
    from(peer_id, ReqMessage::NewConnection(PeerConn { peer_id, extensions: true }))
}

/// What stands for the file and the record of a torrent in these tests.
struct Disk {
    file: Vec<u8>,
    stored: Vec<bool>,
    sent: Vec<([u8; 20], ResMessage)>,
    broadcast: Vec<ResMessage>,
}

impl Disk {
    fn new(length: usize, pieces: usize) -> Self {
        Disk { file: vec![0; length], stored: vec![false; pieces], sent: vec![], broadcast: vec![] }
    }

    /// Does what the coordinator asks for, and reports back until nothing is left to do.
    fn run(&mut self, mut manager: PeerManager, event: Event) -> PeerManager {
        let mut events = vec![event];
        while !events.is_empty() {
            let (next, effects) = manager.handle(events.remove(0));
            manager = next;
            for effect in effects {
                match effect {
                    Effect::Send { peer_id, message } => self.sent.push((peer_id, message)),
                    Effect::Broadcast(message) => self.broadcast.push(message),
                    Effect::WritePiece { index, offset, data } => {
                        let at = offset as usize;
                        self.file[at..at + data.len()].copy_from_slice(&data);
                        events.push(Event::PieceWritten(index));
                    }
                    Effect::StoreBitfield { index, bitfield } => {
                        self.stored = bitfield;
                        events.push(Event::BitfieldStored(index));
                    }
                    Effect::ReadBlock { peer_id, request, offset } => {
                        let at = offset as usize;
                        let data = self.file.get(at..at + request.length as usize).map(|b| b.to_vec());
                        events.push(Event::BlockRead { peer_id, request, data });
                    }
                    Effect::OpenTorrent { metainfo, file_path: _ } => {
                        let bitfield = vec![false; metainfo.pieces.len()];
                        self.file = vec![0; metainfo.length as usize];
                        self.stored = bitfield.clone();
                        events.push(Event::TorrentOpened { metainfo, bitfield });
                    }
                    Effect::Fail(error) => panic!("the torrent was given up: {error:?}"),
                }
            }
        }
        manager
    }

    fn requests(&mut self, peer_id: [u8; 20]) -> Vec<RequestPiecePayload> {
        let mut found = vec![];
        self.sent.retain(|(to, message)| match message {
            ResMessage::NewBlockQueue(list) if *to == peer_id => {
                found.extend_from_slice(list);
                false
            }
            _ => true,
        });
        found
    }
}

fn block_of(content: &[u8], piece_length: u32, request: &RequestPiecePayload) -> ResponsePiecePayload {
    let at = (request.index * piece_length + request.begin) as usize;
    ResponsePiecePayload {
        index: request.index,
        begin: request.begin,
        block: content[at..at + request.length as usize].to_vec(),
    }
}

fn is_seeding(manager: &PeerManager) -> bool {
    matches!(manager.torrent_state(), TorrentState::Seeding { .. })
}

fn have_of(manager: &PeerManager) -> Vec<bool> {
    match manager.torrent_state() {
        TorrentState::Downloading { piece_manager } => piece_manager.have().clone(),
        _ => panic!("the torrent is not being downloaded"),
    }
}

#[test]
fn single_file_three_piece_torrent() {
    let content = three_pieces();
    let metainfo = torrent_of(32, &content);
    assert_eq!(metainfo.pieces.len(), 3);
    let mut disk = Disk::new(80, 3);
    let mut manager = PeerManager::init_from_torrent(metainfo, vec![false; 3]).unwrap();
    assert_eq!(have_of(&manager), vec![false, false, false]);

    manager = disk.run(manager, connect(A));
    assert_eq!(disk.sent, vec![(A, ResMessage::StartDownload)]);
    disk.sent.clear();
    manager = disk.run(manager, from(A, ReqMessage::WhatDoWeHave));
    assert_eq!(
        disk.sent,
        vec![(A, ResMessage::WeHave(BitfieldPayload { pieces_available: vec![false; 3] }))]
    );
    disk.sent.clear();
    manager = disk.run(
        manager,
        from(A, ReqMessage::PeerBitfield(BitfieldPayload { pieces_available: vec![true; 8] })),
    );

    let mut asked = vec![];
    for _ in 0..3 {
        manager = disk.run(manager, from(A, ReqMessage::NeedBlockQueue));
        let requests = disk.requests(A);
        assert_eq!(requests.len(), 1);
        asked.push(requests[0]);
        let block = block_of(&content, 32, &requests[0]);
        manager = disk.run(manager, from(A, ReqMessage::GotBlock(block)));
    }
    assert_eq!(
        asked,
        vec![
            RequestPiecePayload::new(0, 0, 32),
            RequestPiecePayload::new(1, 0, 32),
            RequestPiecePayload::new(2, 0, 16),
        ]
    );
    assert_eq!(disk.file, content);
    assert_eq!(disk.stored, vec![true, true, true]);
    assert_eq!(
        disk.broadcast,
        vec![
            ResMessage::FinishedPiece(0),
            ResMessage::FinishedPiece(1),
            ResMessage::FinishedPiece(2),
            ResMessage::FinishedFile,
        ]
    );
    assert!(is_seeding(&manager));
    assert_eq!(manager.peers(), &vec![PeerConn { peer_id: A, extensions: true }]);

    // The file is served from now on.
    manager = disk.run(manager, from(A, ReqMessage::NeedBlock(RequestPiecePayload::new(2, 4, 12))));
    assert_eq!(
        disk.sent,
        vec![(
            A,
            ResMessage::Block(Some(ResponsePiecePayload { index: 2, begin: 4, block: vec![0x43; 12] }))
        )]
    );
    disk.sent.clear();
    manager = disk.run(manager, from(A, ReqMessage::NeedBlock(RequestPiecePayload::new(2, 4, 13))));
    assert_eq!(disk.sent, vec![(A, ResMessage::Block(None))]);
    disk.sent.clear();
    manager = disk.run(manager, from(A, ReqMessage::WhatDoWeHave));
    assert_eq!(
        disk.sent,
        vec![(A, ResMessage::WeHave(BitfieldPayload { pieces_available: vec![true; 3] }))]
    );
    disk.sent.clear();
    // Nothing is asked of anybody any more.
    manager = disk.run(manager, from(A, ReqMessage::NeedBlockQueue));
    assert!(disk.sent.is_empty());
    assert!(is_seeding(&manager));
}

#[test]
fn hash_mismatch_recovery() {
    let content = three_pieces();
    let mut disk = Disk::new(80, 3);
    let mut manager = PeerManager::init_from_torrent(torrent_of(32, &content), vec![false; 3]).unwrap();
    manager = disk.run(manager, connect(A));
    manager = disk.run(
        manager,
        from(A, ReqMessage::PeerBitfield(BitfieldPayload { pieces_available: vec![true; 3] })),
    );
    let mut corrupted = false;
    let mut deliveries = 0;
    while !is_seeding(&manager) {
        manager = disk.run(manager, from(A, ReqMessage::NeedBlockQueue));
        let requests = disk.requests(A);
        assert_eq!(requests.len(), 1, "the download is stuck");
        let mut block = block_of(&content, 32, &requests[0]);
        if block.index == 1 && !corrupted {
            block.block[7] ^= 0xff;
            corrupted = true;
        }
        manager = disk.run(manager, from(A, ReqMessage::GotBlock(block)));
        deliveries += 1;
        assert!(deliveries <= 4);
    }
    assert!(corrupted);
    assert_eq!(deliveries, 4);
    assert_eq!(disk.file, content);
    assert_eq!(disk.stored, vec![true, true, true]);
    // The piece with the wrong bytes was never written. It stayed in the queue, was
    // asked for again at once, and was announced once.
    assert_eq!(
        disk.broadcast,
        vec![
            ResMessage::FinishedPiece(0),
            ResMessage::FinishedPiece(1),
            ResMessage::FinishedPiece(2),
            ResMessage::FinishedFile,
        ]
    );
}

#[test]
fn peer_disconnect_during_flight() {
    // One piece of five blocks.
    let content: Vec<u8> = (0..5 * 16384u32).map(|i| (i % 251) as u8).collect();
    let metainfo = torrent_of(5 * 16384, &content);
    let mut disk = Disk::new(content.len(), 1);
    let mut manager = PeerManager::init_from_torrent(metainfo, vec![false]).unwrap();
    for peer in [A, B] {
        manager = disk.run(manager, connect(peer));
        manager = disk.run(
            manager,
            from(peer, ReqMessage::PeerBitfield(BitfieldPayload { pieces_available: vec![true] })),
        );
    }
    manager = disk.run(manager, from(A, ReqMessage::NeedBlockQueue));
    let batch = disk.requests(A);
    assert_eq!(batch.len(), 5);
    for (k, request) in batch.iter().enumerate() {
        assert_eq!(*request, RequestPiecePayload::new(0, k as u32 * 16384, 16384));
    }
    // While A is asked for them, B is asked for none of them.
    manager = disk.run(manager, from(B, ReqMessage::NeedBlockQueue));
    assert_eq!(disk.requests(B), vec![]);

    for request in &batch[..2] {
        manager =
            disk.run(manager, from(A, ReqMessage::GotBlock(block_of(&content, 5 * 16384, request))));
    }
    manager = disk.run(manager, from(A, ReqMessage::PeerDisconnected(A)));
    assert_eq!(manager.peers(), &vec![PeerConn { peer_id: B, extensions: true }]);

    manager = disk.run(manager, from(B, ReqMessage::NeedBlockQueue));
    let rest = disk.requests(B);
    assert_eq!(rest, batch[2..].to_vec());
    for request in &rest {
        manager =
            disk.run(manager, from(B, ReqMessage::GotBlock(block_of(&content, 5 * 16384, request))));
    }
    assert!(is_seeding(&manager));
    assert_eq!(disk.file, content);
    assert_eq!(disk.stored, vec![true]);
    assert_eq!(disk.broadcast, vec![ResMessage::FinishedPiece(0), ResMessage::FinishedFile]);
}

fn info_of_40000_bytes() -> Vec<u8> {
    let mut info = Vec::new();
    info.extend_from_slice(b"d6:lengthi20e4:name4:file12:piece lengthi16e6:pieces40:");
    info.extend_from_slice(&sha1_of(&[1; 16]));
    info.extend_from_slice(&sha1_of(&[2; 4]));
    let so_far = info.len() + "1:x39888:".len() + 1;
    let padding = 40000 - so_far;
    assert_eq!(padding.to_string().len(), 5);
    info.extend_from_slice(format!("1:x{padding}:").as_bytes());
    info.extend_from_slice(&vec![b'.'; padding]);
    info.push(b'e');
    assert_eq!(info.len(), 40000);
    info
}

#[test]
fn magnet_bootstrap() {
    let info = info_of_40000_bytes();
    let info_hash = InfoHash::of_info(&info);
    let mut disk = Disk::new(0, 0);
    let mut manager = PeerManager::init_from_magnet(info_hash, None);
    assert!(matches!(manager.torrent_state(), TorrentState::WaitingForMetadata { .. }));

    manager = disk.run(manager, connect(A));
    // Nothing is downloaded yet, so the session is not told to begin.
    assert!(disk.sent.is_empty());
    // What is not about the `info` dictionary is dropped for now.
    manager = disk.run(manager, from(A, ReqMessage::NeedBlockQueue));
    manager = disk.run(manager, from(A, ReqMessage::WhatDoWeHave));
    assert!(disk.sent.is_empty());

    manager = disk.run(
        manager,
        from(A, ReqMessage::Extension(ExtensionMessage::GotMetadataLength(40000))),
    );
    for piece in 0..3u32 {
        manager = disk.run(manager, from(A, ReqMessage::Extension(ExtensionMessage::NeedMetadataPiece)));
        let expected = format!("d8:msg_typei0e5:piecei{piece}ee").into_bytes();
        assert_eq!(
            disk.sent,
            vec![(A, ResMessage::ExtensionData(ExtensionType::Metadata, expected))]
        );
        disk.sent.clear();
    }
    // Every block has been asked for.
    manager = disk.run(manager, from(A, ReqMessage::Extension(ExtensionMessage::NeedMetadataPiece)));
    assert!(disk.sent.is_empty());

    let sizes = [16384usize, 16384, 7232];
    for piece in 0..3usize {
        assert!(disk.broadcast.is_empty());
        let at = piece * 16384;
        let data = info[at..at + sizes[piece]].to_vec();
        manager = disk.run(
            manager,
            from(
                A,
                ReqMessage::Extension(ExtensionMessage::ReceivedMetadataPiece {
                    piece_index: piece as u32,
                    data,
                }),
            ),
        );
    }
    assert_eq!(disk.broadcast, vec![ResMessage::StartDownload]);
    match manager.torrent_state() {
        TorrentState::Downloading { piece_manager } => {
            assert_eq!(piece_manager.have(), &vec![false, false]);
            assert_eq!(piece_manager.metainfo().piece_length, 16);
            assert_eq!(piece_manager.metainfo().get_length(), 20);
            assert_eq!(piece_manager.metainfo().name, "file");
        }
        _ => panic!("the torrent is not being downloaded"),
    }
    // The peer that came while the `info` dictionary was collected is known to the selector.
    disk.sent.clear();
    manager = disk.run(
        manager,
        from(A, ReqMessage::PeerBitfield(BitfieldPayload { pieces_available: vec![true, true] })),
    );
    manager = disk.run(manager, from(A, ReqMessage::NeedBlockQueue));
    assert_eq!(disk.requests(A), vec![RequestPiecePayload::new(0, 0, 16)]);
    assert!(!is_seeding(&manager));
}

#[test]
fn metadata_with_a_wrong_hash_is_asked_for_again() {
    let info = b"d6:lengthi1e4:name1:a12:piece lengthi1e6:pieces20:aaaaaaaaaaaaaaaaaaaae".to_vec();
    let mut disk = Disk::new(0, 0);
    let mut manager = PeerManager::init_from_magnet(InfoHash::of_info(&info), Some("out".to_string()));
    manager = disk.run(manager, connect(A));
    let length = ExtensionMessage::GotMetadataLength(info.len());
    manager = disk.run(manager, from(A, ReqMessage::Extension(length)));
    manager = disk.run(manager, from(A, ReqMessage::Extension(ExtensionMessage::NeedMetadataPiece)));
    assert_eq!(disk.sent.len(), 1);
    disk.sent.clear();
    let mut wrong = info.clone();
    wrong[20] ^= 1;
    let received = ExtensionMessage::ReceivedMetadataPiece { piece_index: 0, data: wrong };
    manager = disk.run(manager, from(A, ReqMessage::Extension(received)));
    assert!(disk.broadcast.is_empty());
    assert!(matches!(manager.torrent_state(), TorrentState::WaitingForMetadata { opening: false, .. }));
    // The block is asked for again.
    manager = disk.run(manager, from(A, ReqMessage::Extension(ExtensionMessage::NeedMetadataPiece)));
    assert_eq!(
        disk.sent,
        vec![(A, ResMessage::ExtensionData(ExtensionType::Metadata, b"d8:msg_typei0e5:piecei0ee".to_vec()))]
    );
    let received = ExtensionMessage::ReceivedMetadataPiece { piece_index: 0, data: info };
    manager = disk.run(manager, from(A, ReqMessage::Extension(received)));
    assert_eq!(disk.broadcast, vec![ResMessage::StartDownload]);
    assert_eq!(have_of(&manager), vec![false]);
}

#[test]
fn metadata_that_cannot_be_read_gives_up_the_torrent() {
    let info = b"d4:name1:ae".to_vec();
    let manager = PeerManager::init_from_magnet(InfoHash::of_info(&info), None);
    let (manager, _) = manager.handle(connect(A));
    let length = ExtensionMessage::GotMetadataLength(info.len());
    let (manager, _) = manager.handle(from(A, ReqMessage::Extension(length)));
    let received = ExtensionMessage::ReceivedMetadataPiece { piece_index: 0, data: info };
    let (_, effects) = manager.handle(from(A, ReqMessage::Extension(received)));
    assert_eq!(effects.len(), 1);
    assert!(matches!(effects[0], Effect::Fail(TorrentError::InvalidBencode)));
}

#[test]
fn restart_resumes() {
    let content = three_pieces();
    let mut disk = Disk::new(80, 3);
    let mut manager = PeerManager::init_from_torrent(torrent_of(32, &content), vec![false; 3]).unwrap();
    manager = disk.run(manager, connect(A));
    manager = disk.run(
        manager,
        from(A, ReqMessage::PeerBitfield(BitfieldPayload { pieces_available: vec![true; 3] })),
    );
    while !is_seeding(&manager) {
        manager = disk.run(manager, from(A, ReqMessage::NeedBlockQueue));
        let requests = disk.requests(A);
        manager = disk.run(manager, from(A, ReqMessage::GotBlock(block_of(&content, 32, &requests[0]))));
    }
    assert_eq!(disk.stored, vec![true, true, true]);

    // The same torrent is opened again, with the record that was stored.
    let stored = disk.stored.clone();
    disk.sent.clear();
    disk.broadcast.clear();
    let mut again = PeerManager::init_from_torrent(torrent_of(32, &content), stored).unwrap();
    assert!(is_seeding(&again));
    again = disk.run(again, connect(B));
    again = disk.run(again, from(B, ReqMessage::NeedBlockQueue));
    again = disk.run(
        again,
        from(B, ReqMessage::PeerBitfield(BitfieldPayload { pieces_available: vec![true; 3] })),
    );
    again = disk.run(again, from(B, ReqMessage::NeedBlockQueue));
    assert!(disk.sent.is_empty());
    assert!(disk.broadcast.is_empty());
    assert!(is_seeding(&again));
}

#[test]
fn a_record_that_does_not_fit_the_torrent() {
    let content = three_pieces();
    assert!(PeerManager::init_from_torrent(torrent_of(32, &content), vec![false; 2]).is_none());
    assert!(PeerManager::init_from_torrent(torrent_of(32, &content), vec![false; 4]).is_none());
    let mut broken = torrent_of(32, &content);
    broken.length = 64;
    assert!(PeerManager::init_from_torrent(broken, vec![false; 3]).is_none());
    assert!(PieceManager::new(torrent_of(32, &content), vec![false; 2]).is_none());
    assert!(PieceManager::new(torrent_of(32, &content), vec![true, false, true]).is_some());
}

#[test]
fn messages_of_unknown_peers_are_passed_over() {
    let content = three_pieces();
    let mut disk = Disk::new(80, 3);
    let mut manager = PeerManager::init_from_torrent(torrent_of(32, &content), vec![false; 3]).unwrap();
    manager = disk.run(manager, from(A, ReqMessage::WhatDoWeHave));
    manager = disk.run(manager, from(A, ReqMessage::NeedBlockQueue));
    manager = disk.run(manager, from(A, ReqMessage::PeerHas(HavePayload { piece_index: 0 })));
    assert!(disk.sent.is_empty());
    manager = disk.run(manager, connect(A));
    manager = disk.run(manager, from(A, ReqMessage::PeerHas(HavePayload { piece_index: 0 })));
    manager = disk.run(manager, from(A, ReqMessage::NeedBlockQueue));
    assert_eq!(disk.requests(A), vec![RequestPiecePayload::new(0, 0, 32)]);
    // A peer that makes itself known twice is in the registry once.
    manager = disk.run(manager, connect(B));
    manager = disk.run(manager, connect(A));
    assert_eq!(
        manager.peers(),
        &vec![PeerConn { peer_id: B, extensions: true }, PeerConn { peer_id: A, extensions: true }]
    );
}

#[test]
fn blocks_are_served_only_of_pieces_that_we_have() {
    let content = three_pieces();
    let mut disk = Disk::new(80, 3);
    disk.file[..32].copy_from_slice(&content[..32]);
    let mut manager =
        PeerManager::init_from_torrent(torrent_of(32, &content), vec![true, false, false]).unwrap();
    manager = disk.run(manager, connect(A));
    disk.sent.clear();
    manager = disk.run(manager, from(A, ReqMessage::NeedBlock(RequestPiecePayload::new(0, 8, 24))));
    manager = disk.run(manager, from(A, ReqMessage::NeedBlock(RequestPiecePayload::new(1, 0, 8))));
    manager = disk.run(manager, from(A, ReqMessage::NeedBlock(RequestPiecePayload::new(0, 8, 25))));
    manager = disk.run(manager, from(A, ReqMessage::NeedBlock(RequestPiecePayload::new(3, 0, 1))));
    assert_eq!(
        disk.sent,
        vec![
            (A, ResMessage::Block(Some(ResponsePiecePayload { index: 0, begin: 8, block: vec![0x41; 24] }))),
            (A, ResMessage::Block(None)),
            (A, ResMessage::Block(None)),
            (A, ResMessage::Block(None)),
        ]
    );
    // Bytes that could not be read are no block.
    let (_, effects) = manager.handle(Event::BlockRead {
        peer_id: A,
        request: RequestPiecePayload::new(0, 0, 32),
        data: None,
    });
    assert!(matches!(&effects[..], [Effect::Send { message: ResMessage::Block(None), .. }]));
}

#[test]
fn piece_manager_step_by_step() {
    let content = three_pieces();
    let mut manager = PieceManager::new(torrent_of(32, &content), vec![false; 3]).unwrap();
    assert!(!manager.is_finished());
    manager.add_peer(A);
    assert_eq!(manager.prepare_next_blocks(BLOCK_QUEUE_SIZE_MAX, &A), None);
    manager.add_bitfield(&A, vec![false, true, true]);
    assert_eq!(manager.get_peer_has(&A), Some(&vec![false, true, true]));
    assert_eq!(manager.prepare_next_blocks(0, &A), Some(vec![]));
    assert_eq!(
        manager.prepare_next_blocks(BLOCK_QUEUE_SIZE_MAX, &A),
        Some(vec![RequestPiecePayload::new(1, 0, 32)])
    );
    // A block of a piece that is not being downloaded, and one that does not lie in its piece.
    let stray = ResponsePiecePayload { index: 0, begin: 0, block: vec![0x41; 32] };
    assert_eq!(manager.write_block(&stray), BlockOutcome::Discarded);
    let long = ResponsePiecePayload { index: 1, begin: 1, block: vec![0x42; 32] };
    assert_eq!(manager.write_block(&long), BlockOutcome::Discarded);
    // Nothing can be recorded before the piece is verified.
    assert_eq!(manager.piece_data(1), None);
    assert_eq!(manager.record_piece(1), None);
    assert!(!manager.finish_piece(1));
    let wrong = ResponsePiecePayload { index: 1, begin: 0, block: vec![0x00; 32] };
    assert_eq!(manager.write_block(&wrong), BlockOutcome::Rejected(1));
    assert_eq!(manager.piece_data(1), None);
    assert_eq!(
        manager.prepare_next_blocks(BLOCK_QUEUE_SIZE_MAX, &A),
        Some(vec![RequestPiecePayload::new(1, 0, 32)])
    );
    let right = ResponsePiecePayload { index: 1, begin: 0, block: vec![0x42; 32] };
    assert_eq!(manager.write_block(&right), BlockOutcome::Verified(1));
    assert_eq!(manager.piece_data(1), Some(&vec![0x42; 32]));
    assert_eq!(manager.piece_offset(1), 32);
    // A verified piece takes no more blocks.
    assert_eq!(manager.write_block(&wrong), BlockOutcome::Discarded);
    // The bitfield changes with the record, the queue afterwards.
    assert!(!manager.finish_piece(1));
    assert_eq!(manager.have(), &vec![false, false, false]);
    assert_eq!(manager.record_piece(1), Some(vec![false, true, false]));
    assert_eq!(manager.have(), &vec![false, true, false]);
    assert!(manager.finish_piece(1));
    assert!(!manager.finish_piece(1));
    assert_eq!(manager.piece_data(1), None);
    assert_eq!(manager.block_offset(&RequestPiecePayload::new(1, 4, 28)), Some(36));
    assert_eq!(manager.block_offset(&RequestPiecePayload::new(1, 4, 29)), None);
    assert_eq!(manager.block_offset(&RequestPiecePayload::new(2, 0, 1)), None);
    assert_eq!(
        manager.get_block(&RequestPiecePayload::new(1, 4, 2), Some(vec![7, 8])),
        Some(ResponsePiecePayload { index: 1, begin: 4, block: vec![7, 8] })
    );
    assert_eq!(manager.get_block(&RequestPiecePayload::new(1, 4, 2), Some(vec![7])), None);
    assert_eq!(manager.get_block(&RequestPiecePayload::new(1, 4, 2), None), None);
    assert_eq!(manager.get_block(&RequestPiecePayload::new(0, 4, 2), Some(vec![7, 8])), None);
}

#[test]
fn settle_takes_the_hash_as_it_is_given() {
    let content = three_pieces();
    let metainfo = torrent_of(32, &content);
    let hash_of_last = metainfo.pieces.0[2];
    let mut manager = PieceManager::new(metainfo, vec![true, true, false]).unwrap();
    manager.add_peer(A);
    manager.add_bitfield(&A, vec![true; 3]);
    assert_eq!(manager.prepare_next_blocks(1, &A), Some(vec![RequestPiecePayload::new(2, 0, 16)]));
    // Not every block has arrived, and piece 0 is not being downloaded.
    assert_eq!(manager.settle(2, &hash_of_last), BlockOutcome::Discarded);
    assert_eq!(manager.settle(0, &hash_of_last), BlockOutcome::Discarded);
    let block = ResponsePiecePayload { index: 2, begin: 0, block: vec![0x43; 16] };
    assert_eq!(manager.write_block(&block), BlockOutcome::Verified(2));
    assert_eq!(manager.record_piece(2), Some(vec![true; 3]));
    assert!(manager.finish_piece(2));
    assert!(manager.is_finished());
}

#[test]
fn the_queue_holds_five_pieces_at_most() {
    let content: Vec<u8> = (0..80u8).collect();
    let metainfo = torrent_of(8, &content);
    assert_eq!(metainfo.pieces.len(), 10);
    assert_eq!(MAX_PIECES_IN_PARALLEL, 5);
    let mut manager = PieceManager::new(metainfo, vec![false; 10]).unwrap();
    manager.add_peer(A);
    manager.add_bitfield(&A, vec![true; 10]);
    let mut asked = vec![];
    while let Some(requests) = manager.prepare_next_blocks(BLOCK_QUEUE_SIZE_MAX, &A) {
        assert_eq!(requests.len(), 1);
        asked.push(requests[0].index);
    }
    assert_eq!(asked, vec![0, 1, 2, 3, 4]);
    // A piece leaves the queue, and there is room for the next.
    let block = ResponsePiecePayload { index: 3, begin: 0, block: content[24..32].to_vec() };
    assert_eq!(manager.write_block(&block), BlockOutcome::Verified(3));
    assert!(manager.record_piece(3).is_some());
    assert!(manager.finish_piece(3));
    assert_eq!(
        manager.prepare_next_blocks(BLOCK_QUEUE_SIZE_MAX, &A),
        Some(vec![RequestPiecePayload::new(5, 0, 8)])
    );
    assert_eq!(manager.prepare_next_blocks(BLOCK_QUEUE_SIZE_MAX, &A), None);
    // A peer that goes gives its blocks back.
    manager.add_peer(B);
    manager.add_bitfield(&B, vec![true; 10]);
    assert_eq!(manager.prepare_next_blocks(BLOCK_QUEUE_SIZE_MAX, &B), None);
    manager.remove_peer(&A);
    assert_eq!(
        manager.prepare_next_blocks(BLOCK_QUEUE_SIZE_MAX, &B),
        Some(vec![RequestPiecePayload::new(0, 0, 8)])
    );
}

#[test]
fn a_batch_has_twenty_requests_at_most() {
    assert_eq!(BLOCK_QUEUE_SIZE_MAX, 20);
    let content = vec![9u8; 25 * 16384 + 5];
    let mut manager = PieceManager::new(torrent_of(25 * 16384 + 5, &content), vec![false]).unwrap();
    manager.add_peer(A);
    manager.add_bitfield(&A, vec![true]);
    let first = manager.prepare_next_blocks(BLOCK_QUEUE_SIZE_MAX, &A).unwrap();
    assert_eq!(first.len(), 20);
    assert_eq!(first[19], RequestPiecePayload::new(0, 19 * 16384, 16384));
    let second = manager.prepare_next_blocks(BLOCK_QUEUE_SIZE_MAX, &A).unwrap();
    assert_eq!(second.len(), 6);
    assert_eq!(second[0], RequestPiecePayload::new(0, 20 * 16384, 16384));
    assert_eq!(second[5], RequestPiecePayload::new(0, 25 * 16384, 5));
    assert_eq!(manager.prepare_next_blocks(BLOCK_QUEUE_SIZE_MAX, &A), None);
}
