//! The coordinator of a torrent. Every session reports to it, and it alone
//! holds the state of the torrent. It decides; what it asks for beyond
//! messages to the sessions, writing and reading the file and storing the
//! bitfield, the caller does and reports back.

use crate::digest::sha1_digest;
use crate::extensions::magnet_links::metadata_piece_manager::{
    MetadataPieceManager, MetadataView,
};
use crate::extensions::{ExtensionMessage, ExtensionMessageView, ExtensionType};
use crate::messages::payloads::{
    BitfieldPayload, BlockView, RequestPiecePayload, ResponsePiecePayload,
};
use crate::peer_manager::piece_manager::file_manager::BlockOutcome;
use crate::peer_manager::piece_manager::piece_selector::PeerId;
use crate::peer_manager::piece_manager::{copy_bits, ManagerView, PieceManager};
use crate::peer_manager::{
    PeerConn, ReqMessage, ReqMsgFromPeer, ReqView, ResMessage, ResView, BLOCK_QUEUE_SIZE_MAX,
};
use crate::torrent::{
    get_piece_size, same_id, InfoHash, Metainfo, MetainfoView, TorrentError,
};
use vstd::prelude::*;

verus! {

/// The state of a torrent. It only ever moves on: from waiting for the
/// `info` dictionary to downloading, and from downloading to seeding.
#[derive(Debug)]
pub enum TorrentState {
    /// The torrent is known by its hash alone, and its `info` dictionary is
    /// being collected.
    WaitingForMetadata {
        /// Where the file is to be written, if the user has said so.
        file_path: Option<String>,
        /// The blocks of the `info` dictionary.
        metadata_piece_manager: MetadataPieceManager,
        /// Whether the `info` dictionary has arrived and the caller has been
        /// asked to open the torrent.
        opening: bool,
    },
    /// The file is being downloaded.
    Downloading { piece_manager: PieceManager },
    /// This client has the whole file.
    Seeding { metainfo: Metainfo },
}

/// The state of a torrent.
pub ghost enum TorrentStateView {
    WaitingForMetadata { file_path: Option<Seq<char>>, metadata: MetadataView, opening: bool },
    Downloading { manager: ManagerView },
    Seeding { metainfo: MetainfoView },
}

impl View for TorrentState {
    type V = TorrentStateView;

    open spec fn view(&self) -> TorrentStateView {
        match self {
            TorrentState::WaitingForMetadata { file_path, metadata_piece_manager, opening } => {
                TorrentStateView::WaitingForMetadata {
                    file_path: match file_path {
                        Some(path) => Some(path@),
                        None => None,
                    },
                    metadata: metadata_piece_manager@,
                    opening: *opening,
                }
            },
            TorrentState::Downloading { piece_manager } => TorrentStateView::Downloading {
                manager: piece_manager@,
            },
            TorrentState::Seeding { metainfo } => TorrentStateView::Seeding { metainfo: metainfo@ },
        }
    }
}

/// What the coordinator is told.
#[derive(Debug)]
pub enum Event {
    /// A session has something to say.
    Peer(ReqMsgFromPeer),
    /// The piece with this index has been written to the file.
    PieceWritten(u32),
    /// The bitfield with the piece of this index has been stored.
    BitfieldStored(u32),
    /// The bytes that a peer asked for have been read from the file, or
    /// could not be read.
    BlockRead { peer_id: PeerId, request: RequestPiecePayload, data: Option<Vec<u8>> },
    /// The torrent has been opened: its record holds `bitfield`, and its
    /// file is there to be read and written.
    TorrentOpened { metainfo: Metainfo, bitfield: Vec<bool> },
}

/// What the coordinator is told.
pub ghost enum EventView {
    Peer(Seq<u8>, ReqView),
    PieceWritten(u32),
    BitfieldStored(u32),
    BlockRead { peer_id: Seq<u8>, request: RequestPiecePayload, data: Option<Seq<u8>> },
    TorrentOpened { metainfo: MetainfoView, bitfield: Seq<bool> },
}

impl View for Event {
    type V = EventView;

    open spec fn view(&self) -> EventView {
        match self {
            Event::Peer(from) => EventView::Peer(from.peer_id@, from.msg@),
            Event::PieceWritten(index) => EventView::PieceWritten(*index),
            Event::BitfieldStored(index) => EventView::BitfieldStored(*index),
            Event::BlockRead { peer_id, request, data } => EventView::BlockRead {
                peer_id: peer_id@,
                request: *request,
                data: match data {
                    Some(bytes) => Some(bytes@),
                    None => None,
                },
            },
            Event::TorrentOpened { metainfo, bitfield } => EventView::TorrentOpened {
                metainfo: metainfo@,
                bitfield: bitfield@,
            },
        }
    }
}

/// What the coordinator asks of its caller.
#[derive(Debug)]
pub enum Effect {
    /// Send a message to the session of one peer.
    Send { peer_id: PeerId, message: ResMessage },
    /// Send a message to every session, in the order of the registry.
    Broadcast(ResMessage),
    /// Write the bytes of a verified piece to the file at `offset`, and
    /// report `PieceWritten`.
    WritePiece { index: u32, offset: u64, data: Vec<u8> },
    /// Store the bitfield, and report `BitfieldStored`.
    StoreBitfield { index: u32, bitfield: Vec<bool> },
    /// Read `request.length` bytes from the file at `offset`, and report
    /// `BlockRead`.
    ReadBlock { peer_id: PeerId, request: RequestPiecePayload, offset: u64 },
    /// Look up the record of the torrent or make one, open the file, and
    /// report `TorrentOpened`.
    OpenTorrent { metainfo: Metainfo, file_path: Option<String> },
    /// Give up the torrent.
    Fail(TorrentError),
}

/// What the coordinator asks of its caller.
pub ghost enum EffectView {
    Send { peer_id: Seq<u8>, message: ResView },
    Broadcast(ResView),
    WritePiece { index: u32, offset: u64, data: Seq<u8> },
    StoreBitfield { index: u32, bitfield: Seq<bool> },
    ReadBlock { peer_id: Seq<u8>, request: RequestPiecePayload, offset: u64 },
    OpenTorrent { metainfo: MetainfoView, file_path: Option<Seq<char>> },
    Fail(TorrentError),
}

impl View for Effect {
    type V = EffectView;

    open spec fn view(&self) -> EffectView {
        match self {
            Effect::Send { peer_id, message } => EffectView::Send {
                peer_id: peer_id@,
                message: message@,
            },
            Effect::Broadcast(message) => EffectView::Broadcast(message@),
            Effect::WritePiece { index, offset, data } => EffectView::WritePiece {
                index: *index,
                offset: *offset,
                data: data@,
            },
            Effect::StoreBitfield { index, bitfield } => EffectView::StoreBitfield {
                index: *index,
                bitfield: bitfield@,
            },
            Effect::ReadBlock { peer_id, request, offset } => EffectView::ReadBlock {
                peer_id: peer_id@,
                request: *request,
                offset: *offset,
            },
            Effect::OpenTorrent { metainfo, file_path } => EffectView::OpenTorrent {
                metainfo: metainfo@,
                file_path: match file_path {
                    Some(path) => Some(path@),
                    None => None,
                },
            },
            Effect::Fail(error) => EffectView::Fail(*error),
        }
    }
}

/// What the effects in `list` say.
pub open spec fn effect_views(list: Seq<Effect>) -> Seq<EffectView> {
    Seq::new(list.len(), |i: int| list[i]@)
}

/// The coordinator of a torrent.
#[derive(Debug)]
pub struct PeerManager {
    /// The state of the torrent.
    torrent_state: TorrentState,
    /// The sessions that have made themselves known, in the order in which
    /// they did.
    peers: Vec<PeerConn>,
}

/// The state of the coordinator.
pub ghost struct CoordinatorView {
    pub state: TorrentStateView,
    pub peers: Seq<PeerConn>,
}

impl View for PeerManager {
    type V = CoordinatorView;

    closed spec fn view(&self) -> CoordinatorView {
        CoordinatorView { state: self.torrent_state@, peers: self.peers@ }
    }
}

/// The registry without the session of the peer `id`.
pub open spec fn without_peer(peers: Seq<PeerConn>, id: Seq<u8>) -> Seq<PeerConn> {
    peers.filter(|conn: PeerConn| conn.peer_id@ != id)
}

/// The registry with the session `conn`, which takes the place of any other
/// session of the same peer.
pub open spec fn with_peer(peers: Seq<PeerConn>, conn: PeerConn) -> Seq<PeerConn> {
    without_peer(peers, conn.peer_id@).push(conn)
}

/// Whether the peer `id` has a session in the registry.
pub open spec fn is_registered(peers: Seq<PeerConn>, id: Seq<u8>) -> bool {
    exists|k: int| 0 <= k < peers.len() && (#[trigger] peers[k]).peer_id@ == id
}

/// The selector once it has been told of the first `upto` peers in the
/// registry.
pub open spec fn with_peers(
    selector: crate::peer_manager::piece_manager::selector_model::SelectorView,
    peers: Seq<PeerConn>,
    upto: nat,
) -> crate::peer_manager::piece_manager::selector_model::SelectorView
    decreases upto,
{
    if upto == 0 {
        selector
    } else {
        with_peers(selector, peers, (upto - 1) as nat).add_peer(peers[upto - 1].peer_id@)
    }
}

/// Where in the file the block lies that `request` asks for, in a file of
/// which this client has every piece: `None` unless the block lies within
/// its piece.
pub open spec fn seeding_offset(metainfo: MetainfoView, request: RequestPiecePayload) -> Option<
    int,
> {
    if request.index < metainfo.piece_count() && request.begin + request.length
        <= metainfo.piece_size(request.index as nat) {
        Some(request.index * metainfo.piece_length + request.begin)
    } else {
        None
    }
}

impl CoordinatorView {
    /// What holds of the coordinator at all times.
    pub open spec fn wf(self) -> bool {
        match self.state {
            TorrentStateView::WaitingForMetadata { metadata, .. } => metadata.wf(),
            TorrentStateView::Downloading { manager } => manager.wf(),
            TorrentStateView::Seeding { metainfo } => metainfo.wf(),
        }
    }

    /// A session makes itself known: it enters the registry. While the file
    /// is being downloaded, the selector is told of the peer and the session
    /// is told to begin.
    pub open spec fn on_new_connection(
        self,
        conn: PeerConn,
        after: CoordinatorView,
        effects: Seq<EffectView>,
    ) -> bool {
        &&& after.peers == with_peer(self.peers, conn)
        &&& match self.state {
            TorrentStateView::Downloading { manager } => {
                &&& after.state == TorrentStateView::Downloading {
                    manager: ManagerView {
                        selector: manager.selector.add_peer(conn.peer_id@),
                        ..manager
                    },
                }
                &&& effects == seq![
                    EffectView::Send { peer_id: conn.peer_id@, message: ResView::StartDownload },
                ]
            },
            _ => after.state == self.state && effects == Seq::<EffectView>::empty(),
        }
    }

    /// A session has ended: it leaves the registry. While the file is being
    /// downloaded, the selector forgets the peer, and the blocks that the
    /// peer was asked for and did not send are to be asked for again.
    pub open spec fn on_disconnected(
        self,
        id: Seq<u8>,
        after: CoordinatorView,
        effects: Seq<EffectView>,
    ) -> bool {
        &&& after.peers == without_peer(self.peers, id)
        &&& effects == Seq::<EffectView>::empty()
        &&& match self.state {
            TorrentStateView::Downloading { manager } => after.state
                == TorrentStateView::Downloading { manager: manager.remove_peer(id) },
            _ => after.state == self.state,
        }
    }

    /// What the coordinator does with what a session says while the file is
    /// being downloaded.
    pub open spec fn on_download(
        self,
        manager: ManagerView,
        peer: Seq<u8>,
        message: ReqView,
        after: CoordinatorView,
        effects: Seq<EffectView>,
    ) -> bool {
        &&& after.peers == self.peers
        &&& after.state is Downloading
        &&& {
            let next = after.state->manager;
            match message {
                ReqView::PeerBitfield(bits) => {
                    &&& next == ManagerView {
                        selector: manager.selector.add_bitfield(peer, bits),
                        ..manager
                    }
                    &&& effects == Seq::<EffectView>::empty()
                },
                ReqView::PeerHas(have) => {
                    &&& next == ManagerView {
                        selector: manager.selector.update_have(peer, have.piece_index),
                        ..manager
                    }
                    &&& effects == Seq::<EffectView>::empty()
                },
                ReqView::WhatDoWeHave => {
                    &&& next == manager
                    &&& effects == seq![
                        EffectView::Send { peer_id: peer, message: ResView::WeHave(manager.have()) },
                    ]
                },
                ReqView::NeedBlockQueue => exists|requests: Option<Seq<RequestPiecePayload>>|
                    {
                        &&& #[trigger] manager.prepared(
                            next,
                            peer,
                            BLOCK_QUEUE_SIZE_MAX as nat,
                            requests,
                        )
                        &&& effects == seq![
                            EffectView::Send {
                                peer_id: peer,
                                message: ResView::NewBlockQueue(
                                    match requests {
                                        Some(list) => list,
                                        None => Seq::empty(),
                                    },
                                ),
                            },
                        ]
                    },
                ReqView::GotBlock(block) => {
                    &&& next == manager.integrate(block).0
                    &&& effects == match manager.integrate(block).1 {
                        BlockOutcome::Verified(index) => seq![
                            EffectView::WritePiece {
                                index,
                                offset: (index * manager.piece_length) as u64,
                                data: next.queue[next.place(index as int)].buf,
                            },
                        ],
                        _ => Seq::<EffectView>::empty(),
                    }
                },
                ReqView::NeedBlock(request) => {
                    &&& next == manager
                    &&& effects == match manager.block_offset(request) {
                        Some(offset) => seq![
                            EffectView::ReadBlock { peer_id: peer, request, offset: offset as u64 },
                        ],
                        None => seq![
                            EffectView::Send { peer_id: peer, message: ResView::Block(None) },
                        ],
                    }
                },
                _ => next == manager && effects == Seq::<EffectView>::empty(),
            }
        }
    }

    /// What the coordinator does with what a session says while this client
    /// has the whole file: it says so when asked, and reads the blocks that
    /// are asked for.
    pub open spec fn on_seeding(
        self,
        metainfo: MetainfoView,
        peer: Seq<u8>,
        message: ReqView,
        after: CoordinatorView,
        effects: Seq<EffectView>,
    ) -> bool {
        &&& after == self
        &&& effects == match message {
            ReqView::WhatDoWeHave => seq![
                EffectView::Send {
                    peer_id: peer,
                    message: ResView::WeHave(Seq::new(metainfo.piece_count(), |i: int| true)),
                },
            ],
            ReqView::NeedBlock(request) => match seeding_offset(metainfo, request) {
                Some(offset) => seq![
                    EffectView::ReadBlock { peer_id: peer, request, offset: offset as u64 },
                ],
                None => seq![EffectView::Send { peer_id: peer, message: ResView::Block(None) }],
            },
            _ => Seq::<EffectView>::empty(),
        }
    }

    /// What the coordinator does with what an extension says while the
    /// `info` dictionary is being collected.
    pub open spec fn on_metadata(
        self,
        file_path: Option<Seq<char>>,
        metadata: MetadataView,
        opening: bool,
        peer: Seq<u8>,
        message: ExtensionMessageView,
        after: CoordinatorView,
        effects: Seq<EffectView>,
    ) -> bool {
        &&& after.peers == self.peers
        &&& after.state is WaitingForMetadata
        &&& after.state->file_path == file_path
        &&& {
            let next = after.state->metadata;
            match message {
                ExtensionMessageView::GotMetadataLength(length) => {
                    &&& next == metadata.set_len(length as nat)
                    &&& after.state->opening == opening
                    &&& effects == Seq::<EffectView>::empty()
                },
                ExtensionMessageView::NeedMetadataPiece => {
                    &&& after.state->opening == opening
                    &&& next.bytes == metadata.bytes
                    &&& next.info_hash == metadata.info_hash
                    &&& if metadata.all_asked() {
                        next == metadata && effects == Seq::<EffectView>::empty()
                    } else {
                        exists|block: int|
                            {
                                &&& #[trigger] metadata.next_is(block)
                                &&& next.queue == metadata.queue.update(
                                    block,
                                    crate::peer_manager::BlockState::InProcess,
                                )
                                &&& effects == seq![
                                    EffectView::Send {
                                        peer_id: peer,
                                        message: ResView::ExtensionData(
                                            ExtensionType::Metadata,
                                            (crate::extensions::magnet_links::metadata_msg::MetadataMsg {
                                                msg_type: crate::extensions::magnet_links::metadata_msg::MetadataMsgType::Request,
                                                piece_index: block as u32,
                                                total_size: None,
                                            }).spec_to_bytes(),
                                        ),
                                    },
                                ]
                            }
                    }
                },
                ExtensionMessageView::ReceivedMetadataPiece { piece_index, data } => {
                    let stored = metadata.add_block(piece_index as nat, data);
                    let digest = sha1_digest(stored.bytes);
                    &&& next == stored.check(digest)
                    &&& if opening || !stored.checked(digest) {
                        after.state->opening == opening && effects == Seq::<EffectView>::empty()
                    } else if Metainfo::readable(stored.bytes) {
                        &&& after.state->opening
                        &&& effects.len() == 1
                        &&& effects[0] matches EffectView::OpenTorrent { metainfo, file_path: path }
                        &&& path == file_path
                        &&& metainfo.name == vstd::utf8::decode_utf8(
                            crate::bencode::dict_string(
                                stored.bytes,
                                0,
                                crate::torrent::name_key(),
                            )->0,
                        )
                        &&& metainfo.pieces == crate::torrent::hashes_of(
                            crate::bencode::dict_string(
                                stored.bytes,
                                0,
                                crate::torrent::pieces_key(),
                            )->0,
                        )
                        &&& metainfo.piece_length == crate::bencode::dict_number(
                            stored.bytes,
                            0,
                            crate::torrent::piece_length_key(),
                        )->0
                        &&& metainfo.length == crate::bencode::dict_number(
                            stored.bytes,
                            0,
                            crate::torrent::length_key(),
                        )->0
                    } else {
                        &&& after.state->opening == opening
                        &&& effects == seq![EffectView::Fail(TorrentError::InvalidBencode)]
                    }
                },
            }
        }
    }

    /// What the coordinator does with what a session says.
    pub open spec fn on_peer(
        self,
        peer: Seq<u8>,
        message: ReqView,
        after: CoordinatorView,
        effects: Seq<EffectView>,
    ) -> bool {
        match message {
            ReqView::NewConnection(conn) => self.on_new_connection(conn, after, effects),
            ReqView::PeerDisconnected(id) => self.on_disconnected(id, after, effects),
            _ => {
                if !is_registered(self.peers, peer) {
                    after == self && effects == Seq::<EffectView>::empty()
                } else {
                    match self.state {
                        TorrentStateView::Downloading { manager } => self.on_download(
                            manager,
                            peer,
                            message,
                            after,
                            effects,
                        ),
                        TorrentStateView::Seeding { metainfo } => self.on_seeding(
                            metainfo,
                            peer,
                            message,
                            after,
                            effects,
                        ),
                        TorrentStateView::WaitingForMetadata { file_path, metadata, opening } => {
                            match message {
                                ReqView::Extension(said) => self.on_metadata(
                                    file_path,
                                    metadata,
                                    opening,
                                    peer,
                                    said,
                                    after,
                                    effects,
                                ),
                                _ => after == self && effects == Seq::<EffectView>::empty(),
                            }
                        },
                    }
                }
            },
        }
    }

    /// A verified piece has been written to the file: this client has the
    /// piece, and the bitfield is to be stored.
    pub open spec fn on_piece_written(
        self,
        index: u32,
        after: CoordinatorView,
        effects: Seq<EffectView>,
    ) -> bool {
        &&& after.peers == self.peers
        &&& match self.state {
            TorrentStateView::Downloading { manager } => {
                &&& after.state == TorrentStateView::Downloading {
                    manager: manager.record_piece(index),
                }
                &&& effects == if manager.ready(index) {
                    seq![
                        EffectView::StoreBitfield {
                            index,
                            bitfield: manager.record_piece(index).have(),
                        },
                    ]
                } else {
                    Seq::<EffectView>::empty()
                }
            },
            _ => after.state == self.state && effects == Seq::<EffectView>::empty(),
        }
    }

    /// The bitfield with a piece has been stored: the piece leaves the
    /// download queue, and every session is told that this client has it.
    /// If that was the last piece, the torrent moves on to seeding, and every
    /// session is told that the file is finished.
    pub open spec fn on_bitfield_stored(
        self,
        index: u32,
        after: CoordinatorView,
        effects: Seq<EffectView>,
    ) -> bool {
        &&& after.peers == self.peers
        &&& match self.state {
            TorrentStateView::Downloading { manager } => {
                let next = manager.finish_piece(index);
                if !manager.recorded(index) {
                    after.state == self.state && effects == Seq::<EffectView>::empty()
                } else if next.finished() {
                    &&& after.state == TorrentStateView::Seeding {
                        metainfo: after.state->metainfo,
                    }
                    &&& after.state->metainfo.name == manager.name
                    &&& after.state->metainfo.piece_length == manager.piece_length
                    &&& after.state->metainfo.length == manager.length
                    &&& after.state->metainfo.pieces == manager.hashes
                    &&& effects == seq![
                        EffectView::Broadcast(ResView::FinishedPiece(index)),
                        EffectView::Broadcast(ResView::FinishedFile),
                    ]
                } else {
                    &&& after.state == TorrentStateView::Downloading { manager: next }
                    &&& effects == seq![EffectView::Broadcast(ResView::FinishedPiece(index))]
                }
            },
            _ => after.state == self.state && effects == Seq::<EffectView>::empty(),
        }
    }

    /// The bytes that a peer asked for have been read: the peer gets them,
    /// or nothing if they could not be read in full.
    pub open spec fn on_block_read(
        self,
        peer: Seq<u8>,
        request: RequestPiecePayload,
        data: Option<Seq<u8>>,
        after: CoordinatorView,
        effects: Seq<EffectView>,
    ) -> bool {
        let located = match self.state {
            TorrentStateView::Downloading { manager } => manager.block_offset(request) is Some,
            TorrentStateView::Seeding { metainfo } => seeding_offset(metainfo, request) is Some,
            _ => false,
        };
        &&& after == self
        &&& effects == seq![
            EffectView::Send {
                peer_id: peer,
                message: ResView::Block(
                    if located && data is Some && data->0.len() == request.length {
                        Some(BlockView { index: request.index, begin: request.begin, block: data->0 })
                    } else {
                        None
                    },
                ),
            },
        ]
    }

    /// The torrent has been opened after its `info` dictionary arrived: the
    /// download begins with the pieces that the record holds, the selector is
    /// told of every peer in the registry, and every session is told to
    /// begin. If the record holds every piece, the
    /// torrent is seeded at once and no session is told anything. Nothing
    /// happens if the torrent is not waiting to be opened, or if the `info`
    /// dictionary and the record do not fit.
    pub open spec fn on_opened(
        self,
        metainfo: MetainfoView,
        bitfield: Seq<bool>,
        after: CoordinatorView,
        effects: Seq<EffectView>,
    ) -> bool {
        &&& after.peers == self.peers
        &&& if self.state is WaitingForMetadata && self.state->opening && metainfo.wf()
            && bitfield.len() == metainfo.piece_count() {
            if forall|i: int| 0 <= i < bitfield.len() ==> bitfield[i] {
                &&& after.state == TorrentStateView::Seeding { metainfo }
                &&& effects == Seq::<EffectView>::empty()
            } else {
                &&& after.state is Downloading
                &&& after.state->manager.wf()
                &&& after.state->manager.selector == with_peers(
                    crate::peer_manager::piece_manager::selector_model::SelectorView::fresh(
                        bitfield,
                    ),
                    self.peers,
                    self.peers.len(),
                )
                &&& after.state->manager.queue == Seq::<crate::peer_manager::PieceView>::empty()
                &&& after.state->manager.name == metainfo.name
                &&& after.state->manager.piece_length == metainfo.piece_length
                &&& after.state->manager.length == metainfo.length
                &&& after.state->manager.hashes == metainfo.pieces
                &&& effects == seq![EffectView::Broadcast(ResView::StartDownload)]
            }
        } else {
            after.state == self.state && effects == Seq::<EffectView>::empty()
        }
    }

    /// Whether `after` and `effects` are what comes of `event`.
    pub open spec fn stepped(
        self,
        event: EventView,
        after: CoordinatorView,
        effects: Seq<EffectView>,
    ) -> bool {
        match event {
            EventView::Peer(peer, message) => self.on_peer(peer, message, after, effects),
            EventView::PieceWritten(index) => self.on_piece_written(index, after, effects),
            EventView::BitfieldStored(index) => self.on_bitfield_stored(index, after, effects),
            EventView::BlockRead { peer_id, request, data } => self.on_block_read(
                peer_id,
                request,
                data,
                after,
                effects,
            ),
            EventView::TorrentOpened { metainfo, bitfield } => self.on_opened(
                metainfo,
                bitfield,
                after,
                effects,
            ),
        }
    }
}

/// A copy of `bytes`.
pub fn copy_bytes(bytes: &Vec<u8>) -> (copy: Vec<u8>)
    ensures
        copy@ == bytes@,
{
    let copy = crate::extensions::handshake::copy_span(bytes.as_slice(), 0, bytes.len());
    assert(copy@ =~= bytes@);
    copy
}

/// Where in the file the block lies that `request` asks for, in a file of
/// which this client has every piece.
pub fn seeding_block_offset(metainfo: &Metainfo, request: &RequestPiecePayload) -> (offset: Option<
    u64,
>)
    requires
        metainfo.wf(),
    ensures
        match offset {
            Some(at) => seeding_offset(metainfo@, *request) == Some(at as int),
            None => seeding_offset(metainfo@, *request) is None,
        },
{
    if request.index >= metainfo.n_pieces() {
        return None;
    }
    let size: u32 = get_piece_size(metainfo, request.index);
    if request.begin > size || request.length > size - request.begin {
        return None;
    }
    let start: u64 = metainfo.piece_offset(request.index);
    assert(request.index * metainfo.piece_length <= 0xffff_ffff * 0xffff_ffff) by (nonlinear_arith)
        requires
            request.index <= 0xffff_ffff,
            metainfo.piece_length <= 0xffff_ffff,
    ;
    Some(start + request.begin as u64)
}

/// Whether the peer `id` has a session in the registry.
pub fn registered(peers: &Vec<PeerConn>, id: &PeerId) -> (found: bool)
    ensures
        found == is_registered(peers@, id@),
{
    let mut k: usize = 0;
    while k < peers.len()
        invariant
            k <= peers@.len(),
            forall|j: int| 0 <= j < k ==> (#[trigger] peers@[j]).peer_id@ != id@,
        decreases peers@.len() - k,
    {
        if same_id(&peers[k].peer_id, id) {
            return true;
        }
        k = k + 1;
    }
    false
}

/// The registry without the session of the peer `id`.
pub fn drop_peer(peers: &Vec<PeerConn>, id: &PeerId) -> (kept: Vec<PeerConn>)
    ensures
        kept@ == without_peer(peers@, id@),
{
    let mut kept: Vec<PeerConn> = Vec::new();
    let ghost keep = |conn: PeerConn| conn.peer_id@ != id@;
    let mut k: usize = 0;
    while k < peers.len()
        invariant
            k <= peers@.len(),
            keep == |conn: PeerConn| conn.peer_id@ != id@,
            kept@ == peers@.take(k as int).filter(keep),
        decreases peers@.len() - k,
    {
        let conn: PeerConn = peers[k];
        proof {
            assert(peers@.take(k + 1) =~= peers@.take(k as int).push(conn));
            peers@.take(k as int).lemma_filter_push(conn, keep);
        }
        if !same_id(&conn.peer_id, id) {
            kept.push(conn);
        }
        k = k + 1;
    }
    proof {
        assert(peers@.take(k as int) =~= peers@);
    }
    kept
}

/// No effects.
fn nothing() -> (effects: Vec<Effect>)
    ensures
        effect_views(effects@) == Seq::<EffectView>::empty(),
{
    let effects: Vec<Effect> = Vec::new();
    assert(effect_views(effects@) =~= Seq::<EffectView>::empty());
    effects
}

/// One effect.
fn only(effect: Effect) -> (effects: Vec<Effect>)
    ensures
        effect_views(effects@) == seq![effect@],
{
    let mut effects: Vec<Effect> = Vec::new();
    effects.push(effect);
    assert(effect_views(effects@) =~= seq![effect@]);
    effects
}

impl PeerManager {
    /// What holds of the coordinator at all times.
    pub open spec fn wf(&self) -> bool {
        self@.wf()
    }

    /// The coordinator of a torrent that is known by its hash alone.
    pub fn init_from_magnet(info_hash: InfoHash, file_path: Option<String>) -> (manager: Self)
        ensures
            manager.wf(),
            manager@.peers == Seq::<PeerConn>::empty(),
            manager@.state is WaitingForMetadata,
            !manager@.state->opening,
            manager@.state->file_path == match file_path {
                Some(path) => Some(path@),
                None => None,
            },
            manager@.state->metadata == (MetadataView {
                queue: Seq::empty(),
                bytes: Seq::empty(),
                info_hash: info_hash.0@,
            }),
    {
        PeerManager {
            torrent_state: TorrentState::WaitingForMetadata {
                file_path,
                metadata_piece_manager: MetadataPieceManager::new(info_hash),
                opening: false,
            },
            peers: Vec::new(),
        }
    }

    /// The coordinator of a torrent of which the record holds the pieces
    /// `bitfield`: the torrent is seeded if those are all its pieces, else
    /// downloaded. `None` for a torrent that is not well formed, and for a
    /// bitfield that does not have an entry for each piece.
    pub fn init_from_torrent(metainfo: Metainfo, bitfield: Vec<bool>) -> (manager: Option<Self>)
        ensures
            manager is Some <==> metainfo.wf() && bitfield@.len() == metainfo.piece_count(),
            manager is Some ==> {
                &&& manager->0.wf()
                &&& manager->0@.peers == Seq::<PeerConn>::empty()
                &&& if forall|i: int| 0 <= i < bitfield@.len() ==> bitfield@[i] {
                    manager->0@.state == TorrentStateView::Seeding { metainfo: metainfo@ }
                } else {
                    &&& manager->0@.state is Downloading
                    &&& manager->0@.state->manager.selector
                        == crate::peer_manager::piece_manager::selector_model::SelectorView::fresh(
                        bitfield@,
                    )
                    &&& manager->0@.state->manager.queue == Seq::<
                        crate::peer_manager::PieceView,
                    >::empty()
                    &&& manager->0@.state->manager.name == metainfo.name@
                    &&& manager->0@.state->manager.piece_length == metainfo.piece_length
                    &&& manager->0@.state->manager.length == metainfo.length
                    &&& manager->0@.state->manager.hashes == metainfo.pieces@
                }
            },
    {
        match Self::open_state(metainfo, bitfield) {
            Some(torrent_state) => Some(PeerManager { torrent_state, peers: Vec::new() }),
            None => None,
        }
    }

    /// The state of a torrent of which the record holds the pieces
    /// `bitfield`.
    fn open_state(metainfo: Metainfo, bitfield: Vec<bool>) -> (state: Option<TorrentState>)
        ensures
            state is Some <==> metainfo.wf() && bitfield@.len() == metainfo.piece_count(),
            state is Some ==> {
                &&& if forall|i: int| 0 <= i < bitfield@.len() ==> bitfield@[i] {
                    state->0@ == TorrentStateView::Seeding { metainfo: metainfo@ }
                } else {
                    &&& state->0@ is Downloading
                    &&& state->0@->manager.wf()
                    &&& state->0@->manager.selector
                        == crate::peer_manager::piece_manager::selector_model::SelectorView::fresh(
                        bitfield@,
                    )
                    &&& state->0@->manager.queue == Seq::<crate::peer_manager::PieceView>::empty()
                    &&& state->0@->manager.name == metainfo.name@
                    &&& state->0@->manager.piece_length == metainfo.piece_length
                    &&& state->0@->manager.length == metainfo.length
                    &&& state->0@->manager.hashes == metainfo.pieces@
                }
            },
    {
        if !metainfo.is_valid() {
            return None;
        }
        if bitfield.len() != metainfo.n_pieces() as usize {
            return None;
        }
        let mut all: bool = true;
        let mut i: usize = 0;
        while i < bitfield.len()
            invariant
                i <= bitfield@.len(),
                all == (forall|k: int| 0 <= k < i ==> bitfield@[k]),
            decreases bitfield@.len() - i,
        {
            if !bitfield[i] {
                all = false;
            }
            i = i + 1;
        }
        if all {
            Some(TorrentState::Seeding { metainfo })
        } else {
            match PieceManager::new(metainfo, bitfield) {
                Some(piece_manager) => Some(TorrentState::Downloading { piece_manager }),
                None => None,
            }
        }
    }

    /// The sessions that have made themselves known, in the order in which a
    /// message to all of them is sent.
    pub fn peers(&self) -> (peers: &Vec<PeerConn>)
        ensures
            peers@ == self@.peers,
    {
        &self.peers
    }

    /// The state of the torrent.
    pub fn torrent_state(&self) -> (state: &TorrentState)
        ensures
            state@ == self@.state,
    {
        &self.torrent_state
    }

    /// Deals with what a session says while the file is being downloaded.
    fn download(
        mut piece_manager: PieceManager,
        peers: Vec<PeerConn>,
        peer_id: PeerId,
        msg: ReqMessage,
    ) -> (next: (Self, Vec<Effect>))
        requires
            piece_manager.wf(),
            !(msg is NewConnection),
            !(msg is PeerDisconnected),
        ensures
            next.0.wf(),
            (CoordinatorView {
                state: TorrentStateView::Downloading { manager: piece_manager@ },
                peers: peers@,
            }).on_download(piece_manager@, peer_id@, msg@, next.0@, effect_views(next.1@)),
    {
        let ghost before = piece_manager@;
        let effects: Vec<Effect> = match msg {
            ReqMessage::PeerBitfield(bitfield) => {
                piece_manager.add_bitfield(&peer_id, bitfield.pieces_available);
                nothing()
            },
            ReqMessage::PeerHas(have) => {
                piece_manager.update_have(&peer_id, have.piece_index);
                nothing()
            },
            ReqMessage::WhatDoWeHave => only(
                Effect::Send {
                    peer_id,
                    message: ResMessage::WeHave(
                        BitfieldPayload { pieces_available: copy_bits(piece_manager.have()) },
                    ),
                },
            ),
            ReqMessage::NeedBlockQueue => {
                let blocks = piece_manager.prepare_next_blocks(BLOCK_QUEUE_SIZE_MAX, &peer_id);
                let ghost prepared: Option<Seq<RequestPiecePayload>> = match &blocks {
                    Some(list) => Some(list@),
                    None => None,
                };
                let list: Vec<RequestPiecePayload> = match blocks {
                    Some(list) => list,
                    None => Vec::new(),
                };
                let effects = only(
                    Effect::Send { peer_id, message: ResMessage::NewBlockQueue(list) },
                );
                proof {
                    assert(before.prepared(
                        piece_manager@,
                        peer_id@,
                        BLOCK_QUEUE_SIZE_MAX as nat,
                        prepared,
                    ));
                }
                effects
            },
            ReqMessage::GotBlock(block) => {
                match piece_manager.write_block(&block) {
                    BlockOutcome::Verified(index) => {
                        let offset: u64 = piece_manager.piece_offset(index);
                        match piece_manager.piece_data(index) {
                            Some(data) => only(
                                Effect::WritePiece { index, offset, data: copy_bytes(data) },
                            ),
                            None => nothing(),
                        }
                    },
                    _ => nothing(),
                }
            },
            ReqMessage::NeedBlock(request) => {
                match piece_manager.block_offset(&request) {
                    Some(offset) => only(Effect::ReadBlock { peer_id, request, offset }),
                    None => only(Effect::Send { peer_id, message: ResMessage::Block(None) }),
                }
            },
            _ => nothing(),
        };
        (PeerManager { torrent_state: TorrentState::Downloading { piece_manager }, peers }, effects)
    }

    /// Deals with what a session says while this client has the whole file.
    fn seed(metainfo: Metainfo, peers: Vec<PeerConn>, peer_id: PeerId, msg: ReqMessage) -> (next: (
        Self,
        Vec<Effect>,
    ))
        requires
            metainfo.wf(),
        ensures
            next.0.wf(),
            (CoordinatorView {
                state: TorrentStateView::Seeding { metainfo: metainfo@ },
                peers: peers@,
            }).on_seeding(metainfo@, peer_id@, msg@, next.0@, effect_views(next.1@)),
    {
        let effects: Vec<Effect> = match msg {
            ReqMessage::WhatDoWeHave => {
                let count: usize = metainfo.n_pieces() as usize;
                let pieces_available: Vec<bool> = vec![true; count];
                assert(pieces_available@ =~= Seq::new(metainfo@.piece_count(), |i: int| true));
                only(
                    Effect::Send {
                        peer_id,
                        message: ResMessage::WeHave(BitfieldPayload { pieces_available }),
                    },
                )
            },
            ReqMessage::NeedBlock(request) => {
                match seeding_block_offset(&metainfo, &request) {
                    Some(offset) => only(Effect::ReadBlock { peer_id, request, offset }),
                    None => only(Effect::Send { peer_id, message: ResMessage::Block(None) }),
                }
            },
            _ => nothing(),
        };
        (PeerManager { torrent_state: TorrentState::Seeding { metainfo }, peers }, effects)
    }

    /// Deals with what an extension says while the `info` dictionary is
    /// being collected.
    fn collect(
        file_path: Option<String>,
        mut metadata_piece_manager: MetadataPieceManager,
        opening: bool,
        peers: Vec<PeerConn>,
        peer_id: PeerId,
        message: ExtensionMessage,
    ) -> (next: (Self, Vec<Effect>))
        requires
            metadata_piece_manager.wf(),
        ensures
            next.0.wf(),
            (CoordinatorView {
                state: TorrentStateView::WaitingForMetadata {
                    file_path: match file_path {
                        Some(path) => Some(path@),
                        None => None,
                    },
                    metadata: metadata_piece_manager@,
                    opening,
                },
                peers: peers@,
            }).on_metadata(
                match file_path {
                    Some(path) => Some(path@),
                    None => None,
                },
                metadata_piece_manager@,
                opening,
                peer_id@,
                message@,
                next.0@,
                effect_views(next.1@),
            ),
    {
        let ghost before = metadata_piece_manager@;
        let mut now_opening: bool = opening;
        let effects: Vec<Effect> = match message {
            ExtensionMessage::GotMetadataLength(length) => {
                metadata_piece_manager.set_len(length);
                nothing()
            },
            ExtensionMessage::NeedMetadataPiece => {
                match metadata_piece_manager.get_block_req_data() {
                    Some(data) => {
                        let effects = only(
                            Effect::Send {
                                peer_id,
                                message: ResMessage::ExtensionData(ExtensionType::Metadata, data),
                            },
                        );
                        proof {
                            let block = choose|block: int|
                                {
                                    &&& #[trigger] before.next_is(block)
                                    &&& metadata_piece_manager@.queue == before.queue.update(
                                        block,
                                        crate::peer_manager::BlockState::InProcess,
                                    )
                                    &&& data@
                                        == (crate::extensions::magnet_links::metadata_msg::MetadataMsg {
                                        msg_type: crate::extensions::magnet_links::metadata_msg::MetadataMsgType::Request,
                                        piece_index: block as u32,
                                        total_size: None,
                                    }).spec_to_bytes()
                                };
                            assert(before.next_is(block));
                            assert(!before.all_asked());
                        }
                        effects
                    },
                    None => nothing(),
                }
            },
            ExtensionMessage::ReceivedMetadataPiece { piece_index, data } => {
                let _ = metadata_piece_manager.add_block(piece_index, data.as_slice());
                if !metadata_piece_manager.check_finished() || opening {
                    nothing()
                } else {
                    match metadata_piece_manager.get_metadata() {
                        Ok(metainfo) => {
                            now_opening = true;
                            let path: Option<String> = match &file_path {
                                Some(text) => Some(text.clone()),
                                None => None,
                            };
                            only(Effect::OpenTorrent { metainfo, file_path: path })
                        },
                        Err(error) => only(Effect::Fail(error)),
                    }
                }
            },
        };
        (
            PeerManager {
                torrent_state: TorrentState::WaitingForMetadata {
                    file_path,
                    metadata_piece_manager,
                    opening: now_opening,
                },
                peers,
            },
            effects,
        )
    }

    /// Deals with what a session says.
    fn handle_peer(self, from: ReqMsgFromPeer) -> (next: (Self, Vec<Effect>))
        requires
            self.wf(),
        ensures
            next.0.wf(),
            self@.on_peer(from.peer_id@, from.msg@, next.0@, effect_views(next.1@)),
    {
        let PeerManager { torrent_state, peers } = self;
        let ReqMsgFromPeer { peer_id, msg } = from;
        match msg {
            ReqMessage::NewConnection(conn) => {
                let mut kept = drop_peer(&peers, &conn.peer_id);
                kept.push(conn);
                match torrent_state {
                    TorrentState::Downloading { mut piece_manager } => {
                        piece_manager.add_peer(conn.peer_id);
                        (
                            PeerManager {
                                torrent_state: TorrentState::Downloading { piece_manager },
                                peers: kept,
                            },
                            only(
                                Effect::Send {
                                    peer_id: conn.peer_id,
                                    message: ResMessage::StartDownload,
                                },
                            ),
                        )
                    },
                    other => (PeerManager { torrent_state: other, peers: kept }, nothing()),
                }
            },
            ReqMessage::PeerDisconnected(id) => {
                let kept = drop_peer(&peers, &id);
                match torrent_state {
                    TorrentState::Downloading { mut piece_manager } => {
                        piece_manager.remove_peer(&id);
                        (
                            PeerManager {
                                torrent_state: TorrentState::Downloading { piece_manager },
                                peers: kept,
                            },
                            nothing(),
                        )
                    },
                    other => (PeerManager { torrent_state: other, peers: kept }, nothing()),
                }
            },
            msg => {
                if !registered(&peers, &peer_id) {
                    return (PeerManager { torrent_state, peers }, nothing());
                }
                match torrent_state {
                    TorrentState::Downloading { piece_manager } => Self::download(
                        piece_manager,
                        peers,
                        peer_id,
                        msg,
                    ),
                    TorrentState::Seeding { metainfo } => Self::seed(metainfo, peers, peer_id, msg),
                    TorrentState::WaitingForMetadata {
                        file_path,
                        metadata_piece_manager,
                        opening,
                    } => {
                        match msg {
                            ReqMessage::Extension(said) => Self::collect(
                                file_path,
                                metadata_piece_manager,
                                opening,
                                peers,
                                peer_id,
                                said,
                            ),
                            _ => (
                                PeerManager {
                                    torrent_state: TorrentState::WaitingForMetadata {
                                        file_path,
                                        metadata_piece_manager,
                                        opening,
                                    },
                                    peers,
                                },
                                nothing(),
                            ),
                        }
                    },
                }
            },
        }
    }

    /// Deals with the news that the bitfield with a piece has been stored.
    fn stored(self, index: u32) -> (next: (Self, Vec<Effect>))
        requires
            self.wf(),
        ensures
            next.0.wf(),
            self@.on_bitfield_stored(index, next.0@, effect_views(next.1@)),
    {
        let PeerManager { torrent_state, peers } = self;
        match torrent_state {
            TorrentState::Downloading { mut piece_manager } => {
                if !piece_manager.finish_piece(index) {
                    return (
                        PeerManager {
                            torrent_state: TorrentState::Downloading { piece_manager },
                            peers,
                        },
                        nothing(),
                    );
                }
                let mut effects = only(Effect::Broadcast(ResMessage::FinishedPiece(index)));
                if piece_manager.is_finished() {
                    let ghost first = effect_views(effects@);
                    effects.push(Effect::Broadcast(ResMessage::FinishedFile));
                    proof {
                        assert(effect_views(effects@) =~= first.push(
                            EffectView::Broadcast(ResView::FinishedFile),
                        ));
                        assert(effect_views(effects@) =~= seq![
                            EffectView::Broadcast(ResView::FinishedPiece(index)),
                            EffectView::Broadcast(ResView::FinishedFile),
                        ]);
                        let m = piece_manager@;
                        assert(m.wf());
                    }
                    let metainfo = piece_manager.into_metainfo();
                    (PeerManager { torrent_state: TorrentState::Seeding { metainfo }, peers }, effects)
                } else {
                    (
                        PeerManager {
                            torrent_state: TorrentState::Downloading { piece_manager },
                            peers,
                        },
                        effects,
                    )
                }
            },
            other => (PeerManager { torrent_state: other, peers }, nothing()),
        }
    }

    /// One step of the coordinator: deals with `event` and says what the
    /// caller is to do, in order. See `CoordinatorView::stepped`.
    pub fn handle(self, event: Event) -> (next: (Self, Vec<Effect>))
        requires
            self.wf(),
        ensures
            next.0.wf(),
            self@.stepped(event@, next.0@, effect_views(next.1@)),
    {
        match event {
            Event::Peer(from) => self.handle_peer(from),
            Event::PieceWritten(index) => {
                let PeerManager { torrent_state, peers } = self;
                match torrent_state {
                    TorrentState::Downloading { mut piece_manager } => {
                        let effects = match piece_manager.record_piece(index) {
                            Some(bitfield) => only(Effect::StoreBitfield { index, bitfield }),
                            None => nothing(),
                        };
                        (
                            PeerManager {
                                torrent_state: TorrentState::Downloading { piece_manager },
                                peers,
                            },
                            effects,
                        )
                    },
                    other => (PeerManager { torrent_state: other, peers }, nothing()),
                }
            },
            Event::BitfieldStored(index) => self.stored(index),
            Event::BlockRead { peer_id, request, data } => {
                let located: bool = match &self.torrent_state {
                    TorrentState::Downloading { piece_manager } => piece_manager.block_offset(
                        &request,
                    ).is_some(),
                    TorrentState::Seeding { metainfo } => seeding_block_offset(
                        metainfo,
                        &request,
                    ).is_some(),
                    _ => false,
                };
                let block: Option<ResponsePiecePayload> = match data {
                    Some(bytes) => {
                        if located && bytes.len() == request.length as usize {
                            Some(
                                ResponsePiecePayload {
                                    index: request.index,
                                    begin: request.begin,
                                    block: bytes,
                                },
                            )
                        } else {
                            None
                        }
                    },
                    None => None,
                };
                let effects = only(Effect::Send { peer_id, message: ResMessage::Block(block) });
                (self, effects)
            },
            Event::TorrentOpened { metainfo, bitfield } => {
                let PeerManager { torrent_state, peers } = self;
                match torrent_state {
                    TorrentState::WaitingForMetadata {
                        file_path,
                        metadata_piece_manager,
                        opening,
                    } => {
                        if !opening || !metainfo.is_valid() || bitfield.len()
                            != metainfo.n_pieces() as usize {
                            return (
                                PeerManager {
                                    torrent_state: TorrentState::WaitingForMetadata {
                                        file_path,
                                        metadata_piece_manager,
                                        opening,
                                    },
                                    peers,
                                },
                                nothing(),
                            );
                        }
                        match Self::open_state(metainfo, bitfield) {
                            Some(TorrentState::Seeding { metainfo }) => (
                                PeerManager {
                                    torrent_state: TorrentState::Seeding { metainfo },
                                    peers,
                                },
                                nothing(),
                            ),
                            Some(TorrentState::Downloading { mut piece_manager }) => {
                                let ghost fresh = piece_manager@;
                                let mut k: usize = 0;
                                while k < peers.len()
                                    invariant
                                        k <= peers@.len(),
                                        piece_manager.wf(),
                                        piece_manager@ == (ManagerView {
                                            selector: with_peers(fresh.selector, peers@, k as nat),
                                            ..fresh
                                        }),
                                    decreases peers@.len() - k,
                                {
                                    piece_manager.add_peer(peers[k].peer_id);
                                    k = k + 1;
                                }
                                (
                                    PeerManager {
                                        torrent_state: TorrentState::Downloading { piece_manager },
                                        peers,
                                    },
                                    only(Effect::Broadcast(ResMessage::StartDownload)),
                                )
                            },
                            Some(opened) => (PeerManager { torrent_state: opened, peers }, nothing()),
                            None => (
                                PeerManager {
                                    torrent_state: TorrentState::WaitingForMetadata {
                                        file_path,
                                        metadata_piece_manager,
                                        opening,
                                    },
                                    peers,
                                },
                                nothing(),
                            ),
                        }
                    },
                    other => (PeerManager { torrent_state: other, peers }, nothing()),
                }
            },
        }
    }
}

} // verus!
