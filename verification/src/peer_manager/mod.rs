//! The coordinator of a torrent and what it keeps of every piece that is being
//! downloaded.

pub mod coordinator;
pub mod laws;
pub mod piece_manager;

use crate::digest::{sha1_digest, sha1_of};
use crate::messages::payloads::{RequestPiecePayload, ResponsePiecePayload};
use crate::peer_manager::piece_manager::piece_selector::PeerId;
use crate::torrent::{
    block_count, get_block_len, get_piece_size, lemma_blocks_cover_piece, same_id,
    spec_block_count, spec_block_len, Metainfo,
};
use vstd::prelude::*;

verus! {

/// Number of blocks that are requested from a peer at a time.
pub const BLOCK_QUEUE_SIZE_MAX: usize = 20;

/// Number of pieces that are downloaded at a time.
pub const MAX_PIECES_IN_PARALLEL: usize = 5;

/// How far a block of a piece has come.
#[derive(Debug, Eq, PartialEq, Clone, Copy)]
pub enum BlockState {
    /// The block has arrived.
    Finished,
    /// The block has been requested from a peer.
    InProcess,
    /// Nobody has been asked for the block.
    Missing,
}

impl BlockState {
    pub fn is_finished(&self) -> (finished: bool)
        ensures
            finished == (*self is Finished),
    {
        match self {
            BlockState::Finished => true,
            _ => false,
        }
    }

    pub fn is_none(&self) -> (none: bool)
        ensures
            none == (*self is Missing),
    {
        match self {
            BlockState::Missing => true,
            _ => false,
        }
    }
}

/// A piece that is being downloaded.
#[derive(Debug)]
pub struct PieceState {
    /// How far each block has come.
    blocks: Vec<BlockState>,
    /// For each block that has been requested, the peer that was asked.
    askers: Vec<PeerId>,
    /// The index of the piece.
    piece_i: u32,
    /// The bytes of the piece, zero where nothing has arrived.
    buf: Vec<u8>,
    /// Whether every block has arrived and the hash of the bytes is the
    /// piece's.
    verified: bool,
}

/// A piece that is being downloaded.
pub ghost struct PieceView {
    pub piece_i: u32,
    pub blocks: Seq<BlockState>,
    pub askers: Seq<Seq<u8>>,
    pub buf: Seq<u8>,
    pub verified: bool,
}

impl View for PieceState {
    type V = PieceView;

    closed spec fn view(&self) -> PieceView {
        PieceView {
            piece_i: self.piece_i,
            blocks: self.blocks@,
            askers: Seq::new(self.askers@.len(), |k: int| self.askers@[k]@),
            buf: self.buf@,
            verified: self.verified,
        }
    }
}

impl PieceView {
    /// What holds of a piece in the download queue: it has bytes, a state for
    /// each of its blocks, and it counts as verified only with every block.
    pub open spec fn wf(self) -> bool {
        &&& 0 < self.buf.len() <= u32::MAX
        &&& self.blocks.len() == spec_block_count(self.buf.len())
        &&& self.askers.len() == self.blocks.len()
        &&& self.verified ==> self.complete()
    }

    /// Whether every block has arrived.
    pub open spec fn complete(self) -> bool {
        forall|k: int| 0 <= k < self.blocks.len() ==> self.blocks[k] is Finished
    }

    /// Whether there is a block that nobody has been asked for.
    pub open spec fn needs_blocks(self) -> bool {
        exists|k: int| 0 <= k < self.blocks.len() && self.blocks[k] is Missing
    }

    /// Whether `peer` has been asked for block `block` and has not answered.
    pub open spec fn asked(self, peer: Seq<u8>, block: int) -> bool {
        &&& 0 <= block < self.blocks.len()
        &&& self.blocks[block] is InProcess
        &&& self.askers[block] == peer
    }

    /// A piece of `size` bytes of which nothing has arrived.
    pub open spec fn fresh(piece_i: u32, size: nat) -> PieceView {
        PieceView {
            piece_i,
            blocks: Seq::new(spec_block_count(size), |k: int| BlockState::Missing),
            askers: Seq::new(spec_block_count(size), |k: int| Seq::new(20, |i: int| 0u8)),
            buf: Seq::new(size, |i: int| 0u8),
            verified: false,
        }
    }

    /// Whether `len` bytes at `begin` lie within the piece.
    pub open spec fn holds(self, begin: nat, len: nat) -> bool {
        begin + len <= self.buf.len() && begin / 16384 < self.blocks.len()
    }

    /// The piece once `data` has arrived for the place `begin`: the bytes
    /// are in the buffer, and the block in which `begin` lies has arrived.
    pub open spec fn with_block(self, begin: nat, data: Seq<u8>) -> PieceView {
        PieceView {
            buf: Seq::new(
                self.buf.len(),
                |i: int|
                    if begin <= i < begin + data.len() {
                        data[i - begin]
                    } else {
                        self.buf[i]
                    },
            ),
            blocks: self.blocks.update((begin / 16384) as int, BlockState::Finished),
            ..self
        }
    }

    /// The piece once its hash was found wrong: every block is to be asked
    /// for again. The bytes stay until they are written over.
    pub open spec fn reset(self) -> PieceView {
        PieceView {
            blocks: Seq::new(self.blocks.len(), |k: int| BlockState::Missing),
            verified: false,
            ..self
        }
    }

    /// The piece once `peer` has gone: the blocks that it was asked for and
    /// did not send are to be asked for again.
    pub open spec fn without(self, peer: Seq<u8>) -> PieceView {
        PieceView {
            blocks: Seq::new(
                self.blocks.len(),
                |k: int|
                    if self.asked(peer, k) {
                        BlockState::Missing
                    } else {
                        self.blocks[k]
                    },
            ),
            ..self
        }
    }

    /// Whether `requests` and `after` are what comes of asking `peer` for up
    /// to `limit` blocks of this piece. The blocks are the first that nobody
    /// has been asked for, in order; each request names the piece, the place
    /// and the length of one of them; afterwards `peer` has been asked for
    /// them, and nothing else has changed.
    pub open spec fn claimed(
        self,
        after: PieceView,
        peer: Seq<u8>,
        limit: nat,
        requests: Seq<RequestPiecePayload>,
    ) -> bool {
        &&& after.piece_i == self.piece_i
        &&& after.buf == self.buf
        &&& after.verified == self.verified
        &&& after.blocks.len() == self.blocks.len()
        &&& after.askers.len() == self.askers.len()
        &&& requests.len() <= limit
        &&& forall|j: int|
            0 <= j < requests.len() ==> {
                let block = (#[trigger] requests[j]).begin as int / 16384;
                &&& requests[j].index == self.piece_i
                &&& 0 <= block < self.blocks.len()
                &&& requests[j].begin == 16384 * block
                &&& requests[j].length == spec_block_len(self.buf.len(), block as nat)
                &&& self.blocks[block] is Missing
                &&& after.asked(peer, block)
            }
        &&& forall|i: int, j: int|
            0 <= i < j < requests.len() ==> (#[trigger] requests[i]).begin < (
            #[trigger] requests[j]).begin
        &&& forall|k: int|
            0 <= k < self.blocks.len() ==> (#[trigger] after.blocks[k] == self.blocks[k]
                && after.askers[k] == self.askers[k]) || exists|j: int|
                0 <= j < requests.len() && (#[trigger] requests[j]).begin == 16384 * k
        &&& forall|k: int|
            0 <= k < self.blocks.len() && #[trigger] after.blocks[k] is Missing ==> {
                &&& requests.len() == limit
                &&& forall|j: int|
                    0 <= j < requests.len() ==> (#[trigger] requests[j]).begin < 16384 * k
            }
    }
}

impl PieceState {
    /// What holds of a piece in the download queue.
    pub open spec fn wf(&self) -> bool {
        self@.wf()
    }

    /// The state of piece `piece_i` of the torrent before anything has arrived.
    pub fn new(torrent_info: &Metainfo, piece_i: u32) -> (piece: Self)
        requires
            torrent_info.wf(),
            piece_i < torrent_info.piece_count(),
        ensures
            piece.wf(),
            piece@ == PieceView::fresh(piece_i, torrent_info.piece_size(piece_i as nat) as nat),
    {
        let piece_size: u32 = get_piece_size(torrent_info, piece_i);
        let n_blocks: u32 = block_count(piece_size);
        let piece = PieceState {
            blocks: vec![BlockState::Missing; n_blocks as usize],
            askers: vec![[0u8; 20]; n_blocks as usize],
            piece_i,
            buf: vec![0u8; piece_size as usize],
            verified: false,
        };
        proof {
            let goal = PieceView::fresh(piece_i, piece_size as nat);
            assert(piece@.buf =~= goal.buf);
            assert(piece@.blocks =~= goal.blocks);
            assert forall|k: int| 0 <= k < goal.askers.len() implies piece@.askers[k]
                == goal.askers[k] by {
                assert(piece@.askers[k] =~= goal.askers[k]);
            }
            assert(piece@.askers =~= goal.askers);
        }
        piece
    }

    /// The index of the piece.
    pub fn index(&self) -> (piece_i: u32)
        ensures
            piece_i == self@.piece_i,
    {
        self.piece_i
    }

    /// The bytes of the piece as far as they have arrived.
    pub fn bytes(&self) -> (buf: &Vec<u8>)
        ensures
            buf@ == self@.buf,
    {
        &self.buf
    }

    /// Whether the hash of the piece has been found right.
    pub fn is_verified(&self) -> (verified: bool)
        ensures
            verified == self@.verified,
    {
        self.verified
    }

    /// Whether every block has arrived.
    pub fn is_complete(&self) -> (complete: bool)
        ensures
            complete == self@.complete(),
    {
        let mut k: usize = 0;
        while k < self.blocks.len()
            invariant
                k <= self.blocks@.len(),
                forall|j: int| 0 <= j < k ==> self.blocks@[j] is Finished,
            decreases self.blocks@.len() - k,
        {
            if !self.blocks[k].is_finished() {
                return false;
            }
            k = k + 1;
        }
        true
    }

    /// Whether there is a block that nobody has been asked for.
    pub fn needs_blocks(&self) -> (needs: bool)
        ensures
            needs == self@.needs_blocks(),
    {
        let mut k: usize = 0;
        while k < self.blocks.len()
            invariant
                k <= self.blocks@.len(),
                forall|j: int| 0 <= j < k ==> !(self.blocks@[j] is Missing),
            decreases self.blocks@.len() - k,
        {
            if self.blocks[k].is_none() {
                return true;
            }
            k = k + 1;
        }
        false
    }

    /// Whether the bytes of `block` lie within the piece.
    pub fn holds(&self, block: &ResponsePiecePayload) -> (inside: bool)
        ensures
            inside == self@.holds(block.begin as nat, block.block@.len()),
    {
        let begin: usize = block.begin as usize;
        let len: usize = block.block.len();
        len <= self.buf.len() && begin <= self.buf.len() - len && begin / 16384
            < self.blocks.len()
    }

    /// Copies the bytes of a block that arrived into the buffer and marks the
    /// block as finished.
    pub fn update_state(&mut self, block: &ResponsePiecePayload)
        requires
            old(self).wf(),
            !old(self)@.verified,
            old(self)@.holds(block.begin as nat, block.block@.len()),
        ensures
            final(self).wf(),
            final(self)@ == old(self)@.with_block(block.begin as nat, block.block@),
    {
        let block_begin: usize = block.begin as usize;
        let block_len: usize = block.block.len();
        let mut i: usize = 0;
        while i < block_len
            invariant
                i <= block_len,
                block_len == block.block@.len(),
                block_begin == block.begin,
                block_begin + block_len <= self.buf@.len(),
                self.buf@.len() <= u32::MAX,
                self.buf@.len() == old(self).buf@.len(),
                self.blocks == old(self).blocks,
                self.askers == old(self).askers,
                self.piece_i == old(self).piece_i,
                self.verified == old(self).verified,
                forall|j: int|
                    0 <= j < self.buf@.len() ==> self.buf@[j] == if block_begin <= j < block_begin
                        + i {
                        block.block@[j - block_begin]
                    } else {
                        old(self).buf@[j]
                    },
            decreases block_len - i,
        {
            self.buf.set(block_begin + i, block.block[i]);
            i = i + 1;
        }
        let block_i: usize = block_begin / 16384;
        self.blocks.set(block_i, BlockState::Finished);
        proof {
            let goal = old(self)@.with_block(block.begin as nat, block.block@);
            assert(self@.buf =~= goal.buf);
            assert(self@.blocks =~= goal.blocks);
            assert(self@.askers =~= goal.askers);
        }
    }

    /// Whether `hash` is the hash that the torrent gives for this piece.
    pub fn hash_matches(&self, hash: &[u8; 20], torrent_info: &Metainfo) -> (matches: bool)
        requires
            self@.piece_i < torrent_info.piece_count(),
        ensures
            matches == (hash@ == torrent_info.pieces@[self@.piece_i as int]),
    {
        same_id(hash, &torrent_info.pieces.0[self.piece_i as usize])
    }

    /// Whether the SHA-1 hash of the bytes is the hash that the torrent gives
    /// for this piece.
    pub fn check_hash(&self, torrent_info: &Metainfo) -> (matches: bool)
        requires
            self@.piece_i < torrent_info.piece_count(),
        ensures
            matches == (sha1_digest(self@.buf) == torrent_info.pieces@[self@.piece_i as int]),
    {
        let hash: [u8; 20] = sha1_of(self.buf.as_slice());
        self.hash_matches(&hash, torrent_info)
    }

    /// Marks the piece as verified.
    pub fn set_verified(&mut self)
        requires
            old(self).wf(),
            old(self)@.complete(),
        ensures
            final(self).wf(),
            final(self)@ == (PieceView { verified: true, ..old(self)@ }),
    {
        self.verified = true;
        proof {
            assert(self@.askers =~= old(self)@.askers);
        }
    }

    /// Marks every block as not asked for, after the hash was found wrong.
    pub fn reset(&mut self)
        requires
            old(self).wf(),
        ensures
            final(self).wf(),
            final(self)@ == old(self)@.reset(),
    {
        let count: usize = self.blocks.len();
        let mut k: usize = 0;
        while k < count
            invariant
                k <= count,
                count == self.blocks@.len(),
                self.askers == old(self).askers,
                self.buf == old(self).buf,
                self.piece_i == old(self).piece_i,
                forall|j: int| 0 <= j < k ==> self.blocks@[j] is Missing,
            decreases count - k,
        {
            self.blocks.set(k, BlockState::Missing);
            k = k + 1;
        }
        self.verified = false;
        proof {
            assert(self@.blocks =~= old(self)@.reset().blocks);
            assert(self@.askers =~= old(self)@.askers);
        }
    }

    /// Gives up the blocks that `peer` was asked for and did not send.
    pub fn release(&mut self, peer: &PeerId)
        requires
            old(self).wf(),
        ensures
            final(self).wf(),
            final(self)@ == old(self)@.without(peer@),
    {
        let count: usize = self.blocks.len();
        let mut k: usize = 0;
        while k < count
            invariant
                k <= count,
                count == self.blocks@.len(),
                self.blocks@.len() == old(self).blocks@.len(),
                self.askers@.len() == count,
                self.askers == old(self).askers,
                self.buf == old(self).buf,
                self.piece_i == old(self).piece_i,
                self.verified == old(self).verified,
                forall|j: int|
                    0 <= j < k ==> self.blocks@[j] == if old(self)@.asked(peer@, j) {
                        BlockState::Missing
                    } else {
                        old(self).blocks@[j]
                    },
                forall|j: int| k <= j < count ==> self.blocks@[j] == old(self).blocks@[j],
            decreases count - k,
        {
            let asked: bool = match self.blocks[k] {
                BlockState::InProcess => same_id(&self.askers[k], peer),
                _ => false,
            };
            if asked {
                self.blocks.set(k, BlockState::Missing);
            }
            k = k + 1;
        }
        proof {
            assert(self@.blocks =~= old(self)@.without(peer@).blocks);
            assert(self@.askers =~= old(self)@.askers);
            if self@.verified {
                assert forall|j: int| 0 <= j < self@.blocks.len() implies self@.blocks[j]
                    is Finished by {
                    assert(old(self)@.blocks[j] is Finished);
                }
            }
        }
    }

    /// Asks `peer` for up to `limit` blocks that nobody has been asked for,
    /// the first of them first, and returns the requests to send.
    pub fn claim_blocks(&mut self, peer: &PeerId, limit: usize) -> (requests: Vec<
        RequestPiecePayload,
    >)
        requires
            old(self).wf(),
        ensures
            final(self).wf(),
            old(self)@.claimed(final(self)@, peer@, limit as nat, requests@),
    {
        let mut requests: Vec<RequestPiecePayload> = Vec::new();
        let n_blocks: u32 = self.blocks.len() as u32;
        let piece_size: u32 = self.buf.len() as u32;
        let mut block_i: u32 = 0;
        while block_i < n_blocks
            invariant
                block_i <= n_blocks,
                n_blocks == self.blocks@.len(),
                n_blocks == spec_block_count(piece_size as nat),
                piece_size == self.buf@.len(),
                piece_size > 0,
                self.blocks@.len() == old(self).blocks@.len(),
                self.askers@.len() == old(self).askers@.len(),
                self.askers@.len() == n_blocks,
                self.buf == old(self).buf,
                self.piece_i == old(self).piece_i,
                self.verified == old(self).verified,
                requests@.len() <= limit,
                requests@.len() <= block_i,
                forall|j: int|
                    0 <= j < requests@.len() ==> {
                        let block = (#[trigger] requests@[j]).begin as int / 16384;
                        &&& requests@[j].index == self.piece_i
                        &&& 0 <= block < block_i
                        &&& requests@[j].begin == 16384 * block
                        &&& requests@[j].length == spec_block_len(piece_size as nat, block as nat)
                        &&& old(self).blocks@[block] is Missing
                        &&& self.blocks@[block] is InProcess
                        &&& self.askers@[block]@ == peer@
                    },
                forall|i: int, j: int|
                    0 <= i < j < requests@.len() ==> (#[trigger] requests@[i]).begin < (
                    #[trigger] requests@[j]).begin,
                forall|k: int|
                    0 <= k < n_blocks ==> (#[trigger] self.blocks@[k] == old(self).blocks@[k]
                        && self.askers@[k] == old(self).askers@[k]) || exists|j: int|
                        0 <= j < requests@.len() && (#[trigger] requests@[j]).begin == 16384 * k,
                forall|k: int| block_i <= k < n_blocks ==> self.blocks@[k] == old(self).blocks@[k],
                forall|k: int|
                    0 <= k < block_i && #[trigger] self.blocks@[k] is Missing ==> {
                        &&& requests@.len() == limit
                        &&& forall|j: int|
                            0 <= j < requests@.len() ==> (#[trigger] requests@[j]).begin < 16384
                                * k
                    },
            decreases n_blocks - block_i,
        {
            let ghost before = requests@;
            let ghost blocks_before = self.blocks@;
            let ghost askers_before = self.askers@;
            if self.blocks[block_i as usize].is_none() && requests.len() < limit {
                proof {
                    lemma_blocks_cover_piece(piece_size as nat, block_i as nat);
                }
                let begin: u32 = block_i * 16384;
                let length: u32 = get_block_len(n_blocks, piece_size, block_i);
                requests.push(RequestPiecePayload::new(self.piece_i, begin, length));
                self.blocks.set(block_i as usize, BlockState::InProcess);
                self.askers.set(block_i as usize, *peer);
                proof {
                    let last = requests@.len() - 1;
                    assert(requests@[last].begin as int / 16384 == block_i);
                    assert forall|j: int| 0 <= j < requests@.len() implies {
                        let block = (#[trigger] requests@[j]).begin as int / 16384;
                        &&& requests@[j].index == self.piece_i
                        &&& 0 <= block < block_i + 1
                        &&& requests@[j].begin == 16384 * block
                        &&& requests@[j].length == spec_block_len(piece_size as nat, block as nat)
                        &&& old(self).blocks@[block] is Missing
                        &&& self.blocks@[block] is InProcess
                        &&& self.askers@[block]@ == peer@
                    } by {
                        if j < last {
                            assert(requests@[j] == before[j]);
                        }
                    }
                    assert forall|i: int, j: int| 0 <= i < j < requests@.len() implies (
                    #[trigger] requests@[i]).begin < (#[trigger] requests@[j]).begin by {
                        assert(requests@[i] == before[i]);
                        if j < last {
                            assert(requests@[j] == before[j]);
                        }
                    }
                    assert forall|k: int| 0 <= k < n_blocks implies (#[trigger] self.blocks@[k]
                        == old(self).blocks@[k] && self.askers@[k] == old(self).askers@[k])
                        || exists|j: int|
                        0 <= j < requests@.len() && (#[trigger] requests@[j]).begin == 16384
                            * k by {
                        if k == block_i {
                            assert(requests@[last].begin == 16384 * k);
                        } else {
                            assert(self.blocks@[k] == blocks_before[k]);
                            assert(self.askers@[k] == askers_before[k]);
                            assert((#[trigger] blocks_before[k] == old(self).blocks@[k]
                                && askers_before[k] == old(self).askers@[k]) || exists|j: int|
                                0 <= j < before.len() && (#[trigger] before[j]).begin == 16384
                                    * k);
                            if !(blocks_before[k] == old(self).blocks@[k] && askers_before[k]
                                == old(self).askers@[k]) {
                                let j = choose|j: int|
                                    0 <= j < before.len() && (#[trigger] before[j]).begin == 16384
                                        * k;
                                assert(requests@[j] == before[j]);
                            }
                        }
                    }
                    assert forall|k: int|
                        0 <= k < block_i + 1 && #[trigger] self.blocks@[k] is Missing implies {
                        &&& requests@.len() == limit
                        &&& forall|j: int|
                            0 <= j < requests@.len() ==> (#[trigger] requests@[j]).begin < 16384
                                * k
                    } by {
                        assert(k < block_i);
                        assert(blocks_before[k] is Missing);
                    }
                }
            } else {
                proof {
                    assert forall|k: int|
                        0 <= k < block_i + 1 && #[trigger] self.blocks@[k] is Missing implies {
                        &&& requests@.len() == limit
                        &&& forall|j: int|
                            0 <= j < requests@.len() ==> (#[trigger] requests@[j]).begin < 16384
                                * k
                    } by {
                        if k == block_i {
                            assert forall|j: int| 0 <= j < requests@.len() implies (
                            #[trigger] requests@[j]).begin < 16384 * k by {
                                let block = requests@[j].begin as int / 16384;
                                assert(block < block_i);
                            }
                        }
                    }
                }
            }
            block_i = block_i + 1;
        }
        proof {
            assert(self@.askers.len() == old(self)@.askers.len());
            assert forall|k: int| 0 <= k < old(self)@.blocks.len() implies (
            #[trigger] self@.blocks[k] == old(self)@.blocks[k] && self@.askers[k] == old(
                self,
            )@.askers[k]) || exists|j: int|
                0 <= j < requests@.len() && (#[trigger] requests@[j]).begin == 16384 * k by {
                if self.blocks@[k] == old(self).blocks@[k] && self.askers@[k] == old(
                    self,
                ).askers@[k] {
                    assert(self@.askers[k] == old(self)@.askers[k]);
                }
            }
            if self@.verified {
                assert forall|j: int| 0 <= j < self@.blocks.len() implies self@.blocks[j]
                    is Finished by {
                    assert(old(self)@.blocks[j] is Finished);
                }
            }
        }
        requests
    }
}


/// A session that has made itself known to the coordinator.
#[derive(Debug, Clone, Copy, PartialEq)]
pub struct PeerConn {
    /// The id of the peer at the other end.
    pub peer_id: PeerId,
    /// Whether the peer offers the extension protocol.
    pub extensions: bool,
}

/// What a session tells the coordinator.
#[derive(Debug, Clone, PartialEq)]
pub enum ReqMessage {
    /// The session has shaken hands with its peer.
    NewConnection(PeerConn),
    /// The session can send more requests.
    NeedBlockQueue,
    /// The peer sent a block.
    GotBlock(ResponsePiecePayload),
    /// The peer asks for a block.
    NeedBlock(RequestPiecePayload),
    /// The session asks which pieces this client has.
    WhatDoWeHave,
    /// The peer sent its bitfield.
    PeerBitfield(crate::messages::payloads::BitfieldPayload),
    /// The peer says that it has a piece.
    PeerHas(crate::messages::payloads::HavePayload),
    /// The session has ended.
    PeerDisconnected(PeerId),
    /// An extension has something to say.
    Extension(crate::extensions::ExtensionMessage),
}

/// What a session tells the coordinator.
pub ghost enum ReqView {
    NewConnection(PeerConn),
    NeedBlockQueue,
    GotBlock(crate::messages::payloads::BlockView),
    NeedBlock(RequestPiecePayload),
    WhatDoWeHave,
    PeerBitfield(Seq<bool>),
    PeerHas(crate::messages::payloads::HavePayload),
    PeerDisconnected(Seq<u8>),
    Extension(crate::extensions::ExtensionMessageView),
}

impl View for ReqMessage {
    type V = ReqView;

    open spec fn view(&self) -> ReqView {
        match self {
            ReqMessage::NewConnection(conn) => ReqView::NewConnection(*conn),
            ReqMessage::NeedBlockQueue => ReqView::NeedBlockQueue,
            ReqMessage::GotBlock(block) => ReqView::GotBlock(block@),
            ReqMessage::NeedBlock(request) => ReqView::NeedBlock(*request),
            ReqMessage::WhatDoWeHave => ReqView::WhatDoWeHave,
            ReqMessage::PeerBitfield(bitfield) => ReqView::PeerBitfield(bitfield@),
            ReqMessage::PeerHas(have) => ReqView::PeerHas(*have),
            ReqMessage::PeerDisconnected(id) => ReqView::PeerDisconnected(id@),
            ReqMessage::Extension(message) => ReqView::Extension(message@),
        }
    }
}

/// What a session tells the coordinator, with the peer that it is the
/// session of.
#[derive(Debug, Clone, PartialEq)]
pub struct ReqMsgFromPeer {
    pub peer_id: PeerId,
    pub msg: ReqMessage,
}

/// What the coordinator tells a session.
#[derive(Debug, Clone, PartialEq)]
pub enum ResMessage {
    /// The torrent is known: the session can ask for requests.
    StartDownload,
    /// The requests to send to the peer next.
    NewBlockQueue(Vec<RequestPiecePayload>),
    /// The block that the peer asked for, if this client has it.
    Block(Option<ResponsePiecePayload>),
    /// The pieces that this client has.
    WeHave(crate::messages::payloads::BitfieldPayload),
    /// This client has finished a piece.
    FinishedPiece(u32),
    /// This client has every piece.
    FinishedFile,
    /// The payload of a message of an extension. The session adds the id
    /// under which its peer wants the extension.
    ExtensionData(crate::extensions::ExtensionType, Vec<u8>),
}

/// What the coordinator tells a session.
pub ghost enum ResView {
    StartDownload,
    NewBlockQueue(Seq<RequestPiecePayload>),
    Block(Option<crate::messages::payloads::BlockView>),
    WeHave(Seq<bool>),
    FinishedPiece(u32),
    FinishedFile,
    ExtensionData(crate::extensions::ExtensionType, Seq<u8>),
}

impl View for ResMessage {
    type V = ResView;

    open spec fn view(&self) -> ResView {
        match self {
            ResMessage::StartDownload => ResView::StartDownload,
            ResMessage::NewBlockQueue(requests) => ResView::NewBlockQueue(requests@),
            ResMessage::Block(block) => ResView::Block(
                match block {
                    Some(block) => Some(block@),
                    None => None,
                },
            ),
            ResMessage::WeHave(bitfield) => ResView::WeHave(bitfield@),
            ResMessage::FinishedPiece(piece) => ResView::FinishedPiece(*piece),
            ResMessage::FinishedFile => ResView::FinishedFile,
            ResMessage::ExtensionData(kind, data) => ResView::ExtensionData(*kind, data@),
        }
    }
}

} // verus!
