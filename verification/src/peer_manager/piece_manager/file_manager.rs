//! Takes the blocks that arrive, checks finished pieces against their hashes,
//! and says where in the file a piece or a block lies.

use crate::digest::{sha1_digest, sha1_of};
use crate::messages::payloads::{BlockView, RequestPiecePayload, ResponsePiecePayload};
use crate::peer_manager::piece_manager::piece_selector::PeerId;
use crate::peer_manager::piece_manager::{copy_bits, DownloadQueue, ManagerView, PieceManager};
use crate::peer_manager::PieceView;
use crate::torrent::get_piece_size;
use vstd::prelude::*;

verus! {

/// What became of a block that arrived.
#[derive(Debug, Clone, Copy, PartialEq, Eq)]
pub enum BlockOutcome {
    /// The block belongs to no piece that is being downloaded, or does not
    /// lie within its piece: it was dropped.
    Discarded,
    /// The block is in the buffer of its piece, which is not finished.
    Stored,
    /// The block finished the piece with this index, and the hash of the
    /// piece is wrong: every block of the piece is to be asked for again.
    Rejected(u32),
    /// The block finished the piece with this index, and the hash of the
    /// piece is right: the piece can be written to the file.
    Verified(u32),
}

impl ManagerView {
    /// The state with the piece at place `q` of the queue replaced.
    pub open spec fn with_piece(self, q: int, piece: PieceView) -> ManagerView {
        ManagerView { queue: self.queue.update(q, piece), ..self }
    }

    /// What comes of the piece `index` once all its blocks have arrived and
    /// the SHA-1 hash of its bytes is `digest`. If that is the hash which
    /// the torrent gives for the piece, the piece counts as verified. If
    /// not, every block is to be asked for again, and the piece stays in the
    /// queue. Nothing happens to a piece that is not in the queue, not
    /// finished, or verified already.
    pub open spec fn settle(self, index: u32, digest: Seq<u8>) -> (ManagerView, BlockOutcome) {
        if !self.queued(index as int) {
            (self, BlockOutcome::Discarded)
        } else {
            let q = self.place(index as int);
            let piece = self.queue[q];
            if piece.verified || !piece.complete() {
                (self, BlockOutcome::Discarded)
            } else if digest == self.hashes[index as int] {
                (
                    self.with_piece(q, PieceView { verified: true, ..piece }),
                    BlockOutcome::Verified(index),
                )
            } else {
                (self.with_piece(q, piece.reset()), BlockOutcome::Rejected(index))
            }
        }
    }

    /// What comes of a block that arrived. A block is dropped if its piece
    /// is not in the queue or is verified already, or if the block does not
    /// lie within the piece. Otherwise its bytes go into the buffer of the
    /// piece and the block in which they begin counts as arrived. If that
    /// was the last block, the piece is settled by the hash of its bytes.
    pub open spec fn integrate(self, block: BlockView) -> (ManagerView, BlockOutcome) {
        if !self.queued(block.index as int) {
            (self, BlockOutcome::Discarded)
        } else {
            let q = self.place(block.index as int);
            let piece = self.queue[q];
            if piece.verified || !piece.holds(block.begin as nat, block.block.len()) {
                (self, BlockOutcome::Discarded)
            } else {
                let stored = piece.with_block(block.begin as nat, block.block);
                if !stored.complete() {
                    (self.with_piece(q, stored), BlockOutcome::Stored)
                } else {
                    self.with_piece(q, stored).settle(block.index, sha1_digest(stored.buf))
                }
            }
        }
    }

    /// Whether the piece can be written to the file: it is in the queue and
    /// verified.
    pub open spec fn ready(self, index: u32) -> bool {
        self.queued(index as int) && self.queue[self.place(index as int)].verified
    }

    /// The state once a verified piece has been written to the file: this
    /// client has the piece.
    pub open spec fn record_piece(self, index: u32) -> ManagerView {
        if self.ready(index) {
            ManagerView { selector: self.selector.mark_have(index), ..self }
        } else {
            self
        }
    }

    /// Whether the piece is done with: it is verified and this client has it.
    pub open spec fn recorded(self, index: u32) -> bool {
        self.ready(index) && self.have()[index as int]
    }

    /// The state once the bitfield with the piece has been stored: the piece
    /// leaves the queue.
    pub open spec fn finish_piece(self, index: u32) -> ManagerView {
        if self.recorded(index) {
            ManagerView {
                selector: self.selector.release(index),
                queue: self.queue.remove(self.place(index as int)),
                ..self
            }
        } else {
            self
        }
    }

    /// Where in the file the block lies that `request` asks for: `None`
    /// unless this client has the piece and the block lies within it.
    pub open spec fn block_offset(self, request: RequestPiecePayload) -> Option<int> {
        if request.index < self.count() && self.have()[request.index as int] && request.begin
            + request.length <= self.piece_size(request.index as nat) {
            Some(request.index * self.piece_length + request.begin)
        } else {
            None
        }
    }

    /// The state once a peer has gone: the selector forgets it, and the
    /// blocks that it was asked for and did not send are to be asked for
    /// again.
    pub open spec fn remove_peer(self, id: Seq<u8>) -> ManagerView {
        ManagerView {
            selector: self.selector.remove_peer(id),
            queue: Seq::new(self.queue.len(), |q: int| self.queue[q].without(id)),
            ..self
        }
    }
}

impl DownloadQueue {
    /// Where the piece `index` stands in a queue that holds no piece twice.
    fn locate(&self, index: u32, Ghost(state): Ghost<ManagerView>) -> (place: Option<usize>)
        requires
            state.wf(),
            state.queue == self@,
        ensures
            place is Some <==> state.queued(index as int),
            place is Some ==> place->0 == state.place(index as int) && place->0 < self@.len(),
    {
        let place = self.find(index);
        proof {
            if let Some(q) = place {
                let chosen = state.place(index as int);
                assert(state.queue[q as int].piece_i == index);
                if chosen < q {
                    assert(state.queue[chosen].piece_i != state.queue[q as int].piece_i);
                } else if chosen > q {
                    assert(state.queue[q as int].piece_i != state.queue[chosen].piece_i);
                }
            }
        }
        place
    }
}

impl PieceManager {
    /// Keeps what holds of the state when one piece in the queue changes
    /// but stays the same piece.
    proof fn lemma_with_piece(state: ManagerView, q: int, piece: PieceView)
        requires
            state.wf(),
            0 <= q < state.queue.len(),
            piece.wf(),
            piece.piece_i == state.queue[q].piece_i,
            piece.buf.len() == state.queue[q].buf.len(),
            piece.verified ==> sha1_digest(piece.buf) == state.hashes[piece.piece_i as int],
        ensures
            state.with_piece(q, piece).wf(),
    {
        let after = state.with_piece(q, piece);
        assert forall|p: int, r: int| 0 <= p < r < after.queue.len() implies (
        #[trigger] after.queue[p]).piece_i != (#[trigger] after.queue[r]).piece_i by {
            assert(after.queue[p].piece_i == state.queue[p].piece_i);
            assert(after.queue[r].piece_i == state.queue[r].piece_i);
        }
        assert forall|i: int| 0 <= i < after.count() implies (
        #[trigger] after.selector.in_flight[i] <==> after.queued(i)) by {
            assert(state.selector.in_flight[i] <==> state.queued(i));
            if state.queued(i) {
                let p = state.place(i);
                assert(after.queue[p].piece_i == i);
            }
            if after.queued(i) {
                let p = after.place(i);
                assert(state.queue[p].piece_i == i);
            }
        }
        assert forall|p: int| 0 <= p < after.queue.len() implies {
            &&& (#[trigger] after.queue[p]).wf()
            &&& after.queue[p].piece_i < after.count()
            &&& after.queue[p].buf.len() == after.piece_size(after.queue[p].piece_i as nat)
            &&& after.queue[p].verified ==> sha1_digest(after.queue[p].buf)
                == after.hashes[after.queue[p].piece_i as int]
        } by {
            if p != q {
                assert(after.queue[p] == state.queue[p]);
            } else {
                assert(state.queue[q].wf());
            }
        }
    }

    /// Settles a piece of which every block has arrived, by the SHA-1 hash
    /// `digest` of its bytes. See `ManagerView::settle`.
    pub fn settle(&mut self, index: u32, digest: &[u8; 20]) -> (outcome: BlockOutcome)
        requires
            old(self).wf(),
            old(self)@.queued(index as int) ==> digest@ == sha1_digest(
                old(self)@.queue[old(self)@.place(index as int)].buf,
            ),
        ensures
            final(self).wf(),
            (final(self)@, outcome) == old(self)@.settle(index, digest@),
            outcome is Verified ==> final(self)@.ready(index),
    {
        let Some(q) = self.download_queue.locate(index, Ghost(self@)) else {
            return BlockOutcome::Discarded;
        };
        let ghost piece = self@.queue[q as int];
        if self.download_queue.0[q].is_verified() || !self.download_queue.0[q].is_complete() {
            return BlockOutcome::Discarded;
        }
        if self.download_queue.0[q].hash_matches(digest, &self.metainfo) {
            self.download_queue.0[q].set_verified();
            proof {
                let goal = PieceView { verified: true, ..piece };
                assert(self@.queue =~= old(self)@.queue.update(q as int, goal));
                Self::lemma_with_piece(old(self)@, q as int, goal);
                let now = self@;
                assert(now.queue[q as int].piece_i == index);
                let chosen = now.place(index as int);
                if chosen < q {
                    assert(now.queue[chosen].piece_i != now.queue[q as int].piece_i);
                } else if chosen > q {
                    assert(now.queue[q as int].piece_i != now.queue[chosen].piece_i);
                }
            }
            BlockOutcome::Verified(index)
        } else {
            self.download_queue.0[q].reset();
            proof {
                assert(self@.queue =~= old(self)@.queue.update(q as int, piece.reset()));
                Self::lemma_with_piece(old(self)@, q as int, piece.reset());
            }
            BlockOutcome::Rejected(index)
        }
    }

    /// Takes a block that arrived. See `ManagerView::integrate`.
    pub fn write_block(&mut self, block: &ResponsePiecePayload) -> (outcome: BlockOutcome)
        requires
            old(self).wf(),
        ensures
            final(self).wf(),
            (final(self)@, outcome) == old(self)@.integrate(block@),
            outcome matches BlockOutcome::Verified(index) ==> index == block.index && final(self)@.ready(
                index,
            ),
    {
        let Some(q) = self.download_queue.locate(block.index, Ghost(self@)) else {
            return BlockOutcome::Discarded;
        };
        let ghost piece = self@.queue[q as int];
        if self.download_queue.0[q].is_verified() || !self.download_queue.0[q].holds(block) {
            return BlockOutcome::Discarded;
        }
        self.download_queue.0[q].update_state(block);
        let ghost stored = piece.with_block(block.begin as nat, block.block@);
        proof {
            assert(self@.queue =~= old(self)@.queue.update(q as int, stored));
            Self::lemma_with_piece(old(self)@, q as int, stored);
            assert(self@ == old(self)@.with_piece(q as int, stored));
        }
        if !self.download_queue.0[q].is_complete() {
            return BlockOutcome::Stored;
        }
        let digest: [u8; 20] = sha1_of(self.download_queue.0[q].bytes().as_slice());
        proof {
            let now = self@;
            assert(now.queue[q as int].piece_i == block.index);
            assert(now.queued(block.index as int));
            let chosen = now.place(block.index as int);
            if chosen < q {
                assert(now.queue[chosen].piece_i != now.queue[q as int].piece_i);
            } else if chosen > q {
                assert(now.queue[q as int].piece_i != now.queue[chosen].piece_i);
            }
        }
        self.settle(block.index, &digest)
    }

    /// The bytes of a verified piece, to be written to the file at
    /// `piece_offset`. `None` for a piece that is not in the queue or not
    /// verified. The SHA-1 hash of the bytes is the one that the torrent
    /// gives for the piece.
    pub fn piece_data(&self, index: u32) -> (data: Option<&Vec<u8>>)
        requires
            self.wf(),
        ensures
            data is Some <==> self@.ready(index),
            data is Some ==> {
                &&& data->0@ == self@.queue[self@.place(index as int)].buf
                &&& data->0@.len() == self@.piece_size(index as nat)
                &&& sha1_digest(data->0@) == self@.hashes[index as int]
            },
    {
        match self.download_queue.locate(index, Ghost(self@)) {
            None => None,
            Some(q) => {
                if self.download_queue.0[q].is_verified() {
                    Some(self.download_queue.0[q].bytes())
                } else {
                    None
                }
            },
        }
    }

    /// Where piece `index` begins in the file.
    pub fn piece_offset(&self, index: u32) -> (offset: u64)
        ensures
            offset == index * self@.piece_length,
    {
        self.metainfo.piece_offset(index)
    }

    /// Notes that a verified piece has been written to the file: this client
    /// has the piece from now on. Returns the pieces that this client has,
    /// to be stored; `None`, and nothing changes, for a piece that is not in
    /// the queue or not verified.
    pub fn record_piece(&mut self, index: u32) -> (bitfield: Option<Vec<bool>>)
        requires
            old(self).wf(),
        ensures
            final(self).wf(),
            final(self)@ == old(self)@.record_piece(index),
            bitfield is Some <==> old(self)@.ready(index),
            bitfield is Some ==> bitfield->0@ == final(self)@.have(),
    {
        let Some(q) = self.download_queue.locate(index, Ghost(self@)) else {
            return None;
        };
        if !self.download_queue.0[q].is_verified() {
            return None;
        }
        self.piece_selector.mark_have(index);
        proof {
            assert forall|i: int| 0 <= i < self@.count() implies (
            #[trigger] self@.selector.in_flight[i] <==> self@.queued(i)) by {
                assert(self@.queue == old(self)@.queue);
                assert(self@.selector.in_flight == old(self)@.selector.in_flight);
                assert(old(self)@.selector.in_flight[i] <==> old(self)@.queued(i));
            }
        }
        Some(copy_bits(self.piece_selector.have()))
    }

    /// Notes that the bitfield with the piece has been stored: the piece
    /// leaves the download queue. `false`, and nothing changes, unless the
    /// piece is verified and `record_piece` has been called for it.
    pub fn finish_piece(&mut self, index: u32) -> (finished: bool)
        requires
            old(self).wf(),
        ensures
            final(self).wf(),
            final(self)@ == old(self)@.finish_piece(index),
            finished == old(self)@.recorded(index),
    {
        let Some(q) = self.download_queue.locate(index, Ghost(self@)) else {
            return false;
        };
        if !self.download_queue.0[q].is_verified() || !self.piece_selector.have()[index as usize] {
            return false;
        }
        let _ = self.download_queue.0.remove(q);
        self.piece_selector.release(index);
        proof {
            let pre = old(self)@;
            let post = self@;
            assert(post.queue =~= pre.queue.remove(q as int));
            assert forall|p: int| 0 <= p < post.queue.len() implies {
                &&& (#[trigger] post.queue[p]).wf()
                &&& post.queue[p].piece_i < post.count()
                &&& post.queue[p].buf.len() == post.piece_size(post.queue[p].piece_i as nat)
                &&& post.queue[p].verified ==> sha1_digest(post.queue[p].buf)
                    == post.hashes[post.queue[p].piece_i as int]
            } by {
                let r = if p < q { p } else { p + 1 };
                assert(post.queue[p] == pre.queue[r]);
            }
            assert forall|a: int, b: int| 0 <= a < b < post.queue.len() implies (
            #[trigger] post.queue[a]).piece_i != (#[trigger] post.queue[b]).piece_i by {
                let ra = if a < q { a } else { a + 1 };
                let rb = if b < q { b } else { b + 1 };
                assert(post.queue[a] == pre.queue[ra]);
                assert(post.queue[b] == pre.queue[rb]);
            }
            assert forall|i: int| 0 <= i < post.count() implies (
            #[trigger] post.selector.in_flight[i] <==> post.queued(i)) by {
                assert(pre.selector.in_flight[i] <==> pre.queued(i));
                if post.queued(i) {
                    let p = post.place(i);
                    let r = if p < q { p } else { p + 1 };
                    assert(post.queue[p] == pre.queue[r]);
                    assert(pre.queue[r].piece_i == i);
                    if i == index {
                        if r < q {
                            assert(pre.queue[r].piece_i != pre.queue[q as int].piece_i);
                        } else {
                            assert(pre.queue[q as int].piece_i != pre.queue[r].piece_i);
                        }
                    }
                }
                if pre.queued(i) && i != index {
                    let r = pre.place(i);
                    let p = if r < q { r } else { r - 1 };
                    assert(post.queue[p] == pre.queue[r]);
                }
            }
        }
        true
    }

    /// Where in the file the block lies that a peer asks for. `None` unless
    /// this client has the piece and the block lies within it.
    pub fn block_offset(&self, request: &RequestPiecePayload) -> (offset: Option<u64>)
        requires
            self.wf(),
        ensures
            match offset {
                Some(at) => self@.block_offset(*request) == Some(at as int),
                None => self@.block_offset(*request) is None,
            },
    {
        let have = self.piece_selector.have();
        let piece_i: usize = request.index as usize;
        if piece_i >= have.len() || !have[piece_i] {
            return None;
        }
        let size: u32 = get_piece_size(&self.metainfo, request.index);
        if request.begin > size || request.length > size - request.begin {
            return None;
        }
        let start: u64 = self.metainfo.piece_offset(request.index);
        assert(request.index * self.metainfo.piece_length <= 0xffff_ffff * 0xffff_ffff)
            by (nonlinear_arith)
            requires
                request.index <= 0xffff_ffff,
                self.metainfo.piece_length <= 0xffff_ffff,
        ;
        Some(start + request.begin as u64)
    }

    /// The answer to a peer that asked for a block, from the bytes that were
    /// read from the file at `block_offset`. `None` if this client does not
    /// have the piece, if the block does not lie within it, or if the bytes
    /// could not be read in full.
    pub fn get_block(&self, req_payload: &RequestPiecePayload, read: Option<Vec<u8>>) -> (res:
        Option<ResponsePiecePayload>)
        requires
            self.wf(),
        ensures
            res is Some <==> self@.block_offset(*req_payload) is Some && read is Some
                && read->0@.len() == req_payload.length,
            res is Some ==> {
                &&& res->0.index == req_payload.index
                &&& res->0.begin == req_payload.begin
                &&& res->0.block@ == read->0@
            },
    {
        if self.block_offset(req_payload).is_none() {
            return None;
        }
        match read {
            None => None,
            Some(block) => {
                if block.len() != req_payload.length as usize {
                    None
                } else {
                    Some(
                        ResponsePiecePayload {
                            index: req_payload.index,
                            begin: req_payload.begin,
                            block,
                        },
                    )
                }
            },
        }
    }

    /// Forgets a peer that went. The blocks that it was asked for and did
    /// not send are to be asked for again.
    pub fn remove_peer(&mut self, id: &PeerId)
        requires
            old(self).wf(),
        ensures
            final(self).wf(),
            final(self)@ == old(self)@.remove_peer(id@),
    {
        self.piece_selector.remove_peer(id);
        let count: usize = self.download_queue.0.len();
        let mut q: usize = 0;
        while q < count
            invariant
                q <= count,
                count == self.download_queue.0@.len(),
                self@.queue.len() == old(self)@.queue.len(),
                self@.selector == old(self)@.selector.remove_peer(id@),
                self@.name == old(self)@.name,
                self@.piece_length == old(self)@.piece_length,
                self@.length == old(self)@.length,
                self@.hashes == old(self)@.hashes,
                forall|p: int|
                    0 <= p < q ==> #[trigger] self@.queue[p] == old(self)@.queue[p].without(id@),
                forall|p: int| q <= p < count ==> #[trigger] self@.queue[p] == old(self)@.queue[p],
                forall|p: int| 0 <= p < count ==> (#[trigger] old(self)@.queue[p]).wf(),
            decreases count - q,
        {
            let ghost before = self@.queue;
            assert(before[q as int] == old(self)@.queue[q as int]);
            assert(self.download_queue.0@[q as int]@ == before[q as int]);
            self.download_queue.0[q].release(id);
            proof {
                assert forall|p: int| 0 <= p < count && p != q implies #[trigger] self@.queue[p]
                    == before[p] by {}
                assert(self@.queue[q as int] == before[q as int].without(id@));
            }
            q = q + 1;
        }
        proof {
            let pre = old(self)@;
            let post = self@;
            assert(post.queue =~= pre.remove_peer(id@).queue);
            assert forall|p: int| 0 <= p < post.queue.len() implies {
                &&& (#[trigger] post.queue[p]).wf()
                &&& post.queue[p].piece_i < post.count()
                &&& post.queue[p].buf.len() == post.piece_size(post.queue[p].piece_i as nat)
                &&& post.queue[p].verified ==> sha1_digest(post.queue[p].buf)
                    == post.hashes[post.queue[p].piece_i as int]
            } by {
                assert(pre.queue[p].wf());
                assert(post.queue[p] == pre.queue[p].without(id@));
                if post.queue[p].verified {
                    assert forall|k: int| 0 <= k < post.queue[p].blocks.len() implies post.queue[p].blocks[k]
                        is Finished by {
                        assert(pre.queue[p].blocks[k] is Finished);
                    }
                }
            }
            assert forall|a: int, b: int| 0 <= a < b < post.queue.len() implies (
            #[trigger] post.queue[a]).piece_i != (#[trigger] post.queue[b]).piece_i by {
                assert(post.queue[a].piece_i == pre.queue[a].piece_i);
                assert(post.queue[b].piece_i == pre.queue[b].piece_i);
            }
            assert forall|i: int| 0 <= i < post.count() implies (
            #[trigger] post.selector.in_flight[i] <==> post.queued(i)) by {
                assert(post.selector.in_flight == pre.selector.in_flight);
                assert(pre.selector.in_flight[i] <==> pre.queued(i));
                if pre.queued(i) {
                    let p = pre.place(i);
                    assert(post.queue[p].piece_i == i);
                }
                if post.queued(i) {
                    let p = post.place(i);
                    assert(pre.queue[p].piece_i == i);
                }
            }
        }
    }
}

} // verus!
