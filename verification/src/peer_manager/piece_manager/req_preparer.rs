//! Makes the requests that are sent to a peer.

use crate::messages::payloads::RequestPiecePayload;
use crate::peer_manager::piece_manager::piece_selector::PeerId;
use crate::digest::sha1_digest;
use crate::peer_manager::piece_manager::selector_laws::{chosen, lemma_scan_facts};
use crate::peer_manager::piece_manager::selector_model::offers;
use crate::peer_manager::piece_manager::{
    copy_bits, wanted, DownloadQueue, ManagerView, PieceManager,
};
use crate::peer_manager::{PieceState, PieceView, MAX_PIECES_IN_PARALLEL};
use crate::torrent::{lemma_piece_size_bounds, Metainfo};
use vstd::prelude::*;

verus! {

impl ManagerView {
    /// The download queue once the pieces `picked` have joined it, each with
    /// nothing arrived.
    pub open spec fn admitted(self, picked: Seq<u32>) -> Seq<PieceView> {
        self.queue + Seq::new(
            picked.len(),
            |j: int| PieceView::fresh(picked[j], self.piece_size(picked[j] as nat) as nat),
        )
    }

    /// Whether no piece in the download queue can serve a peer with the
    /// bitfield `bits`.
    pub open spec fn idle_for(self, bits: Seq<bool>) -> bool {
        forall|q: int| 0 <= q < self.queue.len() ==> !wanted(#[trigger] self.queue[q], bits)
    }

    /// Whether `after` is what comes of making sure that the queue holds a
    /// piece for `peer`, if there can be one: where no piece in the queue can
    /// serve the peer, the selector chooses pieces for it, as many as the
    /// queue has room for, and they join the queue.
    pub open spec fn staged(self, after: ManagerView, peer: Seq<u8>) -> bool {
        let bits = self.selector.bits_of(peer);
        let room = (MAX_PIECES_IN_PARALLEL - self.queue.len()) as nat;
        &&& after.name == self.name
        &&& after.piece_length == self.piece_length
        &&& after.length == self.length
        &&& after.hashes == self.hashes
        &&& if self.idle_for(bits) {
            &&& after.selector == self.selector.select(peer, room)
            &&& after.queue == self.admitted(self.selector.picked(peer, room))
        } else {
            &&& after.selector == self.selector
            &&& after.queue == self.queue
        }
    }

    /// Whether `requests` and `after` are what comes of asking `peer`, which
    /// has the bitfield `bits`, for up to `limit` blocks of the first piece in
    /// the queue that can serve it. There are no requests, and nothing
    /// changes, if no piece in the queue can.
    pub open spec fn served(
        self,
        after: ManagerView,
        peer: Seq<u8>,
        bits: Seq<bool>,
        limit: nat,
        requests: Option<Seq<RequestPiecePayload>>,
    ) -> bool {
        &&& after.selector == self.selector
        &&& after.name == self.name
        &&& after.piece_length == self.piece_length
        &&& after.length == self.length
        &&& after.hashes == self.hashes
        &&& after.queue.len() == self.queue.len()
        &&& match requests {
            None => after.queue == self.queue && self.idle_for(bits),
            Some(requests) => exists|q: int|
                {
                    &&& 0 <= q < self.queue.len()
                    &&& wanted(#[trigger] self.queue[q], bits)
                    &&& forall|p: int| 0 <= p < q ==> !wanted(#[trigger] self.queue[p], bits)
                    &&& self.queue[q].claimed(after.queue[q], peer, limit, requests)
                    &&& forall|p: int|
                        0 <= p < self.queue.len() && p != q ==> #[trigger] after.queue[p]
                            == self.queue[p]
                },
        }
    }

    /// Whether `requests` and `after` are what comes of preparing up to
    /// `limit` requests for `peer`.
    ///
    /// Nothing happens for a peer that is not known. Otherwise the requests
    /// are for the first piece in the queue that the peer offers and that has
    /// a block nobody has been asked for. If there is no such piece, the
    /// selector chooses pieces for the peer, as many as the queue has room
    /// for, and they join the queue before the piece is looked for again.
    /// The requests are for the first blocks of that piece that nobody has
    /// been asked for. There are no requests if there is still no such piece.
    pub open spec fn prepared(
        self,
        after: ManagerView,
        peer: Seq<u8>,
        limit: nat,
        requests: Option<Seq<RequestPiecePayload>>,
    ) -> bool {
        if !self.selector.knows(peer) {
            after == self && requests is None
        } else {
            exists|mid: ManagerView| #[trigger]
                self.staged(mid, peer) && mid.served(
                    after,
                    peer,
                    self.selector.bits_of(peer),
                    limit,
                    requests,
                )
        }
    }
}

impl DownloadQueue {
    /// The first piece in the queue that the peer with the pieces `peer_has`
    /// offers and that has a block nobody has been asked for.
    pub fn get_queue_for_peer(&self, peer_has: &Vec<bool>) -> (place: Option<usize>)
        ensures
            place is Some ==> {
                &&& place->0 < self@.len()
                &&& wanted(self@[place->0 as int], peer_has@)
                &&& forall|p: int| 0 <= p < place->0 ==> !wanted(#[trigger] self@[p], peer_has@)
            },
            place is None ==> forall|q: int|
                0 <= q < self@.len() ==> !wanted(#[trigger] self@[q], peer_has@),
    {
        let mut q: usize = 0;
        while q < self.0.len()
            invariant
                q <= self.0@.len(),
                self@.len() == self.0@.len(),
                forall|p: int| 0 <= p < q ==> !wanted(#[trigger] self@[p], peer_has@),
            decreases self.0@.len() - q,
        {
            let state = &self.0[q];
            let piece_i: usize = state.index() as usize;
            let peer_has_it: bool = piece_i < peer_has.len() && peer_has[piece_i];
            if peer_has_it && state.needs_blocks() {
                return Some(q);
            }
            q = q + 1;
        }
        None
    }

    /// Puts the pieces into the queue, each with nothing arrived.
    pub fn add_pieces_to_queue(&mut self, pieces: &Vec<u32>, metainfo: &Metainfo)
        requires
            metainfo.wf(),
            forall|j: int| 0 <= j < pieces@.len() ==> pieces@[j] < metainfo.piece_count(),
        ensures
            final(self)@ == old(self)@ + Seq::new(
                pieces@.len(),
                |j: int|
                    PieceView::fresh(pieces@[j], metainfo.piece_size(pieces@[j] as nat) as nat),
            ),
    {
        let mut j: usize = 0;
        while j < pieces.len()
            invariant
                j <= pieces@.len(),
                metainfo.wf(),
                forall|k: int| 0 <= k < pieces@.len() ==> pieces@[k] < metainfo.piece_count(),
                self@ == old(self)@ + Seq::new(
                    j as nat,
                    |k: int|
                        PieceView::fresh(pieces@[k], metainfo.piece_size(pieces@[k] as nat) as nat),
                ),
            decreases pieces@.len() - j,
        {
            let ghost before = self@;
            let piece_state = PieceState::new(metainfo, pieces[j]);
            self.0.push(piece_state);
            proof {
                assert(self@ =~= before.push(piece_state@));
                assert(self@ =~= old(self)@ + Seq::new(
                    (j + 1) as nat,
                    |k: int|
                        PieceView::fresh(pieces@[k], metainfo.piece_size(pieces@[k] as nat) as nat),
                ));
            }
            j = j + 1;
        }
    }
}

impl PieceManager {
    /// Makes sure that the queue holds a piece for the peer, if there can be
    /// one, and says where the first such piece stands.
    fn stage(&mut self, peer_id: &PeerId, peer_has: &Vec<bool>) -> (place: Option<usize>)
        requires
            old(self).wf(),
            old(self)@.selector.knows(peer_id@),
            peer_has@ == old(self)@.selector.bits_of(peer_id@),
        ensures
            final(self).wf(),
            old(self)@.staged(final(self)@, peer_id@),
            place is Some ==> {
                &&& place->0 < final(self)@.queue.len()
                &&& wanted(final(self)@.queue[place->0 as int], peer_has@)
                &&& forall|p: int|
                    0 <= p < place->0 ==> !wanted(#[trigger] final(self)@.queue[p], peer_has@)
            },
            place is None ==> final(self)@.idle_for(peer_has@),
    {
        let ghost bits = peer_has@;
        let place = self.download_queue.get_queue_for_peer(peer_has);
        if place.is_some() {
            proof {
                assert(!old(self)@.idle_for(bits));
            }
            return place;
        }
        let room: usize = MAX_PIECES_IN_PARALLEL - self.download_queue.len();
        let ghost s = old(self)@.selector;
        let ghost picked = s.picked(peer_id@, room as nat);
        proof {
            lemma_scan_facts(s.heap, s.rarity, bits, s.in_flight, room as nat);
        }
        if let Some(queue) = self.piece_selector.select_pieces_for_peer(peer_id, room) {
            self.download_queue.add_pieces_to_queue(&queue, &self.metainfo);
        }
        let ghost mid = self@;
        proof {
            assert(mid.queue =~= old(self)@.admitted(picked));
            let base = old(self)@.queue.len() as int;
            assert forall|q: int| 0 <= q < mid.queue.len() implies {
                &&& (#[trigger] mid.queue[q]).wf()
                &&& mid.queue[q].piece_i < mid.count()
                &&& mid.queue[q].buf.len() == mid.piece_size(mid.queue[q].piece_i as nat)
                &&& mid.queue[q].verified ==> sha1_digest(mid.queue[q].buf)
                    == mid.hashes[mid.queue[q].piece_i as int]
            } by {
                if q >= base {
                    let piece = picked[q - base];
                    assert(piece < s.rarity.len());
                    lemma_piece_size_bounds(
                        mid.piece_length as nat,
                        mid.length as nat,
                        mid.count(),
                        piece as nat,
                    );
                } else {
                    assert(mid.queue[q] == old(self)@.queue[q]);
                }
            }
            assert forall|p: int, q: int| 0 <= p < q < mid.queue.len() implies (
            #[trigger] mid.queue[p]).piece_i != (#[trigger] mid.queue[q]).piece_i by {
                if q >= base {
                    let piece = picked[q - base];
                    if p < base {
                        assert(!s.in_flight[piece as int]);
                        assert(s.in_flight[piece as int] <==> old(self)@.queued(piece as int));
                        assert(mid.queue[p] == old(self)@.queue[p]);
                    } else {
                        assert(picked[p - base] != picked[q - base]);
                    }
                } else {
                    assert(mid.queue[p] == old(self)@.queue[p]);
                    assert(mid.queue[q] == old(self)@.queue[q]);
                }
            }
            assert forall|i: int| 0 <= i < mid.count() implies (
            #[trigger] mid.selector.in_flight[i] <==> mid.queued(i)) by {
                assert(s.in_flight[i] <==> old(self)@.queued(i));
                if old(self)@.queued(i) {
                    let q = old(self)@.place(i);
                    assert(mid.queue[q].piece_i == i);
                }
                if mid.queued(i) {
                    let q = mid.place(i);
                    if q >= base {
                        assert(picked[q - base] == i);
                    } else {
                        assert(old(self)@.queue[q].piece_i == i);
                    }
                }
                if chosen(picked, i) {
                    let k = choose|k: int| 0 <= k < picked.len() && #[trigger] picked[k] == i;
                    assert(mid.queue[base + k].piece_i == i);
                }
            }
        }
        self.download_queue.get_queue_for_peer(peer_has)
    }

    /// The blocks to request from a peer next, at most `n` of them. See
    /// `ManagerView::prepared`.
    pub fn prepare_next_blocks(&mut self, n: usize, peer_id: &PeerId) -> (requests: Option<
        Vec<RequestPiecePayload>,
    >)
        requires
            old(self).wf(),
        ensures
            final(self).wf(),
            old(self)@.prepared(
                final(self)@,
                peer_id@,
                n as nat,
                match requests {
                    Some(list) => Some(list@),
                    None => None,
                },
            ),
    {
        let peer_has: Vec<bool> = match self.piece_selector.get_peer_has(peer_id) {
            Some(bits) => copy_bits(bits),
            None => {
                return None;
            },
        };
        let place = self.stage(peer_id, &peer_has);
        let ghost mid = self@;
        match place {
            None => {
                proof {
                    assert(mid.served(self@, peer_id@, peer_has@, n as nat, None));
                }
                None
            },
            Some(q) => {
                let requests = self.download_queue.0[q].claim_blocks(peer_id, n);
                proof {
                    assert(self@.queue.len() == mid.queue.len());
                    assert forall|p: int| 0 <= p < mid.queue.len() && p != q implies (
                    #[trigger] self@.queue[p]) == mid.queue[p] by {}
                    assert forall|i: int| 0 <= i < self@.count() implies (
                    #[trigger] self@.selector.in_flight[i] <==> self@.queued(i)) by {
                        assert(mid.selector.in_flight[i] <==> mid.queued(i));
                        if mid.queued(i) {
                            let p = mid.place(i);
                            assert(self@.queue[p].piece_i == i);
                        }
                        if self@.queued(i) {
                            let p = self@.place(i);
                            assert(mid.queue[p].piece_i == i);
                        }
                    }
                    assert forall|a: int, b: int| 0 <= a < b < self@.queue.len() implies (
                    #[trigger] self@.queue[a]).piece_i != (#[trigger] self@.queue[b]).piece_i by {
                        assert(self@.queue[a].piece_i == mid.queue[a].piece_i);
                        assert(self@.queue[b].piece_i == mid.queue[b].piece_i);
                    }
                    assert(wanted(mid.queue[q as int], peer_has@));
                    assert(mid.served(self@, peer_id@, peer_has@, n as nat, Some(requests@)));
                }
                Some(requests)
            },
        }
    }
}

} // verus!
