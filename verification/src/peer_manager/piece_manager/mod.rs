//! The piece manager: which pieces this client has, which it is downloading,
//! and what it asks of each peer.

pub mod file_manager;
pub mod laws;
pub mod piece_selector;
pub mod req_preparer;
pub mod selector_laws;
pub mod selector_model;

use crate::digest::sha1_digest;
use crate::peer_manager::piece_manager::piece_selector::{PeerId, PieceSelector};
use crate::peer_manager::piece_manager::selector_model::{offers, SelectorView};
use crate::peer_manager::{PieceState, PieceView, MAX_PIECES_IN_PARALLEL};
use crate::torrent::{spec_piece_size, Metainfo};
use vstd::prelude::*;

verus! {

/// The pieces that are being downloaded.
#[derive(Debug)]
pub struct DownloadQueue(Vec<PieceState>);

impl View for DownloadQueue {
    type V = Seq<PieceView>;

    closed spec fn view(&self) -> Seq<PieceView> {
        Seq::new(self.0@.len(), |q: int| self.0@[q]@)
    }
}

/// The piece manager of one torrent.
#[derive(Debug)]
pub struct PieceManager {
    /// Chooses the pieces to download, and holds the pieces that this client
    /// has.
    piece_selector: PieceSelector,
    /// The pieces that are being downloaded.
    download_queue: DownloadQueue,
    /// The torrent.
    metainfo: Metainfo,
}

/// The state of the piece manager.
pub ghost struct ManagerView {
    pub selector: SelectorView,
    pub queue: Seq<PieceView>,
    pub name: Seq<char>,
    pub piece_length: u32,
    pub length: u32,
    pub hashes: Seq<Seq<u8>>,
}

impl View for PieceManager {
    type V = ManagerView;

    closed spec fn view(&self) -> ManagerView {
        ManagerView {
            selector: self.piece_selector@,
            queue: self.download_queue@,
            name: self.metainfo.name@,
            piece_length: self.metainfo.piece_length,
            length: self.metainfo.length,
            hashes: self.metainfo.pieces@,
        }
    }
}

impl ManagerView {
    /// Number of pieces.
    pub open spec fn count(self) -> nat {
        self.hashes.len()
    }

    /// The size of piece `index`.
    pub open spec fn piece_size(self, index: nat) -> int {
        spec_piece_size(self.piece_length as nat, self.length as nat, self.count(), index)
    }

    /// The pieces that this client has.
    pub open spec fn have(self) -> Seq<bool> {
        self.selector.have
    }

    /// Whether piece `piece` is in the download queue.
    pub open spec fn queued(self, piece: int) -> bool {
        exists|q: int| 0 <= q < self.queue.len() && (#[trigger] self.queue[q]).piece_i == piece
    }

    /// Where piece `piece` stands in the download queue.
    pub open spec fn place(self, piece: int) -> int {
        choose|q: int| 0 <= q < self.queue.len() && (#[trigger] self.queue[q]).piece_i == piece
    }

    /// What holds of the piece manager at all times. The torrent is well
    /// formed. The download queue is bounded and holds each piece at most
    /// once, with a buffer of the piece's size. A piece is in the queue
    /// exactly when the selector counts it as being downloaded. A piece
    /// counts as verified only if the hash of its bytes is the one that the
    /// torrent gives.
    pub open spec fn wf(self) -> bool {
        &&& self.piece_length > 0
        &&& self.count() >= 1
        &&& (self.count() - 1) * self.piece_length < self.length
        &&& self.length <= self.count() * self.piece_length
        &&& self.selector.wf()
        &&& self.selector.count() == self.count()
        &&& self.queue.len() <= MAX_PIECES_IN_PARALLEL
        &&& forall|q: int|
            0 <= q < self.queue.len() ==> {
                &&& (#[trigger] self.queue[q]).wf()
                &&& self.queue[q].piece_i < self.count()
                &&& self.queue[q].buf.len() == self.piece_size(self.queue[q].piece_i as nat)
                &&& self.queue[q].verified ==> sha1_digest(self.queue[q].buf)
                    == self.hashes[self.queue[q].piece_i as int]
            }
        &&& forall|p: int, q: int|
            0 <= p < q < self.queue.len() ==> (#[trigger] self.queue[p]).piece_i != (
            #[trigger] self.queue[q]).piece_i
        &&& forall|i: int|
            0 <= i < self.count() ==> (#[trigger] self.selector.in_flight[i] <==> self.queued(i))
    }

    /// Whether `peer` has been asked for block `block` of piece `piece` and
    /// has not answered.
    pub open spec fn outstanding(self, peer: Seq<u8>, piece: int, block: int) -> bool {
        exists|q: int|
            0 <= q < self.queue.len() && (#[trigger] self.queue[q]).piece_i == piece
                && self.queue[q].asked(peer, block)
    }

    /// Whether this client has every piece.
    pub open spec fn finished(self) -> bool {
        forall|i: int| 0 <= i < self.have().len() ==> self.have()[i]
    }
}

/// Whether a piece in the queue can serve the peer with the bitfield `bits`:
/// the peer offers it, and it has a block that nobody has been asked for.
pub open spec fn wanted(piece: PieceView, bits: Seq<bool>) -> bool {
    offers(bits, piece.piece_i as int) && piece.needs_blocks()
}

/// A copy of `bits`.
pub fn copy_bits(bits: &Vec<bool>) -> (copy: Vec<bool>)
    ensures
        copy@ == bits@,
{
    let mut copy: Vec<bool> = Vec::new();
    let mut i: usize = 0;
    while i < bits.len()
        invariant
            i <= bits@.len(),
            copy@ == bits@.subrange(0, i as int),
        decreases bits@.len() - i,
    {
        copy.push(bits[i]);
        i = i + 1;
        assert(copy@ =~= bits@.subrange(0, i as int));
    }
    assert(bits@.subrange(0, i as int) =~= bits@);
    copy
}

impl DownloadQueue {
    /// The empty queue.
    pub fn new() -> (queue: Self)
        ensures
            queue@ == Seq::<PieceView>::empty(),
    {
        let queue = DownloadQueue(Vec::new());
        assert(queue@ =~= Seq::<PieceView>::empty());
        queue
    }

    /// Number of pieces in the queue.
    pub fn len(&self) -> (len: usize)
        ensures
            len == self@.len(),
    {
        self.0.len()
    }

    /// Where piece `index` stands in the queue.
    pub fn find(&self, index: u32) -> (place: Option<usize>)
        ensures
            place is Some ==> place->0 < self@.len() && self@[place->0 as int].piece_i == index,
            place is None ==> forall|q: int|
                0 <= q < self@.len() ==> (#[trigger] self@[q]).piece_i != index,
    {
        let mut q: usize = 0;
        while q < self.0.len()
            invariant
                q <= self.0@.len(),
                self@.len() == self.0@.len(),
                forall|p: int| 0 <= p < q ==> (#[trigger] self@[p]).piece_i != index,
            decreases self.0@.len() - q,
        {
            if self.0[q].index() == index {
                return Some(q);
            }
            q = q + 1;
        }
        None
    }
}

impl PieceManager {
    /// What holds of the piece manager at all times.
    pub open spec fn wf(&self) -> bool {
        self@.wf()
    }

    /// The piece manager of a torrent of which this client has the pieces
    /// `bitfield`. `None` for a torrent that is not well formed, and for a
    /// bitfield that does not have an entry for each piece.
    pub fn new(metainfo: Metainfo, bitfield: Vec<bool>) -> (manager: Option<Self>)
        ensures
            manager is Some <==> metainfo.wf() && bitfield@.len() == metainfo.piece_count(),
            manager is Some ==> {
                &&& manager->0.wf()
                &&& manager->0@.selector == SelectorView::fresh(bitfield@)
                &&& manager->0@.queue == Seq::<PieceView>::empty()
                &&& manager->0@.name == metainfo.name@
                &&& manager->0@.piece_length == metainfo.piece_length
                &&& manager->0@.length == metainfo.length
                &&& manager->0@.hashes == metainfo.pieces@
            },
    {
        if !metainfo.is_valid() {
            return None;
        }
        let count: u32 = metainfo.n_pieces();
        if bitfield.len() != count as usize {
            return None;
        }
        let manager = PieceManager {
            piece_selector: PieceSelector::new(bitfield),
            download_queue: DownloadQueue::new(),
            metainfo,
        };
        Some(manager)
    }

    /// The torrent.
    pub fn metainfo(&self) -> (metainfo: &Metainfo)
        ensures
            metainfo.name@ == self@.name,
            metainfo.piece_length == self@.piece_length,
            metainfo.length == self@.length,
            metainfo.pieces@ == self@.hashes,
    {
        &self.metainfo
    }

    /// Gives the torrent back when the piece manager is no longer needed.
    pub fn into_metainfo(self) -> (metainfo: Metainfo)
        ensures
            metainfo.name@ == self@.name,
            metainfo.piece_length == self@.piece_length,
            metainfo.length == self@.length,
            metainfo.pieces@ == self@.hashes,
    {
        self.metainfo
    }

    /// The pieces that this client has.
    pub fn have(&self) -> (have: &Vec<bool>)
        ensures
            have@ == self@.have(),
    {
        self.piece_selector.have()
    }

    /// Whether this client has every piece.
    pub fn is_finished(&self) -> (finished: bool)
        ensures
            finished == self@.finished(),
    {
        let have = self.piece_selector.have();
        let mut i: usize = 0;
        while i < have.len()
            invariant
                i <= have@.len(),
                have@ == self@.have(),
                forall|k: int| 0 <= k < i ==> have@[k],
            decreases have@.len() - i,
        {
            if !have[i] {
                return false;
            }
            i = i + 1;
        }
        true
    }

    /// Writes down a peer that came.
    pub fn add_peer(&mut self, id: PeerId)
        requires
            old(self).wf(),
        ensures
            final(self).wf(),
            final(self)@ == (ManagerView { selector: old(self)@.selector.add_peer(id@), ..old(self)@ }),
    {
        self.piece_selector.add_peer(id);
        proof {
            assert forall|i: int| 0 <= i < self@.count() implies (
            #[trigger] self@.selector.in_flight[i] <==> self@.queued(i)) by {
                assert(self@.queue == old(self)@.queue);
                assert(self@.selector.in_flight == old(self)@.selector.in_flight);
                assert(old(self)@.selector.in_flight[i] <==> old(self)@.queued(i));
            }
        }
    }

    /// Takes the bitfield that a peer sent.
    pub fn add_bitfield(&mut self, id: &PeerId, bitfield: Vec<bool>)
        requires
            old(self).wf(),
        ensures
            final(self).wf(),
            final(self)@ == (ManagerView {
                selector: old(self)@.selector.add_bitfield(id@, bitfield@),
                ..old(self)@
            }),
    {
        self.piece_selector.add_bitfield(id, bitfield);
        proof {
            assert forall|i: int| 0 <= i < self@.count() implies (
            #[trigger] self@.selector.in_flight[i] <==> self@.queued(i)) by {
                assert(self@.queue == old(self)@.queue);
                assert(self@.selector.in_flight == old(self)@.selector.in_flight);
                assert(old(self)@.selector.in_flight[i] <==> old(self)@.queued(i));
            }
        }
    }

    /// Notes that a peer has a piece.
    pub fn update_have(&mut self, id: &PeerId, have_index: u32)
        requires
            old(self).wf(),
        ensures
            final(self).wf(),
            final(self)@ == (ManagerView {
                selector: old(self)@.selector.update_have(id@, have_index),
                ..old(self)@
            }),
    {
        self.piece_selector.update_have(id, have_index);
        proof {
            assert forall|i: int| 0 <= i < self@.count() implies (
            #[trigger] self@.selector.in_flight[i] <==> self@.queued(i)) by {
                assert(self@.queue == old(self)@.queue);
                assert(self@.selector.in_flight == old(self)@.selector.in_flight);
                assert(old(self)@.selector.in_flight[i] <==> old(self)@.queued(i));
            }
        }
    }

    /// The pieces that a peer offers, `None` for a peer that is not known.
    pub fn get_peer_has(&self, id: &PeerId) -> (bits: Option<&Vec<bool>>)
        requires
            self.wf(),
        ensures
            bits is Some <==> self@.selector.knows(id@),
            bits is Some ==> bits->0@ == self@.selector.bits_of(id@),
    {
        self.piece_selector.get_peer_has(id)
    }
}

} // verus!
