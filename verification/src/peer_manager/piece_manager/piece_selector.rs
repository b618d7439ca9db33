//! Chooses the pieces to download next: the rarest first, among equals the one
//! with the least index. The actual requests are made from the download queue.

use crate::peer_manager::piece_manager::selector_model::{accepts, counted, entry_le, fit, offers, scan, sorted, sorted_insert, Entry, PeerView, SelectorView};
use crate::torrent::same_id;
use vstd::prelude::*;

verus! {

/// The id of a peer.
pub type PeerId = [u8; 20];

/// What is known of one peer.
#[derive(Debug)]
pub struct PeerBits {
    /// The id of the peer.
    id: PeerId,
    /// The pieces that the peer offers.
    has: Vec<bool>,
}

/// The piece selector. The rarity of a piece is kept in `piece_rarity` alone.
/// When it changes, a new entry joins the queue and the old one stays; when
/// an entry is taken, it is compared with `piece_rarity` and dropped if it is
/// out of date.
#[derive(Debug)]
pub struct PieceSelector {
    /// For each piece, the number of peers that offer it.
    piece_rarity: Vec<u32>,
    /// The entries `(rarity, piece)`, least first.
    priority_queue: Vec<Entry>,
    /// The pieces that this client has.
    have: Vec<bool>,
    /// The bitfield of each peer.
    peer_bitfields: Vec<PeerBits>,
    /// The pieces that are in the download queue.
    pieces_in_flight: Vec<bool>,
}

impl View for PieceSelector {
    type V = SelectorView;

    closed spec fn view(&self) -> SelectorView {
        SelectorView {
            rarity: self.piece_rarity@,
            heap: self.priority_queue@,
            have: self.have@,
            peers: Seq::new(
                self.peer_bitfields@.len(),
                |k: int| PeerView { id: self.peer_bitfields@[k].id@, has: self.peer_bitfields@[k].has@ },
            ),
            in_flight: self.pieces_in_flight@,
        }
    }
}

/// Inserting at the place behind the entries that are less gives what
/// `sorted_insert` gives.
proof fn lemma_sorted_insert_at(heap: Seq<Entry>, entry: Entry, at: int)
    requires
        0 <= at <= heap.len(),
        forall|j: int| 0 <= j < at ==> !entry_le(entry, heap[j]),
        at == heap.len() || entry_le(entry, heap[at]),
    ensures
        heap.insert(at, entry) == sorted_insert(heap, entry),
    decreases at,
{
    if at == 0 {
        assert(heap.insert(0, entry) =~= seq![entry] + heap);
    } else {
        let rest = heap.drop_first();
        assert forall|j: int| 0 <= j < at - 1 implies !entry_le(entry, rest[j]) by {
            assert(rest[j] == heap[j + 1]);
        }
        lemma_sorted_insert_at(rest, entry, at - 1);
        assert(heap.insert(at, entry) =~= seq![heap[0]] + rest.insert(at - 1, entry));
    }
}

/// Puts `entry` into the queue, behind the entries that are less than it.
fn insert_entry(heap: &mut Vec<Entry>, entry: Entry, Ghost(count): Ghost<nat>)
    requires
        sorted(old(heap)@),
        forall|k: int| 0 <= k < old(heap)@.len() ==> (#[trigger] old(heap)@[k]).1 < count,
        entry.1 < count,
    ensures
        final(heap)@ == sorted_insert(old(heap)@, entry),
        sorted(final(heap)@),
        forall|k: int| 0 <= k < final(heap)@.len() ==> (#[trigger] final(heap)@[k]).1 < count,
{
    let mut at: usize = 0;
    while at < heap.len()
        invariant
            at <= heap@.len(),
            heap@ == old(heap)@,
            forall|j: int| 0 <= j < at ==> !entry_le(entry, heap@[j]),
        ensures
            at <= heap@.len(),
            heap@ == old(heap)@,
            forall|j: int| 0 <= j < at ==> !entry_le(entry, heap@[j]),
            at == heap@.len() || entry_le(entry, heap@[at as int]),
        decreases heap@.len() - at,
    {
        let other: Entry = heap[at];
        if entry.0 < other.0 || (entry.0 == other.0 && entry.1 <= other.1) {
            break;
        }
        at = at + 1;
    }
    proof {
        lemma_sorted_insert_at(heap@, entry, at as int);
    }
    let ghost before = heap@;
    heap.insert(at, entry);
    proof {
        assert forall|j: int, k: int| 0 <= j <= k < heap@.len() implies entry_le(
            heap@[j],
            heap@[k],
        ) by {
            if j < at && k > at {
                assert(entry_le(before[j], before[k - 1]));
            } else if j < at && k < at {
                assert(entry_le(before[j], before[k]));
            } else if j > at {
                assert(entry_le(before[j - 1], before[k - 1]));
            } else if j == at && k > at {
                assert(entry_le(before[at as int], before[k - 1]));
            }
        }
        assert forall|k: int| 0 <= k < heap@.len() implies (#[trigger] heap@[k]).1 < count by {
            if k < at {
                assert(heap@[k] == before[k]);
            } else if k > at {
                assert(heap@[k] == before[k - 1]);
            }
        }
    }
}

/// Counts the pieces that `bits` offers and this client lacks, up or down.
fn count_bits(
    rarity: &mut Vec<u32>,
    heap: &mut Vec<Entry>,
    bits: &Vec<bool>,
    have: &Vec<bool>,
    up: bool,
)
    requires
        old(rarity)@.len() == have@.len(),
        have@.len() <= u32::MAX,
        sorted(old(heap)@),
        forall|k: int| 0 <= k < old(heap)@.len() ==> (#[trigger] old(heap)@[k]).1 < have@.len(),
    ensures
        (final(rarity)@, final(heap)@) == counted(
            old(rarity)@,
            old(heap)@,
            bits@,
            have@,
            up,
            have@.len(),
        ),
        final(rarity)@.len() == have@.len(),
        sorted(final(heap)@),
        forall|k: int| 0 <= k < final(heap)@.len() ==> (#[trigger] final(heap)@[k]).1 < have@.len(),
{
    let count: usize = have.len();
    let mut i: usize = 0;
    while i < count
        invariant
            i <= count,
            count == have@.len(),
            count <= u32::MAX,
            rarity@.len() == count,
            (rarity@, heap@) == counted(old(rarity)@, old(heap)@, bits@, have@, up, i as nat),
            sorted(heap@),
            forall|k: int| 0 <= k < heap@.len() ==> (#[trigger] heap@[k]).1 < count,
        decreases count - i,
    {
        if i < bits.len() && bits[i] && !have[i] {
            let current: u32 = rarity[i];
            let changed: u32 = if up {
                if current < u32::MAX {
                    current + 1
                } else {
                    current
                }
            } else {
                if current > 0 {
                    current - 1
                } else {
                    current
                }
            };
            rarity.set(i, changed);
            insert_entry(heap, (changed, i as u32), Ghost(count as nat));
        }
        i = i + 1;
    }
}

impl PieceSelector {
    /// What holds of a selector at all times.
    pub open spec fn wf(&self) -> bool {
        self@.wf()
    }

    /// The selector of a client that has the pieces `have`.
    pub fn new(have: Vec<bool>) -> (selector: Self)
        requires
            have@.len() <= u32::MAX,
        ensures
            selector.wf(),
            selector@ == SelectorView::fresh(have@),
    {
        let n_pieces: usize = have.len();
        let selector = Self {
            piece_rarity: vec![0u32; n_pieces],
            priority_queue: Vec::new(),
            have,
            peer_bitfields: Vec::new(),
            pieces_in_flight: vec![false; n_pieces],
        };
        proof {
            assert(selector@.rarity =~= SelectorView::fresh(have@).rarity);
            assert(selector@.in_flight =~= SelectorView::fresh(have@).in_flight);
            assert(selector@.peers =~= SelectorView::fresh(have@).peers);
            assert(selector@.heap =~= SelectorView::fresh(have@).heap);
        }
        selector
    }

    /// Number of pieces.
    pub fn n_pieces(&self) -> (count: usize)
        ensures
            count == self@.count(),
    {
        self.have.len()
    }

    /// The pieces that this client has.
    pub fn have(&self) -> (have: &Vec<bool>)
        ensures
            have@ == self@.have,
    {
        &self.have
    }

    /// For each piece, the number of peers that offer it.
    pub fn piece_rarity(&self) -> (rarity: &Vec<u32>)
        ensures
            rarity@ == self@.rarity,
    {
        &self.piece_rarity
    }

    /// Whether piece `piece` is in the download queue.
    pub fn is_in_flight(&self, piece: u32) -> (flying: bool)
        ensures
            flying == (piece < self@.in_flight.len() && self@.in_flight[piece as int]),
    {
        (piece as usize) < self.pieces_in_flight.len() && self.pieces_in_flight[piece as usize]
    }

    /// Where the peer with this id stands among the peers.
    fn find(&self, id: &PeerId) -> (slot: Option<usize>)
        requires
            self.wf(),
        ensures
            slot is Some <==> self@.knows(id@),
            slot is Some ==> slot->0 == self@.slot(id@) && slot->0 < self.peer_bitfields@.len(),
    {
        let mut k: usize = 0;
        while k < self.peer_bitfields.len()
            invariant
                self.wf(),
                k <= self.peer_bitfields@.len(),
                self@.peers.len() == self.peer_bitfields@.len(),
                forall|j: int| 0 <= j < k ==> (#[trigger] self@.peers[j]).id != id@,
            decreases self.peer_bitfields@.len() - k,
        {
            if same_id(&self.peer_bitfields[k].id, id) {
                proof {
                    assert(self@.peers[k as int].id == id@);
                    let chosen = self@.slot(id@);
                    assert(self@.peers[chosen].id == id@);
                    if chosen < k {
                        assert(self@.peers[chosen].id != self@.peers[k as int].id);
                    } else if chosen > k {
                        assert(self@.peers[k as int].id != self@.peers[chosen].id);
                    }
                }
                return Some(k);
            }
            k = k + 1;
        }
        None
    }

    /// Writes down a peer that came, with an empty bitfield. A peer that is
    /// known already stays as it is.
    pub fn add_peer(&mut self, id: PeerId)
        requires
            old(self).wf(),
        ensures
            final(self).wf(),
            final(self)@ == old(self)@.add_peer(id@),
    {
        if self.find(&id).is_none() {
            self.peer_bitfields.push(PeerBits { id, has: Vec::new() });
            proof {
                assert(self@.peers =~= old(self)@.peers.push(
                    PeerView { id: id@, has: Seq::empty() },
                ));
                assert forall|j: int, k: int| 0 <= j < k < self@.peers.len() implies (
                #[trigger] self@.peers[j]).id != (#[trigger] self@.peers[k]).id by {
                    assert(self@.peers[j] == old(self)@.peers[j]);
                    if k < old(self)@.peers.len() {
                        assert(self@.peers[k] == old(self)@.peers[k]);
                    }
                }
            }
        }
    }

    /// Forgets a peer that went. Each piece that it offered and this client
    /// lacks is one peer rarer; the entries in the queue stay, and are
    /// dropped when they are taken.
    pub fn remove_peer(&mut self, id: &PeerId)
        requires
            old(self).wf(),
        ensures
            final(self).wf(),
            final(self)@ == old(self)@.remove_peer(id@),
    {
        if let Some(k) = self.find(id) {
            let gone = self.peer_bitfields.remove(k);
            count_bits(&mut self.piece_rarity, &mut self.priority_queue, &gone.has, &self.have, false);
            proof {
                assert(self@.peers =~= old(self)@.peers.remove(k as int));
                assert forall|j: int| 0 <= j < self@.peers.len() implies {
                    &&& (#[trigger] self@.peers[j]).id.len() == 20
                    &&& (self@.peers[j].has.len() == 0 || self@.peers[j].has.len()
                        == self@.count())
                } by {
                    if j < k {
                        assert(self@.peers[j] == old(self)@.peers[j]);
                    } else {
                        assert(self@.peers[j] == old(self)@.peers[j + 1]);
                    }
                }
                assert forall|i: int, j: int| 0 <= i < j < self@.peers.len() implies (
                #[trigger] self@.peers[i]).id != (#[trigger] self@.peers[j]).id by {
                    let a = if i < k { i } else { i + 1 };
                    let b = if j < k { j } else { j + 1 };
                    assert(self@.peers[i] == old(self)@.peers[a]);
                    assert(self@.peers[j] == old(self)@.peers[b]);
                }
            }
        }
    }

    /// Takes the bitfield that a peer sent in place of what was known of the
    /// peer. Nothing happens for a peer that `add_peer` has not written down.
    pub fn add_bitfield(&mut self, id: &PeerId, bitfield: Vec<bool>)
        requires
            old(self).wf(),
        ensures
            final(self).wf(),
            final(self)@ == old(self)@.add_bitfield(id@, bitfield@),
    {
        if let Some(k) = self.find(id) {
            let count: usize = self.have.len();
            let mut bits: Vec<bool> = Vec::new();
            let mut i: usize = 0;
            while i < count
                invariant
                    i <= count,
                    bits@.len() == i,
                    forall|j: int| 0 <= j < i ==> bits@[j] == offers(bitfield@, j),
                decreases count - i,
            {
                bits.push(i < bitfield.len() && bitfield[i]);
                i = i + 1;
            }
            assert(bits@ =~= fit(bitfield@, count as nat));
            count_bits(
                &mut self.piece_rarity,
                &mut self.priority_queue,
                &self.peer_bitfields[k].has,
                &self.have,
                false,
            );
            count_bits(&mut self.piece_rarity, &mut self.priority_queue, &bits, &self.have, true);
            self.peer_bitfields.set(k, PeerBits { id: *id, has: bits });
            proof {
                assert(self@.peers =~= old(self)@.peers.update(
                    k as int,
                    PeerView { id: id@, has: bits@ },
                ));
                assert forall|i: int, j: int| 0 <= i < j < self@.peers.len() implies (
                #[trigger] self@.peers[i]).id != (#[trigger] self@.peers[j]).id by {
                    assert(self@.peers[i].id == old(self)@.peers[i].id);
                    assert(self@.peers[j].id == old(self)@.peers[j].id);
                }
                assert forall|j: int| 0 <= j < self@.peers.len() implies {
                    &&& (#[trigger] self@.peers[j]).id.len() == 20
                    &&& (self@.peers[j].has.len() == 0 || self@.peers[j].has.len()
                        == self@.count())
                } by {
                    if j != k {
                        assert(self@.peers[j] == old(self)@.peers[j]);
                    }
                }
            }
        }
    }

    /// Notes that a peer has a piece. Nothing happens for a peer that is not
    /// known or a piece that the torrent does not have.
    pub fn update_have(&mut self, id: &PeerId, have_index: u32)
        requires
            old(self).wf(),
        ensures
            final(self).wf(),
            final(self)@ == old(self)@.update_have(id@, have_index),
    {
        let i: usize = have_index as usize;
        let count: usize = self.have.len();
        if i >= count {
            return ;
        }
        if let Some(k) = self.find(id) {
            let mut bits: Vec<bool> = Vec::new();
            let mut j: usize = 0;
            while j < count
                invariant
                    j <= count,
                    i < count,
                    k < self.peer_bitfields@.len(),
                    bits@.len() == j,
                    forall|m: int|
                        0 <= m < j ==> bits@[m] == (m == i || offers(
                            self.peer_bitfields@[k as int].has@,
                            m,
                        )),
                decreases count - j,
            {
                let known: &Vec<bool> = &self.peer_bitfields[k].has;
                bits.push(j == i || (j < known.len() && known[j]));
                j = j + 1;
            }
            assert(bits@ =~= fit(old(self)@.peers[k as int].has, count as nat).update(
                i as int,
                true,
            ));
            self.peer_bitfields.set(k, PeerBits { id: *id, has: bits });
            if !self.have[i] {
                let current: u32 = self.piece_rarity[i];
                let rarity: u32 = if current < u32::MAX {
                    current + 1
                } else {
                    current
                };
                self.piece_rarity.set(i, rarity);
                insert_entry(&mut self.priority_queue, (rarity, have_index), Ghost(count as nat));
            }
            proof {
                assert(self@.peers =~= old(self)@.peers.update(
                    k as int,
                    PeerView { id: id@, has: bits@ },
                ));
                assert forall|a: int, b: int| 0 <= a < b < self@.peers.len() implies (
                #[trigger] self@.peers[a]).id != (#[trigger] self@.peers[b]).id by {
                    assert(self@.peers[a].id == old(self)@.peers[a].id);
                    assert(self@.peers[b].id == old(self)@.peers[b].id);
                }
                assert forall|j: int| 0 <= j < self@.peers.len() implies {
                    &&& (#[trigger] self@.peers[j]).id.len() == 20
                    &&& (self@.peers[j].has.len() == 0 || self@.peers[j].has.len()
                        == self@.count())
                } by {
                    if j != k {
                        assert(self@.peers[j] == old(self)@.peers[j]);
                    }
                }
            }
        }
    }

    /// Notes that this client has piece `piece`: no peer counts as offering
    /// it any more.
    pub fn mark_have(&mut self, piece: u32)
        requires
            old(self).wf(),
        ensures
            final(self).wf(),
            final(self)@ == old(self)@.mark_have(piece),
    {
        let i: usize = piece as usize;
        if i < self.have.len() {
            self.piece_rarity.set(i, 0);
            self.have.set(i, true);
            proof {
                assert(self@.peers =~= old(self)@.peers);
            }
        }
    }

    /// Notes that piece `piece` has left the download queue.
    pub fn release(&mut self, piece: u32)
        requires
            old(self).wf(),
        ensures
            final(self).wf(),
            final(self)@ == old(self)@.release(piece),
    {
        let i: usize = piece as usize;
        if i < self.have.len() {
            self.pieces_in_flight.set(i, false);
            proof {
                assert(self@.peers =~= old(self)@.peers);
            }
        }
    }

    /// Chooses up to `count` pieces for a peer to download. Entries are taken
    /// from the queue, least first. An entry is chosen if its rarity is still
    /// the piece's, the peer offers the piece, and the piece is not in the
    /// download queue; the piece then counts as being there. Every other
    /// entry that is taken is dropped. `None` when no piece is chosen.
    pub fn select_pieces_for_peer(&mut self, id: &PeerId, count: usize) -> (chosen: Option<
        Vec<u32>,
    >)
        requires
            old(self).wf(),
        ensures
            final(self).wf(),
            final(self)@ == old(self)@.select(id@, count as nat),
            chosen is Some <==> old(self)@.picked(id@, count as nat).len() > 0,
            chosen is Some ==> chosen->0@ == old(self)@.picked(id@, count as nat),
    {
        let Some(k) = self.find(id) else {
            return None;
        };
        let mut queue: Vec<u32> = Vec::new();
        let ghost bits = self.peer_bitfields@[k as int].has@;
        let ghost rarity = self.piece_rarity@;
        let ghost goal = scan(old(self)@.heap, rarity, bits, old(self)@.in_flight, count as nat);
        assert(bits == old(self)@.bits_of(id@));
        while queue.len() < count && self.priority_queue.len() > 0
            invariant
                self.wf(),
                k < self.peer_bitfields@.len(),
                bits == self.peer_bitfields@[k as int].has@,
                rarity == self.piece_rarity@,
                self@.have == old(self)@.have,
                self@.peers == old(self)@.peers,
                self@.rarity == old(self)@.rarity,
                queue@.len() <= count,
                ({
                    let rest = scan(
                        self@.heap,
                        rarity,
                        bits,
                        self@.in_flight,
                        (count - queue@.len()) as nat,
                    );
                    &&& goal.picked == queue@ + rest.picked
                    &&& goal.in_flight == rest.in_flight
                    &&& goal.heap == rest.heap
                }),
            decreases self.priority_queue@.len(),
        {
            let ghost before = self@;
            let ghost taken = queue@;
            let entry: Entry = self.priority_queue.remove(0);
            let i: usize = entry.1 as usize;
            assert(self@.heap =~= before.heap.drop_first());
            assert(entry == before.heap[0]);
            assert(self@.peers =~= before.peers);
            let peer_has: &Vec<bool> = &self.peer_bitfields[k].has;
            if self.piece_rarity[i] == entry.0 && i < peer_has.len() && peer_has[i]
                && !self.pieces_in_flight[i] {
                queue.push(entry.1);
                self.pieces_in_flight.set(i, true);
                proof {
                    assert(accepts(rarity, bits, before.in_flight, entry));
                    let rest = scan(
                        self@.heap,
                        rarity,
                        bits,
                        self@.in_flight,
                        (count - queue@.len()) as nat,
                    );
                    assert(self@.peers =~= before.peers);
                    assert(queue@ + rest.picked =~= taken + (seq![entry.1] + rest.picked));
                }
            } else {
                proof {
                    assert(!accepts(rarity, bits, before.in_flight, entry));
                }
            }
        }
        proof {
            let rest = scan(
                self@.heap,
                rarity,
                bits,
                self@.in_flight,
                (count - queue@.len()) as nat,
            );
            assert(rest.picked =~= Seq::<u32>::empty());
            assert(goal.picked =~= queue@);
            assert(self@ =~= old(self)@.select(id@, count as nat));
        }
        if queue.len() == 0 {
            None
        } else {
            Some(queue)
        }
    }

    /// The pieces that a peer offers, `None` for a peer that is not known.
    pub fn get_peer_has(&self, id: &PeerId) -> (bits: Option<&Vec<bool>>)
        requires
            self.wf(),
        ensures
            bits is Some <==> self@.knows(id@),
            bits is Some ==> bits->0@ == self@.bits_of(id@),
    {
        match self.find(id) {
            Some(k) => Some(&self.peer_bitfields[k].has),
            None => None,
        }
    }
}

} // verus!
