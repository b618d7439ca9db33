//! What the piece selector knows, as mathematics: how often each piece that is
//! still missing is on offer, which peers offer it, and the entries from which
//! the next pieces are taken.

use vstd::prelude::*;

verus! {

/// An entry of the selector's queue: a rarity, and the piece that had it when
/// the entry was made.
pub type Entry = (u32, u32);

/// What is known of a peer: its id and the pieces it says it has. The
/// bitfield is empty until the peer has sent one.
pub ghost struct PeerView {
    pub id: Seq<u8>,
    pub has: Seq<bool>,
}

/// The state of the piece selector.
pub ghost struct SelectorView {
    /// For each piece, the number of peers that offer it.
    pub rarity: Seq<u32>,
    /// The entries to choose from, least first. Entries are never withdrawn:
    /// one whose rarity is out of date is recognised when it is taken.
    pub heap: Seq<Entry>,
    /// The pieces that this client has.
    pub have: Seq<bool>,
    /// The peers, in the order in which they came.
    pub peers: Seq<PeerView>,
    /// The pieces that are being downloaded.
    pub in_flight: Seq<bool>,
}

/// The order of the queue: by rarity, and among equals by piece index.
pub open spec fn entry_le(a: Entry, b: Entry) -> bool {
    a.0 < b.0 || (a.0 == b.0 && a.1 <= b.1)
}

/// Whether the entries stand in the order of the queue.
pub open spec fn sorted(heap: Seq<Entry>) -> bool {
    forall|j: int, k: int| 0 <= j <= k < heap.len() ==> entry_le(heap[j], heap[k])
}

/// `heap` with `entry` put behind the entries that are less than it.
pub open spec fn sorted_insert(heap: Seq<Entry>, entry: Entry) -> Seq<Entry>
    decreases heap.len(),
{
    if heap.len() == 0 || entry_le(entry, heap[0]) {
        seq![entry] + heap
    } else {
        seq![heap[0]] + sorted_insert(heap.drop_first(), entry)
    }
}

/// Whether `bits` says that the peer has piece `piece`.
pub open spec fn offers(bits: Seq<bool>, piece: int) -> bool {
    0 <= piece < bits.len() && bits[piece]
}

/// `bits` cut or filled up with `false` to `count` entries.
pub open spec fn fit(bits: Seq<bool>, count: nat) -> Seq<bool> {
    Seq::new(count, |i: int| offers(bits, i))
}

/// Number of peers that offer piece `piece`.
pub open spec fn holders(peers: Seq<PeerView>, piece: int) -> nat
    decreases peers.len(),
{
    if peers.len() == 0 {
        0
    } else {
        holders(peers.drop_last(), piece) + if offers(peers.last().has, piece) {
            1nat
        } else {
            0nat
        }
    }
}

/// One more, unless the number is the largest there is.
pub open spec fn one_more(rarity: u32) -> u32 {
    if rarity < u32::MAX {
        (rarity + 1) as u32
    } else {
        rarity
    }
}

/// One less, unless the number is 0.
pub open spec fn one_less(rarity: u32) -> u32 {
    if rarity > 0 {
        (rarity - 1) as u32
    } else {
        rarity
    }
}

/// Rarity and queue once the pieces below `upto` that `bits` offers and this
/// client lacks have been counted, up or down: the rarity of each is changed
/// by one, and an entry with the new rarity joins the queue.
pub open spec fn counted(
    rarity: Seq<u32>,
    heap: Seq<Entry>,
    bits: Seq<bool>,
    have: Seq<bool>,
    up: bool,
    upto: nat,
) -> (Seq<u32>, Seq<Entry>)
    decreases upto,
{
    if upto == 0 {
        (rarity, heap)
    } else {
        let before = counted(rarity, heap, bits, have, up, (upto - 1) as nat);
        let piece = upto - 1;
        if offers(bits, piece) && !have[piece] {
            let changed = if up {
                one_more(before.0[piece])
            } else {
                one_less(before.0[piece])
            };
            (before.0.update(piece, changed), sorted_insert(before.1, (changed, piece as u32)))
        } else {
            before
        }
    }
}

/// What a walk through the queue leaves.
pub ghost struct Scan {
    /// The pieces that were chosen, in the order of the queue.
    pub picked: Seq<u32>,
    /// The pieces that are being downloaded, the chosen ones among them.
    pub in_flight: Seq<bool>,
    /// The entries that were not looked at.
    pub heap: Seq<Entry>,
}

/// Whether the entry is chosen: its rarity is still the piece's, the peer
/// offers the piece, and nobody is downloading it.
pub open spec fn accepts(
    rarity: Seq<u32>,
    bits: Seq<bool>,
    in_flight: Seq<bool>,
    entry: Entry,
) -> bool {
    &&& entry.1 < rarity.len()
    &&& rarity[entry.1 as int] == entry.0
    &&& offers(bits, entry.1 as int)
    &&& !in_flight[entry.1 as int]
}

/// Takes entries from the front of the queue until `count` pieces are chosen
/// or the queue is empty. An entry that is not chosen is dropped.
pub open spec fn scan(
    heap: Seq<Entry>,
    rarity: Seq<u32>,
    bits: Seq<bool>,
    in_flight: Seq<bool>,
    count: nat,
) -> Scan
    decreases heap.len(),
{
    if count == 0 || heap.len() == 0 {
        Scan { picked: Seq::empty(), in_flight, heap }
    } else if accepts(rarity, bits, in_flight, heap[0]) {
        let piece = heap[0].1;
        let rest = scan(
            heap.drop_first(),
            rarity,
            bits,
            in_flight.update(piece as int, true),
            (count - 1) as nat,
        );
        Scan { picked: seq![piece] + rest.picked, in_flight: rest.in_flight, heap: rest.heap }
    } else {
        scan(heap.drop_first(), rarity, bits, in_flight, count)
    }
}

impl SelectorView {
    /// Number of pieces.
    pub open spec fn count(self) -> nat {
        self.have.len()
    }

    /// What holds of the state at all times.
    pub open spec fn wf(self) -> bool {
        &&& self.count() <= u32::MAX
        &&& self.rarity.len() == self.count()
        &&& self.in_flight.len() == self.count()
        &&& forall|k: int|
            0 <= k < self.peers.len() ==> {
                &&& (#[trigger] self.peers[k]).id.len() == 20
                &&& (self.peers[k].has.len() == 0 || self.peers[k].has.len() == self.count())
            }
        &&& forall|j: int, k: int|
            0 <= j < k < self.peers.len() ==> (#[trigger] self.peers[j]).id != (
            #[trigger] self.peers[k]).id
        &&& forall|k: int| 0 <= k < self.heap.len() ==> (#[trigger] self.heap[k]).1 < self.count()
        &&& sorted(self.heap)
    }

    /// Whether a peer with this id is known.
    pub open spec fn knows(self, id: Seq<u8>) -> bool {
        exists|k: int| 0 <= k < self.peers.len() && (#[trigger] self.peers[k]).id == id
    }

    /// Where the peer with this id stands among the peers.
    pub open spec fn slot(self, id: Seq<u8>) -> int {
        choose|k: int| 0 <= k < self.peers.len() && (#[trigger] self.peers[k]).id == id
    }

    /// The pieces that the peer with this id offers.
    pub open spec fn bits_of(self, id: Seq<u8>) -> Seq<bool> {
        self.peers[self.slot(id)].has
    }

    /// The state of a client that has the pieces `have` and knows no peer.
    pub open spec fn fresh(have: Seq<bool>) -> SelectorView {
        SelectorView {
            rarity: Seq::new(have.len(), |i: int| 0u32),
            heap: Seq::empty(),
            have,
            peers: Seq::empty(),
            in_flight: Seq::new(have.len(), |i: int| false),
        }
    }

    /// A peer comes: it is written down with an empty bitfield, unless it is
    /// known already.
    pub open spec fn add_peer(self, id: Seq<u8>) -> SelectorView {
        if self.knows(id) {
            self
        } else {
            SelectorView { peers: self.peers.push(PeerView { id, has: Seq::empty() }), ..self }
        }
    }

    /// A peer goes: each piece that it offered and this client lacks is one
    /// peer rarer.
    pub open spec fn remove_peer(self, id: Seq<u8>) -> SelectorView {
        if !self.knows(id) {
            self
        } else {
            let k = self.slot(id);
            let less = counted(
                self.rarity,
                self.heap,
                self.peers[k].has,
                self.have,
                false,
                self.count(),
            );
            SelectorView { rarity: less.0, heap: less.1, peers: self.peers.remove(k), ..self }
        }
    }

    /// A peer sends its bitfield, which takes the place of what was known of
    /// the peer: what the peer offered before no longer counts, and each
    /// piece that it offers now and this client lacks is one peer less rare.
    pub open spec fn add_bitfield(self, id: Seq<u8>, bitfield: Seq<bool>) -> SelectorView {
        if !self.knows(id) {
            self
        } else {
            let k = self.slot(id);
            let bits = fit(bitfield, self.count());
            let less = counted(
                self.rarity,
                self.heap,
                self.peers[k].has,
                self.have,
                false,
                self.count(),
            );
            let more = counted(less.0, less.1, bits, self.have, true, self.count());
            SelectorView {
                rarity: more.0,
                heap: more.1,
                peers: self.peers.update(k, PeerView { id, has: bits }),
                ..self
            }
        }
    }

    /// A peer says that it has a piece: the piece is set in the peer's
    /// bitfield, and where this client lacks the piece, it is one peer less
    /// rare.
    pub open spec fn update_have(self, id: Seq<u8>, piece: u32) -> SelectorView {
        if !self.knows(id) || piece >= self.count() {
            self
        } else {
            let k = self.slot(id);
            let bits = fit(self.peers[k].has, self.count()).update(piece as int, true);
            let peers = self.peers.update(k, PeerView { id, has: bits });
            if self.have[piece as int] {
                SelectorView { peers, ..self }
            } else {
                let rarity = one_more(self.rarity[piece as int]);
                SelectorView {
                    rarity: self.rarity.update(piece as int, rarity),
                    heap: sorted_insert(self.heap, (rarity, piece)),
                    peers,
                    ..self
                }
            }
        }
    }

    /// This client has a piece: from now on no peer counts as offering it.
    pub open spec fn mark_have(self, piece: u32) -> SelectorView {
        if piece >= self.count() {
            self
        } else {
            SelectorView {
                rarity: self.rarity.update(piece as int, 0),
                have: self.have.update(piece as int, true),
                ..self
            }
        }
    }

    /// A piece leaves the download queue.
    pub open spec fn release(self, piece: u32) -> SelectorView {
        if piece >= self.count() {
            self
        } else {
            SelectorView { in_flight: self.in_flight.update(piece as int, false), ..self }
        }
    }

    /// The pieces that are chosen for the peer with this id, at most `count`
    /// of them; none for a peer that is not known.
    pub open spec fn picked(self, id: Seq<u8>, count: nat) -> Seq<u32> {
        if self.knows(id) {
            scan(self.heap, self.rarity, self.bits_of(id), self.in_flight, count).picked
        } else {
            Seq::empty()
        }
    }

    /// The state once pieces have been chosen for the peer with this id.
    pub open spec fn select(self, id: Seq<u8>, count: nat) -> SelectorView {
        if self.knows(id) {
            let found = scan(self.heap, self.rarity, self.bits_of(id), self.in_flight, count);
            SelectorView { heap: found.heap, in_flight: found.in_flight, ..self }
        } else {
            self
        }
    }

    /// Whether the rarity of each piece is the number of peers that offer it,
    /// counted for the pieces that this client lacks.
    pub open spec fn rarity_exact(self) -> bool {
        forall|i: int|
            0 <= i < self.count() ==> #[trigger] self.rarity[i] == if self.have[i] {
                0
            } else {
                holders(self.peers, i)
            }
    }
}

} // verus!
