//! What holds of the piece selector whatever the peers do.

use crate::peer_manager::piece_manager::selector_model::{accepts, counted, entry_le, fit, holders, offers, one_less, one_more, scan, sorted, Entry, PeerView, SelectorView};
use vstd::prelude::*;

verus! {

/// 1 where the peer offers the piece, else 0.
pub open spec fn share(peer: PeerView, piece: int) -> nat {
    if offers(peer.has, piece) {
        1
    } else {
        0
    }
}

/// A peer that comes adds its share to the number of holders.
pub proof fn lemma_holders_push(peers: Seq<PeerView>, peer: PeerView, piece: int)
    ensures
        holders(peers.push(peer), piece) == holders(peers, piece) + share(peer, piece),
{
    assert(peers.push(peer).drop_last() =~= peers);
}

/// No piece has more holders than there are peers, and a piece that a peer
/// offers has a holder.
pub proof fn lemma_holders_bound(peers: Seq<PeerView>, piece: int)
    ensures
        holders(peers, piece) <= peers.len(),
        forall|k: int|
            0 <= k < peers.len() && share(#[trigger] peers[k], piece) == 1 ==> holders(
                peers,
                piece,
            ) >= 1,
    decreases peers.len(),
{
    if peers.len() > 0 {
        lemma_holders_bound(peers.drop_last(), piece);
        assert forall|k: int|
            0 <= k < peers.len() && share(#[trigger] peers[k], piece) == 1 implies holders(
            peers,
            piece,
        ) >= 1 by {
            if k < peers.len() - 1 {
                assert(peers.drop_last()[k] == peers[k]);
            }
        }
    }
}

/// A peer whose bitfield changes takes its old share from the number of
/// holders and adds its new one.
pub proof fn lemma_holders_update(peers: Seq<PeerView>, k: int, peer: PeerView, piece: int)
    requires
        0 <= k < peers.len(),
    ensures
        holders(peers.update(k, peer), piece) + share(peers[k], piece) == holders(peers, piece)
            + share(peer, piece),
    decreases peers.len(),
{
    let changed = peers.update(k, peer);
    if k == peers.len() - 1 {
        assert(changed.drop_last() =~= peers.drop_last());
    } else {
        lemma_holders_update(peers.drop_last(), k, peer, piece);
        assert(changed.drop_last() =~= peers.drop_last().update(k, peer));
    }
}

/// A peer that goes takes its share from the number of holders.
pub proof fn lemma_holders_remove(peers: Seq<PeerView>, k: int, piece: int)
    requires
        0 <= k < peers.len(),
    ensures
        holders(peers.remove(k), piece) + share(peers[k], piece) == holders(peers, piece),
    decreases peers.len(),
{
    let fewer = peers.remove(k);
    if k == peers.len() - 1 {
        assert(fewer =~= peers.drop_last());
    } else {
        lemma_holders_remove(peers.drop_last(), k, piece);
        assert(fewer.drop_last() =~= peers.drop_last().remove(k));
        assert(fewer.last() == peers.last());
    }
}

/// What counting does to the rarity: it changes by one for each piece below
/// `upto` that the bitfield offers and this client lacks, and for no other.
pub proof fn lemma_counted_rarity(
    rarity: Seq<u32>,
    heap: Seq<Entry>,
    bits: Seq<bool>,
    have: Seq<bool>,
    up: bool,
    upto: nat,
)
    requires
        upto <= rarity.len(),
        rarity.len() == have.len(),
    ensures
        counted(rarity, heap, bits, have, up, upto).0.len() == rarity.len(),
        forall|i: int|
            0 <= i < rarity.len() ==> #[trigger] counted(rarity, heap, bits, have, up, upto).0[i]
                == if i < upto && offers(bits, i) && !have[i] {
                if up {
                    one_more(rarity[i])
                } else {
                    one_less(rarity[i])
                }
            } else {
                rarity[i]
            },
    decreases upto,
{
    if upto > 0 {
        lemma_counted_rarity(rarity, heap, bits, have, up, (upto - 1) as nat);
    }
}

/// A client that knows no peer counts no holder.
pub proof fn lemma_fresh_exact(have: Seq<bool>)
    ensures
        SelectorView::fresh(have).rarity_exact(),
{
}

/// The rarity stays exact when a peer comes.
pub proof fn lemma_add_peer_exact(state: SelectorView, id: Seq<u8>)
    requires
        state.wf(),
        state.rarity_exact(),
    ensures
        state.add_peer(id).rarity_exact(),
{
    let after = state.add_peer(id);
    assert forall|i: int| 0 <= i < after.count() implies #[trigger] after.rarity[i]
        == if after.have[i] {
        0
    } else {
        holders(after.peers, i)
    } by {
        assert(state.rarity[i] == if state.have[i] { 0 } else { holders(state.peers, i) });
        if !state.knows(id) {
            lemma_holders_push(state.peers, PeerView { id, has: Seq::empty() }, i);
        }
    }
}

/// The rarity stays exact when a peer goes.
pub proof fn lemma_remove_peer_exact(state: SelectorView, id: Seq<u8>)
    requires
        state.wf(),
        state.rarity_exact(),
    ensures
        state.remove_peer(id).rarity_exact(),
{
    let after = state.remove_peer(id);
    if state.knows(id) {
        let k = state.slot(id);
        let bits = state.peers[k].has;
        lemma_counted_rarity(state.rarity, state.heap, bits, state.have, false, state.count());
        assert forall|i: int| 0 <= i < after.count() implies #[trigger] after.rarity[i]
            == if after.have[i] {
            0
        } else {
            holders(after.peers, i)
        } by {
            assert(state.rarity[i] == if state.have[i] { 0 } else { holders(state.peers, i) });
            lemma_holders_remove(state.peers, k, i);
            lemma_holders_bound(state.peers, i);
        }
    }
}

/// The rarity stays exact when a peer sends a bitfield, the first or a later
/// one, as long as the peers can be counted in 32 bits.
pub proof fn lemma_add_bitfield_exact(state: SelectorView, id: Seq<u8>, bitfield: Seq<bool>)
    requires
        state.wf(),
        state.rarity_exact(),
        state.peers.len() <= u32::MAX,
    ensures
        state.add_bitfield(id, bitfield).rarity_exact(),
{
    let after = state.add_bitfield(id, bitfield);
    if state.knows(id) {
        let k = state.slot(id);
        let old_bits = state.peers[k].has;
        let bits = fit(bitfield, state.count());
        let less = counted(state.rarity, state.heap, old_bits, state.have, false, state.count());
        lemma_counted_rarity(state.rarity, state.heap, old_bits, state.have, false, state.count());
        lemma_counted_rarity(less.0, less.1, bits, state.have, true, state.count());
        assert forall|i: int| 0 <= i < after.count() implies #[trigger] after.rarity[i]
            == if after.have[i] {
            0
        } else {
            holders(after.peers, i)
        } by {
            assert(state.rarity[i] == if state.have[i] { 0 } else { holders(state.peers, i) });
            let peer = PeerView { id, has: bits };
            lemma_holders_update(state.peers, k, peer, i);
            lemma_holders_bound(state.peers, i);
            lemma_holders_bound(state.peers.update(k, peer), i);
            assert(less.0[i] == if offers(old_bits, i) && !state.have[i] {
                one_less(state.rarity[i])
            } else {
                state.rarity[i]
            });
        }
    }
}

/// The rarity stays exact when a peer says that it has a piece, as long as
/// the peers can be counted in 32 bits, and unless the peer had said so
/// before of a piece that this client lacks: that piece is then counted
/// twice for the one peer.
pub proof fn lemma_update_have_exact(state: SelectorView, id: Seq<u8>, piece: u32)
    requires
        state.wf(),
        state.rarity_exact(),
        state.peers.len() <= u32::MAX,
        state.knows(id) && piece < state.count() && !state.have[piece as int] ==> !offers(
            state.bits_of(id),
            piece as int,
        ),
    ensures
        state.update_have(id, piece).rarity_exact(),
{
    let after = state.update_have(id, piece);
    if state.knows(id) && piece < state.count() {
        let k = state.slot(id);
        let bits = fit(state.peers[k].has, state.count()).update(piece as int, true);
        let peer = PeerView { id, has: bits };
        assert forall|i: int| 0 <= i < after.count() implies #[trigger] after.rarity[i]
            == if after.have[i] {
            0
        } else {
            holders(after.peers, i)
        } by {
            assert(state.rarity[i] == if state.have[i] { 0 } else { holders(state.peers, i) });
            lemma_holders_update(state.peers, k, peer, i);
            lemma_holders_bound(state.peers.update(k, peer), i);
        }
    }
}

/// The rarity stays exact when this client gets a piece: the piece then
/// counts no holder.
pub proof fn lemma_mark_have_exact(state: SelectorView, piece: u32)
    requires
        state.wf(),
        state.rarity_exact(),
    ensures
        state.mark_have(piece).rarity_exact(),
{
    let after = state.mark_have(piece);
    assert forall|i: int| 0 <= i < after.count() implies #[trigger] after.rarity[i]
        == if after.have[i] {
        0
    } else {
        holders(after.peers, i)
    } by {
        assert(state.rarity[i] == if state.have[i] { 0 } else { holders(state.peers, i) });
    }
}

/// The rarity stays exact when a piece leaves the download queue.
pub proof fn lemma_release_exact(state: SelectorView, piece: u32)
    requires
        state.wf(),
        state.rarity_exact(),
    ensures
        state.release(piece).rarity_exact(),
{
    let after = state.release(piece);
    assert forall|i: int| 0 <= i < after.count() implies #[trigger] after.rarity[i]
        == if after.have[i] {
        0
    } else {
        holders(after.peers, i)
    } by {
        assert(state.rarity[i] == if state.have[i] { 0 } else { holders(state.peers, i) });
    }
}

/// The rarity stays exact when pieces are chosen: choosing changes neither
/// the rarity nor what the peers offer.
pub proof fn lemma_select_exact(state: SelectorView, id: Seq<u8>, count: nat)
    requires
        state.wf(),
        state.rarity_exact(),
    ensures
        state.select(id, count).rarity_exact(),
{
    let after = state.select(id, count);
    assert forall|i: int| 0 <= i < after.count() implies #[trigger] after.rarity[i]
        == if after.have[i] {
        0
    } else {
        holders(after.peers, i)
    } by {
        assert(state.rarity[i] == if state.have[i] { 0 } else { holders(state.peers, i) });
    }
}

/// Whether piece `piece` is among the pieces `picked`.
pub open spec fn chosen(picked: Seq<u32>, piece: int) -> bool {
    exists|k: int| 0 <= k < picked.len() && #[trigger] picked[k] == piece
}

/// What holds of the pieces that a walk through the queue chooses. There
/// are at most `count` of them. Each is a piece that the peer offers and
/// that nobody was downloading, with an entry in the queue that has the
/// piece's rarity. Afterwards exactly they have joined the pieces that are
/// being downloaded. No piece is chosen twice, and the pieces come in the
/// order of the queue: rarest first, among equals the least index first.
pub proof fn lemma_scan_facts(
    heap: Seq<Entry>,
    rarity: Seq<u32>,
    bits: Seq<bool>,
    in_flight: Seq<bool>,
    count: nat,
)
    requires
        in_flight.len() == rarity.len(),
    ensures
        ({
            let found = scan(heap, rarity, bits, in_flight, count);
            &&& found.picked.len() <= count
            &&& found.in_flight.len() == in_flight.len()
            &&& forall|k: int|
                0 <= k < found.picked.len() ==> {
                    let piece = #[trigger] found.picked[k];
                    &&& piece < rarity.len()
                    &&& offers(bits, piece as int)
                    &&& !in_flight[piece as int]
                    &&& found.in_flight[piece as int]
                    &&& heap.contains((rarity[piece as int], piece))
                }
            &&& forall|i: int|
                0 <= i < in_flight.len() ==> #[trigger] found.in_flight[i] == (in_flight[i]
                    || chosen(found.picked, i))
            &&& forall|j: int, k: int|
                0 <= j < k < found.picked.len() ==> found.picked[j] != found.picked[k]
            &&& sorted(heap) ==> forall|j: int, k: int|
                0 <= j <= k < found.picked.len() ==> entry_le(
                    (rarity[found.picked[j] as int], found.picked[j]),
                    (rarity[found.picked[k] as int], found.picked[k]),
                )
            &&& sorted(heap) && found.picked.len() > 0 ==> forall|k: int|
                0 <= k < heap.len() && accepts(rarity, bits, in_flight, #[trigger] heap[k])
                    ==> entry_le((rarity[found.picked[0] as int], found.picked[0]), heap[k])
        }),
    decreases heap.len(),
{
    let found = scan(heap, rarity, bits, in_flight, count);
    if count == 0 || heap.len() == 0 {
        assert forall|i: int| 0 <= i < in_flight.len() implies #[trigger] found.in_flight[i] == (
        in_flight[i] || chosen(found.picked, i)) by {}
    } else {
        let first = heap[0];
        let tail = heap.drop_first();
        assert forall|k: int| 0 <= k < tail.len() implies heap.contains(#[trigger] tail[k]) by {
            assert(heap[k + 1] == tail[k]);
        }
        if accepts(rarity, bits, in_flight, first) {
            let piece = first.1;
            let marked = in_flight.update(piece as int, true);
            let rest = scan(tail, rarity, bits, marked, (count - 1) as nat);
            lemma_scan_facts(tail, rarity, bits, marked, (count - 1) as nat);
            assert(found.picked == seq![piece] + rest.picked);
            assert(heap.contains(first));
            assert forall|k: int| 0 <= k < found.picked.len() implies {
                let p = #[trigger] found.picked[k];
                &&& p < rarity.len()
                &&& offers(bits, p as int)
                &&& !in_flight[p as int]
                &&& found.in_flight[p as int]
                &&& heap.contains((rarity[p as int], p))
            } by {
                if k > 0 {
                    let p = rest.picked[k - 1];
                    assert(found.picked[k] == p);
                    assert(tail.contains((rarity[p as int], p)));
                    let w = choose|w: int| 0 <= w < tail.len() && tail[w] == (rarity[p as int], p);
                    assert(heap[w + 1] == tail[w]);
                } else {
                    assert(rest.in_flight[piece as int] == (marked[piece as int] || chosen(
                        rest.picked,
                        piece as int,
                    )));
                }
            }
            assert forall|i: int| 0 <= i < in_flight.len() implies #[trigger] found.in_flight[i]
                == (in_flight[i] || chosen(found.picked, i)) by {
                assert(rest.in_flight[i] == (marked[i] || chosen(rest.picked, i)));
                if chosen(rest.picked, i) {
                    let w = choose|w: int| 0 <= w < rest.picked.len() && rest.picked[w] == i;
                    assert(found.picked[w + 1] == i);
                }
                if i == piece {
                    assert(found.picked[0] == piece);
                }
                if chosen(found.picked, i) && i != piece {
                    let w = choose|w: int| 0 <= w < found.picked.len() && found.picked[w] == i;
                    assert(rest.picked[w - 1] == i);
                }
            }
            assert forall|j: int, k: int| 0 <= j < k < found.picked.len() implies found.picked[j]
                != found.picked[k] by {
                if j == 0 {
                    let p = rest.picked[k - 1];
                    assert(!marked[p as int]);
                } else {
                    assert(rest.picked[j - 1] != rest.picked[k - 1]);
                }
            }
            if sorted(heap) {
                assert(sorted(tail)) by {
                    assert forall|j: int, k: int| 0 <= j <= k < tail.len() implies entry_le(
                        tail[j],
                        tail[k],
                    ) by {
                        assert(entry_le(heap[j + 1], heap[k + 1]));
                    }
                }
                assert forall|j: int, k: int| 0 <= j <= k < found.picked.len() implies entry_le(
                    (rarity[found.picked[j] as int], found.picked[j]),
                    (rarity[found.picked[k] as int], found.picked[k]),
                ) by {
                    if j == 0 && k > 0 {
                        let p = rest.picked[k - 1];
                        assert(tail.contains((rarity[p as int], p)));
                        let w = choose|w: int|
                            0 <= w < tail.len() && tail[w] == (rarity[p as int], p);
                        assert(entry_le(heap[0], heap[w + 1]));
                    } else if j > 0 {
                        assert(entry_le(
                            (rarity[rest.picked[j - 1] as int], rest.picked[j - 1]),
                            (rarity[rest.picked[k - 1] as int], rest.picked[k - 1]),
                        ));
                    }
                }
                assert forall|k: int|
                    0 <= k < heap.len() && accepts(
                        rarity,
                        bits,
                        in_flight,
                        #[trigger] heap[k],
                    ) implies entry_le((rarity[found.picked[0] as int], found.picked[0]), heap[k]) by {
                    assert(entry_le(heap[0], heap[k]));
                }
            }
        } else {
            let rest = scan(tail, rarity, bits, in_flight, count);
            lemma_scan_facts(tail, rarity, bits, in_flight, count);
            assert(found == rest);
            assert forall|k: int| 0 <= k < found.picked.len() implies {
                let p = #[trigger] found.picked[k];
                &&& p < rarity.len()
                &&& offers(bits, p as int)
                &&& !in_flight[p as int]
                &&& found.in_flight[p as int]
                &&& heap.contains((rarity[p as int], p))
            } by {
                let p = rest.picked[k];
                assert(tail.contains((rarity[p as int], p)));
                let w = choose|w: int| 0 <= w < tail.len() && tail[w] == (rarity[p as int], p);
                assert(heap[w + 1] == tail[w]);
            }
            if sorted(heap) {
                assert(sorted(tail)) by {
                    assert forall|j: int, k: int| 0 <= j <= k < tail.len() implies entry_le(
                        tail[j],
                        tail[k],
                    ) by {
                        assert(entry_le(heap[j + 1], heap[k + 1]));
                    }
                }
                if found.picked.len() > 0 {
                    assert forall|k: int|
                        0 <= k < heap.len() && accepts(
                            rarity,
                            bits,
                            in_flight,
                            #[trigger] heap[k],
                        ) implies entry_le(
                        (rarity[found.picked[0] as int], found.picked[0]),
                        heap[k],
                    ) by {
                        assert(k > 0);
                        assert(tail[k - 1] == heap[k]);
                    }
                }
            }
        }
    }
}

/// No piece is chosen twice while it is being downloaded. Pieces are chosen
/// in `first`; then anything may happen to the selector but that a piece
/// leaves the download queue, which gives `second`; then pieces are chosen
/// again, for the same peer or another. No piece is in both choices, and none
/// is twice in one.
pub proof fn lemma_chosen_once(
    first: SelectorView,
    id: Seq<u8>,
    count: nat,
    second: SelectorView,
    other_id: Seq<u8>,
    other_count: nat,
)
    requires
        first.wf(),
        second.wf(),
        second.count() == first.count(),
        forall|i: int|
            0 <= i < first.count() && #[trigger] first.select(id, count).in_flight[i]
                ==> second.in_flight[i],
    ensures
        forall|j: int, k: int|
            0 <= j < first.picked(id, count).len() && 0 <= k < second.picked(
                other_id,
                other_count,
            ).len() ==> first.picked(id, count)[j] != second.picked(other_id, other_count)[k],
        forall|j: int, k: int|
            0 <= j < k < first.picked(id, count).len() ==> first.picked(id, count)[j]
                != first.picked(id, count)[k],
{
    if first.knows(id) {
        lemma_scan_facts(first.heap, first.rarity, first.bits_of(id), first.in_flight, count);
    }
    if second.knows(other_id) {
        lemma_scan_facts(
            second.heap,
            second.rarity,
            second.bits_of(other_id),
            second.in_flight,
            other_count,
        );
    }
    let a = first.picked(id, count);
    let b = second.picked(other_id, other_count);
    assert forall|j: int, k: int| 0 <= j < a.len() && 0 <= k < b.len() implies a[j] != b[k] by {
        let piece = a[j];
        assert(first.select(id, count).in_flight[piece as int]);
        assert(second.in_flight[piece as int]);
        assert(!second.in_flight[b[k] as int]);
    }
}

} // verus!
