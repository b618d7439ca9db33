//! What holds of the download queue whatever arrives.

use crate::messages::payloads::RequestPiecePayload;
use crate::peer_manager::piece_manager::selector_laws::lemma_scan_facts;
use crate::peer_manager::piece_manager::{wanted, ManagerView};
use crate::peer_manager::MAX_PIECES_IN_PARALLEL;
use vstd::prelude::*;

verus! {

/// A piece that is being downloaded has exactly one state in the download
/// queue, and a piece that is not has none.
pub proof fn lemma_one_state_per_piece(state: ManagerView, piece: int)
    requires
        state.wf(),
        0 <= piece < state.count(),
    ensures
        state.selector.in_flight[piece] <==> state.queued(piece),
        forall|p: int, q: int|
            0 <= p < state.queue.len() && 0 <= q < state.queue.len() && (
            #[trigger] state.queue[p]).piece_i == piece && (#[trigger] state.queue[q]).piece_i
                == piece ==> p == q,
{
    assert forall|p: int, q: int|
        0 <= p < state.queue.len() && 0 <= q < state.queue.len() && (
        #[trigger] state.queue[p]).piece_i == piece && (#[trigger] state.queue[q]).piece_i
            == piece implies p == q by {
        if p < q {
            assert(state.queue[p].piece_i != state.queue[q].piece_i);
        } else if q < p {
            assert(state.queue[q].piece_i != state.queue[p].piece_i);
        }
    }
}

/// At most one peer has been asked for a block and has not answered.
pub proof fn lemma_one_asker_per_block(
    state: ManagerView,
    piece: int,
    block: int,
    peer: Seq<u8>,
    other: Seq<u8>,
)
    requires
        state.wf(),
        state.outstanding(peer, piece, block),
        state.outstanding(other, piece, block),
    ensures
        peer == other,
{
    let p = choose|q: int|
        0 <= q < state.queue.len() && (#[trigger] state.queue[q]).piece_i == piece
            && state.queue[q].asked(peer, block);
    let q = choose|q: int|
        0 <= q < state.queue.len() && (#[trigger] state.queue[q]).piece_i == piece
            && state.queue[q].asked(other, block);
    if p < q {
        assert(state.queue[p].piece_i != state.queue[q].piece_i);
    } else if q < p {
        assert(state.queue[q].piece_i != state.queue[p].piece_i);
    }
}

/// A request is only made for a block that no peer, `other` or any, has been
/// asked for, and from then on the peer that the request is for has been
/// asked for it. No block is requested twice in one answer.
pub proof fn lemma_requests_are_new(
    state: ManagerView,
    after: ManagerView,
    peer: Seq<u8>,
    limit: nat,
    requests: Seq<RequestPiecePayload>,
    other: Seq<u8>,
)
    requires
        state.wf(),
        state.prepared(after, peer, limit, Some(requests)),
    ensures
        forall|j: int|
            0 <= j < requests.len() ==> !state.outstanding(
                other,
                (#[trigger] requests[j]).index as int,
                requests[j].begin as int / 16384,
            ),
        forall|j: int|
            0 <= j < requests.len() ==> after.outstanding(
                peer,
                (#[trigger] requests[j]).index as int,
                requests[j].begin as int / 16384,
            ),
        forall|i: int, j: int|
            0 <= i < j < requests.len() ==> (#[trigger] requests[i]).begin != (
            #[trigger] requests[j]).begin,
{
    let bits = state.selector.bits_of(peer);
    let mid = choose|mid: ManagerView| #[trigger]
        state.staged(mid, peer) && mid.served(after, peer, bits, limit, Some(requests));
    let q = choose|q: int|
        {
            &&& 0 <= q < mid.queue.len()
            &&& wanted(#[trigger] mid.queue[q], bits)
            &&& forall|p: int| 0 <= p < q ==> !wanted(#[trigger] mid.queue[p], bits)
            &&& mid.queue[q].claimed(after.queue[q], peer, limit, requests)
            &&& forall|p: int|
                0 <= p < mid.queue.len() && p != q ==> #[trigger] after.queue[p] == mid.queue[p]
        };
    let piece = mid.queue[q];
    let base = state.queue.len() as int;
    let room = (MAX_PIECES_IN_PARALLEL - state.queue.len()) as nat;
    if state.idle_for(bits) {
        lemma_scan_facts(
            state.selector.heap,
            state.selector.rarity,
            bits,
            state.selector.in_flight,
            room,
        );
    }
    assert forall|j: int| 0 <= j < requests.len() implies !state.outstanding(
        other,
        (#[trigger] requests[j]).index as int,
        requests[j].begin as int / 16384,
    ) by {
        let block = requests[j].begin as int / 16384;
        if state.outstanding(other, piece.piece_i as int, block) {
            let p = choose|p: int|
                0 <= p < state.queue.len() && (#[trigger] state.queue[p]).piece_i
                    == piece.piece_i as int && state.queue[p].asked(other, block);
            if q < base {
                assert(mid.queue[q] == state.queue[q]);
                if p < q {
                    assert(state.queue[p].piece_i != state.queue[q].piece_i);
                } else if q < p {
                    assert(state.queue[q].piece_i != state.queue[p].piece_i);
                }
            } else {
                let picked = state.selector.picked(peer, room);
                assert(picked[q - base] == piece.piece_i);
                assert(!state.selector.in_flight[piece.piece_i as int]);
                assert(state.selector.in_flight[piece.piece_i as int] <==> state.queued(
                    piece.piece_i as int,
                ));
            }
        }
    }
    assert forall|j: int| 0 <= j < requests.len() implies after.outstanding(
        peer,
        (#[trigger] requests[j]).index as int,
        requests[j].begin as int / 16384,
    ) by {
        assert(after.queue[q].piece_i == piece.piece_i);
    }
}

} // verus!
