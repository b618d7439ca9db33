//! What holds of the coordinator whatever it is told.

use crate::digest::sha1_digest;
use crate::peer_manager::coordinator::{
    CoordinatorView, EffectView, EventView, TorrentStateView,
};
use crate::peer_manager::piece_manager::file_manager::BlockOutcome;
use crate::peer_manager::ReqView;
use vstd::prelude::*;

verus! {

/// How far a torrent has come: 0 while its `info` dictionary is collected, 1
/// while it is downloaded, 2 when it is seeded.
pub open spec fn progress(state: TorrentStateView) -> nat {
    match state {
        TorrentStateView::WaitingForMetadata { .. } => 0,
        TorrentStateView::Downloading { .. } => 1,
        TorrentStateView::Seeding { .. } => 2,
    }
}

/// A torrent only ever moves on: no step of the coordinator takes it back
/// from seeding to downloading, or from either to waiting for its `info`
/// dictionary.
pub proof fn lemma_state_moves_on(
    before: CoordinatorView,
    event: EventView,
    after: CoordinatorView,
    effects: Seq<EffectView>,
)
    requires
        before.stepped(event, after, effects),
    ensures
        progress(before.state) <= progress(after.state),
{
}

/// Only verified pieces are written to the file. Whenever the coordinator
/// asks for a piece to be written, the bytes are those of a whole piece,
/// their SHA-1 hash is the one that the torrent gives for the piece, and the
/// place is where the piece begins.
pub proof fn lemma_only_verified_pieces_are_written(
    before: CoordinatorView,
    event: EventView,
    after: CoordinatorView,
    effects: Seq<EffectView>,
    k: int,
)
    requires
        before.wf(),
        after.wf(),
        before.stepped(event, after, effects),
        0 <= k < effects.len(),
        effects[k] is WritePiece,
    ensures
        before.state is Downloading,
        after.state is Downloading,
        ({
            let manager = after.state->manager;
            let index = effects[k]->WritePiece_index;
            let data = effects[k]->WritePiece_data;
            &&& index < manager.count()
            &&& sha1_digest(data) == manager.hashes[index as int]
            &&& data.len() == manager.piece_size(index as nat)
            &&& effects[k]->WritePiece_offset == index * manager.piece_length
        }),
{
    match event {
        EventView::Peer(peer, message) => {
            match message {
                ReqView::GotBlock(block) => {
                    let manager = before.state->manager;
                    let next = after.state->manager;
                    let index = effects[k]->WritePiece_index;
                    assert(manager.integrate(block).1 == BlockOutcome::Verified(index));
                    lemma_verified_is_ready(manager, block);
                    let place = next.place(index as int);
                    assert(next.queue[place].wf());
                    assert(index * manager.piece_length <= 0xffff_ffff * 0xffff_ffff)
                        by (nonlinear_arith)
                        requires
                            index <= 0xffff_ffff,
                            manager.piece_length <= 0xffff_ffff,
                    ;
                },
                _ => {},
            }
        },
        _ => {},
    }
}

/// A block that finishes a piece with the right hash leaves the piece in the
/// queue, verified.
proof fn lemma_verified_is_ready(
    manager: crate::peer_manager::piece_manager::ManagerView,
    block: crate::messages::payloads::BlockView,
)
    requires
        manager.wf(),
        manager.integrate(block).1 is Verified,
    ensures
        manager.integrate(block).1 == BlockOutcome::Verified(block.index),
        manager.integrate(block).0.queued(block.index as int),
        manager.integrate(block).0.piece_length == manager.piece_length,
        ({
            let next = manager.integrate(block).0;
            exists|q: int|
                0 <= q < next.queue.len() && (#[trigger] next.queue[q]).piece_i == block.index
                    && next.queue[q].verified
        }),
{
    let q = manager.place(block.index as int);
    let piece = manager.queue[q];
    let stored = piece.with_block(block.begin as nat, block.block);
    let mid = manager.with_piece(q, stored);
    assert(mid.queue[q].piece_i == block.index);
    assert(mid.queued(block.index as int));
    let p = mid.place(block.index as int);
    let next = mid.settle(block.index, sha1_digest(stored.buf)).0;
    assert(next.queue[p].piece_i == block.index);
    assert(next.queue[p].verified);
}

/// This client comes to have a piece in one way only: a piece counts as
/// had from the step in which the coordinator is told that the piece has been
/// written to the file, and the piece was then in the queue and verified.
pub proof fn lemma_have_only_after_write(
    before: CoordinatorView,
    event: EventView,
    after: CoordinatorView,
    effects: Seq<EffectView>,
    piece: int,
)
    requires
        before.wf(),
        before.stepped(event, after, effects),
        before.state is Downloading,
        after.state is Downloading,
        0 <= piece < before.state->manager.count(),
        !before.state->manager.have()[piece],
        after.state->manager.have()[piece],
    ensures
        event == EventView::PieceWritten(piece as u32),
        before.state->manager.ready(piece as u32),
{
    let manager = before.state->manager;
    let next = after.state->manager;
    match event {
        EventView::Peer(peer, message) => {
            match message {
                ReqView::NeedBlockQueue => {
                    let requests = choose|requests: Option<
                        Seq<crate::messages::payloads::RequestPiecePayload>,
                    >| #[trigger]
                        manager.prepared(
                            next,
                            peer,
                            crate::peer_manager::BLOCK_QUEUE_SIZE_MAX as nat,
                            requests,
                        );
                    if manager.selector.knows(peer) {
                        let mid = choose|mid: crate::peer_manager::piece_manager::ManagerView| #[trigger]
                            manager.staged(mid, peer) && mid.served(
                                next,
                                peer,
                                manager.selector.bits_of(peer),
                                crate::peer_manager::BLOCK_QUEUE_SIZE_MAX as nat,
                                requests,
                            );
                        assert(mid.selector.have == manager.selector.have);
                    }
                },
                _ => {},
            }
        },
        _ => {},
    }
}

} // verus!
