//! One turn of a session: a message comes, the session changes and says what
//! is to be sent.

use crate::messages::payloads::{HavePayload, NoPayload};
use crate::messages::{MessageView, PeerMessage};
use crate::peer::error::PeerError;
use crate::peer::{
    action_views, ActionView, Msg, Peer, PeerAction, SessionView, Step, Turn, MAX_IDLE_TICKS,
};
use crate::peer_manager::{ReqMessage, ReqView, ResMessage, ResView};
use vstd::prelude::*;

verus! {

/// What a session waits for.
pub ghost enum MsgView {
    Manager(ResView),
    Data(MessageView),
    Timeout,
}

impl View for Msg {
    type V = MsgView;

    open spec fn view(&self) -> MsgView {
        match self {
            Msg::Manager(message) => MsgView::Manager(message@),
            Msg::Data(message) => MsgView::Data(message@),
            Msg::Timeout => MsgView::Timeout,
        }
    }
}

/// Whether no entry of `bits` is set.
pub open spec fn none_set(bits: Seq<bool>) -> bool {
    forall|i: int| 0 <= i < bits.len() ==> !bits[i]
}

/// Whether every entry of `bits` is set.
pub open spec fn all_set(bits: Seq<bool>) -> bool {
    forall|i: int| 0 <= i < bits.len() ==> bits[i]
}

/// The pieces of a peer once it has said that it has piece `piece`: the
/// bitfield is filled up with `false` as far as the piece, if it is shorter.
pub open spec fn noted(has: Seq<bool>, piece: u32) -> Seq<bool> {
    if piece < has.len() {
        has.update(piece as int, true)
    } else if piece + 1 > usize::MAX {
        has
    } else {
        Seq::new((piece + 1) as nat, |i: int| i == piece || (i < has.len() && has[i]))
    }
}

impl SessionView {
    /// A step that changes nothing and asks for `action`.
    pub open spec fn say(self, action: ActionView) -> Step {
        Step { state: self, actions: seq![action], ended: false }
    }

    /// What the session does with a message from the coordinator.
    pub open spec fn on_manager(self, message: ResView) -> Step {
        match message {
            ResView::FinishedFile => {
                if self.peer_interested {
                    self.stay()
                } else {
                    Step { state: self, actions: seq![ActionView::Finish], ended: true }
                }
            },
            ResView::FinishedPiece(piece_index) => self.say(
                ActionView::SendPeer(MessageView::Have(HavePayload { piece_index })),
            ),
            ResView::NewBlockQueue(requests) => Step {
                state: SessionView {
                    to_send: self.to_send + Seq::new(
                        requests.len(),
                        |i: int| MessageView::Request(requests[i]),
                    ),
                    ..self
                },
                actions: Seq::empty(),
                ended: false,
            },
            ResView::Block(Some(block)) => self.say(
                ActionView::SendPeer(MessageView::Piece(block)),
            ),
            ResView::Block(None) => self.stay(),
            ResView::WeHave(bits) => {
                if none_set(bits) {
                    self.stay()
                } else if all_set(bits) {
                    self.set_interested(false)
                } else {
                    let told = self.set_interested(true);
                    Step {
                        state: told.state,
                        actions: told.actions + seq![
                            ActionView::SendPeer(MessageView::Bitfield(bits)),
                        ],
                        ended: false,
                    }
                }
            },
            ResView::ExtensionData(kind, data) => self.on_extension_data(kind, data),
            ResView::StartDownload => self.say(
                ActionView::SendPeerManager(ReqView::NeedBlockQueue),
            ),
        }
    }

    /// What the session does with a message from the peer. Whatever the
    /// message, the peer no longer counts as silent.
    pub open spec fn on_data(self, message: MessageView) -> Step {
        let awake = SessionView { idle_ticks: 0, ..self };
        match message {
            MessageView::Choke => (SessionView { peer_choking: true, ..awake }).stay(),
            MessageView::Unchoke => (SessionView { peer_choking: false, ..awake }).say(
                ActionView::SendPeer(MessageView::Unchoke),
            ),
            MessageView::Interested => (SessionView { peer_interested: true, ..awake }).stay(),
            MessageView::NotInterested => (SessionView { peer_interested: false, ..awake }).stay(),
            MessageView::Have(have) => (SessionView {
                has: noted(self.has, have.piece_index),
                ..awake
            }).say(ActionView::SendPeerManager(ReqView::PeerHas(have))),
            MessageView::Bitfield(bits) => (SessionView { has: bits, ..awake }).say(
                ActionView::SendPeerManager(ReqView::PeerBitfield(bits)),
            ),
            MessageView::Request(request) => awake.say(
                ActionView::SendPeerManager(ReqView::NeedBlock(request)),
            ),
            MessageView::Piece(block) => (SessionView {
                have_sent: if self.have_sent > 0 {
                    (self.have_sent - 1) as nat
                } else {
                    0
                },
                ..awake
            }).say(ActionView::SendPeerManager(ReqView::GotBlock(block))),
            MessageView::Cancel(_) => awake.stay(),
            MessageView::KeepAlive => awake.stay(),
            MessageView::Extended(payload) => awake.on_extended(payload),
        }
    }

    /// What the session does when the peer has sent nothing for 120
    /// seconds: a keep-alive is sent, unless this has happened
    /// `MAX_IDLE_TICKS` times in a row, which ends the session.
    pub open spec fn on_timeout(self) -> Step {
        if self.idle_ticks + 1 >= MAX_IDLE_TICKS {
            Step {
                state: SessionView { idle_ticks: MAX_IDLE_TICKS as nat, ..self },
                actions: seq![ActionView::Fail(PeerError::PeerIdle)],
                ended: true,
            }
        } else {
            (SessionView { idle_ticks: self.idle_ticks + 1, ..self }).say(
                ActionView::SendPeer(MessageView::KeepAlive),
            )
        }
    }

    /// One turn of the session: what is waited for is dealt with, and then,
    /// unless that has ended the session, the turn is ended as `pump` says.
    pub open spec fn step(self, msg: MsgView) -> Step {
        let first = match msg {
            MsgView::Manager(message) => self.on_manager(message),
            MsgView::Data(message) => self.on_data(message),
            MsgView::Timeout => self.on_timeout(),
        };
        if first.ended {
            first
        } else {
            let rest = first.state.pump();
            Step { state: rest.state, actions: first.actions + rest.actions, ended: false }
        }
    }
}

impl Peer {
    /// One action and no end.
    fn say(action: PeerAction) -> (turn: Turn)
        ensures
            action_views(turn.actions@) == seq![action@],
            !turn.ended,
    {
        let mut actions: Vec<PeerAction> = Vec::new();
        actions.push(action);
        assert(action_views(actions@) =~= seq![action@]);
        Turn { actions, ended: false }
    }

    /// No action and no end.
    fn stay() -> (turn: Turn)
        ensures
            action_views(turn.actions@) == Seq::<ActionView>::empty(),
            !turn.ended,
    {
        let actions: Vec<PeerAction> = Vec::new();
        assert(action_views(actions@) =~= Seq::<ActionView>::empty());
        Turn { actions, ended: false }
    }

    /// Deals with a message from the coordinator. See
    /// `SessionView::on_manager`.
    pub fn on_manager(&mut self, message: ResMessage) -> (turn: Turn)
        ensures
            final(self)@ == old(self)@.on_manager(message@).state,
            action_views(turn.actions@) == old(self)@.on_manager(message@).actions,
            turn.ended == old(self)@.on_manager(message@).ended,
    {
        match message {
            ResMessage::FinishedFile => {
                if self.state.peer_interested {
                    Self::stay()
                } else {
                    let mut actions: Vec<PeerAction> = Vec::new();
                    actions.push(PeerAction::Finish);
                    assert(action_views(actions@) =~= seq![ActionView::Finish]);
                    Turn { actions, ended: true }
                }
            },
            ResMessage::FinishedPiece(piece_index) => Self::say(
                PeerAction::SendPeer(PeerMessage::Have(HavePayload { piece_index })),
            ),
            ResMessage::NewBlockQueue(request_piece_payloads) => {
                let ghost before = self@.to_send;
                let mut i: usize = 0;
                while i < request_piece_payloads.len()
                    invariant
                        i <= request_piece_payloads@.len(),
                        self.state == old(self).state,
                        self.idle_ticks == old(self).idle_ticks,
                        self.queue.have_sent == old(self).queue.have_sent,
                        self@.to_send == before + Seq::new(
                            i as nat,
                            |k: int| MessageView::Request(request_piece_payloads@[k]),
                        ),
                    decreases request_piece_payloads@.len() - i,
                {
                    let ghost prior = self@.to_send;
                    let msg = PeerMessage::Request(request_piece_payloads[i]);
                    self.queue.to_send.push(msg);
                    proof {
                        assert(self@.to_send =~= prior.push(msg@));
                        assert(self@.to_send =~= before + Seq::new(
                            (i + 1) as nat,
                            |k: int| MessageView::Request(request_piece_payloads@[k]),
                        ));
                    }
                    i = i + 1;
                }
                Self::stay()
            },
            ResMessage::Block(response_piece_payload) => {
                match response_piece_payload {
                    Some(payload) => Self::say(PeerAction::SendPeer(PeerMessage::Piece(payload))),
                    None => Self::stay(),
                }
            },
            ResMessage::WeHave(bitfield) => {
                if bitfield.is_empty() {
                    Self::stay()
                } else if bitfield.is_finished() {
                    let actions = self.set_interested(false);
                    Turn { actions, ended: false }
                } else {
                    let mut actions = self.set_interested(true);
                    let ghost told = action_views(actions@);
                    let msg = PeerMessage::Bitfield(bitfield);
                    actions.push(PeerAction::SendPeer(msg));
                    proof {
                        assert(action_views(actions@) =~= told + seq![
                            ActionView::SendPeer(msg@),
                        ]);
                    }
                    Turn { actions, ended: false }
                }
            },
            ResMessage::ExtensionData(ext_type, data) => {
                self.queue_extension_data(ext_type, data);
                Self::stay()
            },
            ResMessage::StartDownload => Self::say(
                PeerAction::SendPeerManager(ReqMessage::NeedBlockQueue),
            ),
        }
    }

    /// Notes that the peer has a piece.
    fn note_have(&mut self, piece: u32)
        ensures
            final(self).state.has@ == noted(old(self).state.has@, piece),
            final(self).state.peer_id == old(self).state.peer_id,
            final(self).state.am_choking == old(self).state.am_choking,
            final(self).state.am_interested == old(self).state.am_interested,
            final(self).state.peer_choking == old(self).state.peer_choking,
            final(self).state.peer_interested == old(self).state.peer_interested,
            final(self).state.extensions == old(self).state.extensions,
            final(self).queue == old(self).queue,
            final(self).idle_ticks == old(self).idle_ticks,
    {
        let i: usize = piece as usize;
        if i < self.state.has.len() {
            self.state.has.set(i, true);
        } else if i < usize::MAX {
            while self.state.has.len() < i
                invariant
                    old(self).state.has@.len() <= self.state.has@.len() <= i,
                    i == piece,
                    forall|k: int|
                        0 <= k < self.state.has@.len() ==> self.state.has@[k] == (k < old(
                            self,
                        ).state.has@.len() && old(self).state.has@[k]),
                    self.state.peer_id == old(self).state.peer_id,
                    self.state.am_choking == old(self).state.am_choking,
                    self.state.am_interested == old(self).state.am_interested,
                    self.state.peer_choking == old(self).state.peer_choking,
                    self.state.peer_interested == old(self).state.peer_interested,
                    self.state.extensions == old(self).state.extensions,
                    self.queue == old(self).queue,
                    self.idle_ticks == old(self).idle_ticks,
                decreases i - self.state.has@.len(),
            {
                self.state.has.push(false);
            }
            self.state.has.push(true);
            assert(self.state.has@ =~= noted(old(self).state.has@, piece));
        }
    }

    /// Deals with a message from the peer. See `SessionView::on_data`.
    pub fn on_data(&mut self, message: PeerMessage) -> (turn: Turn)
        ensures
            final(self)@ == old(self)@.on_data(message@).state,
            action_views(turn.actions@) == old(self)@.on_data(message@).actions,
            turn.ended == old(self)@.on_data(message@).ended,
    {
        self.idle_ticks = 0;
        match message {
            PeerMessage::Choke(_no_payload) => {
                self.state.peer_choking = true;
                Self::stay()
            },
            PeerMessage::Unchoke(_no_payload) => {
                self.state.peer_choking = false;
                Self::say(PeerAction::SendPeer(PeerMessage::Unchoke(NoPayload)))
            },
            PeerMessage::Interested(_no_payload) => {
                self.state.peer_interested = true;
                Self::stay()
            },
            PeerMessage::NotInterested(_no_payload) => {
                self.state.peer_interested = false;
                Self::stay()
            },
            PeerMessage::Have(have_payload) => {
                self.note_have(have_payload.piece_index);
                Self::say(PeerAction::SendPeerManager(ReqMessage::PeerHas(have_payload)))
            },
            PeerMessage::Bitfield(bitfield_payload) => {
                self.state.has = crate::peer_manager::piece_manager::copy_bits(
                    &bitfield_payload.pieces_available,
                );
                Self::say(PeerAction::SendPeerManager(ReqMessage::PeerBitfield(bitfield_payload)))
            },
            PeerMessage::Request(request_piece_payload) => Self::say(
                PeerAction::SendPeerManager(ReqMessage::NeedBlock(request_piece_payload)),
            ),
            PeerMessage::Piece(response_piece_payload) => {
                if self.queue.have_sent > 0 {
                    self.queue.have_sent = self.queue.have_sent - 1;
                }
                Self::say(PeerAction::SendPeerManager(ReqMessage::GotBlock(response_piece_payload)))
            },
            PeerMessage::Cancel(_request_piece_payload) => Self::stay(),
            PeerMessage::KeepAlive(_no_payload) => Self::stay(),
            PeerMessage::Extended(extension_payload) => self.on_extension_data(extension_payload),
        }
    }

    /// Deals with a silence of 120 seconds. See `SessionView::on_timeout`.
    pub fn on_timeout(&mut self) -> (turn: Turn)
        ensures
            final(self)@ == old(self)@.on_timeout().state,
            action_views(turn.actions@) == old(self)@.on_timeout().actions,
            turn.ended == old(self)@.on_timeout().ended,
    {
        if self.idle_ticks >= MAX_IDLE_TICKS - 1 {
            self.idle_ticks = MAX_IDLE_TICKS;
            let mut actions: Vec<PeerAction> = Vec::new();
            actions.push(PeerAction::Fail(PeerError::PeerIdle));
            assert(action_views(actions@) =~= seq![ActionView::Fail(PeerError::PeerIdle)]);
            Turn { actions, ended: true }
        } else {
            self.idle_ticks = self.idle_ticks + 1;
            Self::say(PeerAction::SendPeer(PeerMessage::KeepAlive(NoPayload)))
        }
    }

    /// One turn of the session. See `SessionView::step`.
    pub fn handle(&mut self, msg: Msg) -> (turn: Turn)
        ensures
            final(self)@ == old(self)@.step(msg@).state,
            action_views(turn.actions@) == old(self)@.step(msg@).actions,
            turn.ended == old(self)@.step(msg@).ended,
    {
        let first = match msg {
            Msg::Manager(message) => self.on_manager(message),
            Msg::Data(message) => self.on_data(message),
            Msg::Timeout => self.on_timeout(),
        };
        if first.ended {
            return first;
        }
        let mut actions = first.actions;
        let ghost said = action_views(actions@);
        let mut rest = self.pump();
        let ghost more = action_views(rest@);
        let ghost count = rest@.len();
        let ghost mut k: int = 0;
        while rest.len() > 0
            invariant
                0 <= k,
                k + rest@.len() == count,
                count == more.len(),
                forall|j: int| 0 <= j < rest@.len() ==> (#[trigger] rest@[j])@ == more[k + j],
                action_views(actions@) == said + more.take(k),
            decreases rest@.len(),
        {
            let action = rest.remove(0);
            let ghost prior = action_views(actions@);
            actions.push(action);
            proof {
                assert(action_views(actions@) =~= prior.push(more[k]));
                assert(more.take(k + 1) =~= more.take(k).push(more[k]));
                k = k + 1;
            }
        }
        proof {
            assert(more.take(k) =~= more);
        }
        Turn { actions, ended: false }
    }
}

} // verus!
