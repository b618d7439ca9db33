//! The session with one peer: what it keeps, and what it does when a message
//! comes from the peer, from the coordinator, or from nobody for too long.
//! The session decides; sending and receiving is left to the caller.

pub mod conn;
pub mod error;
pub mod event_loop;
pub mod extensions;
pub mod handshake;
pub mod states;

use crate::messages::payloads::NoPayload;
use crate::messages::{MessageView, PeerMessage};
use crate::peer::conn::{Negotiated, PeerStateInner};
use crate::peer::error::PeerError;
use crate::peer::handshake::Handshake;
use crate::peer_manager::piece_manager::piece_selector::PeerId;
use crate::peer_manager::{ReqMessage, ReqMsgFromPeer, ReqView, ResMessage};
use vstd::prelude::*;

verus! {

/// What a session waits for.
#[derive(Debug, PartialEq)]
pub enum Msg {
    /// A message from the coordinator.
    Manager(ResMessage),
    /// A message from the peer.
    Data(PeerMessage),
    /// The peer has sent nothing for 120 seconds.
    Timeout,
}

/// Number of times in a row that a peer may send nothing for 120 seconds
/// before the session ends.
pub const MAX_IDLE_TICKS: usize = 3;

/// What the caller of a session is to do.
#[derive(Debug, PartialEq)]
pub enum PeerAction {
    /// Send a message to the peer.
    SendPeer(PeerMessage),
    /// Send a message to the coordinator.
    SendPeerManager(ReqMessage),
    /// Close the connection: the file is finished and the peer wants nothing.
    Finish,
    /// Close the connection because of an error.
    Fail(PeerError),
}

/// What the caller of a session is to do.
pub ghost enum ActionView {
    SendPeer(MessageView),
    SendPeerManager(ReqView),
    Finish,
    Fail(PeerError),
}

impl View for PeerAction {
    type V = ActionView;

    open spec fn view(&self) -> ActionView {
        match self {
            PeerAction::SendPeer(message) => ActionView::SendPeer(message@),
            PeerAction::SendPeerManager(message) => ActionView::SendPeerManager(message@),
            PeerAction::Finish => ActionView::Finish,
            PeerAction::Fail(error) => ActionView::Fail(*error),
        }
    }
}

/// What a turn of a session asks of the caller.
#[derive(Debug)]
pub struct Turn {
    /// What is to be sent, in order.
    pub actions: Vec<PeerAction>,
    /// Whether the session has ended.
    pub ended: bool,
}

/// What the actions in `list` say.
pub open spec fn action_views(list: Seq<PeerAction>) -> Seq<ActionView> {
    Seq::new(list.len(), |i: int| list[i]@)
}

/// What the messages in `list` say.
pub open spec fn message_views(list: Seq<PeerMessage>) -> Seq<MessageView> {
    Seq::new(list.len(), |i: int| list[i]@)
}

/// The messages that wait to be sent to the peer, and the number of those
/// that were sent and not answered.
#[derive(Debug)]
pub struct ReqQueue {
    pub to_send: Vec<PeerMessage>,
    pub have_sent: usize,
}

impl ReqQueue {
    pub fn new() -> (queue: Self)
        ensures
            queue.to_send@.len() == 0,
            queue.have_sent == 0,
    {
        ReqQueue { to_send: Vec::new(), have_sent: 0 }
    }
}

/// The session with one peer.
#[derive(Debug)]
pub struct Peer {
    /// What is known of the peer.
    pub state: PeerStateInner,
    /// The messages that wait to be sent.
    pub queue: ReqQueue,
    /// Number of times in a row that the peer has sent nothing for 120
    /// seconds.
    pub idle_ticks: usize,
}

/// The state of a session.
pub ghost struct SessionView {
    pub peer_id: Seq<u8>,
    pub am_choking: bool,
    pub am_interested: bool,
    pub peer_choking: bool,
    pub peer_interested: bool,
    pub has: Seq<bool>,
    pub extensions: Option<Seq<Negotiated>>,
    pub to_send: Seq<MessageView>,
    pub have_sent: nat,
    pub idle_ticks: nat,
}

impl View for Peer {
    type V = SessionView;

    open spec fn view(&self) -> SessionView {
        SessionView {
            peer_id: self.state.peer_id@,
            am_choking: self.state.am_choking,
            am_interested: self.state.am_interested,
            peer_choking: self.state.peer_choking,
            peer_interested: self.state.peer_interested,
            has: self.state.has@,
            extensions: match self.state.extensions {
                Some(table) => Some(table@),
                None => None,
            },
            to_send: message_views(self.queue.to_send@),
            have_sent: self.queue.have_sent as nat,
            idle_ticks: self.idle_ticks as nat,
        }
    }
}

/// What comes of a step of a session: its new state, and what the caller is
/// to do, in order.
pub ghost struct Step {
    pub state: SessionView,
    pub actions: Seq<ActionView>,
    /// Whether the session ends with this step.
    pub ended: bool,
}

impl SessionView {
    /// The step that changes nothing and asks for nothing.
    pub open spec fn stay(self) -> Step {
        Step { state: self, actions: Seq::empty(), ended: false }
    }

    /// Sets whether this client is interested in the peer. The peer is told
    /// if that is a change, and only then.
    pub open spec fn set_interested(self, interested: bool) -> Step {
        if self.am_interested == interested {
            self.stay()
        } else {
            Step {
                state: SessionView { am_interested: interested, ..self },
                actions: seq![
                    ActionView::SendPeer(
                        if interested {
                            MessageView::Interested
                        } else {
                            MessageView::NotInterested
                        },
                    ),
                ],
                ended: false,
            }
        }
    }

    /// What the session does when its turn is over: if no request is
    /// unanswered, this client is interested and the peer does not choke it,
    /// every message that waits is sent, the messages count as unanswered,
    /// and the coordinator is asked for more requests.
    pub open spec fn pump(self) -> Step {
        if self.have_sent == 0 && self.am_interested && !self.peer_choking && self.to_send.len()
            <= usize::MAX {
            Step {
                state: SessionView {
                    to_send: Seq::empty(),
                    have_sent: self.to_send.len(),
                    ..self
                },
                actions: Seq::new(self.to_send.len(), |i: int| ActionView::SendPeer(self.to_send[i]))
                    + seq![ActionView::SendPeerManager(ReqView::NeedBlockQueue)],
                ended: false,
            }
        } else {
            self.stay()
        }
    }

    /// What the session does when it begins: this client no longer chokes
    /// the peer; the handshake of the extension protocol is sent if the peer
    /// offers that protocol; and the coordinator is asked which pieces this
    /// client has.
    pub open spec fn start(self) -> Step {
        Step {
            state: SessionView { am_choking: false, ..self },
            actions: (if self.extensions is Some {
                seq![
                    ActionView::SendPeer(
                        MessageView::Extended(
                            crate::messages::payloads::ExtendedView {
                                extension_id: 0,
                                data: crate::extensions::handshake::own_handshake(),
                            },
                        ),
                    ),
                ]
            } else {
                Seq::empty()
            }) + seq![ActionView::SendPeerManager(ReqView::WhatDoWeHave)],
            ended: false,
        }
    }

    /// What the session does when it ends, whatever ended it: the peer is
    /// told that this client is no longer interested, if it was, and the
    /// coordinator is told that the peer is gone.
    pub open spec fn shutdown(self) -> Step {
        let told = self.set_interested(false);
        Step {
            state: told.state,
            actions: told.actions + seq![
                ActionView::SendPeerManager(ReqView::PeerDisconnected(self.peer_id)),
            ],
            ended: true,
        }
    }
}

impl Peer {
    /// The session with the peer that sent `handshake`, and the message by
    /// which the session makes itself known to the coordinator.
    pub fn new(handshake: &Handshake) -> (made: (Self, ReqMsgFromPeer))
        ensures
            made.0@.peer_id == handshake.peer_id@,
            made.0@.am_choking && !made.0@.am_interested,
            made.0@.peer_choking && !made.0@.peer_interested,
            made.0@.has.len() == 0 && made.0@.to_send.len() == 0,
            made.0@.have_sent == 0 && made.0@.idle_ticks == 0,
            made.0@.extensions is Some <==> (handshake.reserved()[5] & 0x10 == 0x10),
            made.0@.extensions is Some ==> made.0@.extensions->0.len() == 0,
            made.1.peer_id == handshake.peer_id,
            made.1.msg == ReqMessage::NewConnection(
                crate::peer_manager::PeerConn {
                    peer_id: handshake.peer_id,
                    extensions: handshake.reserved()[5] & 0x10 == 0x10,
                },
            ),
    {
        let state = PeerStateInner::new(handshake);
        let registration = state.connect_to_peer_manager();
        (Peer { state, queue: ReqQueue::new(), idle_ticks: 0 }, registration)
    }

    /// The id of the peer.
    pub fn get_id(&self) -> (id: PeerId)
        ensures
            id@ == self@.peer_id,
    {
        self.state.peer_id
    }

    /// Sets whether this client is interested in the peer, and says what to
    /// tell the peer.
    pub fn set_interested(&mut self, interested: bool) -> (actions: Vec<PeerAction>)
        ensures
            final(self)@ == old(self)@.set_interested(interested).state,
            action_views(actions@) == old(self)@.set_interested(interested).actions,
    {
        let mut actions: Vec<PeerAction> = Vec::new();
        if self.state.am_interested != interested {
            self.state.am_interested = interested;
            let msg = if interested {
                PeerMessage::Interested(NoPayload)
            } else {
                PeerMessage::NotInterested(NoPayload)
            };
            actions.push(PeerAction::SendPeer(msg));
        }
        proof {
            assert(action_views(actions@) =~= old(self)@.set_interested(interested).actions);
        }
        actions
    }

    /// Ends the turn of the session. See `SessionView::pump`.
    pub fn pump(&mut self) -> (actions: Vec<PeerAction>)
        ensures
            final(self)@ == old(self)@.pump().state,
            action_views(actions@) == old(self)@.pump().actions,
    {
        let mut actions: Vec<PeerAction> = Vec::new();
        if self.queue.have_sent == 0 && self.state.am_interested && !self.state.peer_choking {
            let ghost waiting = self@.to_send;
            let count: usize = self.queue.to_send.len();
            self.queue.have_sent = count;
            let mut sent: usize = 0;
            while self.queue.to_send.len() > 0
                invariant
                    sent + self.queue.to_send@.len() == count,
                    count == waiting.len(),
                    actions@.len() == sent,
                    forall|i: int|
                        0 <= i < sent ==> (#[trigger] actions@[i])@ == ActionView::SendPeer(
                            waiting[i],
                        ),
                    forall|i: int|
                        0 <= i < self.queue.to_send@.len() ==> (#[trigger] self.queue.to_send@[i])@
                            == waiting[sent + i],
                    self.state == old(self).state,
                    self.idle_ticks == old(self).idle_ticks,
                    self.queue.have_sent == count,
                decreases self.queue.to_send@.len(),
            {
                let req = self.queue.to_send.remove(0);
                actions.push(PeerAction::SendPeer(req));
                sent = sent + 1;
            }
            actions.push(PeerAction::SendPeerManager(ReqMessage::NeedBlockQueue));
            proof {
                assert(self@.to_send =~= Seq::<MessageView>::empty());
                assert(action_views(actions@) =~= old(self)@.pump().actions);
            }
        } else {
            proof {
                assert(action_views(actions@) =~= old(self)@.pump().actions);
            }
        }
        actions
    }

    /// Begins the session. See `SessionView::start`.
    pub fn start(&mut self) -> (actions: Vec<PeerAction>)
        ensures
            final(self)@ == old(self)@.start().state,
            action_views(actions@) == old(self)@.start().actions,
    {
        self.state.am_choking = false;
        let mut actions = self.send_extended_handshake();
        actions.push(PeerAction::SendPeerManager(ReqMessage::WhatDoWeHave));
        proof {
            assert(action_views(actions@) =~= old(self)@.start().actions);
        }
        actions
    }

    /// Ends the session. See `SessionView::shutdown`.
    pub fn shutdown(&mut self) -> (actions: Vec<PeerAction>)
        ensures
            final(self)@ == old(self)@.shutdown().state,
            action_views(actions@) == old(self)@.shutdown().actions,
    {
        let mut actions = self.set_interested(false);
        actions.push(PeerAction::SendPeerManager(ReqMessage::PeerDisconnected(self.get_id())));
        proof {
            assert(action_views(actions@) =~= old(self)@.shutdown().actions);
        }
        actions
    }
}

} // verus!
