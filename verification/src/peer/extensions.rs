//! What a session does with the messages of the extension protocol.

use crate::extensions::handshake::{offered, pairs, HandshakeExtension, OfferedExtension};
use crate::extensions::magnet_links::metadata_msg::MetadataRequester;
use crate::extensions::{metadata_name, ExtensionMessageView, ExtensionType};
use crate::messages::payloads::{BasicExtensionPayload, ExtendedView};
use crate::messages::{FrameError, MessageView, PeerMessage};
use crate::peer::conn::Negotiated;
use crate::peer::error::PeerError;
use crate::peer::{action_views, ActionView, Peer, PeerAction, SessionView, Step, Turn};
use crate::peer_manager::{ReqMessage, ReqView};
use vstd::prelude::*;

verus! {

/// The id under which the peer wants the messages of the extension `kind`:
/// that of the first entry for it in the table.
pub open spec fn negotiated_id(table: Seq<Negotiated>, kind: ExtensionType) -> Option<u8>
    decreases table.len(),
{
    if table.len() == 0 {
        None
    } else if table[0].kind == kind {
        Some(table[0].id)
    } else {
        negotiated_id(table.drop_first(), kind)
    }
}

/// The table without the entries that have the id `id` or are for the
/// extension `kind`.
pub open spec fn without(table: Seq<Negotiated>, id: u8, kind: ExtensionType) -> Seq<Negotiated> {
    table.filter(|entry: Negotiated| entry.id != id && entry.kind != kind)
}

/// The table once the peer has offered the extension `kind` under `id`: the
/// entry takes the place of any entry with that id or for that extension.
/// The id 0 switches the extension off.
pub open spec fn with_offer(table: Seq<Negotiated>, id: u8, kind: ExtensionType) -> Seq<
    Negotiated,
> {
    if id == 0 {
        without(table, id, kind)
    } else {
        without(table, id, kind).push(Negotiated { id, kind })
    }
}

/// What the coordinator is told when the peer has offered the metadata
/// extension: the length of the `info` dictionary, if the handshake gives
/// it, and that the peer can be asked for a block.
pub open spec fn metadata_hook(size: Option<usize>) -> Seq<ActionView> {
    (match size {
        Some(length) => seq![
            ActionView::SendPeerManager(
                ReqView::Extension(ExtensionMessageView::GotMetadataLength(length)),
            ),
        ],
        None => Seq::empty(),
    }) + seq![
        ActionView::SendPeerManager(ReqView::Extension(ExtensionMessageView::NeedMetadataPiece)),
    ]
}

/// Table and actions once the first `upto` of the extensions that a
/// handshake offers have been looked at. An extension that this client does
/// not know is passed over.
pub open spec fn registered(
    table: Seq<Negotiated>,
    offers: Seq<(Seq<u8>, u8)>,
    size: Option<usize>,
    upto: nat,
) -> (Seq<Negotiated>, Seq<ActionView>)
    decreases upto,
{
    if upto == 0 {
        (table, Seq::empty())
    } else {
        let before = registered(table, offers, size, (upto - 1) as nat);
        let offer = offers[upto - 1];
        if offer.0 == metadata_name() {
            (
                with_offer(before.0, offer.1, ExtensionType::Metadata),
                before.1 + if offer.1 == 0 {
                    Seq::empty()
                } else {
                    metadata_hook(size)
                },
            )
        } else {
            before
        }
    }
}

/// The length of the `info` dictionary that the handshake in `bytes` gives.
pub open spec fn offered_size(bytes: Seq<u8>) -> Option<usize> {
    match crate::bencode::dict_number(
        bytes,
        0,
        crate::extensions::handshake::metadata_size_key(),
    ) {
        Some(size) if size <= usize::MAX => Some(size as usize),
        _ => None,
    }
}

impl SessionView {
    /// What the session does with a message of the extension protocol that
    /// the peer sent.
    ///
    /// Nothing, if the peer has not offered the extension protocol. A
    /// handshake, which has the id 0, is read: each extension in it that
    /// this client knows is entered in the table and has its say; a
    /// handshake that cannot be read ends the session. A message with the
    /// id of the metadata extension is looked at by that extension, if the
    /// peer has offered it: a block of the `info` dictionary is handed to
    /// the coordinator, and counts as the answer to a request.
    pub open spec fn on_extended(self, payload: ExtendedView) -> Step {
        if self.extensions is None {
            self.stay()
        } else if payload.extension_id == 0 {
            match offered(payload.data) {
                None => Step {
                    state: self,
                    actions: seq![
                        ActionView::Fail(PeerError::Protocol(FrameError::UndecodablePayload)),
                    ],
                    ended: true,
                },
                Some(offers) => {
                    let done = registered(
                        self.extensions->0,
                        offers,
                        offered_size(payload.data),
                        offers.len(),
                    );
                    Step {
                        state: SessionView { extensions: Some(done.0), ..self },
                        actions: done.1,
                        ended: false,
                    }
                },
            }
        } else if payload.extension_id == ExtensionType::Metadata.spec_id() && negotiated_id(
            self.extensions->0,
            ExtensionType::Metadata,
        ) is Some {
            match MetadataRequester::handled(payload.data) {
                None => self.stay(),
                Some((piece, block)) => Step {
                    state: SessionView {
                        have_sent: if self.have_sent > 0 {
                            (self.have_sent - 1) as nat
                        } else {
                            0
                        },
                        ..self
                    },
                    actions: seq![
                        ActionView::SendPeerManager(
                            ReqView::Extension(
                                ExtensionMessageView::ReceivedMetadataPiece {
                                    piece_index: piece,
                                    data: block,
                                },
                            ),
                        ),
                    ],
                    ended: false,
                },
            }
        } else {
            self.stay()
        }
    }

    /// What the session does when the coordinator hands it the payload of a
    /// message of the extension `kind`: the message waits to be sent, with
    /// the id under which the peer wants that extension. It is dropped if
    /// the peer has not offered the extension.
    pub open spec fn on_extension_data(self, kind: ExtensionType, data: Seq<u8>) -> Step {
        if self.extensions is Some && negotiated_id(self.extensions->0, kind) is Some {
            Step {
                state: SessionView {
                    to_send: self.to_send.push(
                        MessageView::Extended(
                            ExtendedView {
                                extension_id: negotiated_id(self.extensions->0, kind)->0,
                                data,
                            },
                        ),
                    ),
                    ..self
                },
                actions: Seq::empty(),
                ended: false,
            }
        } else {
            self.stay()
        }
    }
}

/// The id under which the peer wants the messages of the extension `kind`.
pub fn find_negotiated(table: &Vec<Negotiated>, kind: ExtensionType) -> (id: Option<u8>)
    ensures
        id == negotiated_id(table@, kind),
{
    let mut i: usize = 0;
    assert(table@.skip(0) =~= table@);
    while i < table.len()
        invariant
            i <= table@.len(),
            negotiated_id(table@, kind) == negotiated_id(table@.skip(i as int), kind),
        decreases table@.len() - i,
    {
        let entry: Negotiated = table[i];
        let same: bool = match (entry.kind, kind) {
            (ExtensionType::Handshake, ExtensionType::Handshake) => true,
            (ExtensionType::Metadata, ExtensionType::Metadata) => true,
            _ => false,
        };
        proof {
            assert(table@.skip(i as int)[0] == entry);
            assert(table@.skip(i as int).drop_first() =~= table@.skip(i + 1));
        }
        if same {
            return Some(entry.id);
        }
        i = i + 1;
    }
    proof {
        assert(table@.skip(i as int).len() == 0);
    }
    None
}

/// Enters an extension that the peer has offered into the table.
pub fn enter_offer(table: &mut Vec<Negotiated>, id: u8, kind: ExtensionType)
    ensures
        final(table)@ == with_offer(old(table)@, id, kind),
{
    let mut kept: Vec<Negotiated> = Vec::new();
    let mut i: usize = 0;
    let ghost keep = |entry: Negotiated| entry.id != id && entry.kind != kind;
    while i < table.len()
        invariant
            i <= table@.len(),
            table@ == old(table)@,
            kept@ == table@.take(i as int).filter(keep),
            keep == |entry: Negotiated| entry.id != id && entry.kind != kind,
        decreases table@.len() - i,
    {
        let entry: Negotiated = table[i];
        let same: bool = match (entry.kind, kind) {
            (ExtensionType::Handshake, ExtensionType::Handshake) => true,
            (ExtensionType::Metadata, ExtensionType::Metadata) => true,
            _ => false,
        };
        proof {
            assert(table@.take(i + 1) =~= table@.take(i as int).push(entry));
            table@.take(i as int).lemma_filter_push(entry, keep);
        }
        if entry.id != id && !same {
            kept.push(entry);
        }
        i = i + 1;
    }
    proof {
        assert(table@.take(i as int) =~= table@);
    }
    if id != 0 {
        kept.push(Negotiated { id, kind });
    }
    *table = kept;
}

impl Peer {
    /// The handshake of the extension protocol, if the peer offers that
    /// protocol.
    pub fn send_extended_handshake(&self) -> (actions: Vec<PeerAction>)
        ensures
            action_views(actions@) == if self@.extensions is Some {
                seq![
                    ActionView::SendPeer(
                        MessageView::Extended(
                            ExtendedView {
                                extension_id: 0,
                                data: crate::extensions::handshake::own_handshake(),
                            },
                        ),
                    ),
                ]
            } else {
                Seq::<ActionView>::empty()
            },
    {
        let mut actions: Vec<PeerAction> = Vec::new();
        if self.state.extensions.is_some() {
            actions.push(
                PeerAction::SendPeer(
                    PeerMessage::Extended(
                        BasicExtensionPayload {
                            extension_id: 0,
                            data: HandshakeExtension::own_bytes(),
                        },
                    ),
                ),
            );
        }
        proof {
            if self@.extensions is Some {
                assert(action_views(actions@) =~= seq![
                    ActionView::SendPeer(
                        MessageView::Extended(
                            ExtendedView {
                                extension_id: 0,
                                data: crate::extensions::handshake::own_handshake(),
                            },
                        ),
                    ),
                ]);
            } else {
                assert(action_views(actions@) =~= Seq::<ActionView>::empty());
            }
        }
        actions
    }

    /// Enters the extensions that a handshake offers into the table and
    /// collects what each has to say.
    fn update_extensions(
        table: &mut Vec<Negotiated>,
        handshake: &HandshakeExtension,
    ) -> (actions: Vec<PeerAction>)
        ensures
            (final(table)@, action_views(actions@)) == registered(
                old(table)@,
                pairs(handshake.m@),
                handshake.other.metadata_size,
                handshake.m@.len(),
            ),
    {
        let mut actions: Vec<PeerAction> = Vec::new();
        let ghost offers = pairs(handshake.m@);
        let ghost size = handshake.other.metadata_size;
        let mut i: usize = 0;
        proof {
            assert(action_views(actions@) =~= Seq::<ActionView>::empty());
        }
        while i < handshake.m.len()
            invariant
                i <= handshake.m@.len(),
                offers == pairs(handshake.m@),
                size == handshake.other.metadata_size,
                (table@, action_views(actions@)) == registered(old(table)@, offers, size, i as nat),
            decreases handshake.m@.len() - i,
        {
            let offer: &OfferedExtension = &handshake.m[i];
            let ghost before = action_views(actions@);
            proof {
                assert(offers[i as int] == offer.pair());
            }
            match crate::extensions::factory::ExtensionFactory::build(offer.name.as_slice()) {
                None => {},
                Some(handler) => {
                    enter_offer(table, offer.id, ExtensionType::Metadata);
                    if offer.id != 0 {
                        let mut messages = handler.after_handshake(&handshake.other);
                        let ghost hook = metadata_hook(size);
                        let ghost count = messages@.len();
                        let ghost said = messages@;
                        let mut k: usize = 0;
                        while messages.len() > 0
                            invariant
                                k + messages@.len() == count,
                                count == hook.len(),
                                count <= 2,
                                forall|j: int|
                                    0 <= j < messages@.len() ==> ActionView::SendPeerManager(
                                        ReqView::Extension((#[trigger] messages@[j])@),
                                    ) == hook[k + j],
                                action_views(actions@) == before + hook.take(k as int),
                            decreases messages@.len(),
                        {
                            let message = messages.remove(0);
                            let ghost prior = action_views(actions@);
                            actions.push(
                                PeerAction::SendPeerManager(ReqMessage::Extension(message)),
                            );
                            proof {
                                assert(action_views(actions@) =~= prior.push(hook[k as int]));
                                assert(hook.take(k + 1) =~= hook.take(k as int).push(
                                    hook[k as int],
                                ));
                            }
                            k = k + 1;
                        }
                        proof {
                            assert(hook.take(k as int) =~= hook);
                        }
                    } else {
                        proof {
                            assert(action_views(actions@) =~= before + Seq::<ActionView>::empty());
                        }
                    }
                },
            }
            i = i + 1;
        }
        actions
    }

    /// Looks at a message of the extension protocol that the peer sent. See
    /// `SessionView::on_extended`.
    pub fn on_extension_data(&mut self, payload: BasicExtensionPayload) -> (turn: Turn)
        ensures
            final(self)@ == old(self)@.on_extended(payload@).state,
            action_views(turn.actions@) == old(self)@.on_extended(payload@).actions,
            turn.ended == old(self)@.on_extended(payload@).ended,
    {
        let mut ended: bool = false;
        let mut actions: Vec<PeerAction> = Vec::new();
        proof {
            assert(action_views(actions@) =~= Seq::<ActionView>::empty());
        }
        let requester = MetadataRequester::new();
        match &mut self.state.extensions {
            None => {},
            Some(table) => {
                if payload.extension_id == ExtensionType::Handshake.id() {
                    match HandshakeExtension::from_bytes(payload.data.as_slice()) {
                        None => {
                            ended = true;
                            actions.push(
                                PeerAction::Fail(
                                    PeerError::Protocol(FrameError::UndecodablePayload),
                                ),
                            );
                            proof {
                                assert(action_views(actions@) =~= seq![
                                    ActionView::Fail(
                                        PeerError::Protocol(FrameError::UndecodablePayload),
                                    ),
                                ]);
                            }
                        },
                        Some(handshake) => {
                            actions = Self::update_extensions(table, &handshake);
                        },
                    }
                } else if payload.extension_id == ExtensionType::Metadata.id() && find_negotiated(
                    table,
                    ExtensionType::Metadata,
                ).is_some() {
                    match requester.on_message(payload.data.as_slice()) {
                        crate::extensions::ExtensionAction::SendPeerManager(message) => {
                            if self.queue.have_sent > 0 {
                                self.queue.have_sent = self.queue.have_sent - 1;
                            }
                            actions.push(
                                PeerAction::SendPeerManager(ReqMessage::Extension(message)),
                            );
                            proof {
                                let handled = MetadataRequester::handled(payload@.data);
                                let found = handled->Some_0;
                                assert(action_views(actions@) =~= seq![
                                    ActionView::SendPeerManager(
                                        ReqView::Extension(
                                            ExtensionMessageView::ReceivedMetadataPiece {
                                                piece_index: found.0,
                                                data: found.1,
                                            },
                                        ),
                                    ),
                                ]);
                            }
                        },
                        _ => {},
                    }
                }
            },
        }
        Turn { actions, ended }
    }

    /// Takes the payload of a message of an extension from the coordinator.
    /// See `SessionView::on_extension_data`.
    pub fn queue_extension_data(&mut self, kind: ExtensionType, data: Vec<u8>)
        ensures
            final(self)@ == old(self)@.on_extension_data(kind, data@).state,
    {
        let id: Option<u8> = match &self.state.extensions {
            Some(table) => find_negotiated(table, kind),
            None => None,
        };
        match id {
            Some(extension_id) => {
                let ghost before = self@.to_send;
                let msg = PeerMessage::Extended(BasicExtensionPayload { extension_id, data });
                self.queue.to_send.push(msg);
                proof {
                    assert(self@.to_send =~= before.push(msg@));
                }
            },
            None => {},
        }
    }
}

} // verus!
