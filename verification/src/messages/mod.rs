//! The messages of the peer wire protocol and their frames: a length prefix of
//! four bytes, the message id, and the payload.

pub mod payloads;

use crate::messages::payloads::{be32, from_be32, lemma_be32_round_trip, pack_bits, push_be32, read_be32, unpack_bits, BasicExtensionPayload, BitfieldPayload, BlockView, ExtendedView, HavePayload, NoPayload, Payload, RequestPiecePayload, ResponsePiecePayload};
use vstd::prelude::*;
use vstd::slice::slice_subrange;

verus! {

/// The longest frame body that is accepted, in bytes.
pub const MAX: u32 = 8388608;

/// A message of the peer wire protocol.
#[derive(Debug, Clone, PartialEq)]
pub enum PeerMessage {
    Choke(NoPayload),
    Unchoke(NoPayload),
    Interested(NoPayload),
    NotInterested(NoPayload),
    Have(HavePayload),
    Bitfield(BitfieldPayload),
    Request(RequestPiecePayload),
    Piece(ResponsePiecePayload),
    Cancel(RequestPiecePayload),
    KeepAlive(NoPayload),
    Extended(BasicExtensionPayload),
}

/// What a message says.
pub ghost enum MessageView {
    Choke,
    Unchoke,
    Interested,
    NotInterested,
    Have(HavePayload),
    Bitfield(Seq<bool>),
    Request(RequestPiecePayload),
    Piece(BlockView),
    Cancel(RequestPiecePayload),
    KeepAlive,
    Extended(ExtendedView),
}

impl View for PeerMessage {
    type V = MessageView;

    open spec fn view(&self) -> MessageView {
        match self {
            PeerMessage::Choke(_) => MessageView::Choke,
            PeerMessage::Unchoke(_) => MessageView::Unchoke,
            PeerMessage::Interested(_) => MessageView::Interested,
            PeerMessage::NotInterested(_) => MessageView::NotInterested,
            PeerMessage::Have(p) => MessageView::Have(*p),
            PeerMessage::Bitfield(p) => MessageView::Bitfield(p@),
            PeerMessage::Request(p) => MessageView::Request(*p),
            PeerMessage::Piece(p) => MessageView::Piece(p@),
            PeerMessage::Cancel(p) => MessageView::Cancel(*p),
            PeerMessage::KeepAlive(_) => MessageView::KeepAlive,
            PeerMessage::Extended(p) => MessageView::Extended(p@),
        }
    }
}

/// The kinds of message that carry an id.
#[derive(Debug, Clone, Copy, PartialEq, Eq)]
pub enum MessageType {
    Choke,
    Unchoke,
    Interested,
    NotInterested,
    Have,
    Bitfield,
    Request,
    Piece,
    Cancel,
    Extended,
}

impl MessageType {
    /// The id that stands for this kind of message on the wire.
    pub open spec fn spec_id(self) -> u8 {
        match self {
            MessageType::Choke => 0,
            MessageType::Unchoke => 1,
            MessageType::Interested => 2,
            MessageType::NotInterested => 3,
            MessageType::Have => 4,
            MessageType::Bitfield => 5,
            MessageType::Request => 6,
            MessageType::Piece => 7,
            MessageType::Cancel => 8,
            MessageType::Extended => 20,
        }
    }

    /// The id that stands for this kind of message on the wire.
    pub fn id(self) -> (id: u8)
        ensures
            id == self.spec_id(),
    {
        match self {
            MessageType::Choke => 0,
            MessageType::Unchoke => 1,
            MessageType::Interested => 2,
            MessageType::NotInterested => 3,
            MessageType::Have => 4,
            MessageType::Bitfield => 5,
            MessageType::Request => 6,
            MessageType::Piece => 7,
            MessageType::Cancel => 8,
            MessageType::Extended => 20,
        }
    }

    /// The kind of message that `id` stands for, `None` for an id that this
    /// client does not know.
    pub fn from_id(id: u8) -> (kind: Option<MessageType>)
        ensures
            kind is Some ==> kind->0.spec_id() == id,
            kind is None ==> forall|k: MessageType| k.spec_id() != id,
    {
        match id {
            0 => Some(MessageType::Choke),
            1 => Some(MessageType::Unchoke),
            2 => Some(MessageType::Interested),
            3 => Some(MessageType::NotInterested),
            4 => Some(MessageType::Have),
            5 => Some(MessageType::Bitfield),
            6 => Some(MessageType::Request),
            7 => Some(MessageType::Piece),
            8 => Some(MessageType::Cancel),
            20 => Some(MessageType::Extended),
            _ => None,
        }
    }
}

impl MessageView {
    /// The kind of the message, `None` for a keep-alive, which has no id.
    pub open spec fn kind(self) -> Option<MessageType> {
        match self {
            MessageView::Choke => Some(MessageType::Choke),
            MessageView::Unchoke => Some(MessageType::Unchoke),
            MessageView::Interested => Some(MessageType::Interested),
            MessageView::NotInterested => Some(MessageType::NotInterested),
            MessageView::Have(_) => Some(MessageType::Have),
            MessageView::Bitfield(_) => Some(MessageType::Bitfield),
            MessageView::Request(_) => Some(MessageType::Request),
            MessageView::Piece(_) => Some(MessageType::Piece),
            MessageView::Cancel(_) => Some(MessageType::Cancel),
            MessageView::KeepAlive => None,
            MessageView::Extended(_) => Some(MessageType::Extended),
        }
    }

    /// The bytes of the payload, without length prefix and message id.
    pub open spec fn payload(self) -> Seq<u8> {
        match self {
            MessageView::Have(p) => HavePayload::spec_to_be_bytes(p),
            MessageView::Bitfield(p) => BitfieldPayload::spec_to_be_bytes(p),
            MessageView::Request(p) => RequestPiecePayload::spec_to_be_bytes(p),
            MessageView::Piece(p) => ResponsePiecePayload::spec_to_be_bytes(p),
            MessageView::Cancel(p) => RequestPiecePayload::spec_to_be_bytes(p),
            MessageView::Extended(p) => BasicExtensionPayload::spec_to_be_bytes(p),
            _ => Seq::empty(),
        }
    }

    /// Whether the message is short enough to be framed.
    pub open spec fn fits(self) -> bool {
        self.payload().len() + 4 <= MAX
    }

    /// The frame of the message: the length of what follows in four bytes, the
    /// id, the payload. A keep-alive is the length 0 and nothing else.
    pub open spec fn frame(self) -> Seq<u8> {
        match self.kind() {
            None => be32(0),
            Some(kind) => be32((self.payload().len() + 1) as u32) + seq![kind.spec_id()]
                + self.payload(),
        }
    }

    /// The message as it comes back from its frame: a bitfield is filled up
    /// with `false` to a multiple of eight entries, every other message is
    /// itself.
    pub open spec fn as_received(self) -> MessageView {
        match self {
            MessageView::Bitfield(bits) => MessageView::Bitfield(unpack_bits(pack_bits(bits))),
            _ => self,
        }
    }
}

impl PeerMessage {
    /// The bytes of the payload, without length prefix and message id.
    pub fn to_be_bytes(&self) -> (bytes: Vec<u8>)
        ensures
            bytes@ == self@.payload(),
    {
        match self {
            PeerMessage::Choke(payload) => payload.to_be_bytes(),
            PeerMessage::Unchoke(payload) => payload.to_be_bytes(),
            PeerMessage::Interested(payload) => payload.to_be_bytes(),
            PeerMessage::NotInterested(payload) => payload.to_be_bytes(),
            PeerMessage::Have(payload) => payload.to_be_bytes(),
            PeerMessage::Bitfield(payload) => payload.to_be_bytes(),
            PeerMessage::Request(payload) => payload.to_be_bytes(),
            PeerMessage::Piece(payload) => payload.to_be_bytes(),
            PeerMessage::Cancel(payload) => payload.to_be_bytes(),
            PeerMessage::KeepAlive(payload) => payload.to_be_bytes(),
            PeerMessage::Extended(payload) => payload.to_be_bytes(),
        }
    }

    /// The kind of the message, `None` for a keep-alive.
    pub fn get_msg_type(&self) -> (kind: Option<MessageType>)
        ensures
            kind == self@.kind(),
    {
        match self {
            PeerMessage::Choke(_) => Some(MessageType::Choke),
            PeerMessage::Unchoke(_) => Some(MessageType::Unchoke),
            PeerMessage::Interested(_) => Some(MessageType::Interested),
            PeerMessage::NotInterested(_) => Some(MessageType::NotInterested),
            PeerMessage::Have(_) => Some(MessageType::Have),
            PeerMessage::Bitfield(_) => Some(MessageType::Bitfield),
            PeerMessage::Request(_) => Some(MessageType::Request),
            PeerMessage::Piece(_) => Some(MessageType::Piece),
            PeerMessage::Cancel(_) => Some(MessageType::Cancel),
            PeerMessage::KeepAlive(_) => None,
            PeerMessage::Extended(_) => Some(MessageType::Extended),
        }
    }
}

/// Why bytes are not a frame, or a message cannot be framed.
#[derive(Debug, Clone, Copy, PartialEq, Eq)]
pub enum FrameError {
    /// The frame is longer than `MAX`.
    FrameTooLarge,
    /// The payload is too short for the kind of message that the id names.
    UndecodablePayload,
}

/// What the bytes received so far begin with.
#[derive(Debug, Clone, PartialEq)]
pub enum Decoded {
    /// The frame has not arrived in full: nothing is taken from the bytes.
    Incomplete,
    /// A frame of `consumed` bytes that holds `message`.
    Message { consumed: usize, message: PeerMessage },
    /// A frame of `consumed` bytes with an id that this client does not know.
    /// It is dropped.
    Skipped { consumed: usize },
}

/// What the bytes received so far begin with.
pub ghost enum DecodedView {
    Incomplete,
    Message { consumed: nat, message: MessageView },
    Skipped { consumed: nat },
}

impl View for Decoded {
    type V = DecodedView;

    open spec fn view(&self) -> DecodedView {
        match self {
            Decoded::Incomplete => DecodedView::Incomplete,
            Decoded::Message { consumed, message } => DecodedView::Message {
                consumed: *consumed as nat,
                message: message@,
            },
            Decoded::Skipped { consumed } => DecodedView::Skipped { consumed: *consumed as nat },
        }
    }
}

/// The message with id `id` and payload `payload`: `Ok(None)` for an id that
/// this client does not know, an error for a payload that is too short.
pub open spec fn spec_decode_body(id: u8, payload: Seq<u8>) -> Result<
    Option<MessageView>,
    FrameError,
> {
    if id == 0 {
        Ok(Some(MessageView::Choke))
    } else if id == 1 {
        Ok(Some(MessageView::Unchoke))
    } else if id == 2 {
        Ok(Some(MessageView::Interested))
    } else if id == 3 {
        Ok(Some(MessageView::NotInterested))
    } else if id == 4 {
        if HavePayload::readable(payload) {
            Ok(Some(MessageView::Have(HavePayload::spec_from_be_bytes(payload))))
        } else {
            Err(FrameError::UndecodablePayload)
        }
    } else if id == 5 {
        Ok(Some(MessageView::Bitfield(unpack_bits(payload))))
    } else if id == 6 {
        if RequestPiecePayload::readable(payload) {
            Ok(Some(MessageView::Request(RequestPiecePayload::spec_from_be_bytes(payload))))
        } else {
            Err(FrameError::UndecodablePayload)
        }
    } else if id == 7 {
        if ResponsePiecePayload::readable(payload) {
            Ok(Some(MessageView::Piece(ResponsePiecePayload::spec_from_be_bytes(payload))))
        } else {
            Err(FrameError::UndecodablePayload)
        }
    } else if id == 8 {
        if RequestPiecePayload::readable(payload) {
            Ok(Some(MessageView::Cancel(RequestPiecePayload::spec_from_be_bytes(payload))))
        } else {
            Err(FrameError::UndecodablePayload)
        }
    } else if id == 20 {
        if BasicExtensionPayload::readable(payload) {
            Ok(Some(MessageView::Extended(BasicExtensionPayload::spec_from_be_bytes(payload))))
        } else {
            Err(FrameError::UndecodablePayload)
        }
    } else {
        Ok(None)
    }
}

/// What `src` begins with. A length of 0 is a keep-alive of four bytes. A
/// longer frame is looked at once it has arrived in full, unless its length is
/// over `MAX`, which is an error as soon as the id has arrived.
pub open spec fn spec_decode(src: Seq<u8>) -> Result<DecodedView, FrameError> {
    if src.len() < 4 {
        Ok(DecodedView::Incomplete)
    } else if from_be32(src, 0) == 0 {
        Ok(DecodedView::Message { consumed: 4, message: MessageView::KeepAlive })
    } else if src.len() < 5 {
        Ok(DecodedView::Incomplete)
    } else if from_be32(src, 0) > MAX {
        Err(FrameError::FrameTooLarge)
    } else if src.len() < 4 + from_be32(src, 0) {
        Ok(DecodedView::Incomplete)
    } else {
        let end = 4 + from_be32(src, 0);
        match spec_decode_body(src[4], src.subrange(5, end)) {
            Err(e) => Err(e),
            Ok(None) => Ok(DecodedView::Skipped { consumed: end as nat }),
            Ok(Some(message)) => Ok(DecodedView::Message { consumed: end as nat, message }),
        }
    }
}

/// Reads the message with id `id` from its payload.
pub fn decode_body(id: u8, payload: &[u8]) -> (decoded: Result<Option<PeerMessage>, FrameError>)
    requires
        payload@.len() <= MAX,
    ensures
        match decoded {
            Ok(Some(message)) => spec_decode_body(id, payload@) == Ok::<
                Option<MessageView>,
                FrameError,
            >(Some(message@)),
            Ok(None) => spec_decode_body(id, payload@) == Ok::<Option<MessageView>, FrameError>(
                None,
            ),
            Err(e) => spec_decode_body(id, payload@) == Err::<Option<MessageView>, FrameError>(e),
        },
{
    match MessageType::from_id(id) {
        None => {
            assert(MessageType::Choke.spec_id() != id);
            assert(MessageType::Unchoke.spec_id() != id);
            assert(MessageType::Interested.spec_id() != id);
            assert(MessageType::NotInterested.spec_id() != id);
            assert(MessageType::Have.spec_id() != id);
            assert(MessageType::Bitfield.spec_id() != id);
            assert(MessageType::Request.spec_id() != id);
            assert(MessageType::Piece.spec_id() != id);
            assert(MessageType::Cancel.spec_id() != id);
            assert(MessageType::Extended.spec_id() != id);
            Ok(None)
        },
        Some(MessageType::Choke) => Ok(Some(PeerMessage::Choke(NoPayload))),
        Some(MessageType::Unchoke) => Ok(Some(PeerMessage::Unchoke(NoPayload))),
        Some(MessageType::Interested) => Ok(Some(PeerMessage::Interested(NoPayload))),
        Some(MessageType::NotInterested) => Ok(Some(PeerMessage::NotInterested(NoPayload))),
        Some(MessageType::Have) => {
            if payload.len() >= 4 {
                Ok(Some(PeerMessage::Have(HavePayload::from_be_bytes(payload))))
            } else {
                Err(FrameError::UndecodablePayload)
            }
        },
        Some(MessageType::Bitfield) => Ok(
            Some(PeerMessage::Bitfield(BitfieldPayload::from_be_bytes(payload))),
        ),
        Some(MessageType::Request) => {
            if payload.len() >= 12 {
                Ok(Some(PeerMessage::Request(RequestPiecePayload::from_be_bytes(payload))))
            } else {
                Err(FrameError::UndecodablePayload)
            }
        },
        Some(MessageType::Piece) => {
            if payload.len() >= 8 {
                Ok(Some(PeerMessage::Piece(ResponsePiecePayload::from_be_bytes(payload))))
            } else {
                Err(FrameError::UndecodablePayload)
            }
        },
        Some(MessageType::Cancel) => {
            if payload.len() >= 12 {
                Ok(Some(PeerMessage::Cancel(RequestPiecePayload::from_be_bytes(payload))))
            } else {
                Err(FrameError::UndecodablePayload)
            }
        },
        Some(MessageType::Extended) => {
            if payload.len() >= 1 {
                Ok(Some(PeerMessage::Extended(BasicExtensionPayload::from_be_bytes(payload))))
            } else {
                Err(FrameError::UndecodablePayload)
            }
        },
    }
}

/// Cuts the bytes of a connection into messages and puts messages into frames.
#[derive(Debug, Clone, Copy, PartialEq, Eq)]
pub struct MessageFramer;

impl MessageFramer {
    /// Looks at the bytes received so far and says what they begin with. The
    /// caller drops the bytes that the result counts as consumed.
    pub fn decode(&self, src: &[u8]) -> (decoded: Result<Decoded, FrameError>)
        ensures
            match decoded {
                Ok(found) => spec_decode(src@) == Ok::<DecodedView, FrameError>(found@),
                Err(e) => spec_decode(src@) == Err::<DecodedView, FrameError>(e),
            },
    {
        if src.len() < 4 {
            return Ok(Decoded::Incomplete);
        }
        let data_length: u32 = read_be32(src, 0);
        if data_length == 0 {
            return Ok(Decoded::Message { consumed: 4, message: PeerMessage::KeepAlive(NoPayload) });
        }
        if src.len() < 5 {
            return Ok(Decoded::Incomplete);
        }
        if data_length > MAX {
            return Err(FrameError::FrameTooLarge);
        }
        let end: usize = 4 + data_length as usize;
        if src.len() < end {
            return Ok(Decoded::Incomplete);
        }
        match decode_body(src[4], slice_subrange(src, 5, end)) {
            Err(e) => Err(e),
            Ok(None) => Ok(Decoded::Skipped { consumed: end }),
            Ok(Some(message)) => Ok(Decoded::Message { consumed: end, message }),
        }
    }

    /// The frame of `item`, unless it is too long to be sent.
    pub fn encode(&self, item: &PeerMessage) -> (encoded: Result<Vec<u8>, FrameError>)
        ensures
            item@.fits() ==> encoded is Ok && encoded->Ok_0@ == item@.frame(),
            !item@.fits() ==> encoded == Err::<Vec<u8>, FrameError>(FrameError::FrameTooLarge),
    {
        let bytes = item.to_be_bytes();
        if bytes.len() > (MAX - 4) as usize {
            return Err(FrameError::FrameTooLarge);
        }
        let mut dst: Vec<u8> = Vec::new();
        match item.get_msg_type() {
            None => {
                push_be32(&mut dst, 0);
                assert(dst@ =~= be32(0));
            },
            Some(msg_type) => {
                push_be32(&mut dst, (bytes.len() + 1) as u32);
                dst.push(msg_type.id());
                dst.extend_from_slice(bytes.as_slice());
                assert(dst@ =~= item@.frame());
            },
        }
        Ok(dst)
    }
}

/// The number read from `before + be32(value) + after` right behind `before`
/// is `value`.
proof fn lemma_from_be32_at(before: Seq<u8>, value: u32, after: Seq<u8>)
    ensures
        from_be32(before + be32(value) + after, before.len() as int) == value,
{
    let all = before + be32(value) + after;
    let at = before.len() as int;
    lemma_be32_round_trip(value);
    assert(all[at] == be32(value)[0]);
    assert(all[at + 1] == be32(value)[1]);
    assert(all[at + 2] == be32(value)[2]);
    assert(all[at + 3] == be32(value)[3]);
}

/// Reading the payload that a message is written to gives the message back,
/// a bitfield filled up to whole bytes.
pub proof fn lemma_body_round_trip(message: MessageView)
    requires
        message.kind() is Some,
    ensures
        spec_decode_body(message.kind()->0.spec_id(), message.payload()) == Ok::<
            Option<MessageView>,
            FrameError,
        >(Some(message.as_received())),
{
    let empty = Seq::<u8>::empty();
    match message {
        MessageView::Have(p) => {
            lemma_be32_round_trip(p.piece_index);
        },
        MessageView::Request(p) => {
            lemma_from_be32_at(empty, p.index, be32(p.begin) + be32(p.length));
            lemma_from_be32_at(be32(p.index), p.begin, be32(p.length));
            lemma_from_be32_at(be32(p.index) + be32(p.begin), p.length, empty);
            assert(empty + be32(p.index) + (be32(p.begin) + be32(p.length)) =~= message.payload());
            assert(be32(p.index) + be32(p.begin) + be32(p.length) + empty =~= message.payload());
        },
        MessageView::Cancel(p) => {
            lemma_from_be32_at(empty, p.index, be32(p.begin) + be32(p.length));
            lemma_from_be32_at(be32(p.index), p.begin, be32(p.length));
            lemma_from_be32_at(be32(p.index) + be32(p.begin), p.length, empty);
            assert(empty + be32(p.index) + (be32(p.begin) + be32(p.length)) =~= message.payload());
            assert(be32(p.index) + be32(p.begin) + be32(p.length) + empty =~= message.payload());
        },
        MessageView::Piece(p) => {
            lemma_from_be32_at(empty, p.index, be32(p.begin) + p.block);
            lemma_from_be32_at(be32(p.index), p.begin, p.block);
            assert(empty + be32(p.index) + (be32(p.begin) + p.block) =~= message.payload());
            assert(message.payload().subrange(8, message.payload().len() as int) =~= p.block);
        },
        MessageView::Extended(p) => {
            assert(message.payload().subrange(1, message.payload().len() as int) =~= p.data);
            assert(message.payload()[0] == p.extension_id);
        },
        _ => {},
    }
}

/// Encode, then decode: the frame of a message, whatever bytes follow it, is
/// read as that message and as exactly the bytes of the frame. A bitfield comes
/// back filled up with `false` to a multiple of eight entries.
pub proof fn lemma_decode_encode(message: MessageView, rest: Seq<u8>)
    requires
        message.fits(),
    ensures
        spec_decode(message.frame() + rest) == Ok::<DecodedView, FrameError>(
            DecodedView::Message {
                consumed: message.frame().len(),
                message: message.as_received(),
            },
        ),
{
    let src = message.frame() + rest;
    let empty = Seq::<u8>::empty();
    match message.kind() {
        None => {
            lemma_from_be32_at(empty, 0, rest);
            assert(empty + be32(0) + rest =~= src);
        },
        Some(kind) => {
            let payload = message.payload();
            let length = (payload.len() + 1) as u32;
            lemma_from_be32_at(empty, length, seq![kind.spec_id()] + payload + rest);
            assert(empty + be32(length) + (seq![kind.spec_id()] + payload + rest) =~= src);
            assert(from_be32(src, 0) == length);
            assert(src[4] == kind.spec_id());
            assert(src.subrange(5, 4 + length) =~= payload);
            lemma_body_round_trip(message);
        },
    }
}

/// A keep-alive is its own variant: bytes are read as a keep-alive exactly
/// when they begin with the length 0, which no message with an id is framed
/// with, whether it has a payload or not.
pub proof fn lemma_keep_alive_distinct(src: Seq<u8>, message: MessageView)
    ensures
        (spec_decode(src) matches Ok(DecodedView::Message { message: found, .. }) && found
            == MessageView::KeepAlive) <==> (src.len() >= 4 && from_be32(src, 0) == 0),
        src.len() >= 4 && from_be32(src, 0) == 0 ==> spec_decode(src) == Ok::<
            DecodedView,
            FrameError,
        >(DecodedView::Message { consumed: 4, message: MessageView::KeepAlive }),
        message.fits() && message.kind() is Some ==> from_be32(message.frame(), 0) != 0,
{
    if message.fits() && message.kind() is Some {
        let kind = message.kind()->0;
        let length = (message.payload().len() + 1) as u32;
        lemma_from_be32_at(Seq::<u8>::empty(), length, seq![kind.spec_id()] + message.payload());
        assert(Seq::<u8>::empty() + be32(length) + (seq![kind.spec_id()] + message.payload())
            =~= message.frame());
    }
}

/// A frame with an id that this client does not know is dropped without
/// error, whatever it holds.
pub proof fn lemma_unknown_id_dropped(src: Seq<u8>)
    requires
        src.len() >= 5,
        0 < from_be32(src, 0) <= MAX,
        src.len() >= 4 + from_be32(src, 0),
        forall|kind: MessageType| kind.spec_id() != src[4],
    ensures
        spec_decode(src) == Ok::<DecodedView, FrameError>(
            DecodedView::Skipped { consumed: (4 + from_be32(src, 0)) as nat },
        ),
{
    assert(MessageType::Choke.spec_id() != src[4]);
    assert(MessageType::Unchoke.spec_id() != src[4]);
    assert(MessageType::Interested.spec_id() != src[4]);
    assert(MessageType::NotInterested.spec_id() != src[4]);
    assert(MessageType::Have.spec_id() != src[4]);
    assert(MessageType::Bitfield.spec_id() != src[4]);
    assert(MessageType::Request.spec_id() != src[4]);
    assert(MessageType::Piece.spec_id() != src[4]);
    assert(MessageType::Cancel.spec_id() != src[4]);
    assert(MessageType::Extended.spec_id() != src[4]);
}

} // verus!
