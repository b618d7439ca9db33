//! The messages of the metadata extension, and what a session makes of them.

use crate::bencode::{
    dict_number, get_number, integer, push_integer, skip_value, value_end,
};
use crate::extensions::handshake::{copy_span, AdditionalHandshakeInfo};
use crate::extensions::{
    ExtensionAction, ExtensionHandler, ExtensionMessage, ExtensionMessageView, ExtensionType,
};
use vstd::prelude::*;

verus! {

/// The kinds of message of the metadata extension.
#[derive(Debug, Clone, Copy, PartialEq, Eq)]
pub enum MetadataMsgType {
    /// A block of the `info` dictionary is asked for.
    Request,
    /// A block of the `info` dictionary is sent.
    Data,
    /// The peer does not have the block that was asked for.
    Reject,
    /// A kind that this client does not know.
    Other,
}

impl MetadataMsgType {
    /// The number that stands for the kind in a message.
    pub open spec fn spec_id(self) -> u8 {
        match self {
            MetadataMsgType::Request => 0,
            MetadataMsgType::Data => 1,
            MetadataMsgType::Reject => 2,
            MetadataMsgType::Other => 3,
        }
    }

    /// The kind that `id` stands for.
    pub open spec fn spec_from_id(id: u64) -> MetadataMsgType {
        if id == 0 {
            MetadataMsgType::Request
        } else if id == 1 {
            MetadataMsgType::Data
        } else if id == 2 {
            MetadataMsgType::Reject
        } else {
            MetadataMsgType::Other
        }
    }

    /// The number that stands for the kind in a message.
    pub fn id(self) -> (id: u8)
        ensures
            id == self.spec_id(),
    {
        match self {
            MetadataMsgType::Request => 0,
            MetadataMsgType::Data => 1,
            MetadataMsgType::Reject => 2,
            MetadataMsgType::Other => 3,
        }
    }

    /// The kind that `id` stands for.
    pub fn from_id(id: u64) -> (kind: MetadataMsgType)
        ensures
            kind == Self::spec_from_id(id),
    {
        if id == 0 {
            MetadataMsgType::Request
        } else if id == 1 {
            MetadataMsgType::Data
        } else if id == 2 {
            MetadataMsgType::Reject
        } else {
            MetadataMsgType::Other
        }
    }
}

/// The dictionary at the head of a message of the metadata extension.
#[derive(Debug, Clone, Copy, PartialEq)]
pub struct MetadataMsg {
    /// The kind of the message.
    pub msg_type: MetadataMsgType,
    /// The block of the `info` dictionary that the message is about.
    pub piece_index: u32,
    /// The number of bytes of the whole `info` dictionary, in a message that
    /// sends a block.
    pub total_size: Option<u32>,
}

/// The bytes of `msg_type`.
pub open spec fn msg_type_key() -> Seq<u8> {
    seq![109u8, 115, 103, 95, 116, 121, 112, 101]
}

/// The bytes of `piece`.
pub open spec fn piece_key() -> Seq<u8> {
    seq![112u8, 105, 101, 99, 101]
}

/// The bytes of `total_size`.
pub open spec fn total_size_key() -> Seq<u8> {
    seq![116u8, 111, 116, 97, 108, 95, 115, 105, 122, 101]
}

/// What was read from the bytes of a message: the dictionary at its head,
/// and where the dictionary ends and the bytes of a block begin.
#[derive(Debug, Clone, Copy, PartialEq)]
pub struct ReadMsg {
    pub msg: MetadataMsg,
    pub end: usize,
}

impl MetadataMsg {
    /// The bencode of the message: a dictionary with `msg_type`, `piece` and,
    /// where the message has it, `total_size`.
    pub open spec fn spec_to_bytes(self) -> Seq<u8> {
        seq![100u8, 56, 58] + msg_type_key() + integer(self.msg_type.spec_id() as nat) + seq![
            53u8,
            58,
        ] + piece_key() + integer(self.piece_index as nat) + match self.total_size {
            None => Seq::<u8>::empty(),
            Some(size) => seq![49u8, 48, 58] + total_size_key() + integer(size as nat),
        } + seq![101u8]
    }

    /// The bencode of the message.
    pub fn to_bytes(&self) -> (bytes: Vec<u8>)
        ensures
            bytes@ == self.spec_to_bytes(),
    {
        let mut bytes: Vec<u8> = vec![100u8, 56, 58, 109, 115, 103, 95, 116, 121, 112, 101];
        assert(bytes@ =~= seq![100u8, 56, 58] + msg_type_key());
        push_integer(&mut bytes, self.msg_type.id() as u64);
        let key: [u8; 7] = [53u8, 58, 112, 105, 101, 99, 101];
        assert(key@ =~= seq![53u8, 58] + piece_key());
        bytes.extend_from_slice(key.as_slice());
        push_integer(&mut bytes, self.piece_index as u64);
        let ghost head = bytes@;
        match self.total_size {
            None => {},
            Some(size) => {
                let key: [u8; 13] = [49u8, 48, 58, 116, 111, 116, 97, 108, 95, 115, 105, 122, 101];
                assert(key@ =~= seq![49u8, 48, 58] + total_size_key());
                bytes.extend_from_slice(key.as_slice());
                push_integer(&mut bytes, size as u64);
            },
        }
        bytes.push(101);
        assert(bytes@ =~= self.spec_to_bytes());
        bytes
    }

    /// What the bytes of a message say: `None` unless they begin with a
    /// dictionary that has the numbers `msg_type` and `piece`, the piece
    /// below 2^32. The `total_size` is taken where it is a number below 2^32.
    pub open spec fn spec_from_bytes(bytes: Seq<u8>) -> Option<ReadMsg> {
        let kind = dict_number(bytes, 0, msg_type_key());
        let piece = dict_number(bytes, 0, piece_key());
        let size = dict_number(bytes, 0, total_size_key());
        let end = value_end(bytes, 0, 0);
        if kind is Some && piece is Some && piece->0 <= u32::MAX && end is Some {
            Some(
                ReadMsg {
                    msg: MetadataMsg {
                        msg_type: MetadataMsgType::spec_from_id(kind->0),
                        piece_index: piece->0 as u32,
                        total_size: if size is Some && size->0 <= u32::MAX {
                            Some(size->0 as u32)
                        } else {
                            None
                        },
                    },
                    end: end->0 as usize,
                },
            )
        } else {
            None
        }
    }

    /// Reads the dictionary at the head of a message.
    pub fn from_bytes(bytes: &[u8]) -> (read: Option<ReadMsg>)
        ensures
            read == Self::spec_from_bytes(bytes@),
            read is Some ==> read->0.end <= bytes@.len(),
    {
        let kind_key: [u8; 8] = [109u8, 115, 103, 95, 116, 121, 112, 101];
        assert(kind_key@ =~= msg_type_key());
        let piece_name: [u8; 5] = [112u8, 105, 101, 99, 101];
        assert(piece_name@ =~= piece_key());
        let size_key: [u8; 10] = [116u8, 111, 116, 97, 108, 95, 115, 105, 122, 101];
        assert(size_key@ =~= total_size_key());
        let Some(kind) = get_number(bytes, 0, kind_key.as_slice()) else {
            return None;
        };
        let Some(piece) = get_number(bytes, 0, piece_name.as_slice()) else {
            return None;
        };
        if piece > u32::MAX as u64 {
            return None;
        }
        let total_size: Option<u32> = match get_number(bytes, 0, size_key.as_slice()) {
            Some(size) => {
                if size <= u32::MAX as u64 {
                    Some(size as u32)
                } else {
                    None
                }
            },
            None => None,
        };
        let Some(end) = skip_value(bytes, 0) else {
            return None;
        };
        Some(
            ReadMsg {
                msg: MetadataMsg {
                    msg_type: MetadataMsgType::from_id(kind),
                    piece_index: piece as u32,
                    total_size,
                },
                end,
            },
        )
    }
}

/// Whether `action` is to tell the coordinator `message`.
pub open spec fn says(action: ExtensionAction, message: ExtensionMessageView) -> bool {
    action matches ExtensionAction::SendPeerManager(said) && said@ == message
}

/// The part of a session that speaks the metadata extension.
#[derive(Debug, Clone, Copy)]
pub struct MetadataRequester;

impl MetadataRequester {
    pub fn new() -> Self {
        Self
    }

    /// What is made of the payload of a message that a peer sent. A message
    /// that sends a block is handed to the coordinator with the bytes that
    /// follow the dictionary. Any other message, and bytes that are no
    /// message, lead to nothing.
    pub open spec fn handled(data: Seq<u8>) -> Option<(u32, Seq<u8>)> {
        match MetadataMsg::spec_from_bytes(data) {
            Some(read) => {
                if read.msg.msg_type is Data && read.msg.total_size is Some {
                    Some((read.msg.piece_index, data.subrange(read.end as int, data.len() as int)))
                } else {
                    None
                }
            },
            None => None,
        }
    }

    /// Looks at the payload of a message that the peer sent.
    pub fn on_message(&self, data: &[u8]) -> (action: ExtensionAction)
        ensures
            match Self::handled(data@) {
                Some((piece, block)) => action matches ExtensionAction::SendPeerManager(
                    ExtensionMessage::ReceivedMetadataPiece { piece_index, data: found },
                ) && piece_index == piece && found@ == block,
                None => action is Nothing,
            },
    {
        let Some(read) = MetadataMsg::from_bytes(data) else {
            return ExtensionAction::Nothing;
        };
        match read.msg.msg_type {
            MetadataMsgType::Data => {},
            _ => {
                return ExtensionAction::Nothing;
            },
        }
        if read.msg.total_size.is_none() {
            return ExtensionAction::Nothing;
        }
        let block = copy_span(data, read.end, data.len());
        ExtensionAction::SendPeerManager(
            ExtensionMessage::ReceivedMetadataPiece { piece_index: read.msg.piece_index, data: block },
        )
    }

    /// What a session tells the coordinator when the peer's handshake has
    /// named the metadata extension: the length of the `info` dictionary, if
    /// the handshake gives it, and that the peer can be asked for a block.
    pub fn after_handshake(&self, additional_info: &AdditionalHandshakeInfo) -> (messages: Vec<
        ExtensionMessage,
    >)
        ensures
            match additional_info.metadata_size {
                Some(length) => messages@.len() == 2 && messages@[0]
                    == ExtensionMessage::GotMetadataLength(length) && messages@[1]
                    is NeedMetadataPiece,
                None => messages@.len() == 1 && messages@[0] is NeedMetadataPiece,
            },
    {
        let mut messages: Vec<ExtensionMessage> = Vec::new();
        match additional_info.metadata_size {
            Some(length) => {
                messages.push(ExtensionMessage::GotMetadataLength(length));
            },
            None => {},
        }
        messages.push(ExtensionMessage::NeedMetadataPiece);
        messages
    }
}

impl ExtensionHandler for MetadataRequester {
    fn handle_message(&self, data: &[u8]) -> (action: ExtensionAction)
        ensures
            match Self::handled(data@) {
                Some((piece, block)) => action matches ExtensionAction::SendPeerManager(
                    ExtensionMessage::ReceivedMetadataPiece { piece_index, data: found },
                ) && piece_index == piece && found@ == block,
                None => action is Nothing,
            },
    {
        self.on_message(data)
    }

    fn on_handshake(&self, additional_info: &AdditionalHandshakeInfo) -> (action: ExtensionAction)
        ensures
            match additional_info.metadata_size {
                Some(length) => {
                    &&& action is Multiple
                    &&& action->Multiple_0@.len() == 2
                    &&& says(
                        action->Multiple_0@[0],
                        ExtensionMessageView::GotMetadataLength(length),
                    )
                    &&& says(action->Multiple_0@[1], ExtensionMessageView::NeedMetadataPiece)
                },
                None => says(action, ExtensionMessageView::NeedMetadataPiece),
            },
    {
        let mut messages = self.after_handshake(additional_info);
        if messages.len() == 1 {
            match messages.pop() {
                Some(message) => ExtensionAction::SendPeerManager(message),
                None => ExtensionAction::Nothing,
            }
        } else {
            let mut requests: Vec<ExtensionAction> = Vec::new();
            let mut i: usize = 0;
            while i < messages.len()
                invariant
                    i <= messages@.len(),
                    requests@.len() == i,
                    forall|k: int| 0 <= k < i ==> says(#[trigger] requests@[k], messages@[k]@),
                decreases messages@.len() - i,
            {
                requests.push(ExtensionAction::SendPeerManager(clone_message(&messages[i])));
                i = i + 1;
            }
            ExtensionAction::Multiple(requests)
        }
    }

    fn get_ext_type(&self) -> (kind: ExtensionType)
        ensures
            kind is Metadata,
    {
        ExtensionType::Metadata
    }
}

/// A copy of `message`.
pub fn clone_message(message: &ExtensionMessage) -> (copy: ExtensionMessage)
    ensures
        copy@ == message@,
{
    match message {
        ExtensionMessage::NeedMetadataPiece => ExtensionMessage::NeedMetadataPiece,
        ExtensionMessage::ReceivedMetadataPiece { piece_index, data } => {
            let copy = copy_span(data.as_slice(), 0, data.len());
            assert(copy@ =~= data@);
            ExtensionMessage::ReceivedMetadataPiece { piece_index: *piece_index, data: copy }
        },
        ExtensionMessage::GotMetadataLength(length) => ExtensionMessage::GotMetadataLength(*length),
    }
}

} // verus!
