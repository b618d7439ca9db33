use codecrafters_bittorrent::messages::payloads::{
    BasicExtensionPayload, BitfieldPayload, HavePayload, NoPayload, Payload, RequestPiecePayload,
    ResponsePiecePayload,
};
use codecrafters_bittorrent::messages::{
    decode_body, Decoded, FrameError, MessageFramer, MessageType, PeerMessage, MAX,
};

#[test]
fn test_bitfield_payload() {
    let payload = BitfieldPayload {
        pieces_available: vec![true, false, true, false, true, false, true, false, true],
    };
    let bytes = payload.to_be_bytes();
    let payload2 = BitfieldPayload::from_be_bytes(&bytes);
    // Reading pads with `false` to the next full byte, so what was written is padded
    // in the same way before the two are compared.
    let mut expected_pieces = payload.pieces_available.clone();
    expected_pieces.resize(16, false);
    assert_eq!(payload2.pieces_available, expected_pieces);
}

#[test]
fn test_request_piece_payload() {
    let payload = RequestPiecePayload { index: 1, begin: 2, length: 3 };
    let bytes = payload.to_be_bytes();
    let payload2 = RequestPiecePayload::from_be_bytes(&bytes);
    assert_eq!(payload, payload2);
}

#[test]
fn test_response_piece_payload() {
    let payload = ResponsePiecePayload { index: 1, begin: 2, block: vec![1, 2, 3, 4] };
    let bytes = payload.to_be_bytes();
    let payload2 = ResponsePiecePayload::from_be_bytes(&bytes);
    assert_eq!(payload, payload2);
}

#[test]
fn test_have_payload() {
    let payload = HavePayload { piece_index: 1 };
    let bytes = payload.to_be_bytes();
    let payload2 = HavePayload::from_be_bytes(&bytes);
    assert_eq!(payload, payload2);
}

#[test]
fn bitfield_bytes_are_most_significant_bit_first() {
    let payload = BitfieldPayload {
        pieces_available: vec![true, false, false, false, false, false, false, true, false, true],
    };
    assert_eq!(payload.to_be_bytes(), vec![0b1000_0001, 0b0100_0000]);
    let read = BitfieldPayload::from_be_bytes(&[0b1000_0001, 0b0100_0000]);
    assert_eq!(read.pieces_available.len(), 16);
    assert_eq!(&read.pieces_available[..10], &payload.pieces_available[..]);
    assert!(read.pieces_available[10..].iter().all(|b| !*b));
}

#[test]
fn bitfield_of_no_piece_is_no_byte() {
    let payload = BitfieldPayload { pieces_available: vec![] };
    assert_eq!(payload.to_be_bytes(), Vec::<u8>::new());
    assert!(payload.is_empty());
    assert!(payload.is_finished());
    assert_eq!(BitfieldPayload::from_be_bytes(&[]).pieces_available, Vec::<bool>::new());
}

#[test]
fn bitfield_of_whole_bytes_comes_back_unpadded() {
    let bits: Vec<bool> = (0..16).map(|i| i % 3 == 0).collect();
    let payload = BitfieldPayload { pieces_available: bits.clone() };
    let read = BitfieldPayload::from_be_bytes(&payload.to_be_bytes());
    assert_eq!(read.pieces_available, bits);
}

#[test]
fn bitfield_is_empty_and_is_finished() {
    assert!(BitfieldPayload { pieces_available: vec![false, false] }.is_empty());
    assert!(!BitfieldPayload { pieces_available: vec![false, true] }.is_empty());
    assert!(BitfieldPayload { pieces_available: vec![true, true] }.is_finished());
    assert!(!BitfieldPayload { pieces_available: vec![true, false] }.is_finished());
}

#[test]
fn request_bytes_are_big_endian() {
    let payload = RequestPiecePayload::new(1, 0x4000, 0x0102_0304);
    assert_eq!(payload.to_be_bytes(), vec![0, 0, 0, 1, 0, 0, 0x40, 0, 1, 2, 3, 4]);
    assert_eq!(
        RequestPiecePayload::from_be_bytes(&[0xff, 0xff, 0xff, 0xff, 0, 0, 0, 0, 0, 0, 0x40, 0]),
        RequestPiecePayload { index: u32::MAX, begin: 0, length: 16384 }
    );
}

#[test]
fn no_payload_is_no_byte() {
    assert_eq!(NoPayload.to_be_bytes(), Vec::<u8>::new());
    assert_eq!(NoPayload::from_be_bytes(&[1, 2, 3]), NoPayload);
}

#[test]
fn extended_payload_is_id_and_data() {
    let payload = BasicExtensionPayload { extension_id: 3, data: vec![9, 8, 7] };
    assert_eq!(payload.to_be_bytes(), vec![3, 9, 8, 7]);
    assert_eq!(BasicExtensionPayload::from_be_bytes(&[3, 9, 8, 7]), payload);
}

fn all_variants() -> Vec<PeerMessage> {
    vec![
        PeerMessage::Choke(NoPayload),
        PeerMessage::Unchoke(NoPayload),
        PeerMessage::Interested(NoPayload),
        PeerMessage::NotInterested(NoPayload),
        PeerMessage::Have(HavePayload { piece_index: 77 }),
        PeerMessage::Bitfield(BitfieldPayload { pieces_available: vec![true; 16] }),
        PeerMessage::Request(RequestPiecePayload::new(1, 16384, 16384)),
        PeerMessage::Piece(ResponsePiecePayload { index: 2, begin: 32768, block: vec![5; 100] }),
        PeerMessage::Cancel(RequestPiecePayload::new(3, 0, 1)),
        PeerMessage::KeepAlive(NoPayload),
        PeerMessage::Extended(BasicExtensionPayload { extension_id: 1, data: vec![100, 101] }),
    ]
}

#[test]
fn every_message_comes_back_from_its_frame() {
    let framer = MessageFramer;
    for message in all_variants() {
        let mut bytes = framer.encode(&message).expect("fits");
        let frame_len = bytes.len();
        // What follows a frame does not change how it is read.
        bytes.extend_from_slice(&[0xde, 0xad]);
        assert_eq!(
            framer.decode(&bytes),
            Ok(Decoded::Message { consumed: frame_len, message: message.clone() })
        );
    }
}

#[test]
fn bitfield_comes_back_padded_from_its_frame() {
    let framer = MessageFramer;
    let bits = vec![true, true, false, true, false];
    let bytes =
        framer.encode(&PeerMessage::Bitfield(BitfieldPayload { pieces_available: bits.clone() })).unwrap();
    assert_eq!(bytes, vec![0, 0, 0, 2, 5, 0b1101_0000]);
    let mut padded = bits;
    padded.resize(8, false);
    assert_eq!(
        framer.decode(&bytes),
        Ok(Decoded::Message {
            consumed: 6,
            message: PeerMessage::Bitfield(BitfieldPayload { pieces_available: padded }),
        })
    );
}

#[test]
fn frames_have_length_id_payload() {
    let framer = MessageFramer;
    assert_eq!(framer.encode(&PeerMessage::Choke(NoPayload)), Ok(vec![0, 0, 0, 1, 0]));
    assert_eq!(framer.encode(&PeerMessage::Unchoke(NoPayload)), Ok(vec![0, 0, 0, 1, 1]));
    assert_eq!(framer.encode(&PeerMessage::Interested(NoPayload)), Ok(vec![0, 0, 0, 1, 2]));
    assert_eq!(framer.encode(&PeerMessage::NotInterested(NoPayload)), Ok(vec![0, 0, 0, 1, 3]));
    assert_eq!(
        framer.encode(&PeerMessage::Have(HavePayload { piece_index: 258 })),
        Ok(vec![0, 0, 0, 5, 4, 0, 0, 1, 2])
    );
    assert_eq!(
        framer.encode(&PeerMessage::Request(RequestPiecePayload::new(1, 2, 3))),
        Ok(vec![0, 0, 0, 13, 6, 0, 0, 0, 1, 0, 0, 0, 2, 0, 0, 0, 3])
    );
    assert_eq!(
        framer.encode(&PeerMessage::Piece(ResponsePiecePayload {
            index: 1,
            begin: 2,
            block: vec![0xaa, 0xbb],
        })),
        Ok(vec![0, 0, 0, 11, 7, 0, 0, 0, 1, 0, 0, 0, 2, 0xaa, 0xbb])
    );
    assert_eq!(
        framer.encode(&PeerMessage::Cancel(RequestPiecePayload::new(1, 2, 3))),
        Ok(vec![0, 0, 0, 13, 8, 0, 0, 0, 1, 0, 0, 0, 2, 0, 0, 0, 3])
    );
    assert_eq!(
        framer.encode(&PeerMessage::Extended(BasicExtensionPayload { extension_id: 0, data: vec![100, 101] })),
        Ok(vec![0, 0, 0, 4, 20, 0, 100, 101])
    );
}

#[test]
fn keep_alive_is_its_own_variant() {
    let framer = MessageFramer;
    assert_eq!(framer.encode(&PeerMessage::KeepAlive(NoPayload)), Ok(vec![0, 0, 0, 0]));
    assert_eq!(
        framer.decode(&[0, 0, 0, 0]),
        Ok(Decoded::Message { consumed: 4, message: PeerMessage::KeepAlive(NoPayload) })
    );
    // A message with an id and no payload has the length 1, and is not a keep-alive.
    assert_eq!(
        framer.decode(&[0, 0, 0, 1, 0]),
        Ok(Decoded::Message { consumed: 5, message: PeerMessage::Choke(NoPayload) })
    );
    // A keep-alive takes four bytes and leaves what follows.
    assert_eq!(
        framer.decode(&[0, 0, 0, 0, 0, 0, 0, 1, 1]),
        Ok(Decoded::Message { consumed: 4, message: PeerMessage::KeepAlive(NoPayload) })
    );
}

#[test]
fn unknown_ids_are_dropped_without_error() {
    let framer = MessageFramer;
    for id in [9u8, 10, 19, 21, 100, 255] {
        assert_eq!(framer.decode(&[0, 0, 0, 3, id, 1, 2]), Ok(Decoded::Skipped { consumed: 7 }));
        assert_eq!(decode_body(id, &[1, 2]), Ok(None));
        assert_eq!(MessageType::from_id(id), None);
    }
}

#[test]
fn incomplete_frames_take_nothing() {
    let framer = MessageFramer;
    assert_eq!(framer.decode(&[]), Ok(Decoded::Incomplete));
    assert_eq!(framer.decode(&[0, 0, 0]), Ok(Decoded::Incomplete));
    assert_eq!(framer.decode(&[0, 0, 0, 5]), Ok(Decoded::Incomplete));
    assert_eq!(framer.decode(&[0, 0, 0, 5, 4, 0, 0, 0]), Ok(Decoded::Incomplete));
    assert_eq!(
        framer.decode(&[0, 0, 0, 5, 4, 0, 0, 0, 9]),
        Ok(Decoded::Message { consumed: 9, message: PeerMessage::Have(HavePayload { piece_index: 9 }) })
    );
}

#[test]
fn frames_over_the_limit_are_an_error() {
    let framer = MessageFramer;
    assert_eq!(MAX, 8 * 1024 * 1024);
    // 8 MiB + 1
    assert_eq!(framer.decode(&[0, 0x80, 0, 1, 7]), Err(FrameError::FrameTooLarge));
    // The length is looked at once the id is there.
    assert_eq!(framer.decode(&[0, 0x80, 0, 1]), Ok(Decoded::Incomplete));
    // Exactly 8 MiB is accepted, and waits for its bytes.
    assert_eq!(framer.decode(&[0, 0x80, 0, 0, 7]), Ok(Decoded::Incomplete));
    let too_long = PeerMessage::Piece(ResponsePiecePayload {
        index: 0,
        begin: 0,
        block: vec![0; 8 * 1024 * 1024 - 11],
    });
    assert_eq!(framer.encode(&too_long), Err(FrameError::FrameTooLarge));
    let longest = PeerMessage::Piece(ResponsePiecePayload {
        index: 0,
        begin: 0,
        block: vec![0; 8 * 1024 * 1024 - 12],
    });
    assert_eq!(framer.encode(&longest).map(|bytes| bytes.len()), Ok(8 * 1024 * 1024 + 1));
}

#[test]
fn short_payloads_are_an_error() {
    let framer = MessageFramer;
    assert_eq!(framer.decode(&[0, 0, 0, 4, 4, 0, 0, 0]), Err(FrameError::UndecodablePayload));
    assert_eq!(decode_body(6, &[0; 11]), Err(FrameError::UndecodablePayload));
    assert_eq!(decode_body(7, &[0; 7]), Err(FrameError::UndecodablePayload));
    assert_eq!(decode_body(8, &[0; 11]), Err(FrameError::UndecodablePayload));
    assert_eq!(decode_body(20, &[]), Err(FrameError::UndecodablePayload));
    // A piece may hold no byte.
    assert_eq!(
        decode_body(7, &[0, 0, 0, 1, 0, 0, 0, 2]),
        Ok(Some(PeerMessage::Piece(ResponsePiecePayload { index: 1, begin: 2, block: vec![] })))
    );
}

#[test]
fn message_types_and_ids() {
    let kinds = [
        (MessageType::Choke, 0u8),
        (MessageType::Unchoke, 1),
        (MessageType::Interested, 2),
        (MessageType::NotInterested, 3),
        (MessageType::Have, 4),
        (MessageType::Bitfield, 5),
        (MessageType::Request, 6),
        (MessageType::Piece, 7),
        (MessageType::Cancel, 8),
        (MessageType::Extended, 20),
    ];
    for (kind, id) in kinds {
        assert_eq!(kind.id(), id);
        assert_eq!(MessageType::from_id(id), Some(kind));
    }
    assert_eq!(PeerMessage::KeepAlive(NoPayload).get_msg_type(), None);
    assert_eq!(PeerMessage::Choke(NoPayload).get_msg_type(), Some(MessageType::Choke));
    assert_eq!(
        PeerMessage::Have(HavePayload { piece_index: 1 }).to_be_bytes(),
        vec![0, 0, 0, 1]
    );
}
