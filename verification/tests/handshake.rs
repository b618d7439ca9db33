use codecrafters_bittorrent::peer::error::PeerError;
use codecrafters_bittorrent::peer::handshake::{same_bytes, Handshake, HANDSHAKE_LEN};
use codecrafters_bittorrent::torrent::InfoHash;

fn literal(reserved: [u8; 8], info_hash: [u8; 20], peer_id: [u8; 20]) -> [u8; 68] {
    let mut bytes = [0u8; 68];
    bytes[0] = 0x13;
    bytes[1..20].copy_from_slice(b"BitTorrent protocol");
    bytes[20..28].copy_from_slice(&reserved);
    bytes[28..48].copy_from_slice(&info_hash);
    bytes[48..68].copy_from_slice(&peer_id);
    bytes
}

#[test]
fn handshake_is_the_68_byte_literal() {
    assert_eq!(HANDSHAKE_LEN, 68);
    let info_hash = [7u8; 20];
    let peer_id = *b"-AZ2060-222222222222";
    let handshake = Handshake::new(InfoHash(info_hash), peer_id);
    assert_eq!(handshake.to_bytes(), literal([0, 0, 0, 0, 0, 0x10, 0, 0], info_hash, peer_id));
    assert!(handshake.has_extensions_enabled());
}

#[test]
fn handshake_comes_back_from_its_bytes() {
    let mut info_hash = [0u8; 20];
    let mut peer_id = [0u8; 20];
    for i in 0..20 {
        info_hash[i] = i as u8;
        peer_id[i] = 200 + i as u8;
    }
    let bytes = literal([1, 2, 3, 4, 5, 6, 7, 8], info_hash, peer_id);
    let read = Handshake::from_bytes(&bytes).expect("names the protocol");
    assert_eq!(read.info_hash, info_hash);
    assert_eq!(read.peer_id, peer_id);
    assert_eq!(read.reserved, [1, 2, 3, 4, 5, 6, 7, 8]);
    assert_eq!(read.to_bytes(), bytes);
    // Bit 0x10 of the byte at offset 5 is not set in 6.
    assert!(!read.has_extensions_enabled());
}

#[test]
fn extension_bit_is_bit_0x10_at_offset_5() {
    let with = Handshake::from_bytes(&literal([0, 0, 0, 0, 0, 0x10, 0, 0], [0; 20], [0; 20])).unwrap();
    assert!(with.has_extensions_enabled());
    let more = Handshake::from_bytes(&literal([0, 0, 0, 0, 0, 0xff, 0, 0], [0; 20], [0; 20])).unwrap();
    assert!(more.has_extensions_enabled());
    let without =
        Handshake::from_bytes(&literal([0xff, 0xff, 0xff, 0xff, 0xff, 0xef, 0xff, 0xff], [0; 20], [0; 20]))
            .unwrap();
    assert!(!without.has_extensions_enabled());
}

#[test]
fn handshake_mismatch_on_any_divergence() {
    let good = literal([0; 8], [1; 20], [2; 20]);
    assert!(Handshake::from_bytes(&good).is_ok());
    let mut wrong_length = good;
    wrong_length[0] = 18;
    assert_eq!(Handshake::from_bytes(&wrong_length).err(), Some(PeerError::HandshakeMismatch));
    for at in 1..20 {
        let mut wrong_name = good;
        wrong_name[at] ^= 1;
        assert_eq!(Handshake::from_bytes(&wrong_name).err(), Some(PeerError::HandshakeMismatch));
    }
}

#[test]
fn reply_must_name_the_same_torrent() {
    let ours = Handshake::new(InfoHash([1; 20]), [9; 20]);
    let same = literal([0; 8], [1; 20], [2; 20]);
    let remote = ours.check_reply(&same).expect("same torrent");
    assert_eq!(remote.peer_id, [2; 20]);
    let mut other = [1u8; 20];
    other[19] = 0;
    assert_eq!(
        ours.check_reply(&literal([0; 8], other, [2; 20])).err(),
        Some(PeerError::HandshakeMismatch)
    );
    let mut no_protocol = same;
    no_protocol[5] = b'x';
    assert_eq!(ours.check_reply(&no_protocol).err(), Some(PeerError::HandshakeMismatch));
}

#[test]
fn same_bytes_compares_length_and_content() {
    assert!(same_bytes(&[], &[]));
    assert!(same_bytes(&[1, 2], &[1, 2]));
    assert!(!same_bytes(&[1, 2], &[1, 3]));
    assert!(!same_bytes(&[1, 2], &[1, 2, 3]));
}

#[test]
fn peer_errors_have_words() {
    assert_eq!(PeerError::PeerDisconnected.message(), "The peer unexpectedly disconnected.");
    assert!(!PeerError::HandshakeMismatch.message().is_empty());
    assert!(!PeerError::PeerIdle.message().is_empty());
}
