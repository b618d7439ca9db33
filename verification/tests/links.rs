use codecrafters_bittorrent::database::{DBEntry, DBFile, FileInfo};
use codecrafters_bittorrent::extensions::magnet_links::{MagnetLink, MagnetLinkError};
use codecrafters_bittorrent::text::text_is;
use codecrafters_bittorrent::torrent::{
    has_prefix, same_id, to_id, Hashes, InfoHash, InfoHashError, Key, Metainfo, Torrent,
};
use codecrafters_bittorrent::tracker::{
    escape_bytes_url, PeerAddr, PeerConnections, TrackerRequest, TrackerRequestError,
    TrackerResponse,
};

#[test]
fn mod_parse() {
    let magnet_link = MagnetLink::from_url(
        "magnet:?xt=urn:btih:ad42ce8109f54c99613ce38f9b4d87e70f24a165&dn=magnet1.gif&tr=http%3A%2F%2Fbittorrent-test-tracker.codecrafters.io%2Fannounce&tr=udp%3A%2F%2Fbittorrent-test-tracker.codecrafters.io"
    ).expect("is valid");
    assert_eq!(
        magnet_link.info_hash,
        InfoHash([
            173, 66, 206, 129, 9, 245, 76, 153, 97, 60, 227, 143, 155, 77, 135, 231, 15, 36, 161, 101
        ])
    );
    assert_eq!(
        magnet_link.trackers,
        vec![
            url::Url::parse("http://bittorrent-test-tracker.codecrafters.io/announce")
                .expect("is valid")
                .to_string();
            2
        ]
    );
    assert_eq!(magnet_link.file_name, Some("magnet1.gif".to_owned()));
}

#[test]
fn magnet_link_with_peers_and_other_keys() {
    let link = MagnetLink::from_url(
        "magnet:?dn=&x.pe=127.0.0.1:6881&xt=urn:btih:AD42CE8109F54C99613CE38F9B4D87E70F24A165&tr=not%20a%20url&x.pe=peer&ws=other",
    )
    .unwrap();
    assert_eq!(link.info_hash.0[0], 0xad);
    assert_eq!(link.file_name, None);
    assert_eq!(link.trackers, Vec::<String>::new());
    assert_eq!(link.peer_addrs, vec!["127.0.0.1:6881".to_string(), "peer".to_string()]);
    assert_eq!(link.get_announce_url(), Err(MagnetLinkError::NoTrackerUrl));
}

#[test]
fn magnet_link_announce_url() {
    let link = MagnetLink::from_url(
        "magnet:?xt=urn:btih:ad42ce8109f54c99613ce38f9b4d87e70f24a165&tr=udp://tracker.example:1337/old/path?x=1&tr=https://b.example/a",
    )
    .unwrap();
    assert_eq!(
        link.trackers,
        vec!["http://tracker.example:1337/announce?x=1".to_string(), "https://b.example/a".to_string()]
    );
    assert_eq!(link.get_announce_url(), Ok("http://tracker.example:1337/announce?x=1".to_string()));
    assert_eq!(
        MagnetLink::read_tracker("HTTP://Example.COM"),
        Some("http://example.com/".to_string())
    );
    assert_eq!(MagnetLink::read_tracker("example.com"), None);
}

#[test]
fn links_that_are_no_magnet_links() {
    assert_eq!(MagnetLink::from_url("not a url").err(), Some(MagnetLinkError::InvalidUrl));
    assert_eq!(
        MagnetLink::from_url("http://example.com/?xt=urn:btih:ad42ce8109f54c99613ce38f9b4d87e70f24a165").err(),
        Some(MagnetLinkError::NoMagnetLink)
    );
    assert_eq!(
        MagnetLink::from_url("magnet:?dn=name").err(),
        Some(MagnetLinkError::InvalidInfoHash(InfoHashError::Missing))
    );
    assert_eq!(
        MagnetLink::from_url("magnet:?xt=urn:sha1:ad42ce8109f54c99613ce38f9b4d87e70f24a165").err(),
        Some(MagnetLinkError::InvalidInfoHash(InfoHashError::InvalidPrefix))
    );
    assert_eq!(
        MagnetLink::from_url("magnet:?xt=urn:btih:zz42ce8109f54c99613ce38f9b4d87e70f24a165").err(),
        Some(MagnetLinkError::InvalidInfoHash(InfoHashError::InvalidHex))
    );
    assert_eq!(
        MagnetLink::from_url("magnet:?xt=urn:btih:ad42&xt=urn:btih:ad42ce8109f54c99613ce38f9b4d87e70f24a165").err(),
        Some(MagnetLinkError::InvalidInfoHash(InfoHashError::InvalidLength))
    );
    let pairs = vec![("xt".to_string(), "urn:btih:ad42ce8109f54c99613ce38f9b4d87e70f24a165".to_string())];
    assert!(MagnetLink::from_query_pairs(&pairs).is_ok());
    assert_eq!(
        MagnetLink::from_query_pairs(&vec![]).err(),
        Some(MagnetLinkError::InvalidInfoHash(InfoHashError::Missing))
    );
}

#[test]
fn info_hash_from_text_and_to_text() {
    let text = "urn:btih:000102030405060708090a0b0c0d0e0f10111213";
    let hash = InfoHash::from_str(text).unwrap();
    let mut expected = [0u8; 20];
    for i in 0..20 {
        expected[i] = i as u8;
    }
    assert_eq!(hash, InfoHash(expected));
    assert_eq!(hash.to_hex(), "000102030405060708090a0b0c0d0e0f10111213");
    assert_eq!(InfoHash([0xff; 20]).to_hex(), "ff".repeat(20));
    assert_eq!(InfoHash::from_str("urn:btih:").err(), Some(InfoHashError::InvalidLength));
    assert_eq!(InfoHash::from_str("urn:btih").err(), Some(InfoHashError::InvalidPrefix));
    assert_eq!(InfoHash::from_str("").err(), Some(InfoHashError::InvalidPrefix));
    assert_eq!(
        InfoHash::from_str("urn:btih:000102030405060708090a0b0c0d0e0f1011121").err(),
        Some(InfoHashError::InvalidHex)
    );
    assert_eq!(
        InfoHash::from_str("urn:btih:000102030405060708090a0b0c0d0e0f1011121314").err(),
        Some(InfoHashError::InvalidLength)
    );
    assert_eq!(
        InfoHash::from_str("urn:btih:\u{e9}0102030405060708090a0b0c0d0e0f10111213").err(),
        Some(InfoHashError::InvalidHex)
    );
}

#[test]
fn info_hash_is_the_sha1_of_the_info_dictionary() {
    // SHA-1 of "abc" and of nothing.
    assert_eq!(InfoHash::of_info(b"abc").to_hex(), "a9993e364706816aba3e25717850c26c9cd0d89d");
    assert_eq!(InfoHash::of_info(b"").to_hex(), "da39a3ee5e6b4b0d3255bfef95601890afd80709");
}

#[test]
fn small_helpers() {
    assert!(same_id(&[1; 20], &[1; 20]));
    let mut other = [1u8; 20];
    other[19] = 2;
    assert!(!same_id(&[1; 20], &other));
    assert_eq!(to_id(&[5; 25]), [5; 20]);
    assert!(has_prefix("urn:btih:x", "urn:btih:"));
    assert!(has_prefix("abc", ""));
    assert!(!has_prefix("ur", "urn"));
    assert!(!has_prefix("urx:btih:", "urn:btih:"));
    assert!(text_is("magnet", "magnet"));
    assert!(!text_is("magnet", "magnes"));
    assert!(!text_is("magnet", "magnets"));
}

#[test]
fn tracker_request_query() {
    let info_hash = InfoHash([
        0x00, 0x41, 0x5a, 0x61, 0x7a, 0x30, 0x39, 0x20, 0x2d, 0xff, 0x10, 0x0a, 0x7e, 0x2e, 0x5f, 0x2f, 0x3a,
        0x40, 0x5b, 0x7b,
    ]);
    let peer_id = *b"-AZ2060-222222222222";
    let request = TrackerRequest::new(&info_hash, &peer_id, 6881, 92063);
    assert_eq!(request.uploaded, 0);
    assert_eq!(request.downloaded, 0);
    assert_eq!(request.left, 92063);
    assert_eq!(request.compact, 1);
    assert_eq!(
        request.to_url_encoded(),
        "info_hash=%00AZaz09%20%2d%ff%10%0a%7e%2e%5f%2f%3a%40%5b%7b&peer_id=%2dAZ2060%2d222222222222&port=6881&uploaded=0&downloaded=0&left=92063&compact=1"
    );
    assert_eq!(escape_bytes_url(&[b'a'; 20]), "a".repeat(20));
    let most = TrackerRequest::new(&info_hash, &peer_id, u16::MAX, u32::MAX);
    assert!(most.to_url_encoded().ends_with("&port=65535&uploaded=0&downloaded=0&left=4294967295&compact=1"));
}

#[test]
fn compact_peers() {
    let bytes = [127, 0, 0, 1, 0x1a, 0xe1, 10, 1, 2, 3, 0xff, 0xff];
    let peers = PeerConnections::from_bytes(&bytes).unwrap();
    assert_eq!(
        peers.0,
        vec![PeerAddr { ip: [127, 0, 0, 1], port: 6881 }, PeerAddr { ip: [10, 1, 2, 3], port: 65535 }]
    );
    assert_eq!(peers.to_bytes(), bytes.to_vec());
    assert!(PeerConnections::from_bytes(&bytes[..11]).is_none());
    assert_eq!(PeerConnections::from_bytes(&[]).unwrap().0, vec![]);
}

#[test]
fn tracker_response() {
    let response = TrackerResponse::from_bencode(b"d8:intervali60e5:peers6:\x7f\x00\x00\x01\x1a\xe1e").unwrap();
    assert_eq!(response.interval, 60);
    assert_eq!(response.peers.0, vec![PeerAddr { ip: [127, 0, 0, 1], port: 6881 }]);
    let more = TrackerResponse::from_bencode(b"d8:completei1e8:intervali1800e12:min intervali60e5:peers0:e")
        .unwrap();
    assert_eq!(more.interval, 1800);
    assert!(more.peers.0.is_empty());
    for wrong in [
        &b"d5:peers0:e"[..],
        b"d8:intervali60ee",
        b"d8:intervali60e5:peers5:\x7f\x00\x00\x01\x1ae",
        b"d14:failure reason4:nopee",
        b"",
    ] {
        assert_eq!(TrackerResponse::from_bencode(wrong).err(), Some(TrackerRequestError::InvalidResponse));
    }
}

fn torrent() -> Torrent {
    Torrent {
        announce: "http://tracker.example/announce".to_string(),
        info: Metainfo {
            name: "file".to_string(),
            piece_length: 32,
            pieces: Hashes(vec![[0; 20]; 3]),
            length: 80,
            files: Key::SingleFile { md5sum: None },
        },
    }
}

#[test]
fn record_of_a_new_torrent() {
    let mut entry = DBEntry::from_new_file("out.bin".to_string(), torrent());
    assert_eq!(entry.bitfield, vec![false, false, false]);
    assert_eq!(entry.file, "out.bin");
    assert_eq!(entry.announce, "http://tracker.example/announce");
    assert_eq!(entry.torrent_info.name, "file");
    assert!(!entry.is_finished());
    entry.update_bitfields(vec![true, true, true]);
    assert!(entry.is_finished());
    assert_eq!(entry.file, "out.bin");
    assert_eq!(DBEntry::key(&InfoHash([0xab; 20])), "ab".repeat(20));
    let info = FileInfo::from_new_file(
        DBFile { file_path: "out.bin".to_string(), torrent_path: "a.torrent".to_string() },
        2,
    );
    assert_eq!(info.bitfield, vec![false, false]);
    assert_eq!(info.file, "out.bin");
    assert_eq!(info.torrent, "a.torrent");
}
