//! What a tracker is asked and what it answers, as far as this client reads
//! it.

use crate::digest::{hex_encode, hex_text};
use crate::text::{decimal_text, push_char, push_decimal_text};
use crate::torrent::InfoHash;
use vstd::prelude::*;
use vstd::string::*;

verus! {

/// The request that is sent to a tracker.
#[derive(Debug, Clone)]
pub struct TrackerRequest<'a> {
    /// The hash of the torrent.
    pub info_hash: &'a InfoHash,
    /// The id of this client.
    pub peer_id: &'a [u8; 20],
    /// The port on which this client listens.
    pub port: u16,
    /// The number of bytes that were uploaded.
    pub uploaded: u32,
    /// The number of bytes that were downloaded.
    pub downloaded: u32,
    /// The number of bytes that are still to be downloaded.
    pub left: u32,
    /// Whether the peers are to be sent in the compact form.
    pub compact: u8,
}

/// Whether the byte is an ASCII letter or digit.
pub open spec fn is_alphanumeric(byte: u8) -> bool {
    (48 <= byte <= 57) || (65 <= byte <= 90) || (97 <= byte <= 122)
}

/// The byte as it stands in a query: itself if it is a letter or a digit,
/// else a percent sign and its two hexadecimal digits.
pub open spec fn escaped_byte(byte: u8) -> Seq<char> {
    if is_alphanumeric(byte) {
        seq![byte as char]
    } else {
        seq!['%'] + hex_text(seq![byte])
    }
}

/// The first `upto` bytes as they stand in a query.
pub open spec fn escaped(bytes: Seq<u8>, upto: nat) -> Seq<char>
    decreases upto,
{
    if upto == 0 {
        Seq::empty()
    } else {
        escaped(bytes, (upto - 1) as nat) + escaped_byte(bytes[upto - 1])
    }
}

/// The bytes as they stand in a query.
pub fn escape_bytes_url(bytes: &[u8; 20]) -> (text: String)
    ensures
        text@ == escaped(bytes@, 20),
{
    let mut text = String::new();
    let mut i: usize = 0;
    while i < 20
        invariant
            i <= 20,
            text@ == escaped(bytes@, i as nat),
        decreases 20 - i,
    {
        let b: u8 = bytes[i];
        let ghost before = text@;
        if (b >= 48 && b <= 57) || (b >= 65 && b <= 90) || (b >= 97 && b <= 122) {
            push_char(&mut text, b as char);
            assert(text@ =~= before + escaped_byte(b));
        } else {
            push_char(&mut text, '%');
            let one: [u8; 1] = [b];
            assert(one@ =~= seq![b]);
            let digits = hex_encode(one.as_slice());
            text.append(digits.as_str());
            assert(text@ =~= before + escaped_byte(b));
        }
        i = i + 1;
    }
    text
}

impl<'a> TrackerRequest<'a> {
    /// The request of a client that listens on `port` and has nothing of a
    /// file of `file_length` bytes.
    pub fn new(info_hash: &'a InfoHash, peer_id: &'a [u8; 20], port: u16, file_length: u32) -> (request:
        Self)
        ensures
            request.info_hash == info_hash,
            request.peer_id == peer_id,
            request.port == port,
            request.uploaded == 0,
            request.downloaded == 0,
            request.left == file_length,
            request.compact == 1,
    {
        Self { info_hash, peer_id, port, uploaded: 0, downloaded: 0, left: file_length, compact: 1 }
    }

    /// The query of the request: the hash of the torrent and the id of this
    /// client, byte for byte, and the numbers in decimal.
    pub open spec fn query(&self) -> Seq<char> {
        "info_hash="@ + escaped(self.info_hash.0@, 20) + "&peer_id="@ + escaped(self.peer_id@, 20)
            + "&port="@ + decimal_text(self.port as nat) + "&uploaded="@ + decimal_text(
            self.uploaded as nat,
        ) + "&downloaded="@ + decimal_text(self.downloaded as nat) + "&left="@ + decimal_text(
            self.left as nat,
        ) + "&compact="@ + decimal_text(self.compact as nat)
    }

    /// The query of the request.
    pub fn to_url_encoded(&self) -> (url_encoded: String)
        ensures
            url_encoded@ == self.query(),
    {
        let mut url_encoded = String::new();
        url_encoded.append("info_hash=");
        url_encoded.append(escape_bytes_url(&self.info_hash.0).as_str());
        url_encoded.append("&peer_id=");
        url_encoded.append(escape_bytes_url(self.peer_id).as_str());
        url_encoded.append("&port=");
        push_decimal_text(&mut url_encoded, self.port as u64);
        url_encoded.append("&uploaded=");
        push_decimal_text(&mut url_encoded, self.uploaded as u64);
        url_encoded.append("&downloaded=");
        push_decimal_text(&mut url_encoded, self.downloaded as u64);
        url_encoded.append("&left=");
        push_decimal_text(&mut url_encoded, self.left as u64);
        url_encoded.append("&compact=");
        push_decimal_text(&mut url_encoded, self.compact as u64);
        assert(url_encoded@ =~= self.query());
        url_encoded
    }
}

/// The address of a peer as a tracker gives it.
#[derive(Debug, Clone, Copy, PartialEq, Eq)]
pub struct PeerAddr {
    /// The IPv4 address, in network order.
    pub ip: [u8; 4],
    /// The port.
    pub port: u16,
}

/// The peers that a tracker knows.
#[derive(Debug)]
pub struct PeerConnections(pub Vec<PeerAddr>);

impl View for PeerConnections {
    type V = Seq<PeerAddr>;

    open spec fn view(&self) -> Seq<PeerAddr> {
        self.0@
    }
}

/// The address that the six bytes from `at` on stand for: four bytes of
/// address and the port in two bytes, most significant first.
pub open spec fn peer_at(bytes: Seq<u8>, at: int) -> PeerAddr {
    PeerAddr {
        ip: [bytes[at], bytes[at + 1], bytes[at + 2], bytes[at + 3]],
        port: (bytes[at + 4] * 256 + bytes[at + 5]) as u16,
    }
}

impl PeerConnections {
    /// Reads the compact list of peers in a tracker's answer: six bytes for
    /// each peer. `None` for a length that is no multiple of six.
    pub fn from_bytes(v: &[u8]) -> (peers: Option<PeerConnections>)
        ensures
            peers is Some <==> v@.len() % 6 == 0,
            peers is Some ==> {
                &&& peers->0@.len() == v@.len() / 6
                &&& forall|i: int|
                    0 <= i < peers->0@.len() ==> #[trigger] peers->0@[i] == peer_at(v@, 6 * i)
            },
    {
        let total: usize = v.len();
        if total % 6 != 0 {
            return None;
        }
        let count: usize = total / 6;
        let mut list: Vec<PeerAddr> = Vec::new();
        let mut i: usize = 0;
        while i < count
            invariant
                i <= count,
                total == v@.len(),
                count == total / 6,
                total % 6 == 0,
                list@.len() == i,
                forall|k: int| 0 <= k < i ==> #[trigger] list@[k] == peer_at(v@, 6 * k),
            decreases count - i,
        {
            assert(6 * (i + 1) <= total);
            let at: usize = 6 * i;
            let ip: [u8; 4] = [v[at], v[at + 1], v[at + 2], v[at + 3]];
            let port: u16 = v[at + 4] as u16 * 256 + v[at + 5] as u16;
            let addr = PeerAddr { ip, port };
            assert(addr.ip@ =~= peer_at(v@, 6 * i).ip@);
            list.push(addr);
            i = i + 1;
        }
        Some(PeerConnections(list))
    }

    /// The compact list of the peers.
    pub fn to_bytes(&self) -> (bytes: Vec<u8>)
        ensures
            bytes@.len() == 6 * self@.len(),
            forall|i: int| 0 <= i < self@.len() ==> peer_at(bytes@, 6 * i) == #[trigger] self@[i],
    {
        let mut bytes: Vec<u8> = Vec::new();
        let mut i: usize = 0;
        while i < self.0.len()
            invariant
                i <= self.0@.len(),
                bytes@.len() == 6 * i,
                forall|k: int| 0 <= k < i ==> peer_at(bytes@, 6 * k) == #[trigger] self.0@[k],
            decreases self.0@.len() - i,
        {
            let peer: PeerAddr = self.0[i];
            let ghost before = bytes@;
            bytes.push(peer.ip[0]);
            bytes.push(peer.ip[1]);
            bytes.push(peer.ip[2]);
            bytes.push(peer.ip[3]);
            bytes.push((peer.port / 256) as u8);
            bytes.push((peer.port % 256) as u8);
            proof {
                assert forall|k: int| 0 <= k < i implies peer_at(bytes@, 6 * k) == #[trigger] self.0@[k] by {
                    assert(peer_at(before, 6 * k) == self.0@[k]);
                    assert(peer_at(bytes@, 6 * k).ip =~= peer_at(before, 6 * k).ip);
                    assert(peer_at(bytes@, 6 * k).port == peer_at(before, 6 * k).port);
                }
                let now = peer_at(bytes@, 6 * i);
                assert(now.ip =~= peer.ip);
                assert(bytes@[6 * i + 4] == (peer.port / 256) as u8);
                assert(bytes@[6 * i + 5] == (peer.port % 256) as u8);
                assert(now.port == peer.port);
                assert(now == peer);
            }
            i = i + 1;
        }
        bytes
    }
}

/// The answer of a tracker.
#[derive(Debug)]
pub struct TrackerResponse {
    /// The number of seconds after which the tracker wants to be asked
    /// again.
    pub interval: usize,
    /// The peers that the tracker knows.
    pub peers: PeerConnections,
}

/// Why a tracker does not answer as expected.
#[derive(Debug, Clone, Copy, PartialEq, Eq)]
pub enum TrackerRequestError {
    /// The announce URL is no URL.
    InvalidUrl,
    /// The answer is not a dictionary with `interval` and `peers`.
    InvalidResponse,
}

impl TrackerResponse {
    /// Reads the answer of a tracker: a dictionary with the number
    /// `interval` and the compact list `peers`.
    pub fn from_bencode(bytes: &[u8]) -> (read: Result<TrackerResponse, TrackerRequestError>)
        ensures
            read is Ok <==> {
                &&& crate::bencode::dict_number(bytes@, 0, interval_key()) is Some
                &&& crate::bencode::dict_number(bytes@, 0, interval_key())->0 <= usize::MAX
                &&& crate::bencode::dict_string(bytes@, 0, peers_key()) is Some
                &&& crate::bencode::dict_string(bytes@, 0, peers_key())->0.len() % 6 == 0
            },
            read is Ok ==> {
                let list = crate::bencode::dict_string(bytes@, 0, peers_key())->0;
                &&& read->Ok_0.interval == crate::bencode::dict_number(bytes@, 0, interval_key())->0
                &&& read->Ok_0.peers@.len() == list.len() / 6
                &&& forall|i: int|
                    0 <= i < read->Ok_0.peers@.len() ==> #[trigger] read->Ok_0.peers@[i]
                        == peer_at(list, 6 * i)
            },
            read is Err ==> read->Err_0 is InvalidResponse,
    {
        let interval_k: [u8; 8] = [105u8, 110, 116, 101, 114, 118, 97, 108];
        assert(interval_k@ =~= interval_key());
        let peers_k: [u8; 5] = [112u8, 101, 101, 114, 115];
        assert(peers_k@ =~= peers_key());
        let Some(interval) = crate::bencode::get_number(bytes, 0, interval_k.as_slice()) else {
            return Err(TrackerRequestError::InvalidResponse);
        };
        if interval > usize::MAX as u64 {
            return Err(TrackerRequestError::InvalidResponse);
        }
        let Some(span) = crate::bencode::get_string(bytes, 0, peers_k.as_slice()) else {
            return Err(TrackerRequestError::InvalidResponse);
        };
        let Some(peers) = PeerConnections::from_bytes(
            vstd::slice::slice_subrange(bytes, span.start, span.end),
        ) else {
            return Err(TrackerRequestError::InvalidResponse);
        };
        Ok(TrackerResponse { interval: interval as usize, peers })
    }
}

/// The bytes of `interval`.
pub open spec fn interval_key() -> Seq<u8> {
    seq![105u8, 110, 116, 101, 114, 118, 97, 108]
}

/// The bytes of `peers`.
pub open spec fn peers_key() -> Seq<u8> {
    seq![112u8, 101, 101, 114, 115]
}

} // verus!
