//! The handshake that opens every connection: 68 bytes that name the protocol,
//! the torrent and the peer.

use crate::peer::error::PeerError;
use crate::torrent::{same_id, InfoHash};
use vstd::prelude::*;

verus! {

/// Number of bytes in a handshake.
pub const HANDSHAKE_LEN: usize = 68;

/// The bytes of `BitTorrent protocol`.
pub open spec fn protocol_name() -> Seq<u8> {
    seq![
        66u8, 105, 116, 84, 111, 114, 114, 101, 110, 116, 32, 112, 114, 111, 116, 111, 99, 111, 108,
    ]
}

/// The handshake of a peer.
#[derive(Debug, Copy, Clone)]
pub struct Handshake {
    /// The length of the protocol's name.
    pub length: u8,
    /// The protocol's name.
    pub protocol: [u8; 19],
    /// Eight bytes in which a peer offers what goes beyond the base protocol.
    pub reserved: [u8; 8],
    /// The torrent that the connection is about.
    pub info_hash: [u8; 20],
    /// The peer that sends the handshake.
    pub peer_id: [u8; 20],
}

/// The 68 bytes of a handshake with the given fields: the length 19, the
/// protocol's name, the reserved bytes, the torrent and the peer.
pub open spec fn handshake_bytes(reserved: Seq<u8>, info_hash: Seq<u8>, peer_id: Seq<u8>) -> Seq<
    u8,
> {
    seq![19u8] + protocol_name() + reserved + info_hash + peer_id
}

impl Handshake {
    /// Whether the handshake names the BitTorrent protocol.
    pub open spec fn wf(&self) -> bool {
        self.length == 19 && self.protocol@ == protocol_name()
    }

    /// The reserved bytes.
    pub open spec fn reserved(&self) -> Seq<u8> {
        self.reserved@
    }

    /// The bytes that stand for the handshake on the wire.
    pub open spec fn wire(&self) -> Seq<u8> {
        handshake_bytes(self.reserved(), self.info_hash@, self.peer_id@)
    }

    /// The handshake that this client sends: it names the torrent and this
    /// peer, and sets the bit that offers the extension protocol.
    pub fn new(info_hash: InfoHash, peer_id: [u8; 20]) -> (handshake: Self)
        ensures
            handshake.wf(),
            handshake.info_hash == info_hash.0,
            handshake.peer_id == peer_id,
            handshake.reserved() == seq![0u8, 0, 0, 0, 0, 0x10, 0, 0],
    {
        let mut reserved = [0_u8;8];
        reserved[5] = 0x10;
        let protocol: [u8; 19] = [
            66u8, 105, 116, 84, 111, 114, 114, 101, 110, 116, 32, 112, 114, 111, 116, 111, 99, 111, 108,
        ];
        assert(protocol@ =~= protocol_name());
        assert(reserved@ =~= seq![0u8, 0, 0, 0, 0, 0x10, 0, 0]);
        Self { length: 19, protocol, reserved, info_hash: info_hash.0, peer_id }
    }

    /// Whether the peer offers the extension protocol: bit `0x10` of the
    /// reserved byte at offset 5.
    pub fn has_extensions_enabled(&self) -> (enabled: bool)
        ensures
            enabled == (self.reserved()[5] & 0x10 == 0x10),
    {
        let extension_bit: u8 = self.reserved[5] & 0x10;
        extension_bit == 0x10
    }

    /// The 68 bytes that are sent.
    pub fn to_bytes(&self) -> (bytes: [u8; 68])
        requires
            self.wf(),
        ensures
            bytes@ == self.wire(),
    {
        let mut bytes = [0_u8;68];
        bytes[0] = self.length;
        let mut i: usize = 0;
        while i < 19
            invariant
                i <= 19,
                bytes@[0] == self.length,
                forall|k: int| 0 <= k < i ==> bytes@[1 + k] == self.protocol@[k],
            decreases 19 - i,
        {
            bytes[1 + i] = self.protocol[i];
            i = i + 1;
        }
        i = 0;
        while i < 8
            invariant
                i <= 8,
                bytes@[0] == self.length,
                forall|k: int| 0 <= k < 19 ==> bytes@[1 + k] == self.protocol@[k],
                forall|k: int| 0 <= k < i ==> bytes@[20 + k] == self.reserved@[k],
            decreases 8 - i,
        {
            bytes[20 + i] = self.reserved[i];
            i = i + 1;
        }
        i = 0;
        while i < 20
            invariant
                i <= 20,
                bytes@[0] == self.length,
                forall|k: int| 0 <= k < 19 ==> bytes@[1 + k] == self.protocol@[k],
                forall|k: int| 0 <= k < 8 ==> bytes@[20 + k] == self.reserved@[k],
                forall|k: int| 0 <= k < i ==> bytes@[28 + k] == self.info_hash@[k],
                forall|k: int| 0 <= k < i ==> bytes@[48 + k] == self.peer_id@[k],
            decreases 20 - i,
        {
            bytes[28 + i] = self.info_hash[i];
            bytes[48 + i] = self.peer_id[i];
            i = i + 1;
        }
        assert(bytes@ =~= self.wire());
        bytes
    }

    /// Reads the 68 bytes that a peer sent. `HandshakeMismatch` unless they
    /// begin with the length 19 and the protocol's name.
    pub fn from_bytes(bytes: &[u8; 68]) -> (read: Result<Handshake, PeerError>)
        ensures
            read is Ok <==> bytes@.subrange(0, 20) == seq![19u8] + protocol_name(),
            read is Err ==> read == Err::<Handshake, PeerError>(PeerError::HandshakeMismatch),
            read is Ok ==> read->Ok_0.wf() && read->Ok_0.wire() == bytes@,
    {
        let mut protocol = [0_u8;19];
        let mut reserved = [0_u8;8];
        let mut info_hash = [0_u8;20];
        let mut peer_id = [0_u8;20];
        let mut i: usize = 0;
        while i < 19
            invariant
                i <= 19,
                forall|k: int| 0 <= k < i ==> protocol@[k] == bytes@[1 + k],
            decreases 19 - i,
        {
            protocol[i] = bytes[1 + i];
            i = i + 1;
        }
        i = 0;
        while i < 8
            invariant
                i <= 8,
                forall|k: int| 0 <= k < i ==> reserved@[k] == bytes@[20 + k],
            decreases 8 - i,
        {
            reserved[i] = bytes[20 + i];
            i = i + 1;
        }
        i = 0;
        while i < 20
            invariant
                i <= 20,
                forall|k: int| 0 <= k < i ==> info_hash@[k] == bytes@[28 + k],
                forall|k: int| 0 <= k < i ==> peer_id@[k] == bytes@[48 + k],
            decreases 20 - i,
        {
            info_hash[i] = bytes[28 + i];
            peer_id[i] = bytes[48 + i];
            i = i + 1;
        }
        let expected: [u8; 19] = [
            66u8, 105, 116, 84, 111, 114, 114, 101, 110, 116, 32, 112, 114, 111, 116, 111, 99, 111, 108,
        ];
        assert(expected@ =~= protocol_name());
        let named: bool = same_bytes(protocol.as_slice(), expected.as_slice());
        let ghost head = bytes@.subrange(0, 20);
        let ghost literal = seq![19u8] + protocol_name();
        if bytes[0] != 19 || !named {
            proof {
                if bytes@[0] != 19 {
                    assert(head[0] != literal[0]);
                } else {
                    if head == literal {
                        assert forall|k: int| 0 <= k < 19 implies protocol@[k] == protocol_name()[k] by {
                            assert(head[1 + k] == literal[1 + k]);
                        }
                        assert(protocol@ =~= protocol_name());
                    }
                }
            }
            return Err(PeerError::HandshakeMismatch);
        }
        let read = Handshake { length: 19, protocol, reserved, info_hash, peer_id };
        proof {
            assert(head =~= literal);
            assert(read.wire() =~= bytes@);
        }
        Ok(read)
    }

    /// Checks the handshake that a peer answered with against the one that was
    /// sent: the bytes must name the protocol and the same torrent.
    pub fn check_reply(&self, reply: &[u8; 68]) -> (checked: Result<Handshake, PeerError>)
        ensures
            checked is Ok <==> reply@.subrange(0, 20) == seq![19u8] + protocol_name()
                && reply@.subrange(28, 48) == self.info_hash@,
            checked is Err ==> checked == Err::<Handshake, PeerError>(
                PeerError::HandshakeMismatch,
            ),
            checked is Ok ==> checked->Ok_0.wf() && checked->Ok_0.wire() == reply@,
    {
        match Handshake::from_bytes(reply) {
            Err(e) => Err(e),
            Ok(remote) => {
                proof {
                    assert(remote.wire() == reply@);
                    assert(reply@.subrange(28, 48) =~= remote.info_hash@);
                }
                if same_id(&remote.info_hash, &self.info_hash) {
                    Ok(remote)
                } else {
                    Err(PeerError::HandshakeMismatch)
                }
            },
        }
    }
}

/// Whether two slices hold the same bytes.
pub fn same_bytes(a: &[u8], b: &[u8]) -> (same: bool)
    ensures
        same == (a@ == b@),
{
    if a.len() != b.len() {
        return false;
    }
    let mut i: usize = 0;
    while i < a.len()
        invariant
            i <= a@.len(),
            a@.len() == b@.len(),
            forall|k: int| 0 <= k < i ==> a@[k] == b@[k],
        decreases a@.len() - i,
    {
        if a[i] != b[i] {
            return false;
        }
        i = i + 1;
    }
    assert(a@ =~= b@);
    true
}

/// Encode, then decode: the bytes of a handshake are read as the handshake
/// that was written, field by field. Together with what `from_bytes` ensures,
/// that a handshake read from bytes is written as the same bytes, the 68 bytes
/// and the fields stand for one another.
pub proof fn lemma_handshake_round_trip(a: Handshake, b: Handshake)
    requires
        a.wf(),
        b.wf(),
        a.wire() == b.wire(),
    ensures
        a.reserved() == b.reserved(),
        a.info_hash == b.info_hash,
        a.peer_id == b.peer_id,
        a.wire().len() == 68,
{
    let w = a.wire();
    assert(a.reserved() =~= w.subrange(20, 28));
    assert(b.reserved() =~= w.subrange(20, 28));
    assert(a.info_hash@ =~= w.subrange(28, 48));
    assert(b.info_hash@ =~= w.subrange(28, 48));
    assert(a.peer_id@ =~= w.subrange(48, 68));
    assert(b.peer_id@ =~= w.subrange(48, 68));
    assert(a.info_hash =~= b.info_hash);
    assert(a.peer_id =~= b.peer_id);
}

} // verus!
