//! The handshake of the extension protocol: a dictionary that names the
//! extensions a peer offers, with the id under which it wants each.

use crate::bencode::{
    dict_number, dict_string, dict_value, find_key, get_number, get_string, integer,
    integer_at, push_integer, push_string, read_integer, read_string, string, string_at,
};
use crate::extensions::{active_extensions, metadata_name, ExtensionType};
use crate::text::utf8_text;
use vstd::prelude::*;
use vstd::slice::slice_subrange;

verus! {

/// The address under which a peer sees this client.
#[derive(Debug, Clone, Copy)]
pub enum YourIp {
    /// An IPv4 address, in network order.
    V4([u8; 4]),
    /// An IPv6 address, in network order.
    V6([u8; 16]),
}

/// An extension that a peer offers: its name, and the id under which the
/// peer wants to be sent its messages. The id 0 says that the peer has
/// switched the extension off.
#[derive(Debug)]
pub struct OfferedExtension {
    pub name: Vec<u8>,
    pub id: u8,
}

/// What a handshake says beside the extensions.
#[derive(Debug)]
pub struct AdditionalHandshakeInfo {
    /// The number of bytes of the `info` dictionary.
    pub metadata_size: Option<usize>,
    /// The port on which the peer listens.
    pub p: Option<u16>,
    /// The name and version of the peer's program.
    pub v: Option<String>,
    /// The address under which the peer sees this client.
    pub yourip: Option<YourIp>,
    /// The number of requests that the peer takes without dropping any.
    pub reqq: Option<usize>,
}

/// The handshake of the extension protocol.
#[derive(Debug)]
pub struct HandshakeExtension {
    /// The extensions that are offered, in the order of the dictionary `m`.
    pub m: Vec<OfferedExtension>,
    /// What the handshake says beside.
    pub other: AdditionalHandshakeInfo,
}

/// The bytes of the handshake that this client sends: the dictionary `m`
/// with `ut_metadata` under the id 1, and nothing else.
pub open spec fn own_handshake() -> Seq<u8> {
    seq![100u8, 49, 58, 109, 100] + string(metadata_name()) + integer(1) + seq![101u8, 101]
}

/// The entries of a dictionary of extensions that go on at `pos`, as pairs
/// of name and id. `None` if an entry is no name with an id below 256.
pub open spec fn offered_from(bytes: Seq<u8>, pos: int) -> Option<Seq<(Seq<u8>, u8)>>
    decreases bytes.len() - pos,
{
    let name = string_at(bytes, pos);
    let id = integer_at(bytes, name->0.end as int);
    if pos < 0 || pos >= bytes.len() {
        None
    } else if bytes[pos] == 101 {
        Some(Seq::empty())
    } else if name is None || id is None || id->0.value > 255 || !(pos < id->0.end
        <= bytes.len()) {
        None
    } else {
        match offered_from(bytes, id->0.end as int) {
            None => None,
            Some(rest) => Some(
                seq![(bytes.subrange(name->0.start as int, name->0.end as int), id->0.value as u8)]
                    + rest,
            ),
        }
    }
}

/// The extensions that the handshake in `bytes` offers: the entries of its
/// dictionary `m`. `None` if `bytes` is no dictionary with such an `m`.
pub open spec fn offered(bytes: Seq<u8>) -> Option<Seq<(Seq<u8>, u8)>> {
    match dict_value(bytes, 0, seq![109u8]) {
        None => None,
        Some(at) => {
            if 0 <= at < bytes.len() && bytes[at] == 100 {
                offered_from(bytes, at + 1)
            } else {
                None
            }
        },
    }
}

impl OfferedExtension {
    pub open spec fn pair(&self) -> (Seq<u8>, u8) {
        (self.name@, self.id)
    }
}

/// The pairs of name and id in `list`.
pub open spec fn pairs(list: Seq<OfferedExtension>) -> Seq<(Seq<u8>, u8)> {
    Seq::new(list.len(), |i: int| list[i].pair())
}

/// A copy of the bytes from `start` up to `end`.
pub fn copy_span(bytes: &[u8], start: usize, end: usize) -> (copy: Vec<u8>)
    requires
        start <= end <= bytes@.len(),
    ensures
        copy@ == bytes@.subrange(start as int, end as int),
{
    let mut copy: Vec<u8> = Vec::new();
    let mut i: usize = start;
    while i < end
        invariant
            start <= i <= end <= bytes@.len(),
            copy@ == bytes@.subrange(start as int, i as int),
        decreases end - i,
    {
        copy.push(bytes[i]);
        i = i + 1;
        assert(copy@ =~= bytes@.subrange(start as int, i as int));
    }
    copy
}

impl HandshakeExtension {
    /// The handshake that this client sends: it offers the extensions that
    /// this client knows, each under its id, and says nothing else.
    pub fn new() -> (handshake: Self)
        ensures
            pairs(handshake.m@) == seq![(metadata_name(), 1u8)],
            handshake.other.metadata_size is None,
            handshake.other.p is None,
            handshake.other.v is None,
            handshake.other.yourip is None,
            handshake.other.reqq is None,
    {
        let mut m: Vec<OfferedExtension> = Vec::new();
        let active = active_extensions();
        let ext: ExtensionType = active[0];
        match ext.name() {
            Some(name) => {
                m.push(OfferedExtension { name, id: ext.id() });
            },
            None => {},
        }
        assert(pairs(m@) =~= seq![(metadata_name(), 1u8)]);
        Self {
            m,
            other: AdditionalHandshakeInfo {
                metadata_size: None,
                p: None,
                v: None,
                yourip: None,
                reqq: None,
            },
        }
    }

    /// The bencode of the handshake that this client sends.
    pub fn own_bytes() -> (bytes: Vec<u8>)
        ensures
            bytes@ == own_handshake(),
    {
        let mut bytes: Vec<u8> = vec![100u8, 49, 58, 109, 100];
        assert(bytes@ =~= seq![100u8, 49, 58, 109, 100]);
        let ext = ExtensionType::Metadata;
        match ext.name() {
            Some(name) => {
                push_string(&mut bytes, name.as_slice());
                push_integer(&mut bytes, ext.id() as u64);
            },
            None => {},
        }
        bytes.push(101);
        bytes.push(101);
        assert(bytes@ =~= own_handshake());
        bytes
    }

    /// Reads the extensions that go on at `pos` in a dictionary of
    /// extensions.
    fn read_offered(bytes: &[u8], pos: usize) -> (list: Option<Vec<OfferedExtension>>)
        requires
            pos <= bytes@.len(),
        ensures
            match list {
                Some(list) => offered_from(bytes@, pos as int) == Some(pairs(list@)),
                None => offered_from(bytes@, pos as int) is None,
            },
    {
        let len: usize = bytes.len();
        let mut list: Vec<OfferedExtension> = Vec::new();
        let mut at: usize = pos;
        loop
            invariant
                pos <= at <= len,
                len == bytes@.len(),
                match offered_from(bytes@, at as int) {
                    Some(rest) => offered_from(bytes@, pos as int) == Some(pairs(list@) + rest),
                    None => offered_from(bytes@, pos as int) is None,
                },
            decreases len - at,
        {
            if at >= len {
                return None;
            }
            if bytes[at] == 101 {
                proof {
                    assert(pairs(list@) + Seq::<(Seq<u8>, u8)>::empty() =~= pairs(list@));
                }
                return Some(list);
            }
            let Some(name) = read_string(bytes, at) else {
                return None;
            };
            let Some(id) = read_integer(bytes, name.end) else {
                return None;
            };
            if id.value > 255 {
                return None;
            }
            let ghost before = pairs(list@);
            let entry = OfferedExtension {
                name: copy_span(bytes, name.start, name.end),
                id: id.value as u8,
            };
            list.push(entry);
            proof {
                let pair = (bytes@.subrange(name.start as int, name.end as int), id.value as u8);
                assert(pairs(list@) =~= before.push(pair));
                match offered_from(bytes@, id.end as int) {
                    Some(rest) => {
                        assert(before + (seq![pair] + rest) =~= pairs(list@) + rest);
                    },
                    None => {},
                }
            }
            at = id.end;
        }
    }

    /// Reads the handshake that a peer sent. `None` if the bytes are no
    /// dictionary or the dictionary does not hold the extensions under `m`.
    /// What else the handshake says is read where it has the form that is
    /// expected, and left out where not.
    pub fn from_bytes(bytes: &[u8]) -> (handshake: Option<HandshakeExtension>)
        ensures
            match handshake {
                Some(handshake) => {
                    &&& offered(bytes@) == Some(pairs(handshake.m@))
                    &&& handshake.other.metadata_size == match dict_number(
                        bytes@,
                        0,
                        metadata_size_key(),
                    ) {
                        Some(size) if size <= usize::MAX => Some(size as usize),
                        _ => None,
                    }
                    &&& handshake.other.p == match dict_number(bytes@, 0, seq![112u8]) {
                        Some(port) if port <= 0xffff => Some(port as u16),
                        _ => None,
                    }
                    &&& handshake.other.reqq == match dict_number(bytes@, 0, reqq_key()) {
                        Some(count) if count <= usize::MAX => Some(count as usize),
                        _ => None,
                    }
                    &&& match handshake.other.v {
                        Some(text) => text_under(bytes@, seq![118u8]) == Some(text@),
                        None => text_under(bytes@, seq![118u8]) is None,
                    }
                    &&& match handshake.other.yourip {
                        Some(YourIp::V4(ip)) => dict_string(bytes@, 0, yourip_key()) == Some(ip@),
                        Some(YourIp::V6(ip)) => dict_string(bytes@, 0, yourip_key()) == Some(ip@),
                        None => dict_string(bytes@, 0, yourip_key()) is None || (dict_string(
                            bytes@,
                            0,
                            yourip_key(),
                        )->0.len() != 4 && dict_string(bytes@, 0, yourip_key())->0.len() != 16),
                    }
                },
                None => offered(bytes@) is None,
            },
    {
        let m_key: [u8; 1] = [109u8];
        assert(m_key@ =~= seq![109u8]);
        let Some(at) = find_key(bytes, 0, m_key.as_slice()) else {
            return None;
        };
        if at >= bytes.len() || bytes[at] != 100 {
            return None;
        }
        let Some(m) = Self::read_offered(bytes, at + 1) else {
            return None;
        };
        let size_key: [u8; 13] = [109u8, 101, 116, 97, 100, 97, 116, 97, 95, 115, 105, 122, 101];
        assert(size_key@ =~= metadata_size_key());
        let metadata_size: Option<usize> = match get_number(bytes, 0, size_key.as_slice()) {
            Some(size) => {
                if size <= usize::MAX as u64 {
                    Some(size as usize)
                } else {
                    None
                }
            },
            None => None,
        };
        let p_key: [u8; 1] = [112u8];
        assert(p_key@ =~= seq![112u8]);
        let p: Option<u16> = match get_number(bytes, 0, p_key.as_slice()) {
            Some(port) => {
                if port <= 0xffff {
                    Some(port as u16)
                } else {
                    None
                }
            },
            None => None,
        };
        let reqq_k: [u8; 4] = [114u8, 101, 113, 113];
        assert(reqq_k@ =~= reqq_key());
        let reqq: Option<usize> = match get_number(bytes, 0, reqq_k.as_slice()) {
            Some(count) => {
                if count <= usize::MAX as u64 {
                    Some(count as usize)
                } else {
                    None
                }
            },
            None => None,
        };
        let v_key: [u8; 1] = [118u8];
        assert(v_key@ =~= seq![118u8]);
        let v: Option<String> = match get_string(bytes, 0, v_key.as_slice()) {
            Some(span) => utf8_text(slice_subrange(bytes, span.start, span.end)),
            None => None,
        };
        let ip_key: [u8; 6] = [121u8, 111, 117, 114, 105, 112];
        assert(ip_key@ =~= yourip_key());
        let yourip: Option<YourIp> = match get_string(bytes, 0, ip_key.as_slice()) {
            Some(span) => {
                if span.end - span.start == 4 {
                    let mut ip = [0u8;4];
                    let mut i: usize = 0;
                    while i < 4
                        invariant
                            i <= 4,
                            span.start + 4 == span.end,
                            span.end <= bytes@.len(),
                            forall|k: int| 0 <= k < i ==> ip@[k] == bytes@[span.start + k],
                        decreases 4 - i,
                    {
                        ip[i] = bytes[span.start + i];
                        i = i + 1;
                    }
                    assert(ip@ =~= bytes@.subrange(span.start as int, span.end as int));
                    Some(YourIp::V4(ip))
                } else if span.end - span.start == 16 {
                    let mut ip = [0u8;16];
                    let mut i: usize = 0;
                    while i < 16
                        invariant
                            i <= 16,
                            span.start + 16 == span.end,
                            span.end <= bytes@.len(),
                            forall|k: int| 0 <= k < i ==> ip@[k] == bytes@[span.start + k],
                        decreases 16 - i,
                    {
                        ip[i] = bytes[span.start + i];
                        i = i + 1;
                    }
                    assert(ip@ =~= bytes@.subrange(span.start as int, span.end as int));
                    Some(YourIp::V6(ip))
                } else {
                    None
                }
            },
            None => None,
        };
        Some(
            HandshakeExtension {
                m,
                other: AdditionalHandshakeInfo { metadata_size, p, v, yourip, reqq },
            },
        )
    }
}

/// The bytes of `reqq`.
pub open spec fn reqq_key() -> Seq<u8> {
    seq![114u8, 101, 113, 113]
}

/// The bytes of `yourip`.
pub open spec fn yourip_key() -> Seq<u8> {
    seq![121u8, 111, 117, 114, 105, 112]
}

/// The text that stands under `key` in the dictionary `bytes`, if there is a
/// string that is valid UTF-8.
pub open spec fn text_under(bytes: Seq<u8>, key: Seq<u8>) -> Option<Seq<char>> {
    match dict_string(bytes, 0, key) {
        Some(found) => {
            if vstd::utf8::valid_utf8(found) {
                Some(vstd::utf8::decode_utf8(found))
            } else {
                None
            }
        },
        None => None,
    }
}

/// The bytes of `metadata_size`.
pub open spec fn metadata_size_key() -> Seq<u8> {
    seq![109u8, 101, 116, 97, 100, 97, 116, 97, 95, 115, 105, 122, 101]
}

} // verus!
