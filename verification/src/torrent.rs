//! What a torrent is: its identity, its piece hashes and the sizes of its pieces
//! and blocks.

use crate::bencode::{dict_number, dict_string, get_number, get_string};
use crate::digest::{hex_bytes, hex_decode, hex_encode, hex_text, is_hex_text, sha1_digest, sha1_of};
use crate::text::utf8_text;
use crate::BLOCK_MAX;
use vstd::prelude::*;
use vstd::slice::slice_subrange;
use vstd::string::*;

verus! {

/// The 20-byte identity of a torrent.
#[derive(Debug, Clone, Copy, PartialEq)]
pub struct InfoHash(pub [u8; 20]);

/// Why a text is not the `xt` value of a magnet link.
#[derive(Debug, Clone, Copy, PartialEq, Eq)]
pub enum InfoHashError {
    /// The text does not start with `urn:btih:`.
    InvalidPrefix,
    /// What follows the prefix is not hexadecimal text of whole bytes.
    InvalidHex,
    /// The hexadecimal text does not stand for exactly 20 bytes.
    InvalidLength,
    /// There is no text at all.
    Missing,
}

/// Whether two 20-byte identifiers hold the same bytes.
pub fn same_id(a: &[u8; 20], b: &[u8; 20]) -> (same: bool)
    ensures
        same == (a@ == b@),
{
    let mut i: usize = 0;
    while i < 20
        invariant
            i <= 20,
            forall|k: int| 0 <= k < i ==> a@[k] == b@[k],
        decreases 20 - i,
    {
        if a[i] != b[i] {
            return false;
        }
        i = i + 1;
    }
    assert(a@ =~= b@);
    true
}

/// Whether `text` begins with `prefix`.
pub open spec fn starts_with(text: Seq<char>, prefix: Seq<char>) -> bool {
    text.len() >= prefix.len() && text.subrange(0, prefix.len() as int) == prefix
}

/// Tests whether `text` begins with `prefix`, character by character.
pub fn has_prefix(text: &str, prefix: &str) -> (found: bool)
    ensures
        found == starts_with(text@, prefix@),
{
    let n: usize = prefix.unicode_len();
    if text.unicode_len() < n {
        return false;
    }
    let mut i: usize = 0;
    while i < n
        invariant
            i <= n,
            n == prefix@.len(),
            n <= text@.len(),
            forall|k: int| 0 <= k < i ==> text@[k] == prefix@[k],
        decreases n - i,
    {
        if text.get_char(i) != prefix.get_char(i) {
            assert(text@.subrange(0, n as int)[i as int] != prefix@[i as int]);
            return false;
        }
        i = i + 1;
    }
    assert(text@.subrange(0, n as int) =~= prefix@);
    true
}

/// The first 20 bytes of `bytes` as an array.
pub fn to_id(bytes: &[u8]) -> (id: [u8; 20])
    requires
        bytes@.len() >= 20,
    ensures
        id@ == bytes@.subrange(0, 20),
{
    let mut id: [u8; 20] = [0u8; 20];
    let mut i: usize = 0;
    while i < 20
        invariant
            i <= 20,
            bytes@.len() >= 20,
            forall|k: int| 0 <= k < i ==> id@[k] == bytes@[k],
        decreases 20 - i,
    {
        id[i] = bytes[i];
        i = i + 1;
    }
    assert(id@ =~= bytes@.subrange(0, 20));
    id
}

impl InfoHash {
    /// What `from_str` returns for `text`.
    pub open spec fn spec_from_str(text: Seq<char>) -> Result<Seq<u8>, InfoHashError> {
        let digits = text.subrange(9, text.len() as int);
        if !starts_with(text, "urn:btih:"@) {
            Err(InfoHashError::InvalidPrefix)
        } else if !is_hex_text(digits) {
            Err(InfoHashError::InvalidHex)
        } else if digits.len() != 40 {
            Err(InfoHashError::InvalidLength)
        } else {
            Ok(hex_bytes(digits))
        }
    }

    /// Reads the `xt` value of a magnet link: `urn:btih:` and 40 hexadecimal
    /// digits of either case.
    pub fn from_str(text: &str) -> (parsed: Result<InfoHash, InfoHashError>)
        ensures
            match parsed {
                Ok(hash) => Self::spec_from_str(text@) == Ok::<Seq<u8>, InfoHashError>(hash.0@),
                Err(e) => Self::spec_from_str(text@) == Err::<Seq<u8>, InfoHashError>(e),
            },
    {
        proof {
            reveal_strlit("urn:btih:");
        }
        if !has_prefix(text, "urn:btih:") {
            return Err(InfoHashError::InvalidPrefix);
        }
        let len: usize = text.unicode_len();
        let digits = text.substring_char(9, len);
        match hex_decode(digits) {
            None => Err(InfoHashError::InvalidHex),
            Some(bytes) => {
                if bytes.len() != 20 {
                    Err(InfoHashError::InvalidLength)
                } else {
                    let id = to_id(bytes.as_slice());
                    assert(id@ =~= bytes@);
                    Ok(InfoHash(id))
                }
            },
        }
    }

    /// The hexadecimal text under which a torrent's progress is stored.
    pub fn to_hex(&self) -> (text: String)
        ensures
            text@ == hex_text(self.0@),
    {
        hex_encode(self.0.as_slice())
    }

    /// The identity of the torrent whose bencoded `info` dictionary is `info`.
    pub fn of_info(info: &[u8]) -> (hash: InfoHash)
        ensures
            hash.0@ == sha1_digest(info@),
    {
        InfoHash(sha1_of(info))
    }
}

/// The SHA-1 hashes of a torrent's pieces, in piece order.
#[derive(Debug)]
pub struct Hashes(pub Vec<[u8; 20]>);

impl View for Hashes {
    type V = Seq<Seq<u8>>;

    open spec fn view(&self) -> Seq<Seq<u8>> {
        Seq::new(self.0@.len(), |i: int| self.0@[i]@)
    }
}

/// The hashes of 20 bytes each that `bytes` holds end to end.
pub open spec fn hashes_of(bytes: Seq<u8>) -> Seq<Seq<u8>> {
    Seq::new(bytes.len() / 20, |i: int| bytes.subrange(20 * i, 20 * i + 20))
}

impl Hashes {
    /// Splits the `pieces` string of a torrent into hashes of 20 bytes each.
    /// `None` when its length is no multiple of 20.
    pub fn from_bytes(bytes: &[u8]) -> (hashes: Option<Hashes>)
        ensures
            hashes is Some <==> bytes@.len() % 20 == 0,
            hashes is Some ==> hashes->0@ == hashes_of(bytes@),
    {
        if bytes.len() % 20 != 0 {
            return None;
        }
        let total: usize = bytes.len();
        let count: usize = total / 20;
        let mut list: Vec<[u8; 20]> = Vec::new();
        let mut i: usize = 0;
        while i < count
            invariant
                i <= count,
                total == bytes@.len(),
                count == total / 20,
                total % 20 == 0,
                list@.len() == i,
                forall|k: int|
                    0 <= k < i ==> (#[trigger] list@[k])@ == bytes@.subrange(20 * k, 20 * k + 20),
            decreases count - i,
        {
            assert(20 * (i + 1) <= total);
            let chunk = slice_subrange(bytes, 20 * i, 20 * i + 20);
            let id = to_id(chunk);
            assert(id@ =~= bytes@.subrange(20 * i, 20 * i + 20));
            list.push(id);
            i = i + 1;
        }
        let hashes = Hashes(list);
        assert(hashes@ =~= hashes_of(bytes@));
        Some(hashes)
    }

    /// The hashes laid end to end, as a torrent file holds them.
    pub fn to_bytes(&self) -> (bytes: Vec<u8>)
        ensures
            bytes@.len() == 20 * self@.len(),
            forall|i: int|
                0 <= i < self@.len() ==> bytes@.subrange(20 * i, 20 * i + 20) == #[trigger] self@[i],
    {
        let mut bytes: Vec<u8> = Vec::new();
        let mut i: usize = 0;
        while i < self.0.len()
            invariant
                i <= self.0@.len(),
                bytes@.len() == 20 * i,
                forall|k: int|
                    0 <= k < i ==> bytes@.subrange(20 * k, 20 * k + 20) == (#[trigger] self.0@[k])@,
            decreases self.0@.len() - i,
        {
            let ghost before = bytes@;
            bytes.extend_from_slice(self.0[i].as_slice());
            proof {
                assert(bytes@.subrange(20 * i, 20 * i + 20) =~= self.0@[i as int]@);
                assert forall|k: int| 0 <= k < i implies bytes@.subrange(20 * k, 20 * k + 20) == (
                #[trigger] self.0@[k])@ by {
                    assert(bytes@.subrange(20 * k, 20 * k + 20) =~= before.subrange(
                        20 * k,
                        20 * k + 20,
                    ));
                }
            }
            i = i + 1;
        }
        bytes
    }

    /// Number of pieces.
    pub fn len(&self) -> (n: usize)
        ensures
            n == self@.len(),
    {
        self.0.len()
    }
}

/// The optional keys of an `info` dictionary that tell a single file from a
/// directory of files.
#[derive(Debug)]
pub enum Key {
    /// One file, whose length the `info` dictionary gives.
    SingleFile { md5sum: Option<String> },
    /// Several files, treated as one by laying them end to end.
    MultiFile { files: Vec<File>, md5sum: Option<String> },
}

/// One file of a multi-file torrent.
#[derive(Debug)]
pub struct File {
    /// The length of the file, in bytes.
    pub length: u32,
    /// The directories that lead to the file, and its name last.
    pub path: Vec<String>,
}

/// The `info` dictionary of a single-file torrent.
#[derive(Debug)]
pub struct Metainfo {
    /// The name of the file.
    pub name: String,
    /// The number of bytes in each piece but the last.
    pub piece_length: u32,
    /// The SHA-1 hash of each piece.
    pub pieces: Hashes,
    /// The number of bytes in the file.
    pub length: u32,
    /// The optional keys.
    pub files: Key,
}

/// A torrent: where its tracker is, and its `info` dictionary.
#[derive(Debug)]
pub struct Torrent {
    /// The announce URL of the tracker.
    pub announce: String,
    /// The `info` dictionary.
    pub info: Metainfo,
}

/// What an `info` dictionary says.
pub ghost struct MetainfoView {
    pub name: Seq<char>,
    pub piece_length: u32,
    pub length: u32,
    pub pieces: Seq<Seq<u8>>,
}

impl View for Metainfo {
    type V = MetainfoView;

    open spec fn view(&self) -> MetainfoView {
        MetainfoView {
            name: self.name@,
            piece_length: self.piece_length,
            length: self.length,
            pieces: self.pieces@,
        }
    }
}

impl MetainfoView {
    /// Number of pieces.
    pub open spec fn piece_count(self) -> nat {
        self.pieces.len()
    }

    /// What holds of the `info` dictionary of a single-file torrent.
    pub open spec fn wf(self) -> bool {
        &&& self.piece_length > 0
        &&& self.pieces.len() >= 1
        &&& (self.pieces.len() - 1) * self.piece_length < self.length
        &&& self.length <= self.pieces.len() * self.piece_length
    }

    /// The size of piece `index`.
    pub open spec fn piece_size(self, index: nat) -> int {
        spec_piece_size(self.piece_length as nat, self.length as nat, self.piece_count(), index)
    }
}

/// The bytes of piece `index` in a file of `length` bytes cut into `count` pieces
/// of `piece_length` bytes: every piece is full but the last, which holds the rest.
pub open spec fn spec_piece_size(piece_length: nat, length: nat, count: nat, index: nat) -> int {
    if index + 1 == count {
        length - (count - 1) * piece_length
    } else {
        piece_length as int
    }
}

/// Number of blocks that a piece of `piece_size` bytes is split into.
pub open spec fn spec_block_count(piece_size: nat) -> nat {
    (piece_size + 16383) / 16384
}

/// The bytes of block `block` of a piece of `piece_size` bytes: 16384 for every
/// block but the last, which holds the rest.
pub open spec fn spec_block_len(piece_size: nat, block: nat) -> int {
    if block + 1 == spec_block_count(piece_size) {
        piece_size - 16384 * (spec_block_count(piece_size) - 1)
    } else {
        16384
    }
}

/// Why a torrent cannot be read.
#[derive(Debug, Clone, Copy, PartialEq, Eq)]
pub enum TorrentError {
    /// The bytes are no bencode of an `info` dictionary of a single file.
    InvalidBencode,
}

/// The bytes of `name`.
pub open spec fn name_key() -> Seq<u8> {
    seq![110u8, 97, 109, 101]
}

/// The bytes of `piece length`.
pub open spec fn piece_length_key() -> Seq<u8> {
    seq![112u8, 105, 101, 99, 101, 32, 108, 101, 110, 103, 116, 104]
}

/// The bytes of `pieces`.
pub open spec fn pieces_key() -> Seq<u8> {
    seq![112u8, 105, 101, 99, 101, 115]
}

/// The bytes of `length`.
pub open spec fn length_key() -> Seq<u8> {
    seq![108u8, 101, 110, 103, 116, 104]
}

/// The bytes of `md5sum`.
pub open spec fn md5sum_key() -> Seq<u8> {
    seq![109u8, 100, 53, 115, 117, 109]
}

impl Metainfo {
    /// Whether `info` is the bencode of an `info` dictionary of a single
    /// file, as far as this client reads it: a dictionary with the text
    /// `name`, the numbers `piece length` and `length`, both below 2^32,
    /// and the string `pieces` of a multiple of 20 bytes.
    pub open spec fn readable(info: Seq<u8>) -> bool {
        &&& dict_string(info, 0, name_key()) is Some
        &&& vstd::utf8::valid_utf8(dict_string(info, 0, name_key())->0)
        &&& dict_number(info, 0, piece_length_key()) is Some
        &&& dict_number(info, 0, piece_length_key())->0 <= u32::MAX
        &&& dict_number(info, 0, length_key()) is Some
        &&& dict_number(info, 0, length_key())->0 <= u32::MAX
        &&& dict_string(info, 0, pieces_key()) is Some
        &&& dict_string(info, 0, pieces_key())->0.len() % 20 == 0
    }

    /// The text under `md5sum` in an `info` dictionary, if there is one.
    pub open spec fn md5sum_of(info: Seq<u8>) -> Option<Seq<char>> {
        match dict_string(info, 0, md5sum_key()) {
            Some(bytes) => {
                if vstd::utf8::valid_utf8(bytes) {
                    Some(vstd::utf8::decode_utf8(bytes))
                } else {
                    None
                }
            },
            None => None,
        }
    }

    /// Reads the bencode of an `info` dictionary. Keys that this client does
    /// not know are passed over.
    pub fn from_bencode(info: &[u8]) -> (read: Result<Metainfo, TorrentError>)
        ensures
            read is Ok <==> Self::readable(info@),
            read is Err ==> read == Err::<Metainfo, TorrentError>(TorrentError::InvalidBencode),
            read is Ok ==> {
                let metainfo = read->Ok_0;
                let hashes = dict_string(info@, 0, pieces_key())->0;
                &&& metainfo.name@ == vstd::utf8::decode_utf8(dict_string(info@, 0, name_key())->0)
                &&& metainfo.piece_length == dict_number(info@, 0, piece_length_key())->0
                &&& metainfo.length == dict_number(info@, 0, length_key())->0
                &&& metainfo.pieces@ == hashes_of(hashes)
                &&& metainfo.files matches Key::SingleFile { md5sum }
                &&& match md5sum {
                    Some(text) => Self::md5sum_of(info@) == Some(text@),
                    None => Self::md5sum_of(info@) is None,
                }
            },
    {
        let name_k: [u8; 4] = [110u8, 97, 109, 101];
        assert(name_k@ =~= name_key());
        let piece_length_k: [u8; 12] = [112u8, 105, 101, 99, 101, 32, 108, 101, 110, 103, 116, 104];
        assert(piece_length_k@ =~= piece_length_key());
        let pieces_k: [u8; 6] = [112u8, 105, 101, 99, 101, 115];
        assert(pieces_k@ =~= pieces_key());
        let length_k: [u8; 6] = [108u8, 101, 110, 103, 116, 104];
        assert(length_k@ =~= length_key());
        let md5sum_k: [u8; 6] = [109u8, 100, 53, 115, 117, 109];
        assert(md5sum_k@ =~= md5sum_key());
        let Some(name_span) = get_string(info, 0, name_k.as_slice()) else {
            return Err(TorrentError::InvalidBencode);
        };
        let Some(name) = utf8_text(slice_subrange(info, name_span.start, name_span.end)) else {
            return Err(TorrentError::InvalidBencode);
        };
        let Some(piece_length) = get_number(info, 0, piece_length_k.as_slice()) else {
            return Err(TorrentError::InvalidBencode);
        };
        if piece_length > u32::MAX as u64 {
            return Err(TorrentError::InvalidBencode);
        }
        let Some(length) = get_number(info, 0, length_k.as_slice()) else {
            return Err(TorrentError::InvalidBencode);
        };
        if length > u32::MAX as u64 {
            return Err(TorrentError::InvalidBencode);
        }
        let Some(pieces_span) = get_string(info, 0, pieces_k.as_slice()) else {
            return Err(TorrentError::InvalidBencode);
        };
        let Some(pieces) = Hashes::from_bytes(
            slice_subrange(info, pieces_span.start, pieces_span.end),
        ) else {
            return Err(TorrentError::InvalidBencode);
        };
        let md5sum: Option<String> = match get_string(info, 0, md5sum_k.as_slice()) {
            Some(span) => utf8_text(slice_subrange(info, span.start, span.end)),
            None => None,
        };
        Ok(
            Metainfo {
                name,
                piece_length: piece_length as u32,
                pieces,
                length: length as u32,
                files: Key::SingleFile { md5sum },
            },
        )
    }

    /// What holds of the `info` dictionary of a single-file torrent: it has a
    /// piece, pieces have a size, and the last piece is neither empty nor
    /// longer than the others.
    pub open spec fn wf(&self) -> bool {
        &&& self.piece_length > 0
        &&& self.pieces@.len() >= 1
        &&& (self.pieces@.len() - 1) * self.piece_length < self.length
        &&& self.length <= self.pieces@.len() * self.piece_length
    }

    /// Number of pieces, as a specification value.
    pub open spec fn piece_count(&self) -> nat {
        self.pieces@.len()
    }

    /// The size of piece `index`, as a specification value.
    pub open spec fn piece_size(&self, index: nat) -> int {
        spec_piece_size(self.piece_length as nat, self.length as nat, self.piece_count(), index)
    }

    /// Tests what `wf` states.
    pub fn is_valid(&self) -> (valid: bool)
        ensures
            valid == self.wf(),
    {
        let count: usize = self.pieces.len();
        if self.piece_length == 0 || count == 0 {
            return false;
        }
        let full: usize = count - 1;
        if full >= self.length as usize {
            assert(full * self.piece_length >= self.length) by (nonlinear_arith)
                requires
                    full >= self.length,
                    self.piece_length >= 1,
            ;
            return false;
        }
        assert(full * self.piece_length <= 0xffff_ffff * 0xffff_ffff) by (nonlinear_arith)
            requires
                full <= 0xffff_ffff,
                self.piece_length <= 0xffff_ffff,
        ;
        let before: u64 = full as u64 * self.piece_length as u64;
        let length: u64 = self.length as u64;
        assert(count * self.piece_length == before + self.piece_length) by (nonlinear_arith)
            requires
                count == full + 1,
                before == full * self.piece_length,
        ;
        before < length && length - before <= self.piece_length as u64
    }

    /// The number of bytes in the file.
    pub fn get_length(&self) -> (length: u32)
        ensures
            length == self.length,
    {
        self.length
    }

    /// Number of pieces.
    pub fn n_pieces(&self) -> (count: u32)
        requires
            self.wf(),
        ensures
            count == self.piece_count(),
    {
        assert(self.pieces@.len() - 1 < self.length) by (nonlinear_arith)
            requires
                (self.pieces@.len() - 1) * self.piece_length < self.length,
                self.piece_length >= 1,
                self.pieces@.len() >= 1,
        ;
        self.pieces.len() as u32
    }

    /// Where piece `index` begins in the file.
    pub fn piece_offset(&self, index: u32) -> (offset: u64)
        ensures
            offset == index * self.piece_length,
    {
        assert(index * self.piece_length <= 0xffff_ffff * 0xffff_ffff) by (nonlinear_arith)
            requires
                index <= 0xffff_ffff,
                self.piece_length <= 0xffff_ffff,
        ;
        index as u64 * self.piece_length as u64
    }
}

/// The size of piece `piece_i` of the torrent that `torrent_info` describes.
pub fn get_piece_size(torrent_info: &Metainfo, piece_i: u32) -> (size: u32)
    requires
        torrent_info.wf(),
        piece_i < torrent_info.piece_count(),
    ensures
        size == torrent_info.piece_size(piece_i as nat),
        0 < size <= torrent_info.piece_length,
{
    let count: u32 = torrent_info.n_pieces();
    if piece_i == count - 1 {
        let before: u64 = torrent_info.piece_offset(piece_i);
        assert(count * torrent_info.piece_length == before + torrent_info.piece_length)
            by (nonlinear_arith)
            requires
                count == piece_i + 1,
                before == piece_i * torrent_info.piece_length,
        ;
        (torrent_info.length as u64 - before) as u32
    } else {
        torrent_info.piece_length
    }
}

/// Number of blocks that a piece of `piece_size` bytes is split into.
pub fn block_count(piece_size: u32) -> (count: u32)
    ensures
        count == spec_block_count(piece_size as nat),
{
    let full: u32 = piece_size / BLOCK_MAX;
    if piece_size % BLOCK_MAX == 0 {
        full
    } else {
        full + 1
    }
}

/// The length of block `block_i` in a piece of `piece_size` bytes that is split
/// into `n_blocks` blocks.
pub fn get_block_len(n_blocks: u32, piece_size: u32, block_i: u32) -> (len: u32)
    requires
        n_blocks >= 1,
    ensures
        len == if block_i == n_blocks - 1 && piece_size % 16384 != 0 {
            piece_size % 16384
        } else {
            16384
        },
        1 <= len <= 16384,
        piece_size > 0 && n_blocks == spec_block_count(piece_size as nat) ==> len
            == spec_block_len(piece_size as nat, block_i as nat),
{
    if block_i == n_blocks - 1 && piece_size % BLOCK_MAX != 0 {
        piece_size % BLOCK_MAX
    } else {
        BLOCK_MAX
    }
}

/// Every piece of a well-formed torrent holds at least one byte and at most
/// `piece_length` bytes.
pub proof fn lemma_piece_size_bounds(piece_length: nat, length: nat, count: nat, index: nat)
    requires
        piece_length > 0,
        count >= 1,
        (count - 1) * piece_length < length,
        length <= count * piece_length,
        index < count,
    ensures
        0 < spec_piece_size(piece_length, length, count, index) <= piece_length,
{
    assert(count * piece_length == (count - 1) * piece_length + piece_length)
        by (nonlinear_arith);
}

/// The blocks of a piece cover it exactly: block `block` begins at byte
/// `16384 * block`, holds at least one byte, and the last block ends where the
/// piece ends.
pub proof fn lemma_blocks_cover_piece(piece_size: nat, block: nat)
    requires
        piece_size > 0,
        block < spec_block_count(piece_size),
    ensures
        1 <= spec_block_len(piece_size, block) <= 16384,
        16384 * block + spec_block_len(piece_size, block) <= piece_size,
        block + 1 == spec_block_count(piece_size) ==> 16384 * block + spec_block_len(
            piece_size,
            block,
        ) == piece_size,
{
}

/// A file of `piece_length * (count - 1) + rest` bytes, with `0 < rest <=
/// piece_length`, ends in a piece of exactly `rest` bytes. That piece has the
/// least number of blocks of 16384 bytes that hold `rest` bytes, and its last
/// block holds what the blocks before it leave of `rest`.
pub proof fn lemma_last_piece(piece_length: nat, count: nat, rest: nat)
    requires
        count >= 1,
        0 < rest <= piece_length,
    ensures
        ({
            let length = piece_length * ((count - 1) as nat) + rest;
            let blocks = spec_block_count(rest);
            &&& spec_piece_size(piece_length, length, count, (count - 1) as nat) == rest
            &&& 16384 * (blocks - 1) < rest <= 16384 * blocks
            &&& spec_block_len(rest, (blocks - 1) as nat) == rest - 16384 * (blocks - 1)
        }),
{
    assert(piece_length * ((count - 1) as nat) == (count - 1) * piece_length) by (nonlinear_arith)
        requires
            count >= 1,
    ;
}

} // verus!
