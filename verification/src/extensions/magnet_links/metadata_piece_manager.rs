//! Collects the `info` dictionary of a torrent that is known by its hash
//! alone, block by block.

use crate::digest::{sha1_digest, sha1_of};
use crate::extensions::magnet_links::metadata_msg::{MetadataMsg, MetadataMsgType};
use crate::peer_manager::BlockState;
use crate::torrent::{same_id, InfoHash, Metainfo, TorrentError};
use vstd::prelude::*;

verus! {

/// The `info` dictionary is sent in blocks of 16 KiB.
pub const METADATA_BLOCK_SIZE: usize = 16384;

/// The blocks of an `info` dictionary as far as they have arrived.
#[derive(Debug)]
pub struct MetadataPieceManager {
    /// How far each block has come. Empty until the length is known.
    queue: Vec<BlockState>,
    /// The bytes, zero where nothing has arrived.
    bytes: Vec<u8>,
    /// The hash that the bytes must have.
    info_hash: InfoHash,
}

/// The blocks of an `info` dictionary as far as they have arrived.
pub ghost struct MetadataView {
    pub queue: Seq<BlockState>,
    pub bytes: Seq<u8>,
    pub info_hash: Seq<u8>,
}

impl View for MetadataPieceManager {
    type V = MetadataView;

    closed spec fn view(&self) -> MetadataView {
        MetadataView { queue: self.queue@, bytes: self.bytes@, info_hash: self.info_hash.0@ }
    }
}

/// Number of blocks of 16 KiB that hold `length` bytes.
pub open spec fn block_total(length: nat) -> nat {
    (length + 16383) / 16384
}

impl MetadataView {
    /// What holds at all times: there is a state for each block of the
    /// bytes, and the index of each block fits into a message.
    pub open spec fn wf(self) -> bool {
        self.queue.len() == block_total(self.bytes.len()) && self.queue.len() <= u32::MAX
    }

    /// Whether every block has arrived.
    pub open spec fn complete(self) -> bool {
        forall|k: int| 0 <= k < self.queue.len() ==> self.queue[k] is Finished
    }

    /// The state once the length of the `info` dictionary is known: there
    /// are that many zero bytes and a block for every 16 KiB of them. A
    /// length that comes when the blocks are set up changes nothing, nor
    /// does a length of more blocks than a message can number.
    pub open spec fn set_len(self, length: nat) -> MetadataView {
        if self.queue.len() > 0 || block_total(length) > u32::MAX {
            self
        } else {
            MetadataView {
                queue: Seq::new(block_total(length), |k: int| BlockState::Missing),
                bytes: Seq::new(length, |i: int| 0u8),
                ..self
            }
        }
    }

    /// Whether `data` can be block `index`: there is such a block, and the
    /// bytes lie within the `info` dictionary.
    pub open spec fn holds(self, index: nat, data: Seq<u8>) -> bool {
        index < self.queue.len() && index * 16384 + data.len() <= self.bytes.len()
    }

    /// The state once `data` has arrived as block `index`. A block that
    /// cannot be is dropped.
    pub open spec fn add_block(self, index: nat, data: Seq<u8>) -> MetadataView {
        if !self.holds(index, data) {
            self
        } else {
            MetadataView {
                queue: self.queue.update(index as int, BlockState::Finished),
                bytes: Seq::new(
                    self.bytes.len(),
                    |i: int|
                        if index * 16384 <= i < index * 16384 + data.len() {
                            data[i - index * 16384]
                        } else {
                            self.bytes[i]
                        },
                ),
                ..self
            }
        }
    }

    /// Whether `block` is the first block that nobody has been asked for.
    pub open spec fn next_is(self, block: int) -> bool {
        &&& 0 <= block < self.queue.len()
        &&& self.queue[block] is Missing
        &&& forall|k: int| 0 <= k < block ==> !(self.queue[k] is Missing)
    }

    /// Whether every block has been asked for or has arrived.
    pub open spec fn all_asked(self) -> bool {
        forall|k: int| 0 <= k < self.queue.len() ==> !(self.queue[k] is Missing)
    }

    /// The state once every block has arrived and the SHA-1 hash of the bytes
    /// is `digest`: unchanged if that is the hash of the torrent, else with
    /// every block to be asked for again. Nothing happens while a block is
    /// missing.
    pub open spec fn check(self, digest: Seq<u8>) -> MetadataView {
        if self.complete() && digest != self.info_hash {
            MetadataView {
                queue: Seq::new(self.queue.len(), |k: int| BlockState::Missing),
                ..self
            }
        } else {
            self
        }
    }

    /// Whether the `info` dictionary has arrived in full and has the hash
    /// `digest`, which is the hash of the torrent.
    pub open spec fn checked(self, digest: Seq<u8>) -> bool {
        self.complete() && digest == self.info_hash
    }
}

impl MetadataPieceManager {
    /// What holds at all times.
    pub open spec fn wf(&self) -> bool {
        self@.wf()
    }

    /// Nothing is known of the `info` dictionary but its hash.
    pub fn new(info_hash: InfoHash) -> (manager: Self)
        ensures
            manager.wf(),
            manager@ == (MetadataView {
                queue: Seq::empty(),
                bytes: Seq::empty(),
                info_hash: info_hash.0@,
            }),
    {
        Self { queue: Vec::new(), bytes: Vec::new(), info_hash }
    }

    /// The hash of the torrent.
    pub fn info_hash(&self) -> (info_hash: InfoHash)
        ensures
            info_hash.0@ == self@.info_hash,
    {
        self.info_hash
    }

    /// How far each block has come.
    pub fn queue(&self) -> (queue: &Vec<BlockState>)
        ensures
            queue@ == self@.queue,
    {
        &self.queue
    }

    /// The bytes as far as they have arrived.
    pub fn bytes(&self) -> (bytes: &Vec<u8>)
        ensures
            bytes@ == self@.bytes,
    {
        &self.bytes
    }

    /// Sets up the blocks once the length of the `info` dictionary is known.
    pub fn set_len(&mut self, length: usize)
        requires
            old(self).wf(),
        ensures
            final(self).wf(),
            final(self)@ == old(self)@.set_len(length as nat),
    {
        if self.queue.len() != 0 {
            return ;
        }
        let n_blocks: usize = if length % METADATA_BLOCK_SIZE == 0 {
            length / METADATA_BLOCK_SIZE
        } else {
            length / METADATA_BLOCK_SIZE + 1
        };
        if n_blocks > u32::MAX as usize {
            return ;
        }
        self.queue = vec![BlockState::Missing; n_blocks];
        self.bytes = vec![0u8; length];
        proof {
            let goal = old(self)@.set_len(length as nat);
            assert(self@.queue =~= goal.queue);
            assert(self@.bytes =~= goal.bytes);
        }
    }

    /// Takes block `index` of the `info` dictionary. `false`, and nothing
    /// changes, for a block that cannot be.
    pub fn add_block(&mut self, index: u32, data: &[u8]) -> (stored: bool)
        requires
            old(self).wf(),
        ensures
            final(self).wf(),
            stored == old(self)@.holds(index as nat, data@),
            final(self)@ == old(self)@.add_block(index as nat, data@),
    {
        let len: usize = data.len();
        let total: usize = self.bytes.len();
        let index: usize = index as usize;
        if index >= self.queue.len() {
            return false;
        }
        assert(index * 16384 < total) by {
            assert(self.queue@.len() == block_total(total as nat));
        }
        let begin: usize = index * METADATA_BLOCK_SIZE;
        if len > total - begin {
            return false;
        }
        let mut i: usize = 0;
        while i < len
            invariant
                i <= len,
                len == data@.len(),
                begin + len <= total,
                total == self.bytes@.len(),
                self.queue == old(self).queue,
                self.info_hash == old(self).info_hash,
                forall|j: int|
                    0 <= j < total ==> self.bytes@[j] == if begin <= j < begin + i {
                        data@[j - begin]
                    } else {
                        old(self).bytes@[j]
                    },
            decreases len - i,
        {
            self.bytes.set(begin + i, data[i]);
            i = i + 1;
        }
        self.queue.set(index, BlockState::Finished);
        proof {
            let goal = old(self)@.add_block(index as nat, data@);
            assert(self@.bytes =~= goal.bytes);
            assert(self@.queue =~= goal.queue);
        }
        true
    }

    /// Chooses the block to ask a peer for, the first that nobody has been
    /// asked for, and returns the message that asks for it. `None` when
    /// every block has been asked for.
    pub fn get_block_req_data(&mut self) -> (request: Option<Vec<u8>>)
        requires
            old(self).wf(),
        ensures
            final(self).wf(),
            final(self)@.bytes == old(self)@.bytes,
            final(self)@.info_hash == old(self)@.info_hash,
            match request {
                None => old(self)@.all_asked() && final(self)@ == old(self)@,
                Some(bytes) => exists|block: int|
                    {
                        &&& #[trigger] old(self)@.next_is(block)
                        &&& final(self)@.queue == old(self)@.queue.update(
                            block,
                            BlockState::InProcess,
                        )
                        &&& bytes@ == (MetadataMsg {
                            msg_type: MetadataMsgType::Request,
                            piece_index: block as u32,
                            total_size: None,
                        }).spec_to_bytes()
                    },
            },
    {
        let mut k: usize = 0;
        while k < self.queue.len()
            invariant
                k <= self.queue@.len(),
                self == old(self),
                self.wf(),
                forall|j: int| 0 <= j < k ==> !(self.queue@[j] is Missing),
            decreases self.queue@.len() - k,
        {
            if self.queue[k].is_none() {
                self.queue.set(k, BlockState::InProcess);
                let msg = MetadataMsg {
                    msg_type: MetadataMsgType::Request,
                    piece_index: k as u32,
                    total_size: None,
                };
                proof {
                    assert(old(self)@.next_is(k as int));
                }
                return Some(msg.to_bytes());
            }
            k = k + 1;
        }
        None
    }

    /// Settles the `info` dictionary by the SHA-1 hash `digest` of its
    /// bytes. `true` if every block has arrived and `digest` is the hash of
    /// the torrent. If every block has arrived and the hash is another,
    /// every block is to be asked for again.
    pub fn check_digest(&mut self, digest: &[u8; 20]) -> (finished: bool)
        requires
            old(self).wf(),
        ensures
            final(self).wf(),
            finished == old(self)@.checked(digest@),
            final(self)@ == old(self)@.check(digest@),
    {
        let count: usize = self.queue.len();
        let mut k: usize = 0;
        while k < count
            invariant
                k <= count,
                count == self.queue@.len(),
                self == old(self),
                self.wf(),
                forall|j: int| 0 <= j < k ==> self.queue@[j] is Finished,
            decreases count - k,
        {
            if !self.queue[k].is_finished() {
                return false;
            }
            k = k + 1;
        }
        if same_id(digest, &self.info_hash.0) {
            return true;
        }
        self.queue = vec![BlockState::Missing; count];
        proof {
            assert(self@.queue =~= old(self)@.check(digest@).queue);
        }
        false
    }

    /// Whether the `info` dictionary has arrived in full and has the hash of
    /// the torrent. If it has arrived in full with another hash, every block
    /// is to be asked for again.
    pub fn check_finished(&mut self) -> (finished: bool)
        requires
            old(self).wf(),
        ensures
            final(self).wf(),
            finished == old(self)@.checked(sha1_digest(old(self)@.bytes)),
            final(self)@ == old(self)@.check(sha1_digest(old(self)@.bytes)),
    {
        let digest: [u8; 20] = sha1_of(self.bytes.as_slice());
        self.check_digest(&digest)
    }

    /// Reads the bytes as an `info` dictionary.
    pub fn get_metadata(&self) -> (read: Result<Metainfo, TorrentError>)
        ensures
            read is Ok <==> Metainfo::readable(self@.bytes),
            read is Err ==> read == Err::<Metainfo, TorrentError>(TorrentError::InvalidBencode),
            read is Ok ==> {
                let metainfo = read->Ok_0;
                let hashes = crate::bencode::dict_string(
                    self@.bytes,
                    0,
                    crate::torrent::pieces_key(),
                )->0;
                &&& metainfo.name@ == vstd::utf8::decode_utf8(
                    crate::bencode::dict_string(self@.bytes, 0, crate::torrent::name_key())->0,
                )
                &&& metainfo.piece_length == crate::bencode::dict_number(
                    self@.bytes,
                    0,
                    crate::torrent::piece_length_key(),
                )->0
                &&& metainfo.length == crate::bencode::dict_number(
                    self@.bytes,
                    0,
                    crate::torrent::length_key(),
                )->0
                &&& metainfo.pieces@ == crate::torrent::hashes_of(hashes)
                &&& metainfo.files matches crate::torrent::Key::SingleFile { md5sum }
                &&& match md5sum {
                    Some(text) => Metainfo::md5sum_of(self@.bytes) == Some(text@),
                    None => Metainfo::md5sum_of(self@.bytes) is None,
                }
            },
    {
        Metainfo::from_bencode(self.bytes.as_slice())
    }
}

} // verus!
