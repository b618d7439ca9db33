//! The record that is kept of a torrent between runs, under the hexadecimal
//! text of the torrent's hash.

use crate::torrent::{InfoHash, Metainfo, Torrent};
use vstd::prelude::*;

verus! {

/// The record of a torrent.
#[derive(Debug)]
pub struct DBEntry {
    /// The pieces that are in the file.
    pub bitfield: Vec<bool>,
    /// Where the file is.
    pub file: String,
    /// The `info` dictionary of the torrent.
    pub torrent_info: Metainfo,
    /// The announce URL of the torrent.
    pub announce: String,
}

impl DBEntry {
    /// The record of a torrent of which nothing has been downloaded.
    pub fn from_new_file(file_path: String, torrent: Torrent) -> (entry: Self)
        ensures
            entry.bitfield@ == Seq::new(torrent.info.pieces@.len(), |i: int| false),
            entry.file@ == file_path@,
            entry.torrent_info == torrent.info,
            entry.announce@ == torrent.announce@,
    {
        let n_pieces: usize = torrent.info.pieces.len();
        let bitfield: Vec<bool> = vec![false; n_pieces];
        assert(bitfield@ =~= Seq::new(torrent.info.pieces@.len(), |i: int| false));
        Self { bitfield, file: file_path, torrent_info: torrent.info, announce: torrent.announce }
    }

    /// Whether every piece is in the file.
    pub fn is_finished(&self) -> (finished: bool)
        ensures
            finished == (forall|i: int| 0 <= i < self.bitfield@.len() ==> self.bitfield@[i]),
    {
        let mut i: usize = 0;
        while i < self.bitfield.len()
            invariant
                i <= self.bitfield@.len(),
                forall|k: int| 0 <= k < i ==> self.bitfield@[k],
            decreases self.bitfield@.len() - i,
        {
            if !self.bitfield[i] {
                return false;
            }
            i = i + 1;
        }
        true
    }

    /// The key under which the record of the torrent `info_hash` is kept.
    pub fn key(info_hash: &InfoHash) -> (key: String)
        ensures
            key@ == crate::digest::hex_text(info_hash.0@),
    {
        info_hash.to_hex()
    }

    /// The record once a piece has been written: only the bitfield changes.
    pub fn update_bitfields(&mut self, new_bitfield: Vec<bool>)
        ensures
            final(self).bitfield == new_bitfield,
            final(self).file == old(self).file,
            final(self).torrent_info == old(self).torrent_info,
            final(self).announce == old(self).announce,
    {
        self.bitfield = new_bitfield;
    }
}

/// A file that is downloaded or seeded, and the torrent file that describes
/// it.
#[derive(Debug, Clone)]
pub struct DBFile {
    pub file_path: String,
    pub torrent_path: String,
}

/// The record of a torrent that is known by its torrent file.
#[derive(Debug)]
pub struct FileInfo {
    pub bitfield: Vec<bool>,
    pub file: String,
    pub torrent: String,
}

impl FileInfo {
    /// The record of a torrent of `piece_len` pieces of which nothing has
    /// been downloaded.
    pub fn from_new_file(file: DBFile, piece_len: usize) -> (info: Self)
        ensures
            info.bitfield@ == Seq::new(piece_len as nat, |i: int| false),
            info.file@ == file.file_path@,
            info.torrent@ == file.torrent_path@,
    {
        let bitfield: Vec<bool> = vec![false; piece_len];
        assert(bitfield@ =~= Seq::new(piece_len as nat, |i: int| false));
        Self { bitfield, file: file.file_path, torrent: file.torrent_path }
    }
}

} // verus!
