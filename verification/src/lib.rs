//! The core of a BitTorrent client: the wire protocol, the sessions with
//! peers, the choice of pieces, the download queue, and the coordinator of a
//! torrent. The library decides and keeps the books; connections, files and
//! the record of a torrent are left to its caller.

pub mod bencode;
pub mod database;
pub mod digest;
pub mod extensions;
pub mod messages;
pub mod peer;
pub mod peer_manager;
pub mod text;
pub mod torrent;
pub mod tracker;
pub mod weburl;

pub use crate::extensions::magnet_links;
pub use crate::peer::Peer;
pub use crate::peer_manager::coordinator::PeerManager;
pub use crate::torrent::Torrent;
pub use crate::tracker::TrackerRequest;

use vstd::prelude::*;

verus! {

/// Largest block, in bytes, that is requested from a peer in one message.
pub const BLOCK_MAX: u32 = 16384;

} // verus!
