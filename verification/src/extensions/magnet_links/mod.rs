//! Magnet links: a torrent by its hash, with hints where to find it.

pub mod metadata_msg;
pub mod metadata_piece_manager;

use crate::text::text_is;
use crate::torrent::{InfoHash, InfoHashError};
use crate::weburl::{
    announce_of, pair_views, parse_url, query_pairs_of, scheme_of, url_announce, url_normal,
    url_query_pairs, url_scheme,
};
use vstd::prelude::*;
use vstd::string::*;

verus! {

/// Why a text is no magnet link that this client can follow.
#[derive(Debug, Clone, Copy, PartialEq, Eq)]
pub enum MagnetLinkError {
    /// The text is no URL.
    InvalidUrl,
    /// The URL is no magnet link.
    NoMagnetLink,
    /// The link gives no hash of a torrent, or one that cannot be read.
    InvalidInfoHash(InfoHashError),
    /// The link names no tracker.
    NoTrackerUrl,
}

/// A magnet link.
#[derive(Debug)]
pub struct MagnetLink {
    /// The hash of the torrent, from `xt`.
    pub info_hash: InfoHash,
    /// The name that the link suggests for the file, from `dn`.
    pub file_name: Option<String>,
    /// The announce URLs of the trackers, from `tr`.
    pub trackers: Vec<String>,
    /// The addresses of peers as the link gives them, from `x.pe`.
    pub peer_addrs: Vec<String>,
}

/// What has been read of a magnet link.
pub ghost struct MagnetView {
    pub info_hash: Option<Seq<u8>>,
    pub error: Option<InfoHashError>,
    pub file_name: Option<Seq<char>>,
    pub trackers: Seq<Seq<char>>,
    pub peer_addrs: Seq<Seq<char>>,
}

/// The announce URL that a link gives with `value`: the URL as the `url`
/// crate writes it. A URL with the scheme `udp` is given the path
/// `/announce` and the scheme `http`. `None` for a value that is no URL or
/// has more than 65536 characters.
pub open spec fn tracker_of(value: Seq<char>) -> Option<Seq<char>> {
    if value.len() > 65536 || url_normal(value) is None {
        None
    } else if url_scheme(value) == Some("udp"@) {
        match url_announce(value) {
            Some(moved) => {
                if moved.len() >= 3 {
                    url_normal("http"@ + moved.subrange(3, moved.len() as int))
                } else {
                    None
                }
            },
            None => None,
        }
    } else {
        url_normal(value)
    }
}

/// What has been read of a link once its first `upto` pairs have been
/// looked at. Reading stops at the first `xt` that cannot be read.
pub open spec fn read_pairs(pairs: Seq<(Seq<char>, Seq<char>)>, upto: nat) -> MagnetView
    decreases upto,
{
    if upto == 0 {
        MagnetView {
            info_hash: None,
            error: None,
            file_name: None,
            trackers: Seq::empty(),
            peer_addrs: Seq::empty(),
        }
    } else {
        let before = read_pairs(pairs, (upto - 1) as nat);
        let key = pairs[upto - 1].0;
        let value = pairs[upto - 1].1;
        if before.error is Some {
            before
        } else if key == "xt"@ {
            match InfoHash::spec_from_str(value) {
                Ok(hash) => MagnetView { info_hash: Some(hash), ..before },
                Err(e) => MagnetView { error: Some(e), ..before },
            }
        } else if key == "tr"@ {
            match tracker_of(value) {
                Some(url) => MagnetView { trackers: before.trackers.push(url), ..before },
                None => before,
            }
        } else if key == "x.pe"@ {
            MagnetView { peer_addrs: before.peer_addrs.push(value), ..before }
        } else if key == "dn"@ {
            if value.len() > 0 {
                MagnetView { file_name: Some(value), ..before }
            } else {
                before
            }
        } else {
            before
        }
    }
}

/// The texts in `list`.
pub open spec fn text_views(list: Seq<String>) -> Seq<Seq<char>> {
    Seq::new(list.len(), |i: int| list[i]@)
}

impl MagnetLink {
    /// Whether the link holds what `read` says.
    pub open spec fn holds(&self, read: MagnetView) -> bool {
        &&& read.info_hash == Some(self.info_hash.0@)
        &&& read.file_name == match self.file_name {
            Some(name) => Some(name@),
            None => None,
        }
        &&& read.trackers == text_views(self.trackers@)
        &&& read.peer_addrs == text_views(self.peer_addrs@)
    }

    /// The announce URL that a link gives with `value`.
    pub fn read_tracker(value: &str) -> (tracker: Option<String>)
        ensures
            match tracker {
                Some(url) => tracker_of(value@) == Some(url@),
                None => tracker_of(value@) is None,
            },
    {
        if value.unicode_len() > 65536 {
            return None;
        }
        let Some(normal) = parse_url(value) else {
            return None;
        };
        let is_udp: bool = match scheme_of(value) {
            Some(scheme) => text_is(scheme.as_str(), "udp"),
            None => false,
        };
        if !is_udp {
            return Some(normal);
        }
        let Some(moved) = announce_of(value) else {
            return None;
        };
        let len: usize = moved.as_str().unicode_len();
        if len < 3 {
            return None;
        }
        let rest = moved.as_str().substring_char(3, len);
        let mut http = String::from_str("http");
        http.append(rest);
        parse_url(http.as_str())
    }

    /// Reads the pairs of key and value of a magnet link. The hash of the
    /// torrent is the last `xt`, the name of the file the last `dn` that is
    /// not empty; every `tr` that is a URL is a tracker, and every `x.pe`
    /// the address of a peer. Any other key is passed over. The link must
    /// give a hash, and every `xt` up to the first that cannot be read
    /// must be one.
    pub fn from_query_pairs(pairs: &Vec<(String, String)>) -> (link: Result<
        MagnetLink,
        MagnetLinkError,
    >)
        ensures
            ({
                let read = read_pairs(pair_views(pairs@), pairs@.len());
                match link {
                    Ok(link) => read.error is None && link.holds(read),
                    Err(e) => e == if read.error is Some {
                        MagnetLinkError::InvalidInfoHash(read.error->0)
                    } else {
                        MagnetLinkError::InvalidInfoHash(InfoHashError::Missing)
                    } && (read.error is Some || read.info_hash is None),
                }
            }),
    {
        let mut trackers: Vec<String> = Vec::new();
        let mut peer_addrs: Vec<String> = Vec::new();
        let mut file_name: Option<String> = None;
        let mut info_hash: Option<InfoHash> = None;
        let ghost all = pair_views(pairs@);
        let mut i: usize = 0;
        proof {
            assert(text_views(trackers@) =~= Seq::<Seq<char>>::empty());
            assert(text_views(peer_addrs@) =~= Seq::<Seq<char>>::empty());
        }
        while i < pairs.len()
            invariant
                i <= pairs@.len(),
                all == pair_views(pairs@),
                ({
                    let read = read_pairs(all, i as nat);
                    &&& read.error is None
                    &&& read.info_hash == match info_hash {
                        Some(hash) => Some(hash.0@),
                        None => None,
                    }
                    &&& read.file_name == match file_name {
                        Some(name) => Some(name@),
                        None => None,
                    }
                    &&& read.trackers == text_views(trackers@)
                    &&& read.peer_addrs == text_views(peer_addrs@)
                }),
            decreases pairs@.len() - i,
        {
            let key: &str = pairs[i].0.as_str();
            let value: &str = pairs[i].1.as_str();
            proof {
                assert(all[i as int] == (key@, value@));
            }
            if text_is(key, "xt") {
                match InfoHash::from_str(value) {
                    Ok(hash) => {
                        info_hash = Some(hash);
                    },
                    Err(e) => {
                        proof {
                            let read = read_pairs(all, (i + 1) as nat);
                            assert(read.error == Some(e));
                            lemma_error_stays(all, (i + 1) as nat, pairs@.len());
                        }
                        return Err(MagnetLinkError::InvalidInfoHash(e));
                    },
                }
            } else if text_is(key, "tr") {
                match Self::read_tracker(value) {
                    Some(url) => {
                        let ghost before = text_views(trackers@);
                        trackers.push(url);
                        proof {
                            assert(text_views(trackers@) =~= before.push(url@));
                        }
                    },
                    None => {},
                }
            } else if text_is(key, "x.pe") {
                let ghost before = text_views(peer_addrs@);
                let addr = String::from_str(value);
                peer_addrs.push(addr);
                proof {
                    assert(text_views(peer_addrs@) =~= before.push(value@));
                }
            } else if text_is(key, "dn") {
                if value.unicode_len() > 0 {
                    file_name = Some(String::from_str(value));
                }
            }
            i = i + 1;
        }
        match info_hash {
            Some(info_hash) => Ok(MagnetLink { info_hash, trackers, peer_addrs, file_name }),
            None => Err(MagnetLinkError::InvalidInfoHash(InfoHashError::Missing)),
        }
    }

    /// What `from_url` returns for `url`.
    pub open spec fn spec_from_url(url: Seq<char>) -> Result<MagnetView, MagnetLinkError> {
        if url_scheme(url) is None {
            Err(MagnetLinkError::InvalidUrl)
        } else if url_scheme(url) != Some("magnet"@) {
            Err(MagnetLinkError::NoMagnetLink)
        } else {
            match url_query_pairs(url) {
                None => Err(MagnetLinkError::InvalidUrl),
                Some(pairs) => {
                    let read = read_pairs(pairs, pairs.len());
                    if read.error is Some {
                        Err(MagnetLinkError::InvalidInfoHash(read.error->0))
                    } else if read.info_hash is None {
                        Err(MagnetLinkError::InvalidInfoHash(InfoHashError::Missing))
                    } else {
                        Ok(read)
                    }
                },
            }
        }
    }

    /// Reads a magnet link: a URL with the scheme `magnet` whose query holds
    /// `xt`, and may hold `dn`, `tr` and `x.pe`.
    pub fn from_url(url: &str) -> (link: Result<MagnetLink, MagnetLinkError>)
        ensures
            match link {
                Ok(link) => Self::spec_from_url(url@) is Ok && link.holds(
                    Self::spec_from_url(url@)->Ok_0,
                ),
                Err(e) => Self::spec_from_url(url@) == Err::<MagnetView, MagnetLinkError>(e),
            },
    {
        let Some(scheme) = scheme_of(url) else {
            return Err(MagnetLinkError::InvalidUrl);
        };
        if !text_is(scheme.as_str(), "magnet") {
            return Err(MagnetLinkError::NoMagnetLink);
        }
        let Some(pairs) = query_pairs_of(url) else {
            return Err(MagnetLinkError::InvalidUrl);
        };
        Self::from_query_pairs(&pairs)
    }

    /// The announce URL of the first tracker that the link names.
    pub fn get_announce_url(&self) -> (url: Result<String, MagnetLinkError>)
        ensures
            match url {
                Ok(url) => self.trackers@.len() > 0 && url@ == self.trackers@[0]@,
                Err(e) => self.trackers@.len() == 0 && e == MagnetLinkError::NoTrackerUrl,
            },
    {
        if self.trackers.len() == 0 {
            Err(MagnetLinkError::NoTrackerUrl)
        } else {
            Ok(self.trackers[0].clone())
        }
    }
}

/// Once an `xt` could not be read, nothing that follows changes what has
/// been read.
pub proof fn lemma_error_stays(pairs: Seq<(Seq<char>, Seq<char>)>, from: nat, to: nat)
    requires
        from <= to,
        read_pairs(pairs, from).error is Some,
    ensures
        read_pairs(pairs, to) == read_pairs(pairs, from),
    decreases to - from,
{
    if from < to {
        lemma_error_stays(pairs, from, (to - 1) as nat);
    }
}

} // verus!
