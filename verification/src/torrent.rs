//! The metadata of a torrent (the fields of a `.torrent` file), the pieces it is cut into, and
//! the download state of a torrent.
use crate::hash::{sha1, sha1_digest};
use crate::magnet::{texts, MagnetURIMeta};
use vstd::prelude::*;

verus! {

/// Whether a torrent is downloading.
#[derive(Debug, Clone, Copy, PartialEq, Eq)]
pub enum DownState {
    /// The torrent is downloading.
    Downloading,
    /// The download is stopped.
    Stopped,
    /// Neither downloading nor paused (asking trackers, for instance).
    Unknown,
}

/// Whether an entry of a torrent's file tree is a file or a directory.
#[derive(Debug, Clone, Copy, PartialEq, Eq, Structural)]
pub enum FileType {
    Regular,
    Directory,
}

/// Entry point of the background parsing of a torrent. Resolving trackers and collecting
/// piece hashes happen in the engine, so there is nothing left for it to do.
pub fn parsing_thread_main() {
}

/// Why a torrent session could not be set up.
#[derive(Debug, Clone, Copy, PartialEq, Eq)]
pub enum TError {
    NoTrackerResolved,
}


/// One file of a multi-file torrent.
#[derive(Debug, Clone)]
pub struct File {
    pub length: i64,
    pub path: Vec<String>,
    pub md5sum: Option<String>,
}

/// The `info` dictionary: the name, the length (single file) or the files, the piece length
/// and the concatenated 20-byte SHA-1 hashes of the pieces.
#[derive(Debug, Clone)]
pub struct Info {
    pub name: Option<String>,
    pub length: Option<i64>,
    pub files: Option<Vec<File>>,
    pub piece_length: Option<i64>,
    pub pieces: Vec<u8>,
}

/// The fields of a `.torrent` file.
#[derive(Debug, Clone)]
pub struct FileMeta {
    pub announce: String,
    pub announce_list: Option<Vec<Vec<String>>>,
    pub info: Info,
    pub creation_data: Option<i64>,
    pub comment: Option<String>,
    pub encoding: Option<String>,
    pub created_by: Option<String>,
    pub acceptable_source: Option<String>,
}

/// Why torrent metadata could not be read or used.
#[derive(Debug)]
pub enum FileMetaError {
    FileError { path: String, cause: Option<std::io::Error> },
    InvalidEncoding { encoding: String, data: Vec<u8>, error: Option<serde_bencode::Error> },
    InvalidPieces { length: usize },
}

/// `a + b`, saturated at the bounds of `i64`.
pub open spec fn i64_sat_add(a: int, b: int) -> int {
    if a + b > i64::MAX {
        i64::MAX as int
    } else if a + b < i64::MIN {
        i64::MIN as int
    } else {
        a + b
    }
}

/// The sum of the file lengths, added up in order with saturation.
pub open spec fn files_length(files: Seq<File>) -> int
    decreases files.len(),
{
    if files.len() == 0 {
        0
    } else {
        i64_sat_add(files_length(files.drop_last()), files.last().length as int)
    }
}

/// The total length of a torrent: its length, or else the sum of its files, or else 0.
pub open spec fn spec_total_length(info: Info) -> int {
    match info.length {
        Some(l) => l as int,
        None => match info.files {
            Some(files) => files_length(files@),
            None => 0,
        },
    }
}

/// Piece `i` of the concatenated hashes.
pub open spec fn piece_hash_at(pieces: Seq<u8>, i: int) -> Seq<u8> {
    pieces.subrange(20 * i, 20 * i + 20)
}

/// The length of piece `index`: the piece length, except for the last piece, which holds
/// what is left of the total length.
pub open spec fn spec_piece_length_at(piece_length: int, total: int, count: int, index: int) -> int {
    if index + 1 == count && total - piece_length * (count - 1) > 0 {
        total - piece_length * (count - 1)
    } else {
        piece_length
    }
}

impl FileMeta {
    /// The total length in bytes.
    pub fn total_length(&self) -> (t: i64)
        ensures
            t == spec_total_length(self.info),
    {
        match self.info.length {
            Some(l) => l,
            None => match &self.info.files {
                Some(files) => {
                    let mut sum: i64 = 0;
                    let mut i: usize = 0;
                    while i < files.len()
                        invariant
                            i <= files@.len(),
                            sum == files_length(files@.subrange(0, i as int)),
                        decreases files@.len() - i,
                    {
                        assert(files@.subrange(0, i + 1).drop_last() =~= files@.subrange(0, i as int));
                        let l = files[i].length;
                        sum = if l > 0 && sum > i64::MAX - l {
                            i64::MAX
                        } else if l < 0 && sum < i64::MIN - l {
                            i64::MIN
                        } else {
                            sum + l
                        };
                        i = i + 1;
                    }
                    assert(files@.subrange(0, i as int) =~= files@);
                    sum
                },
                None => 0,
            },
        }
    }

    /// The number of pieces: one per 20 bytes of hashes.
    pub fn piece_count(&self) -> (n: usize)
        ensures
            n == self.info.pieces@.len() / 20,
    {
        self.info.pieces.len() / 20
    }

    /// The hash of every piece; refused when the hashes are not a whole number of 20-byte
    /// hashes.
    pub fn getPiecesHash(&self) -> (r: Result<Vec<[u8; 20]>, FileMetaError>)
        ensures
            self.info.pieces@.len() % 20 != 0 ==> (r matches Err(FileMetaError::InvalidPieces { length })
                && length == self.info.pieces@.len()),
            self.info.pieces@.len() % 20 == 0 ==> (r matches Ok(v) && v@.len()
                == self.info.pieces@.len() / 20 && forall|i: int|
                0 <= i < v@.len() ==> (#[trigger] v@[i])@ == piece_hash_at(self.info.pieces@, i)),
    {
        let pieces = self.info.pieces.as_slice();
        if pieces.len() % 20 != 0 {
            return Err(FileMetaError::InvalidPieces { length: pieces.len() });
        }
        let count = pieces.len() / 20;
        let mut out: Vec<[u8; 20]> = Vec::new();
        let mut i: usize = 0;
        while i < count
            invariant
                i <= count,
                count == pieces@.len() / 20,
                pieces@ == self.info.pieces@,
                out@.len() == i,
                forall|k: int| 0 <= k < i ==> (#[trigger] out@[k])@ == piece_hash_at(pieces@, k),
            decreases count - i,
        {
            let h = hash_at(pieces, i);
            out.push(h);
            i = i + 1;
        }
        Ok(out)
    }

    /// The length of every piece, when the metadata has a positive one.
    pub fn piece_length(&self) -> (r: Option<usize>)
        ensures
            match self.info.piece_length {
                Some(l) if l > 0 => r == Some(l as usize),
                _ => r is None,
            },
    {
        match self.info.piece_length {
            Some(l) => if l > 0 {
                Some(l as usize)
            } else {
                None
            },
            None => None,
        }
    }

    /// The length of piece `index`, when there is such a piece and a positive piece length.
    pub fn piece_length_at(&self, index: usize) -> (r: Option<usize>)
        ensures
            match self.info.piece_length {
                Some(l) if l > 0 && index < self.info.pieces@.len() / 20 => r == Some(
                    spec_piece_length_at(
                        l as int,
                        spec_total_length(self.info),
                        (self.info.pieces@.len() / 20) as int,
                        index as int,
                    ) as usize,
                ),
                _ => r is None,
            },
    {
        let count = self.piece_count();
        let l = match self.info.piece_length {
            Some(l) => l,
            None => {
                return None;
            },
        };
        if l <= 0 || index >= count {
            return None;
        }
        let total = self.total_length() as i128;
        assert(0 < l * (count - 1) + 1 && l * (count - 1) <= 0x7fff_ffff_ffff_ffff * 0xffff_ffff_ffff_ffff)
            by (nonlinear_arith)
            requires
                count >= 1,
                0 < l <= 0x7fff_ffff_ffff_ffff,
                count <= 0xffff_ffff_ffff_ffff,
        {
        }
        let before = (l as i128) * ((count - 1) as i128);
        if index + 1 == count && total - before > 0 {
            Some((total - before) as usize)
        } else {
            Some(l as usize)
        }
    }

    /// The expected hash of piece `index`, when there is such a piece.
    pub fn piece_hash(&self, index: usize) -> (r: Option<[u8; 20]>)
        ensures
            index < self.info.pieces@.len() / 20 ==> (r matches Some(h) && h@ == piece_hash_at(
                self.info.pieces@,
                index as int,
            )),
            index >= self.info.pieces@.len() / 20 ==> r is None,
    {
        let pieces = self.info.pieces.as_slice();
        if index >= pieces.len() / 20 {
            return None;
        }
        Some(hash_at(pieces, index))
    }

    /// The info hash: the SHA-1 of the bencoded info dictionary, `info_bytes`.
    pub fn info_hash_of(info_bytes: &[u8]) -> (h: Vec<u8>)
        ensures
            h@ == sha1(info_bytes@),
    {
        let d = sha1_digest(info_bytes);
        let mut h: Vec<u8> = Vec::new();
        crate::wire::push_slice(&mut h, &d);
        h
    }
}

/// The 20 bytes of hash `i`.
fn hash_at(pieces: &[u8], i: usize) -> (h: [u8; 20])
    requires
        20 * i + 20 <= pieces@.len(),
    ensures
        h@ == piece_hash_at(pieces@, i as int),
{
    let n = pieces.len();
    let mut h = [0u8; 20];
    let mut k: usize = 0;
    while k < 20
        invariant
            k <= 20,
            n == pieces@.len(),
            20 * i + 20 <= pieces@.len(),
            forall|m: int| 0 <= m < k ==> h@[m] == pieces@[20 * i + m],
        decreases 20 - k,
    {
        h[k] = pieces[20 * i + k];
        k = k + 1;
    }
    assert(h@ =~= piece_hash_at(pieces@, i as int));
    h
}

/// Metadata standing in for a magnet torrent: the trackers of the URI, its display name
/// and length, and the info dictionary once fetched.
pub struct MagnetFileMeta;

impl MagnetFileMeta {
    /// Metadata for a magnet torrent whose info dictionary is not known yet.
    pub fn from_magnet(meta: &MagnetURIMeta) -> (m: FileMeta)
        ensures
            m.info.name == meta.dn,
            m.info.length == (match meta.xl {
                Some(l) => Some(l as i64),
                None => None,
            }),
            m.info.files is None,
            m.info.piece_length is None,
            m.info.pieces@.len() == 0,
            magnet_trackers_placed(meta, m),
    {
        let info = Info {
            name: meta.dn.clone(),
            length: match meta.xl {
                Some(l) => Some(l as i64),
                None => None,
            },
            files: None,
            piece_length: None,
            pieces: Vec::new(),
        };
        Self::with_info(meta, info, "magnet metadata pending")
    }

    /// Metadata for a magnet torrent once its info dictionary arrived.
    pub fn from_info(meta: &MagnetURIMeta, info: Info) -> (m: FileMeta)
        ensures
            m.info == info,
            magnet_trackers_placed(meta, m),
    {
        Self::with_info(meta, info, "magnet metadata fetched")
    }

    fn with_info(meta: &MagnetURIMeta, info: Info, comment: &str) -> (m: FileMeta)
        ensures
            m.info == info,
            magnet_trackers_placed(meta, m),
            m.comment matches Some(c) && c@ == comment@,
    {
        let trackers: Vec<String> = match &meta.tr {
            Some(t) => t.clone(),
            None => Vec::new(),
        };
        let announce = if trackers.len() > 0 {
            trackers[0].clone()
        } else {
            String::new()
        };
        let announce_list = if trackers.len() > 0 {
            let mut tiers: Vec<Vec<String>> = Vec::new();
            tiers.push(trackers);
            Some(tiers)
        } else {
            None
        };
        FileMeta {
            announce,
            announce_list,
            info,
            creation_data: None,
            comment: Some(String::from_str(comment)),
            encoding: None,
            created_by: None,
            acceptable_source: None,
        }
    }
}

/// The trackers of a magnet URI stand as the announce URL (the first one, or empty) and as
/// a single tier of the announce list (absent when there are none).
pub open spec fn magnet_trackers_placed(meta: &MagnetURIMeta, m: FileMeta) -> bool {
    let trackers = match meta.tr {
        Some(t) => texts(t@),
        None => Seq::empty(),
    };
    &&& trackers.len() > 0 ==> m.announce@ == trackers[0]
    &&& trackers.len() == 0 ==> m.announce@.len() == 0
    &&& trackers.len() > 0 ==> (m.announce_list matches Some(tiers) && tiers@.len() == 1
        && texts(tiers@[0]@) == trackers)
    &&& trackers.len() == 0 ==> m.announce_list is None
}

} // verus!
