//! Where the bytes of a piece go: the output files of a torrent, path components that cannot
//! leave the download directory, and the plan of writes for one piece.
use crate::command::{first_index, path_join};
use crate::text::str_eq;
use crate::torrent::{spec_total_length, FileMeta};
use vstd::prelude::*;

verus! {

/// Why a piece could not be written.
#[derive(Debug)]
pub enum PieceStorageError {
    MissingPieceLength,
    PieceOutOfRange { piece_index: usize },
    PieceDataTooLong,
    Io(std::io::Error),
}

/// Writes pieces into the output files.
pub struct PieceStorage;

// ---------------------------------------------------------------------------------------------
// Safe path components
// ---------------------------------------------------------------------------------------------

/// Whether a `/`-separated segment is one that leaves the directory: `..` anywhere, or `.`
/// at the start (which `Path::components` keeps as the current directory).
pub open spec fn segment_escapes(seg: Seq<char>, first: bool) -> bool {
    seg == seq!['.', '.'] || (first && seg == seq!['.'])
}

/// Whether no segment of `s` escapes.
pub open spec fn segments_stay(s: Seq<char>, first: bool) -> bool
    decreases s.len(),
{
    match first_index(s, '/') {
        None => !segment_escapes(s, first),
        Some(k) => if 0 <= k < s.len() {
            !segment_escapes(s.subrange(0, k), first) && segments_stay(
                s.subrange(k + 1, s.len() as int),
                false,
            )
        } else {
            false
        },
    }
}

/// Whether every component of a relative path is a plain name: it is not absolute, does not
/// start with `.`, and has no `..`.
pub open spec fn is_plain_component(c: Seq<char>) -> bool {
    !(c.len() > 0 && c[0] == '/') && segments_stay(c, true)
}

/// The name used in place of a component that is not plain.
pub open spec fn unsafe_component() -> Seq<char> {
    "unsafe_path_component"@
}

/// `base` joined with `component`, or with `unsafe_path_component` when `component` is not a
/// plain name.
pub open spec fn spec_safe_join(base: Seq<char>, component: Seq<char>) -> Seq<char> {
    if is_plain_component(component) {
        path_join(base, component)
    } else {
        path_join(base, unsafe_component())
    }
}

proof fn lemma_first_index_bounds(s: Seq<char>, c: char)
    ensures
        first_index(s, c) matches Some(k) ==> 0 <= k < s.len() && s[k] == c,
        first_index(s, c) is None ==> forall|m: int| 0 <= m < s.len() ==> s[m] != c,
    decreases s.len(),
{
    if s.len() > 0 && s[0] != c {
        lemma_first_index_bounds(s.drop_first(), c);
        if let Some(k) = first_index(s.drop_first(), c) {
            assert(s[k + 1] == s.drop_first()[k]);
        } else {
            assert forall|m: int| 0 <= m < s.len() implies s[m] != c by {
                if m > 0 {
                    assert(s[m] == s.drop_first()[m - 1]);
                }
            }
        }
    }
}

/// Finds the first `c` in `s`.
fn find_char(s: &str, c: char) -> (r: Option<usize>)
    ensures
        r matches Some(k) ==> first_index(s@, c) == Some(k as int),
        r is None ==> first_index(s@, c) is None,
{
    let n = s.unicode_len();
    let mut i: usize = 0;
    assert(s@.skip(0) =~= s@);
    while i < n
        invariant
            i <= n,
            n == s@.len(),
            first_index(s@, c) == (match first_index(s@.skip(i as int), c) {
                Some(j) => Some(j + i),
                None => None,
            }),
        decreases n - i,
    {
        assert(s@.skip(i as int).drop_first() =~= s@.skip(i + 1));
        assert(s@.skip(i as int)[0] == s@[i as int]);
        if s.get_char(i) == c {
            return Some(i);
        }
        i = i + 1;
    }
    assert(s@.skip(i as int).len() == 0);
    None
}

fn segment_escapes_exec(seg: &str, first: bool) -> (b: bool)
    ensures
        b == segment_escapes(seg@, first),
{
    proof {
        reveal_strlit("..");
        reveal_strlit(".");
        assert(".."@ =~= seq!['.', '.']);
        assert("."@ =~= seq!['.']);
    }
    str_eq(seg, "..") || (first && str_eq(seg, "."))
}

fn segments_stay_exec(s: &str, first: bool) -> (b: bool)
    ensures
        b == segments_stay(s@, first),
    decreases s@.len(),
{
    proof {
        lemma_first_index_bounds(s@, '/');
    }
    match find_char(s, '/') {
        None => !segment_escapes_exec(s, first),
        Some(k) => {
            let n = s.unicode_len();
            let seg = s.substring_char(0, k);
            if segment_escapes_exec(seg, first) {
                return false;
            }
            let rest = s.substring_char(k + 1, n);
            segments_stay_exec(rest, false)
        },
    }
}

/// Joins path components without letting them leave the base directory.
pub struct SafePath;

impl SafePath {
    /// `base` joined with `component` when that is a plain relative name, and with
    /// `unsafe_path_component` otherwise.
    pub fn join(base: &str, component: &str) -> (r: String)
        ensures
            r@ == spec_safe_join(base@, component@),
    {
        let plain = !(component.unicode_len() > 0 && component.get_char(0) == '/')
            && segments_stay_exec(component, true);
        if plain {
            crate::command::join_path(base, component)
        } else {
            crate::command::join_path(base, "unsafe_path_component")
        }
    }
}

// ---------------------------------------------------------------------------------------------
// Output files
// ---------------------------------------------------------------------------------------------

/// A file that receives a range of the torrent's bytes.
#[derive(Debug, Clone)]
pub struct OutputFile {
    pub path: String,
    pub start_offset: usize,
    pub length: usize,
}

/// `a + b`, saturated at `usize::MAX`.
pub open spec fn usize_sat_add(a: int, b: int) -> int {
    if a + b > usize::MAX {
        usize::MAX as int
    } else {
        a + b
    }
}

impl OutputFile {
    /// One past the file's last byte in the torrent, saturated.
    pub open spec fn spec_end_offset(&self) -> int {
        usize_sat_add(self.start_offset as int, self.length as int)
    }

    /// One past the file's last byte in the torrent.
    pub fn end_offset(&self) -> (e: usize)
        ensures
            e == self.spec_end_offset(),
    {
        if self.start_offset > usize::MAX - self.length {
            usize::MAX
        } else {
            self.start_offset + self.length
        }
    }
}

/// `v` as a length: at least 0.
pub open spec fn clamp_length(v: i64) -> usize {
    if v < 0 {
        0
    } else {
        v as usize
    }
}

/// The path of a file: the components joined onto `root` one after the other.
pub open spec fn fold_path(root: Seq<char>, components: Seq<Seq<char>>) -> Seq<char>
    decreases components.len(),
{
    if components.len() == 0 {
        root
    } else {
        spec_safe_join(fold_path(root, components.drop_last()), components.last())
    }
}

/// Lays out the output files of a torrent in the download directory.
pub struct TorrentOutputFiles;

impl TorrentOutputFiles {
    /// The output files: for a multi-file torrent, each file under a directory named after
    /// the torrent, one after the other; otherwise one file named after the torrent that
    /// takes all its bytes. Names default to `download`; every component is kept inside its
    /// directory.
    pub fn from_meta(meta: &FileMeta, download_directory: &str) -> (files: Vec<OutputFile>)
        ensures
            ({
                let root_name = match meta.info.name {
                    Some(n) => n@,
                    None => "download"@,
                };
                match meta.info.files {
                    Some(entries) => files@.len() == entries@.len() && (forall|i: int|
                        0 <= i < files@.len() ==> (#[trigger] files@[i]).length == clamp_length(
                            entries@[i].length,
                        ) && files@[i].path@ == fold_path(
                            spec_safe_join(download_directory@, root_name),
                            crate::magnet::texts(entries@[i].path@),
                        )) && (files@.len() > 0 ==> files@[0].start_offset == 0) && (forall|i: int|
                        0 <= i < files@.len() - 1 ==> (#[trigger] files@[i + 1]).start_offset
                            == files@[i].spec_end_offset()),
                    None => files@.len() == 1 && files@[0].start_offset == 0 && files@[0].length
                        == clamp_length(spec_total_length(meta.info) as i64) && files@[0].path@
                        == spec_safe_join(download_directory@, root_name),
                }
            }),
    {
        let mut files: Vec<OutputFile> = Vec::new();
        let root_name = match &meta.info.name {
            Some(n) => n.as_str(),
            None => "download",
        };
        match &meta.info.files {
            Some(entries) => {
                let root_path = SafePath::join(download_directory, root_name);
                let mut start_offset: usize = 0;
                let mut i: usize = 0;
                while i < entries.len()
                    invariant
                        i <= entries@.len(),
                        files@.len() == i,
                        root_path@ == spec_safe_join(download_directory@, root_name@),
                        forall|k: int|
                            0 <= k < i ==> (#[trigger] files@[k]).length == clamp_length(
                                entries@[k].length,
                            ) && files@[k].path@ == fold_path(
                                root_path@,
                                crate::magnet::texts(entries@[k].path@),
                            ),
                        i > 0 ==> files@[0].start_offset == 0,
                        i == 0 ==> start_offset == 0,
                        i > 0 ==> start_offset == files@[i - 1].spec_end_offset(),
                        forall|k: int|
                            0 <= k < i - 1 ==> (#[trigger] files@[k + 1]).start_offset
                                == files@[k].spec_end_offset(),
                    decreases entries@.len() - i,
                {
                    let entry = &entries[i];
                    let mut path = String::from_str(root_path.as_str());
                    let mut c: usize = 0;
                    while c < entry.path.len()
                        invariant
                            c <= entry.path@.len(),
                            path@ == fold_path(
                                root_path@,
                                crate::magnet::texts(entry.path@.subrange(0, c as int)),
                            ),
                        decreases entry.path@.len() - c,
                    {
                        let ghost before = entry.path@.subrange(0, c as int);
                        assert(crate::magnet::texts(entry.path@.subrange(0, c + 1)).drop_last()
                            =~= crate::magnet::texts(before));
                        path = SafePath::join(path.as_str(), entry.path[c].as_str());
                        c = c + 1;
                    }
                    assert(entry.path@.subrange(0, c as int) =~= entry.path@);
                    let length = if entry.length < 0 {
                        0
                    } else {
                        entry.length as usize
                    };
                    let file = OutputFile { path, start_offset, length };
                    start_offset = file.end_offset();
                    files.push(file);
                    i = i + 1;
                }
            },
            None => {
                let total = meta.total_length();
                let length = if total < 0 {
                    0
                } else {
                    total as usize
                };
                files.push(
                    OutputFile {
                        path: SafePath::join(download_directory, root_name),
                        start_offset: 0,
                        length,
                    },
                );
            },
        }
        proof {
            reveal_strlit("download");
        }
        files
    }
}

// ---------------------------------------------------------------------------------------------
// Writing a piece
// ---------------------------------------------------------------------------------------------

/// One write of a piece: `len` bytes from offset `start` of the piece go to offset
/// `offset_in_file` of output file `file_index`.
#[derive(Debug, Clone, Copy, PartialEq, Eq)]
pub struct FileWrite {
    pub file_index: usize,
    pub offset_in_file: usize,
    pub start: usize,
    pub len: usize,
}

/// The writes take the piece in order, without gap or overlap, and end at its end; each
/// write lies inside its file, and the files are used in increasing order.
pub open spec fn writes_cover(writes: Seq<FileWrite>, piece_len: int, files: Seq<OutputFile>) -> bool {
    &&& writes.len() == 0 ==> piece_len == 0
    &&& writes.len() > 0 ==> writes[0].start == 0 && writes.last().start + writes.last().len
        == piece_len
    &&& forall|k: int|
        0 <= k < writes.len() - 1 ==> #[trigger] writes[k + 1].start == writes[k].start
            + writes[k].len && writes[k].file_index < writes[k + 1].file_index
    &&& forall|k: int|
        0 <= k < writes.len() ==> (#[trigger] writes[k]).file_index < files.len()
            && writes[k].len > 0 && writes[k].offset_in_file + writes[k].len
            <= files[writes[k].file_index as int].length
}

/// The torrent offset of piece `piece_index` for pieces of `piece_length` bytes, saturated.
pub open spec fn piece_offset(piece_index: usize, piece_length: usize) -> int {
    if piece_index * piece_length > usize::MAX {
        usize::MAX as int
    } else {
        piece_index * piece_length
    }
}

/// The writes for the `remaining` bytes of a piece from file `i` on, the torrent position being
/// `cursor` and `done` bytes of the piece placed already, with the position and the bytes left
/// after them. A file that ends at or before the position is passed over; a file that starts
/// after it stops the plan; otherwise the file takes as many bytes as fit from the position.
pub open spec fn plan_from(files: Seq<OutputFile>, i: int, cursor: int, done: int, remaining: int) -> (
    Seq<FileWrite>,
    int,
    int,
)
    decreases files.len() - i,
{
    if i < 0 || i >= files.len() || remaining <= 0 {
        (Seq::empty(), cursor, remaining)
    } else {
        let f = files[i];
        if cursor >= f.spec_end_offset() {
            plan_from(files, i + 1, cursor, done, remaining)
        } else if cursor < f.start_offset {
            (Seq::empty(), cursor, remaining)
        } else {
            let off = cursor - f.start_offset;
            let room = if f.length < off {
                0
            } else {
                f.length - off
            };
            let writable = if remaining < room {
                remaining
            } else {
                room
            };
            if writable == 0 {
                plan_from(files, i + 1, cursor, done, remaining)
            } else {
                let rest = plan_from(
                    files,
                    i + 1,
                    usize_sat_add(cursor, writable),
                    done + writable,
                    remaining - writable,
                );
                (
                    seq![
                        FileWrite {
                            file_index: i as usize,
                            offset_in_file: off as usize,
                            start: done as usize,
                            len: writable as usize,
                        },
                    ] + rest.0,
                    rest.1,
                    rest.2,
                )
            }
        }
    }
}

/// The writes of a piece and how writing it ends.
#[derive(Debug)]
pub struct WritePlan {
    /// The writes, in order; they are made even when the piece does not fit.
    pub writes: Vec<FileWrite>,
    /// `Ok` when every byte of the piece was placed.
    pub outcome: Result<(), PieceStorageError>,
}

impl PieceStorage {
    /// Plans where the `piece_len` bytes of piece `piece_index` go, for pieces of
    /// `piece_length` bytes laid over `files`, from the piece's offset in the torrent (see
    /// `plan_from`). Refused without a piece length; when bytes are left over, the outcome is
    /// `PieceOutOfRange` if none could be placed and `PieceDataTooLong` otherwise.
    pub fn plan_writes(
        piece_length: Option<usize>,
        piece_index: usize,
        piece_len: usize,
        files: &[OutputFile],
    ) -> (r: WritePlan)
        ensures
            piece_length is None ==> r.writes@.len() == 0 && (r.outcome matches Err(
                PieceStorageError::MissingPieceLength,
            )),
            piece_length matches Some(l) ==> ({
                let p = plan_from(files@, 0, piece_offset(piece_index, l), 0, piece_len as int);
                &&& r.writes@ == p.0
                &&& p.2 == 0 ==> r.outcome is Ok
                &&& p.2 != 0 && p.0.len() == 0 ==> (r.outcome matches Err(
                    PieceStorageError::PieceOutOfRange { piece_index: q },
                ) && q == piece_index)
                &&& p.2 != 0 && p.0.len() != 0 ==> (r.outcome matches Err(
                    PieceStorageError::PieceDataTooLong,
                ))
            }),
            r.outcome is Ok ==> writes_cover(r.writes@, piece_len as int, files@),
    {
        let piece_length = match piece_length {
            Some(l) => l,
            None => {
                return WritePlan {
                    writes: Vec::new(),
                    outcome: Err(PieceStorageError::MissingPieceLength),
                };
            },
        };
        let piece_offset = match piece_index.checked_mul(piece_length) {
            Some(v) => v,
            None => usize::MAX,
        };
        let ghost whole = plan_from(files@, 0, piece_offset as int, 0, piece_len as int);
        let mut writes: Vec<FileWrite> = Vec::new();
        let mut remaining = piece_len;
        let mut cursor = piece_offset;
        let mut i: usize = 0;
        assert(writes@ + plan_from(files@, 0, cursor as int, 0, remaining as int).0 =~= whole.0);
        while i < files.len()
            invariant_except_break
                i <= files@.len(),
            invariant
                remaining <= piece_len,
                whole == plan_from(files@, 0, piece_offset as int, 0, piece_len as int),
                writes@ + plan_from(files@, i as int, cursor as int, piece_len - remaining, remaining as int).0
                    == whole.0,
                plan_from(files@, i as int, cursor as int, piece_len - remaining, remaining as int).1
                    == whole.1,
                plan_from(files@, i as int, cursor as int, piece_len - remaining, remaining as int).2
                    == whole.2,
                writes@.len() == 0 ==> remaining == piece_len && cursor == piece_offset,
                writes@.len() > 0 ==> writes@[0].start == 0 && writes@.last().start
                    + writes@.last().len == piece_len - remaining && writes@.last().file_index < i,
                forall|k: int|
                    0 <= k < writes@.len() - 1 ==> #[trigger] writes@[k + 1].start
                        == writes@[k].start + writes@[k].len && writes@[k].file_index
                        < writes@[k + 1].file_index,
                forall|k: int|
                    0 <= k < writes@.len() ==> (#[trigger] writes@[k]).file_index < files@.len()
                        && writes@[k].len > 0 && writes@[k].offset_in_file + writes@[k].len
                        <= files@[writes@[k].file_index as int].length,
            ensures
                i >= files@.len() || remaining == 0 || cursor < files@[i as int].start_offset,
                writes@ + plan_from(files@, i as int, cursor as int, piece_len - remaining, remaining as int).0
                    == whole.0,
            decreases files@.len() - i,
        {
            if remaining == 0 {
                break;
            }
            let file = &files[i];
            if cursor >= file.end_offset() {
                i = i + 1;
                continue;
            }
            if cursor < file.start_offset {
                break;
            }
            let offset_in_file = cursor - file.start_offset;
            let room = if file.length < offset_in_file {
                0
            } else {
                file.length - offset_in_file
            };
            let writable = if remaining < room {
                remaining
            } else {
                room
            };
            if writable == 0 {
                i = i + 1;
                continue;
            }
            let w = FileWrite {
                file_index: i,
                offset_in_file,
                start: piece_len - remaining,
                len: writable,
            };
            let ghost before = writes@;
            writes.push(w);
            assert(writes@ =~= before + seq![w]);
            remaining = remaining - writable;
            cursor = if cursor > usize::MAX - writable {
                usize::MAX
            } else {
                cursor + writable
            };
            i = i + 1;
            assert(writes@ + plan_from(
                files@,
                i as int,
                cursor as int,
                piece_len - remaining,
                remaining as int,
            ).0 =~= before + (seq![w] + plan_from(
                files@,
                i as int,
                cursor as int,
                piece_len - remaining,
                remaining as int,
            ).0));
        }
        let ghost rest = plan_from(files@, i as int, cursor as int, piece_len - remaining, remaining as int);
        assert(rest.0 =~= Seq::<FileWrite>::empty());
        assert(writes@ =~= whole.0);
        let outcome = if remaining == 0 {
            Ok(())
        } else if writes.len() == 0 {
            Err(PieceStorageError::PieceOutOfRange { piece_index })
        } else {
            Err(PieceStorageError::PieceDataTooLong)
        };
        WritePlan { writes, outcome }
    }
}

} // verus!
