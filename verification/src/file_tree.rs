//! The tree of files and directories that a torrent downloads, built from its metadata.
use crate::magnet::texts;
use crate::text::str_eq;
use crate::torrent::{File as MetaFile, FileMeta, FileType};
use vstd::prelude::*;

verus! {

/// What a node of the file tree holds, as a value.
pub ghost struct FileNode {
    pub name: Seq<char>,
    pub file_type: FileType,
    /// `None` for a regular file, the entries in insertion order for a directory.
    pub inner_files: Option<Seq<FileNode>>,
    pub size: Option<i64>,
    pub should_download: bool,
    pub is_downloaded: bool,
}

/// A node of the file tree: a regular file, or a directory with its entries.
#[derive(Debug)]
pub struct File {
    /// Name of the file or directory (the download directory for the root).
    pub name: String,
    /// Whether this node is a regular file or a directory.
    pub file_type: FileType,
    /// The entries of a directory, in the order in which they were first met; `None` for a
    /// regular file.
    pub inner_files: Option<Vec<File>>,
    /// Size in bytes of a regular file; `None` for a directory.
    pub size: Option<i64>,
    /// Whether the file is to be downloaded.
    pub should_download: bool,
    /// Whether the file has been downloaded completely.
    pub is_downloaded: bool,
}

impl File {
    /// The node as a value.
    pub open spec fn node(self) -> FileNode
        decreases self,
    {
        FileNode {
            name: self.name@,
            file_type: self.file_type,
            inner_files: match self.inner_files {
                Some(v) => Some(File::nodes(v@)),
                None => None,
            },
            size: self.size,
            should_download: self.should_download,
            is_downloaded: self.is_downloaded,
        }
    }

    /// A sequence of nodes as values.
    pub open spec fn nodes(s: Seq<File>) -> Seq<FileNode>
        decreases s,
    {
        if s.len() == 0 {
            Seq::empty()
        } else {
            File::nodes(s.drop_last()).push(s.last().node())
        }
    }
}


/// The index of the first entry named `name`, or -1 where none is.
pub open spec fn first_named(entries: Seq<FileNode>, name: Seq<char>) -> int
    decreases entries.len(),
{
    if entries.len() == 0 {
        -1
    } else {
        let r = first_named(entries.drop_last(), name);
        if r >= 0 {
            r
        } else if entries.last().name == name {
            entries.len() - 1
        } else {
            -1
        }
    }
}

/// Where `name` is found one level below `n`: the first entry of that name of a directory, or
/// 0 for a regular file that is itself so named.
pub open spec fn found_at_depth_one(n: FileNode, name: Seq<char>) -> Option<int> {
    match n.inner_files {
        Some(c) => if first_named(c, name) >= 0 {
            Some(first_named(c, name))
        } else {
            None
        },
        None => if n.name == name {
            Some(0)
        } else {
            None
        },
    }
}

/// The entry made for the component `name` of a path: a regular file of `length` bytes when
/// it is the last component, else an empty directory.
pub open spec fn new_entry(name: Seq<char>, last: bool, length: i64) -> FileNode {
    FileNode {
        name,
        file_type: if last {
            FileType::Regular
        } else {
            FileType::Directory
        },
        inner_files: if last {
            None
        } else {
            Some(Seq::empty())
        },
        size: if last {
            Some(length)
        } else {
            None
        },
        should_download: true,
        is_downloaded: false,
    }
}

/// `n` with the file at `path` (relative to `n`) of `length` bytes added: each component is
/// looked up among the entries of the current directory and entered where it is there, else
/// appended as a new entry.
pub open spec fn insert_path(n: FileNode, path: Seq<Seq<char>>, length: i64) -> FileNode
    decreases path.len(),
{
    if path.len() == 0 {
        n
    } else {
        match n.inner_files {
            Some(c) => {
                let i = first_named(c, path[0]);
                if i >= 0 {
                    FileNode {
                        inner_files: Some(c.update(i, insert_path(c[i], path.drop_first(), length))),
                        ..n
                    }
                } else {
                    FileNode {
                        inner_files: Some(
                            c.push(
                                insert_path(
                                    new_entry(path[0], path.len() == 1, length),
                                    path.drop_first(),
                                    length,
                                ),
                            ),
                        ),
                        ..n
                    }
                }
            },
            None => n,
        }
    }
}

/// Adding `path` below `n` never has to enter a regular file.
pub open spec fn insertable(n: FileNode, path: Seq<Seq<char>>) -> bool
    decreases path.len(),
{
    path.len() == 0 || match n.inner_files {
        Some(c) => {
            let i = first_named(c, path[0]);
            i < 0 || insertable(c[i], path.drop_first())
        },
        None => false,
    }
}

/// The path and the length of each file of a multi-file torrent.
pub open spec fn file_entries(files: Seq<MetaFile>) -> Seq<(Seq<Seq<char>>, i64)> {
    files.map_values(|f: MetaFile| (texts(f.path@), f.length))
}

/// `root` with the files added in order.
pub open spec fn with_files(root: FileNode, files: Seq<(Seq<Seq<char>>, i64)>) -> FileNode
    decreases files.len(),
{
    if files.len() == 0 {
        root
    } else {
        insert_path(with_files(root, files.drop_last()), files.last().0, files.last().1)
    }
}

/// No file of the list has to be added inside a regular file added before it.
pub open spec fn files_insertable(root: FileNode, files: Seq<(Seq<Seq<char>>, i64)>) -> bool {
    forall|k: int|
        0 <= k < files.len() ==> #[trigger] insertable(with_files(root, files.take(k)), files[k].0)
}

/// The file tree of a torrent can be built: no file of a multi-file torrent has to be added
/// inside a regular file added before it.
pub open spec fn tree_buildable(meta: FileMeta, directory: Seq<char>) -> bool {
    match meta.info.files {
        Some(files) => files_insertable(root_directory(directory), file_entries(files@)),
        None => true,
    }
}

/// The empty directory at the root of a multi-file torrent.
pub open spec fn root_directory(directory: Seq<char>) -> FileNode {
    FileNode {
        name: directory,
        file_type: FileType::Directory,
        inner_files: Some(Seq::empty()),
        size: None,
        should_download: true,
        is_downloaded: false,
    }
}

/// The file tree of a torrent downloaded into `directory`: for a multi-file torrent, a directory
/// named `directory` holding the torrent's files; for a single file, that file, named by the
/// torrent (or `directory` where the torrent names nothing) and sized by its length.
pub open spec fn file_tree(meta: FileMeta, directory: Seq<char>) -> FileNode {
    match meta.info.files {
        Some(files) => with_files(root_directory(directory), file_entries(files@)),
        None => FileNode {
            name: match meta.info.name {
                Some(n) => n@,
                None => directory,
            },
            file_type: FileType::Regular,
            inner_files: None,
            size: meta.info.length,
            should_download: true,
            is_downloaded: false,
        },
    }
}

/// `n` spaces.
pub open spec fn spaces(n: nat) -> Seq<char> {
    Seq::new(n, |i: int| ' ')
}

/// The names of a tree, one line per node in depth-first order, each indented by one space
/// per level below the node the listing starts from (which is indented by `depth`).
pub open spec fn traverse_names(n: FileNode, depth: nat) -> Seq<Seq<char>>
    decreases n,
{
    let line = seq![spaces(depth) + n.name];
    match n.file_type {
        FileType::Regular => line,
        FileType::Directory => match n.inner_files {
            Some(c) => line + traverse_entries(c, depth + 1),
            None => line,
        },
    }
}

/// The listings of the entries of a directory, one after the other.
pub open spec fn traverse_entries(c: Seq<FileNode>, depth: nat) -> Seq<Seq<char>>
    decreases c,
{
    if c.len() == 0 {
        Seq::empty()
    } else {
        traverse_entries(c.drop_last(), depth) + traverse_names(c.last(), depth)
    }
}

/// The number of levels of directories below a node.
pub open spec fn height(n: FileNode) -> nat
    decreases n,
{
    match n.inner_files {
        Some(c) => 1 + heights(c),
        None => 0,
    }
}

/// The largest height among entries.
pub open spec fn heights(c: Seq<FileNode>) -> nat
    decreases c,
{
    if c.len() == 0 {
        0
    } else {
        let a = heights(c.drop_last());
        let b = height(c.last());
        if a >= b {
            a
        } else {
            b
        }
    }
}

proof fn lemma_heights(c: Seq<FileNode>)
    ensures
        forall|j: int| 0 <= j < c.len() ==> height(#[trigger] c[j]) <= heights(c),
    decreases c.len(),
{
    if c.len() > 0 {
        lemma_heights(c.drop_last());
        assert forall|j: int| 0 <= j < c.len() implies height(#[trigger] c[j]) <= heights(c) by {
            if j < c.len() - 1 {
                assert(c.drop_last()[j] == c[j]);
            }
        }
    }
}

/// Following `path` down from `n`, entering at each level the first entry of the
/// component's name, never fails.
pub open spec fn path_found(n: FileNode, path: Seq<Seq<char>>) -> bool
    decreases path.len(),
{
    path.len() == 0 || match n.inner_files {
        Some(c) => {
            let i = first_named(c, path[0]);
            i >= 0 && path_found(c[i], path.drop_first())
        },
        None => false,
    }
}

proof fn lemma_first_named_update(c: Seq<FileNode>, i: int, x: FileNode, name: Seq<char>)
    requires
        0 <= i < c.len(),
        x.name == c[i].name,
    ensures
        first_named(c.update(i, x), name) == first_named(c, name),
    decreases c.len(),
{
    if i < c.len() - 1 {
        assert(c.update(i, x).drop_last() =~= c.drop_last().update(i, x));
        lemma_first_named_update(c.drop_last(), i, x, name);
    } else {
        assert(c.update(i, x).drop_last() =~= c.drop_last());
    }
}

proof fn lemma_first_named_push(c: Seq<FileNode>, y: FileNode, name: Seq<char>)
    ensures
        first_named(c, name) >= 0 ==> first_named(c.push(y), name) == first_named(c, name),
        first_named(c, name) < 0 && y.name == name ==> first_named(c.push(y), name) == c.len(),
{
    assert(c.push(y).drop_last() =~= c);
}

/// Adding a file keeps the name of the node it is added below.
proof fn lemma_insert_keeps_name(n: FileNode, p: Seq<Seq<char>>, length: i64)
    ensures
        insert_path(n, p, length).name == n.name,
        n.inner_files is Some ==> insert_path(n, p, length).inner_files is Some,
{
}

/// After a file is added, its path can be followed down from the node it was added below.
pub proof fn lemma_inserted_path_found(n: FileNode, p: Seq<Seq<char>>, length: i64)
    requires
        insertable(n, p),
    ensures
        path_found(insert_path(n, p, length), p),
    decreases p.len(),
{
    if p.len() > 0 {
        let c = n.inner_files->0;
        let i = first_named(c, p[0]);
        lemma_first_named_bounds(c, p[0]);
        if i >= 0 {
            lemma_inserted_path_found(c[i], p.drop_first(), length);
            let x = insert_path(c[i], p.drop_first(), length);
            lemma_insert_keeps_name(c[i], p.drop_first(), length);
            lemma_first_named_update(c, i, x, p[0]);
            assert(c.update(i, x)[i] == x);
        } else {
            let e = new_entry(p[0], p.len() == 1, length);
            if p.len() > 1 {
                assert(insertable(e, p.drop_first())) by {
                    assert(first_named(Seq::<FileNode>::empty(), p.drop_first()[0]) == -1);
                }
            }
            lemma_inserted_path_found(e, p.drop_first(), length);
            let y = insert_path(e, p.drop_first(), length);
            lemma_insert_keeps_name(e, p.drop_first(), length);
            lemma_first_named_push(c, y, p[0]);
            assert(c.push(y)[c.len() as int] == y);
        }
    }
}

/// Adding a file keeps every path that could be followed before.
pub proof fn lemma_insert_keeps_paths(n: FileNode, p: Seq<Seq<char>>, length: i64, q: Seq<Seq<char>>)
    requires
        path_found(n, q),
    ensures
        path_found(insert_path(n, p, length), q),
    decreases q.len(),
{
    if q.len() > 0 && p.len() > 0 {
        let c = n.inner_files->0;
        let j = first_named(c, q[0]);
        let i = first_named(c, p[0]);
        lemma_first_named_bounds(c, p[0]);
        lemma_first_named_bounds(c, q[0]);
        if i >= 0 {
            let x = insert_path(c[i], p.drop_first(), length);
            lemma_insert_keeps_name(c[i], p.drop_first(), length);
            lemma_first_named_update(c, i, x, q[0]);
            if i == j {
                lemma_insert_keeps_paths(c[i], p.drop_first(), length, q.drop_first());
            }
            assert(c.update(i, x)[j] == if i == j { x } else { c[j] });
        } else {
            let e = new_entry(p[0], p.len() == 1, length);
            let y = insert_path(e, p.drop_first(), length);
            lemma_first_named_push(c, y, q[0]);
            assert(c.push(y)[j] == c[j]);
        }
    }
}

/// Every file of a multi-file torrent can be found in its tree by following its path from
/// the root directory.
pub proof fn lemma_tree_holds_every_file(meta: FileMeta, directory: Seq<char>, k: int)
    requires
        tree_buildable(meta, directory),
        meta.info.files is Some,
        0 <= k < meta.info.files->0@.len(),
    ensures
        path_found(file_tree(meta, directory), texts(meta.info.files->0@[k].path@)),
{
    let es = file_entries(meta.info.files->0@);
    let r0 = root_directory(directory);
    lemma_with_files_keeps_paths(r0, es, k);
}

proof fn lemma_with_files_keeps_paths(root: FileNode, es: Seq<(Seq<Seq<char>>, i64)>, k: int)
    requires
        files_insertable(root, es),
        0 <= k < es.len(),
    ensures
        path_found(with_files(root, es), es[k].0),
    decreases es.len(),
{
    let last = es.len() - 1;
    assert(es.take(last) =~= es.drop_last());
    assert(insertable(with_files(root, es.take(last)), es[last].0));
    if k == last {
        lemma_inserted_path_found(with_files(root, es.drop_last()), es.last().0, es.last().1);
    } else {
        assert forall|j: int| 0 <= j < es.drop_last().len() implies #[trigger] insertable(
            with_files(root, es.drop_last().take(j)),
            es.drop_last()[j].0,
        ) by {
            assert(es.drop_last().take(j) =~= es.take(j));
            assert(insertable(with_files(root, es.take(j)), es[j].0));
        }
        lemma_with_files_keeps_paths(root, es.drop_last(), k);
        lemma_insert_keeps_paths(with_files(root, es.drop_last()), es.last().0, es.last().1, es[k].0);
    }
}

proof fn lemma_nodes(s: Seq<File>)
    ensures
        File::nodes(s).len() == s.len(),
        forall|j: int| 0 <= j < s.len() ==> #[trigger] File::nodes(s)[j] == s[j].node(),
    decreases s.len(),
{
    if s.len() > 0 {
        lemma_nodes(s.drop_last());
    }
}

proof fn lemma_first_named_prefix(s: Seq<FileNode>, name: Seq<char>, k: int)
    requires
        0 <= k <= s.len(),
        first_named(s.take(k), name) >= 0,
    ensures
        first_named(s, name) == first_named(s.take(k), name),
    decreases s.len() - k,
{
    if k < s.len() {
        assert(s.take(k + 1).drop_last() =~= s.take(k));
        lemma_first_named_prefix(s, name, k + 1);
    } else {
        assert(s.take(k) =~= s);
    }
}

proof fn lemma_first_named_bounds(s: Seq<FileNode>, name: Seq<char>)
    ensures
        -1 <= first_named(s, name) < s.len(),
        first_named(s, name) >= 0 ==> s[first_named(s, name)].name == name,
    decreases s.len(),
{
    if s.len() > 0 {
        lemma_first_named_bounds(s.drop_last(), name);
    }
}

impl File {
    /// Where `name` is found one level below this node: the index of the first entry of that
    /// name of a directory, or 0 for a regular file that is itself so named.
    #[allow(non_snake_case)]
    pub fn containsAtDepthOne(&self, name: &String) -> (r: Option<usize>)
        ensures
            r matches Some(i) ==> found_at_depth_one(self.node(), name@) == Some(i as int),
            r is None ==> found_at_depth_one(self.node(), name@) is None,
    {
        match &self.inner_files {
            Some(v) => {
                let ghost c = File::nodes(v@);
                proof {
                    lemma_nodes(v@);
                }
                assert(self.node().inner_files == Some(c));
                let mut i: usize = 0;
                while i < v.len()
                    invariant
                        i <= v.len(),
                        self.node().inner_files == Some(c),
                        c == File::nodes(v@),
                        c.len() == v@.len(),
                        forall|j: int| 0 <= j < v@.len() ==> #[trigger] c[j] == v@[j].node(),
                        first_named(c.take(i as int), name@) == -1,
                    decreases v.len() - i,
                {
                    assert(c.take(i + 1).drop_last() =~= c.take(i as int));
                    if str_eq(v[i].name.as_str(), name.as_str()) {
                        assert(c[i as int].name == name@);
                        assert(c.take(i + 1).last() == c[i as int]);
                        assert(first_named(c.take(i + 1), name@) == i);
                        proof {
                            lemma_first_named_prefix(c, name@, i + 1);
                        }
                        return Some(i);
                    }
                    i = i + 1;
                }
                assert(c.take(i as int) =~= c);
                None
            },
            None => {
                if str_eq(self.name.as_str(), name.as_str()) {
                    Some(0)
                } else {
                    None
                }
            },
        }
    }
}

impl File {
    /// Appends to a directory a new entry `name` of the given type and size, a regular file
    /// without entries or an empty directory; a regular file is left as it is.
    #[allow(non_snake_case)]
    fn constructDirectoryOrFile(&mut self, name: &String, file_type: FileType, size: Option<i64>)
        ensures
            final(self).node() == (match old(self).node().inner_files {
                Some(c) => FileNode {
                    inner_files: Some(
                        c.push(
                            FileNode {
                                name: name@,
                                file_type,
                                inner_files: if file_type == FileType::Regular {
                                    None
                                } else {
                                    Some(Seq::empty())
                                },
                                size,
                                should_download: true,
                                is_downloaded: false,
                            },
                        ),
                    ),
                    ..old(self).node()
                },
                None => old(self).node(),
            }),
    {
        let entry = File {
            name: name.clone(),
            file_type,
            inner_files: if file_type == FileType::Regular {
                None
            } else {
                Some(Vec::new())
            },
            size,
            should_download: true,
            is_downloaded: false,
        };
        assert(entry.inner_files matches Some(v) ==> File::nodes(v@) =~= Seq::<FileNode>::empty());
        let ghost before = self.node();
        match self.inner_files.take() {
            Some(v) => {
                let mut v = v;
                let ghost old_v = v@;
                v.push(entry);
                assert(v@.drop_last() =~= old_v);
                assert(File::nodes(v@) == File::nodes(old_v).push(entry.node()));
                self.inner_files = Some(v);
                assert(self.node().inner_files == Some(File::nodes(old_v).push(entry.node())));
            },
            None => {
                assert(self.node() == before);
            },
        }
    }

    /// This node with the file at `path[from..]` of `length` bytes added below it, or `None`
    /// where that would have to enter a regular file.
    fn add_path(node: File, path: &Vec<String>, from: usize, length: i64) -> (r: Option<File>)
        requires
            from <= path.len(),
        ensures
            r is Some <==> insertable(node.node(), texts(path@).skip(from as int)),
            r matches Some(t) ==> t.node() == insert_path(
                node.node(),
                texts(path@).skip(from as int),
                length,
            ),
        decreases path.len() - from,
    {
        let ghost p = texts(path@).skip(from as int);
        if from >= path.len() {
            assert(p.len() == 0);
            return Some(node);
        }
        assert(p[0] == path@[from as int]@);
        assert(p.drop_first() =~= texts(path@).skip(from + 1));
        let mut node = node;
        let ghost before = node.node();
        if node.inner_files.is_none() {
            return None;
        }
        let ghost c = before.inner_files->0;
        proof {
            lemma_first_named_bounds(c, p[0]);
        }
        let i: usize = match node.containsAtDepthOne(&path[from]) {
            Some(i) => i,
            None => {
                let last = from + 1 == path.len();
                let file_type = if last {
                    FileType::Regular
                } else {
                    FileType::Directory
                };
                let size = if last {
                    Some(length)
                } else {
                    None
                };
                node.constructDirectoryOrFile(&path[from], file_type, size);
                assert(node.node().inner_files == Some(c.push(new_entry(p[0], p.len() == 1, length))));
                assert(insertable(new_entry(p[0], p.len() == 1, length), p.drop_first()));
                proof {
                    lemma_nodes(node.inner_files->0@);
                }
                match &node.inner_files {
                    Some(v) => v.len() - 1,
                    None => 0,
                }
            },
        };
        let ghost ne = new_entry(p[0], p.len() == 1, length);
        let ghost found = first_named(c, p[0]) >= 0;
        let ghost mid = node.node();
        assert(found ==> i == first_named(c, p[0]) && mid == before);
        assert(!found ==> i == c.len() && mid == FileNode { inner_files: Some(c.push(ne)), ..before });
        let File { name, file_type, inner_files, size, should_download, is_downloaded } = node;
        let mut children = match inner_files {
            Some(v) => v,
            None => Vec::new(),
        };
        assert(File::nodes(children@) == mid.inner_files->0);
        proof {
            lemma_nodes(children@);
        }
        let ghost cs = children@;
        assert(i < cs.len());
        assert(File::nodes(cs)[i as int] == cs[i as int].node());
        assert(!found ==> c.push(ne)[i as int] == ne);
        let child = children.remove(i);
        assert(child.node() == (if found { c[i as int] } else { ne }));
        assert(p.drop_first() =~= texts(path@).skip(from + 1));
        match File::add_path(child, path, from + 1, length) {
            Some(t) => {
                children.insert(i, t);
                proof {
                    lemma_nodes(children@);
                }
                let r = File {
                    name,
                    file_type,
                    inner_files: Some(children),
                    size,
                    should_download,
                    is_downloaded,
                };
                assert(File::nodes(children@) =~= File::nodes(cs).update(i as int, t.node()));
                assert(!found ==> c.push(ne).update(i as int, t.node()) =~= c.push(t.node()));
                assert(r.node() == insert_path(before, p, length));
                Some(r)
            },
            None => None,
        }
    }
}

impl File {
    /// The file tree of a torrent downloaded into `directory`: for a multi-file torrent a
    /// directory named `directory` that holds each file at its path, for a single-file torrent
    /// that file. `None` where a file of the torrent would lie inside another of its files.
    pub fn try_new(meta: &FileMeta, directory: &String) -> (r: Option<File>)
        ensures
            r is Some <==> tree_buildable(*meta, directory@),
            r matches Some(t) ==> t.node() == file_tree(*meta, directory@),
    {
        let mut root = File {
            name: directory.clone(),
            file_type: FileType::Directory,
            inner_files: Some(Vec::new()),
            size: None,
            should_download: true,
            is_downloaded: false,
        };
        match &meta.info.files {
            Some(files) => {
                let ghost es = file_entries(files@);
                let ghost r0 = root_directory(directory@);
                assert(File::nodes(Seq::<File>::empty()) =~= Seq::<FileNode>::empty());
                assert(es.take(0) =~= Seq::<(Seq<Seq<char>>, i64)>::empty());
                let mut k: usize = 0;
                while k < files.len()
                    invariant
                        k <= files.len(),
                        meta.info.files == Some(*files),
                        es == file_entries(files@),
                        r0 == root_directory(directory@),
                        root.node() == with_files(r0, es.take(k as int)),
                        forall|j: int|
                            0 <= j < k ==> #[trigger] insertable(
                                with_files(r0, es.take(j)),
                                es[j].0,
                            ),
                    decreases files.len() - k,
                {
                    assert(es.take(k + 1).drop_last() =~= es.take(k as int));
                    assert(es[k as int].0 == texts(files@[k as int].path@));
                    assert(texts(files@[k as int].path@).skip(0) =~= texts(files@[k as int].path@));
                    match File::add_path(root, &files[k].path, 0, files[k].length) {
                        Some(t) => {
                            root = t;
                        },
                        None => {
                            assert(!insertable(with_files(r0, es.take(k as int)), es[k as int].0));
                            return None;
                        },
                    }
                    k = k + 1;
                }
                assert(es.take(k as int) =~= es);
                Some(root)
            },
            None => {
                root.file_type = FileType::Regular;
                root.inner_files = None;
                match &meta.info.name {
                    Some(name) => {
                        root.name = name.clone();
                    },
                    None => {},
                }
                root.size = meta.info.length;
                Some(root)
            },
        }
    }

    /// The file tree of a torrent downloaded into `directory` (see `try_new`), for a torrent
    /// none of whose files lies inside another.
    pub fn new(meta: &FileMeta, directory: &String) -> (r: File)
        requires
            tree_buildable(*meta, directory@),
        ensures
            r.node() == file_tree(*meta, directory@),
    {
        match File::try_new(meta, directory) {
            Some(t) => t,
            None => File {
                name: directory.clone(),
                file_type: FileType::Directory,
                inner_files: None,
                size: None,
                should_download: true,
                is_downloaded: false,
            },
        }
    }
}

impl File {
    /// The names of the tree, one per line in depth-first order, each indented by `depth`
    /// spaces plus one per level below this node.
    pub fn tabs_traverse_names(&self, depth: usize) -> (x: Vec<String>)
        requires
            depth + height(self.node()) <= usize::MAX,
        ensures
            texts(x@) == traverse_names(self.node(), depth as nat),
        decreases height(self.node()),
    {
        let mut line = String::new();
        let mut k: usize = 0;
        while k < depth
            invariant
                k <= depth,
                line@ == spaces(k as nat),
            decreases depth - k,
        {
            proof {
                reveal_strlit(" ");
            }
            line.append(" ");
            assert(line@ =~= spaces((k + 1) as nat));
            k = k + 1;
        }
        line.append(self.name.as_str());
        let mut x: Vec<String> = Vec::new();
        x.push(line);
        let ghost first = seq![spaces(depth as nat) + self.name@];
        assert(texts(x@) =~= first);
        if self.file_type == FileType::Directory {
            match &self.inner_files {
                Some(v) => {
                    let ghost c = File::nodes(v@);
                    proof {
                        lemma_nodes(v@);
                        lemma_heights(c);
                    }
                    assert(c.take(0) =~= Seq::<FileNode>::empty());
                    let mut i: usize = 0;
                    while i < v.len()
                        invariant
                            i <= v.len(),
                            self.node().inner_files == Some(c),
                            c == File::nodes(v@),
                            c.len() == v@.len(),
                            forall|j: int| 0 <= j < v@.len() ==> #[trigger] c[j] == v@[j].node(),
                            forall|j: int| 0 <= j < c.len() ==> height(#[trigger] c[j]) <= heights(c),
                            depth + height(self.node()) <= usize::MAX,
                            texts(x@) == first + traverse_entries(c.take(i as int), (depth + 1) as nat),
                        decreases v.len() - i,
                    {
                        assert(height(c[i as int]) <= heights(c));
                        let mut files = v[i].tabs_traverse_names(depth + 1);
                        let ghost before = x@;
                        let ghost fv = files@;
                        x.append(&mut files);
                        assert(c.take(i + 1).drop_last() =~= c.take(i as int));
                        assert(c.take(i + 1).last() == c[i as int]);
                        assert(texts(x@) =~= texts(before) + texts(fv));
                        assert(traverse_entries(c.take(i + 1), (depth + 1) as nat) == traverse_entries(
                            c.take(i as int),
                            (depth + 1) as nat,
                        ) + traverse_names(c[i as int], (depth + 1) as nat));
                        assert(texts(x@) =~= first + traverse_entries(
                            c.take(i + 1),
                            (depth + 1) as nat,
                        ));
                        i = i + 1;
                    }
                    assert(c.take(i as int) =~= c);
                },
                None => {},
            }
        }
        x
    }
}

} // verus!
