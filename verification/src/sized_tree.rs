//! A file tree whose every node carries a size: a root `/` that holds the files of a torrent at
//! their paths. A file's node carries the file's length; a directory has no size of its own, so
//! the size of a directory is the total of the files below it.
use crate::magnet::texts;
use crate::text::str_eq;
use crate::torrent::{File as MetaFile, FileType};
use vstd::prelude::*;

verus! {

/// What a node holds, as a value.
pub ghost struct SizedNode {
    pub name: Seq<char>,
    pub file_type: FileType,
    pub inner_files: Option<Seq<SizedNode>>,
    pub size: i64,
    pub should_download: bool,
}

/// A node of the tree: a regular file, or a directory with its entries.
#[derive(Debug)]
pub struct File {
    pub name: String,
    pub file_type: FileType,
    /// The entries of a directory; `None` for a regular file.
    pub inner_files: Option<Vec<File>>,
    /// The size of the node itself in bytes.
    pub size: i64,
    /// Whether to download the file; for a directory, its files.
    pub should_download: bool,
}

impl File {
    /// The node as a value.
    pub open spec fn node(self) -> SizedNode
        decreases self,
    {
        SizedNode {
            name: self.name@,
            file_type: self.file_type,
            inner_files: match self.inner_files {
                Some(v) => Some(File::nodes(v@)),
                None => None,
            },
            size: self.size,
            should_download: self.should_download,
        }
    }

    /// A sequence of nodes as values.
    pub open spec fn nodes(s: Seq<File>) -> Seq<SizedNode>
        decreases s,
    {
        if s.len() == 0 {
            Seq::empty()
        } else {
            File::nodes(s.drop_last()).push(s.last().node())
        }
    }
}

/// The index of the last entry named `name`, or -1 where none is.
pub open spec fn last_named(entries: Seq<SizedNode>, name: Seq<char>) -> int
    decreases entries.len(),
{
    if entries.len() == 0 {
        -1
    } else if entries.last().name == name {
        entries.len() - 1
    } else {
        last_named(entries.drop_last(), name)
    }
}

/// The node made for a component of a file's path: a regular file of the file's length for the
/// last component, an empty directory of no size of its own before it.
pub open spec fn path_node(name: Seq<char>, last: bool, length: i64) -> SizedNode {
    SizedNode {
        name,
        file_type: if last {
            FileType::Regular
        } else {
            FileType::Directory
        },
        inner_files: if last {
            None
        } else {
            Some(Seq::empty())
        },
        size: if last {
            length
        } else {
            0
        },
        should_download: true,
    }
}

/// `n` with the file at `path` of `length` bytes added below it: each component is looked up
/// among the entries of the current directory (the last entry of that name) and entered, or
/// appended as a new node. Below a regular file nothing is added.
pub open spec fn add_path(n: SizedNode, path: Seq<Seq<char>>, length: i64) -> SizedNode
    decreases path.len(),
{
    if path.len() == 0 {
        n
    } else {
        match n.inner_files {
            Some(c) => {
                let i = last_named(c, path[0]);
                if i >= 0 {
                    SizedNode {
                        inner_files: Some(c.update(i, add_path(c[i], path.drop_first(), length))),
                        ..n
                    }
                } else {
                    SizedNode {
                        inner_files: Some(
                            c.push(
                                add_path(
                                    path_node(path[0], path.len() == 1, length),
                                    path.drop_first(),
                                    length,
                                ),
                            ),
                        ),
                        ..n
                    }
                }
            },
            None => n,
        }
    }
}

/// `root` with the files added in order.
pub open spec fn add_files(root: SizedNode, files: Seq<(Seq<Seq<char>>, i64)>) -> SizedNode
    decreases files.len(),
{
    if files.len() == 0 {
        root
    } else {
        add_path(add_files(root, files.drop_last()), files.last().0, files.last().1)
    }
}

/// The path and the length of each file.
pub open spec fn path_entries(files: Seq<MetaFile>) -> Seq<(Seq<Seq<char>>, i64)> {
    files.map_values(|f: MetaFile| (texts(f.path@), f.length))
}

/// The size of a node and everything below it.
pub open spec fn total_size(n: SizedNode) -> int
    decreases n,
{
    match n.inner_files {
        Some(c) => n.size + total_sizes(c),
        None => n.size as int,
    }
}

/// The sum of the total sizes of entries.
pub open spec fn total_sizes(c: Seq<SizedNode>) -> int
    decreases c,
{
    if c.len() == 0 {
        0
    } else {
        total_sizes(c.drop_last()) + total_size(c.last())
    }
}

/// Whether an integer fits in an `i64`.
pub open spec fn fits_i64(x: int) -> bool {
    i64::MIN <= x <= i64::MAX
}

/// Adding up the sizes of `n` and everything below it, node by node, stays within `i64`.
pub open spec fn sizes_fit(n: SizedNode) -> bool
    decreases n,
{
    match n.inner_files {
        Some(c) => entries_fit(n.size as int, c),
        None => true,
    }
}

/// Adding the total sizes of the entries to `base`, one by one, stays within `i64`.
pub open spec fn entries_fit(base: int, c: Seq<SizedNode>) -> bool
    decreases c,
{
    if c.len() == 0 {
        true
    } else {
        &&& entries_fit(base, c.drop_last())
        &&& sizes_fit(c.last())
        &&& fits_i64(total_size(c.last()))
        &&& fits_i64(base + total_sizes(c))
    }
}

/// The number of levels of directories below a node.
pub open spec fn height(n: SizedNode) -> nat
    decreases n,
{
    match n.inner_files {
        Some(c) => 1 + heights(c),
        None => 0,
    }
}

/// The largest height among entries.
pub open spec fn heights(c: Seq<SizedNode>) -> nat
    decreases c,
{
    if c.len() == 0 {
        0
    } else {
        let a = heights(c.drop_last());
        let b = height(c.last());
        if a >= b {
            a
        } else {
            b
        }
    }
}

proof fn lemma_heights(c: Seq<SizedNode>)
    ensures
        forall|j: int| 0 <= j < c.len() ==> height(#[trigger] c[j]) <= heights(c),
    decreases c.len(),
{
    if c.len() > 0 {
        lemma_heights(c.drop_last());
        assert forall|j: int| 0 <= j < c.len() implies height(#[trigger] c[j]) <= heights(c) by {
            if j < c.len() - 1 {
                assert(c.drop_last()[j] == c[j]);
            }
        }
    }
}

proof fn lemma_nodes(s: Seq<File>)
    ensures
        File::nodes(s).len() == s.len(),
        forall|j: int| 0 <= j < s.len() ==> #[trigger] File::nodes(s)[j] == s[j].node(),
    decreases s.len(),
{
    if s.len() > 0 {
        lemma_nodes(s.drop_last());
    }
}

proof fn lemma_last_named_bounds(s: Seq<SizedNode>, name: Seq<char>)
    ensures
        -1 <= last_named(s, name) < s.len(),
        last_named(s, name) >= 0 ==> s[last_named(s, name)].name == name,
    decreases s.len(),
{
    if s.len() > 0 {
        lemma_last_named_bounds(s.drop_last(), name);
    }
}

/// `/`
pub open spec fn root_name() -> Seq<char> {
    seq!['/']
}

impl File {
    /// The root of a tree: a directory named `/`, of size 0, without entries yet.
    #[allow(non_snake_case)]
    pub fn createRoot() -> (r: File)
        ensures
            r.node() == (SizedNode {
                name: root_name(),
                file_type: FileType::Directory,
                inner_files: Some(Seq::empty()),
                size: 0,
                should_download: true,
            }),
    {
        proof {
            reveal_strlit("/");
        }
        let r = File {
            name: String::from_str("/"),
            file_type: FileType::Directory,
            inner_files: Some(Vec::new()),
            size: 0,
            should_download: true,
        };
        assert(File::nodes(Seq::<File>::empty()) =~= Seq::<SizedNode>::empty());
        assert("/"@ =~= root_name());
        r
    }

    /// Looks `name` up among the entries of this node: the index of the last entry so named
    /// and `true`, or `(None, false)` where there is none (always for a regular file).
    pub fn contains(&self, name: &String) -> (r: (Option<usize>, bool))
        ensures
            (match self.node().inner_files {
                Some(c) => if last_named(c, name@) >= 0 {
                    (r.0 matches Some(k) && k == last_named(c, name@)) && r.1
                } else {
                    r.0 is None && !r.1
                },
                None => r.0 is None && !r.1,
            }),
    {
        let mut index: Option<usize> = None;
        let mut found = false;
        match &self.inner_files {
            Some(files) => {
                let ghost c = File::nodes(files@);
                proof {
                    lemma_nodes(files@);
                }
                assert(self.node().inner_files == Some(c));
                assert(c.take(0) =~= Seq::<SizedNode>::empty());
                let mut i: usize = 0;
                while i < files.len()
                    invariant
                        i <= files@.len(),
                        c == File::nodes(files@),
                        c.len() == files@.len(),
                        forall|j: int| 0 <= j < files@.len() ==> #[trigger] c[j] == files@[j].node(),
                        last_named(c.take(i as int), name@) >= 0 ==> (index matches Some(k) && k
                            == last_named(c.take(i as int), name@)) && found,
                        last_named(c.take(i as int), name@) < 0 ==> index is None && !found,
                    decreases files@.len() - i,
                {
                    assert(c.take(i + 1).drop_last() =~= c.take(i as int));
                    assert(c.take(i + 1).last() == c[i as int]);
                    if str_eq(files[i].name.as_str(), name.as_str()) {
                        index = Some(i);
                        found = true;
                    }
                    i = i + 1;
                }
                assert(c.take(i as int) =~= c);
            },
            None => {},
        }
        (index, found)
    }

    /// Appends `file` to the entries of a directory and returns its index; a regular file is
    /// left as it is, and 0 returned.
    pub fn add_file(&mut self, file: File) -> (i: usize)
        ensures
            (match old(self).node().inner_files {
                Some(c) => final(self).node() == (SizedNode {
                    inner_files: Some(c.push(file.node())),
                    ..old(self).node()
                }) && i == c.len(),
                None => final(self).node() == old(self).node() && i == 0,
            }),
    {
        let ghost before = self.node();
        match self.inner_files.take() {
            Some(v) => {
                let mut v = v;
                let ghost old_v = v@;
                proof {
                    lemma_nodes(old_v);
                }
                v.push(file);
                assert(v@.drop_last() =~= old_v);
                let i = v.len() - 1;
                self.inner_files = Some(v);
                assert(self.node() == (SizedNode {
                    inner_files: Some(File::nodes(old_v).push(file.node())),
                    ..before
                }));
                i
            },
            None => {
                assert(self.node() == before);
                0
            },
        }
    }

    /// Flips whether the node is to be downloaded.
    #[allow(non_snake_case)]
    pub fn changeShouldDownload(&mut self)
        ensures
            final(self).node() == (SizedNode {
                should_download: !old(self).node().should_download,
                ..old(self).node()
            }),
    {
        let current = self.should_download;
        self.should_download = !current;
    }

    /// `node` with the file at `path[from..]` of `length` bytes added below it.
    fn add_path(node: File, path: &Vec<String>, from: usize, length: i64) -> (r: File)
        requires
            from <= path.len(),
        ensures
            r.node() == add_path(node.node(), texts(path@).skip(from as int), length),
        decreases path.len() - from,
    {
        let ghost p = texts(path@).skip(from as int);
        if from >= path.len() {
            assert(p.len() == 0);
            return node;
        }
        assert(p[0] == path@[from as int]@);
        assert(p.drop_first() =~= texts(path@).skip(from + 1));
        let mut node = node;
        let ghost before = node.node();
        if node.inner_files.is_none() {
            return node;
        }
        let ghost c = before.inner_files->0;
        proof {
            lemma_last_named_bounds(c, p[0]);
            lemma_nodes(node.inner_files->0@);
        }
        let (idx, found) = node.contains(&path[from]);
        let ghost pn = path_node(p[0], p.len() == 1, length);
        let i: usize = if found {
            match idx {
                Some(i) => i,
                None => 0,
            }
        } else {
            let last = from + 1 == path.len();
            let entry = File {
                name: path[from].clone(),
                file_type: if last {
                    FileType::Regular
                } else {
                    FileType::Directory
                },
                inner_files: if last {
                    None
                } else {
                    Some(Vec::new())
                },
                size: if last {
                    length
                } else {
                    0
                },
                should_download: true,
            };
            assert(entry.inner_files matches Some(v) ==> File::nodes(v@) =~= Seq::<SizedNode>::empty());
            assert(entry.node() == pn);
            node.add_file(entry)
        };
        let ghost mid = node.node();
        assert(found ==> last_named(c, p[0]) >= 0);
        assert(found ==> mid == before);
        assert(found ==> i == last_named(c, p[0]));
        assert(!found ==> i == c.len() && mid == SizedNode { inner_files: Some(c.push(pn)), ..before });
        let File { name, file_type, inner_files, size, should_download } = node;
        let mut children = match inner_files {
            Some(v) => v,
            None => Vec::new(),
        };
        assert(File::nodes(children@) == mid.inner_files->0);
        proof {
            lemma_nodes(children@);
        }
        let ghost cs = children@;
        assert(i < cs.len());
        assert(File::nodes(cs)[i as int] == cs[i as int].node());
        assert(!found ==> c.push(pn)[i as int] == pn);
        let child = children.remove(i);
        assert(child.node() == (if found { c[i as int] } else { pn }));
        let t = File::add_path(child, path, from + 1, length);
        children.insert(i, t);
        proof {
            lemma_nodes(children@);
        }
        let r = File { name, file_type, inner_files: Some(children), size, should_download };
        assert(File::nodes(children@) =~= File::nodes(cs).update(i as int, t.node()));
        assert(!found ==> c.push(pn).update(i as int, t.node()) =~= c.push(t.node()));
        assert(r.node() == add_path(before, p, length));
        r
    }

    /// Adds below `root` each file of `files`, in order, at its path.
    #[allow(non_snake_case)]
    pub fn createFileTree(root: &mut File, files: &Vec<MetaFile>)
        ensures
            final(root).node() == add_files(old(root).node(), path_entries(files@)),
    {
        let ghost es = path_entries(files@);
        let ghost start = root.node();
        let mut tree = File::createRoot();
        std::mem::swap(&mut tree, root);
        assert(tree.node() == start);
        assert(es.take(0) =~= Seq::<(Seq<Seq<char>>, i64)>::empty());
        let mut k: usize = 0;
        while k < files.len()
            invariant
                k <= files@.len(),
                es == path_entries(files@),
                tree.node() == add_files(start, es.take(k as int)),
            decreases files@.len() - k,
        {
            assert(es.take(k + 1).drop_last() =~= es.take(k as int));
            assert(es[k as int].0 == texts(files@[k as int].path@));
            assert(texts(files@[k as int].path@).skip(0) =~= texts(files@[k as int].path@));
            tree = File::add_path(tree, &files[k].path, 0, files[k].length);
            k = k + 1;
        }
        assert(es.take(k as int) =~= es);
        *root = tree;
    }

    /// The size of this node and of everything below it.
    pub fn size(&self) -> (s: i64)
        requires
            sizes_fit(self.node()),
        ensures
            s == total_size(self.node()),
        decreases height(self.node()),
    {
        match &self.inner_files {
            Some(files) => {
                let ghost c = File::nodes(files@);
                proof {
                    lemma_nodes(files@);
                    lemma_heights(c);
                }
                assert(self.node().inner_files == Some(c));
                assert(c.take(0) =~= Seq::<SizedNode>::empty());
                let mut size: i64 = self.size;
                let mut i: usize = 0;
                while i < files.len()
                    invariant
                        i <= files@.len(),
                        c == File::nodes(files@),
                        c.len() == files@.len(),
                        forall|j: int| 0 <= j < files@.len() ==> #[trigger] c[j] == files@[j].node(),
                        self.node().inner_files == Some(c),
                        entries_fit(self.size as int, c),
                        forall|j: int| 0 <= j < c.len() ==> height(#[trigger] c[j]) <= heights(c),
                        size == self.size + total_sizes(c.take(i as int)),
                    decreases files@.len() - i,
                {
                    assert(c.take(i + 1).drop_last() =~= c.take(i as int));
                    assert(c.take(i + 1).last() == c[i as int]);
                    proof {
                        lemma_entries_fit_prefix(self.size as int, c, i + 1);
                    }
                    assert(height(c[i as int]) <= heights(c));
                    let s = files[i].size();
                    size = size + s;
                    i = i + 1;
                }
                assert(c.take(i as int) =~= c);
                size
            },
            None => self.size,
        }
    }
}

proof fn lemma_entries_fit_prefix(base: int, c: Seq<SizedNode>, k: int)
    requires
        0 < k <= c.len(),
        entries_fit(base, c),
    ensures
        entries_fit(base, c.take(k)),
        sizes_fit(c[k - 1]),
        fits_i64(total_size(c[k - 1])),
        fits_i64(base + total_sizes(c.take(k))),
    decreases c.len() - k,
{
    if k == c.len() {
        assert(c.take(k) =~= c);
    } else {
        lemma_entries_fit_prefix(base, c.drop_last(), k);
        assert(c.drop_last().take(k) =~= c.take(k));
    }
}

/// Every directory at or below `n` has no size of its own.
pub open spec fn dirs_unsized(n: SizedNode) -> bool
    decreases n,
{
    match n.inner_files {
        Some(c) => n.size == 0 && all_unsized(c),
        None => true,
    }
}

/// Every directory at or below the entries has no size of its own.
pub open spec fn all_unsized(c: Seq<SizedNode>) -> bool
    decreases c,
{
    if c.len() == 0 {
        true
    } else {
        all_unsized(c.drop_last()) && dirs_unsized(c.last())
    }
}

/// The total length of the regular files at or below `n`.
pub open spec fn files_total(n: SizedNode) -> int
    decreases n,
{
    match n.inner_files {
        Some(c) => files_totals(c),
        None => n.size as int,
    }
}

/// The total length of the regular files at or below the entries.
pub open spec fn files_totals(c: Seq<SizedNode>) -> int
    decreases c,
{
    if c.len() == 0 {
        0
    } else {
        files_totals(c.drop_last()) + files_total(c.last())
    }
}

/// Where directories have no size of their own, the size of a node and everything below it is
/// the total length of the files below it.
pub proof fn lemma_unsized_total(n: SizedNode)
    requires
        dirs_unsized(n),
    ensures
        total_size(n) == files_total(n),
    decreases n, 1int,
{
    if let Some(c) = n.inner_files {
        lemma_unsized_totals(c);
    }
}

proof fn lemma_unsized_totals(c: Seq<SizedNode>)
    requires
        all_unsized(c),
    ensures
        total_sizes(c) == files_totals(c),
    decreases c, 0int,
{
    if c.len() > 0 {
        lemma_unsized_totals(c.drop_last());
        lemma_unsized_total(c.last());
    }
}

proof fn lemma_all_unsized(c: Seq<SizedNode>)
    ensures
        all_unsized(c) <==> forall|i: int| 0 <= i < c.len() ==> dirs_unsized(#[trigger] c[i]),
    decreases c.len(),
{
    if c.len() > 0 {
        lemma_all_unsized(c.drop_last());
        assert forall|i: int| 0 <= i < c.len() - 1 implies c.drop_last()[i] == c[i] by {}
        if forall|i: int| 0 <= i < c.len() ==> dirs_unsized(#[trigger] c[i]) {
            assert(dirs_unsized(c[c.len() - 1]));
            assert forall|i: int| 0 <= i < c.drop_last().len() implies dirs_unsized(
                #[trigger] c.drop_last()[i],
            ) by {
                assert(dirs_unsized(c[i]));
            }
        }
    }
}

proof fn lemma_add_path_unsized(n: SizedNode, path: Seq<Seq<char>>, length: i64)
    requires
        dirs_unsized(n),
    ensures
        dirs_unsized(add_path(n, path, length)),
    decreases path.len(),
{
    if path.len() > 0 {
        if let Some(c) = n.inner_files {
            lemma_all_unsized(c);
            let i = last_named(c, path[0]);
            lemma_last_named_bounds(c, path[0]);
            if i >= 0 {
                lemma_add_path_unsized(c[i], path.drop_first(), length);
                let c2 = c.update(i, add_path(c[i], path.drop_first(), length));
                assert forall|k: int| 0 <= k < c2.len() implies dirs_unsized(#[trigger] c2[k]) by {
                    if k != i {
                        assert(dirs_unsized(c[k]));
                    }
                }
                lemma_all_unsized(c2);
            } else {
                let pn = path_node(path[0], path.len() == 1, length);
                assert(all_unsized(Seq::<SizedNode>::empty()));
                assert(dirs_unsized(pn));
                lemma_add_path_unsized(pn, path.drop_first(), length);
                let c2 = c.push(add_path(pn, path.drop_first(), length));
                assert forall|k: int| 0 <= k < c2.len() implies dirs_unsized(#[trigger] c2[k]) by {
                    if k < c.len() {
                        assert(c2[k] == c[k]);
                        assert(dirs_unsized(c[k]));
                    }
                }
                lemma_all_unsized(c2);
            }
        }
    }
}

proof fn lemma_add_files_unsized(root: SizedNode, files: Seq<(Seq<Seq<char>>, i64)>)
    requires
        dirs_unsized(root),
    ensures
        dirs_unsized(add_files(root, files)),
    decreases files.len(),
{
    if files.len() > 0 {
        lemma_add_files_unsized(root, files.drop_last());
        lemma_add_path_unsized(add_files(root, files.drop_last()), files.last().0, files.last().1);
    }
}

/// A tree built from the root by adding files has no directory with a size of its own, so the
/// size of each of its directories, the root among them, is the total length of the files
/// below it.
pub proof fn lemma_directory_size_is_files_total(files: Seq<(Seq<Seq<char>>, i64)>)
    ensures
        ({
            let t = add_files(
                SizedNode {
                    name: root_name(),
                    file_type: FileType::Directory,
                    inner_files: Some(Seq::empty()),
                    size: 0,
                    should_download: true,
                },
                files,
            );
            &&& dirs_unsized(t)
            &&& total_size(t) == files_total(t)
        }),
{
    let root = SizedNode {
        name: root_name(),
        file_type: FileType::Directory,
        inner_files: Some(Seq::empty()),
        size: 0,
        should_download: true,
    };
    assert(all_unsized(Seq::<SizedNode>::empty()));
    lemma_add_files_unsized(root, files);
    lemma_unsized_total(add_files(root, files));
}

} // verus!
