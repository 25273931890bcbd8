//! Completions of a path typed after `:file`: the entries of the listed directory that match,
//! directories first, then torrent files, then by name.
use crate::command::{starts_with_str, texts_of, FileCompletionQuery};
use crate::magnet::has_prefix;
use crate::text::{ascii_lowercase, str_eq, to_ascii_lowercase};
use vstd::prelude::*;

verus! {

/// An entry of a listed directory.
#[derive(Debug, Clone)]
pub struct ListedEntry {
    pub name: String,
    pub is_dir: bool,
}

/// A completion and what it is ranked by.
#[derive(Debug)]
pub struct FileCompletion {
    /// The command line the completion stands for.
    pub command: String,
    pub is_dir: bool,
    /// Whether the entry's name ends with `.torrent`.
    pub is_torrent: bool,
    /// The entry's name in ASCII lower case.
    pub sort_name: String,
}

/// A completion as values: command, directory, torrent, sort name.
pub type CompletionView = (Seq<char>, bool, bool, Seq<char>);

impl View for FileCompletion {
    type V = CompletionView;

    open spec fn view(&self) -> CompletionView {
        (self.command@, self.is_dir, self.is_torrent, self.sort_name@)
    }
}

/// Whether `s` ends with `suffix`.
pub open spec fn has_suffix(s: Seq<char>, suffix: Seq<char>) -> bool {
    s.len() >= suffix.len() && s.subrange(s.len() - suffix.len(), s.len() as int) == suffix
}

/// `.torrent`
pub open spec fn torrent_extension() -> Seq<char> {
    seq!['.', 't', 'o', 'r', 'r', 'e', 'n', 't']
}

/// The completion for the entry `name` (a directory where `is_dir`) of the directory shown as
/// `parent`: `file <parent><name>`, with a `/` after a directory's name.
pub open spec fn completion_for(name: Seq<char>, is_dir: bool, parent: Seq<char>) -> CompletionView {
    (
        seq!['f', 'i', 'l', 'e', ' '] + parent + name + if is_dir {
            seq!['/']
        } else {
            Seq::empty()
        },
        is_dir,
        has_suffix(name, torrent_extension()),
        ascii_lowercase(name),
    )
}

/// The listed entries as values.
pub open spec fn entries_view(entries: Seq<ListedEntry>) -> Seq<(Seq<char>, bool)> {
    entries.map_values(|e: ListedEntry| (e.name@, e.is_dir))
}

/// The completions of the entries whose names start with `prefix`, in listing order, each with
/// the position of its entry in the listing.
pub open spec fn candidates(entries: Seq<(Seq<char>, bool)>, parent: Seq<char>, prefix: Seq<char>) -> Seq<
    (CompletionView, int),
>
    decreases entries.len(),
{
    if entries.len() == 0 {
        Seq::empty()
    } else {
        let c = candidates(entries.drop_last(), parent, prefix);
        let e = entries.last();
        if has_prefix(e.0, prefix) {
            c.push((completion_for(e.0, e.1, parent), entries.len() - 1))
        } else {
            c
        }
    }
}

/// Lexicographic order of texts by character code, a proper prefix first.
pub open spec fn char_lex_lt(a: Seq<char>, b: Seq<char>) -> bool
    decreases a.len(),
{
    if a.len() == 0 {
        b.len() > 0
    } else if b.len() == 0 {
        false
    } else if a[0] != b[0] {
        (a[0] as int) < (b[0] as int)
    } else {
        char_lex_lt(a.drop_first(), b.drop_first())
    }
}

/// `a` ranks before `b`: a directory before a file, then a torrent before anything else,
/// then the smaller sort name.
pub open spec fn ranks_before(a: CompletionView, b: CompletionView) -> bool {
    (a.1 && !b.1) || (a.1 == b.1 && ((a.2 && !b.2) || (a.2 == b.2 && char_lex_lt(a.3, b.3))))
}

/// `a` and `b` rank alike.
pub open spec fn same_rank(a: CompletionView, b: CompletionView) -> bool {
    a.1 == b.1 && a.2 == b.2 && a.3 == b.3
}

/// `x` comes before `y` in the list of completions: it ranks before it, or ranks alike and
/// its entry was listed first.
pub open spec fn precedes(x: (CompletionView, int), y: (CompletionView, int)) -> bool {
    ranks_before(x.0, y.0) || (same_rank(x.0, y.0) && x.1 < y.1)
}

/// Each element of `s` comes before every later one.
pub open spec fn strictly_sorted(s: Seq<(CompletionView, int)>) -> bool {
    forall|i: int, j: int| 0 <= i < j < s.len() ==> precedes(#[trigger] s[i], #[trigger] s[j])
}

/// `s` is `c` put in order: the same elements, each before every later one.
pub open spec fn ranked(c: Seq<(CompletionView, int)>, s: Seq<(CompletionView, int)>) -> bool {
    s.to_multiset() == c.to_multiset() && strictly_sorted(s)
}

/// The commands of the first `limit` elements of `s`.
pub open spec fn first_commands(s: Seq<(CompletionView, int)>, limit: nat) -> Seq<Seq<char>> {
    let n = if limit < s.len() {
        limit as int
    } else {
        s.len() as int
    };
    s.take(n).map_values(|x: (CompletionView, int)| x.0.0)
}

proof fn lemma_lex_total(a: Seq<char>, b: Seq<char>)
    ensures
        char_lex_lt(a, b) || char_lex_lt(b, a) || a == b,
        !(char_lex_lt(a, b) && char_lex_lt(b, a)),
        !char_lex_lt(a, a),
    decreases a.len(),
{
    if a.len() > 0 && b.len() > 0 {
        lemma_lex_total(a.drop_first(), b.drop_first());
        lemma_lex_total(a.drop_first(), a.drop_first());
        if a[0] != b[0] {
            assert((a[0] as int) != (b[0] as int));
        }
        if a[0] == b[0] && a.drop_first() == b.drop_first() {
            assert(a =~= seq![a[0]] + a.drop_first());
            assert(b =~= seq![b[0]] + b.drop_first());
        }
    } else if a.len() > 0 {
        lemma_lex_total(a.drop_first(), a.drop_first());
    } else if b.len() == 0 {
        assert(a =~= b);
    }
}

proof fn lemma_lex_trans(a: Seq<char>, b: Seq<char>, c: Seq<char>)
    requires
        char_lex_lt(a, b),
        char_lex_lt(b, c),
    ensures
        char_lex_lt(a, c),
    decreases a.len(),
{
    if a.len() > 0 && b.len() > 0 && c.len() > 0 && a[0] == b[0] && b[0] == c[0] {
        lemma_lex_trans(a.drop_first(), b.drop_first(), c.drop_first());
    }
}

proof fn lemma_precedes_order(x: (CompletionView, int), y: (CompletionView, int), z: (CompletionView, int))
    ensures
        precedes(x, y) && precedes(y, z) ==> precedes(x, z),
        x.1 != y.1 ==> precedes(x, y) || precedes(y, x),
        !(precedes(x, y) && precedes(y, x)),
{
    lemma_lex_total(x.0.3, y.0.3);
    lemma_lex_total(y.0.3, z.0.3);
    lemma_lex_total(x.0.3, z.0.3);
    if char_lex_lt(x.0.3, y.0.3) && char_lex_lt(y.0.3, z.0.3) {
        lemma_lex_trans(x.0.3, y.0.3, z.0.3);
    }
}

/// The ranked order of a list of completions is unique: two orderings of the same elements,
/// each putting every element before all later ones, are the same sequence. So the ranking
/// that `FilePathSuggester::suggestions_from` states determines its result.
pub proof fn lemma_ranking_unique(s1: Seq<(CompletionView, int)>, s2: Seq<(CompletionView, int)>)
    requires
        s1.to_multiset() == s2.to_multiset(),
        strictly_sorted(s1),
        strictly_sorted(s2),
    ensures
        s1 == s2,
    decreases s1.len(),
{
    vstd::seq_lib::to_multiset_len(s1);
    vstd::seq_lib::to_multiset_len(s2);
    if s1.len() == 0 {
        assert(s1 =~= s2);
    } else {
        let a = s1[0];
        let b = s2[0];
        vstd::seq_lib::to_multiset_contains(s1, a);
        vstd::seq_lib::to_multiset_contains(s2, a);
        vstd::seq_lib::to_multiset_contains(s1, b);
        vstd::seq_lib::to_multiset_contains(s2, b);
        assert(s1.contains(a));
        assert(s2.contains(b));
        let j = choose|j: int| 0 <= j < s2.len() && s2[j] == a;
        let i = choose|i: int| 0 <= i < s1.len() && s1[i] == b;
        lemma_precedes_order(a, b, a);
        if i > 0 && j > 0 {
            assert(precedes(s1[0], s1[i]));
            assert(precedes(s2[0], s2[j]));
            assert(false);
        }
        assert(a == b);
        vstd::seq_lib::to_multiset_remove(s1, 0);
        vstd::seq_lib::to_multiset_remove(s2, 0);
        assert(s1.remove(0) =~= s1.drop_first());
        assert(s2.remove(0) =~= s2.drop_first());
        assert forall|x: int, y: int| 0 <= x < y < s1.drop_first().len() implies precedes(
            #[trigger] s1.drop_first()[x],
            #[trigger] s1.drop_first()[y],
        ) by {
            assert(precedes(s1[x + 1], s1[y + 1]));
        }
        assert forall|x: int, y: int| 0 <= x < y < s2.drop_first().len() implies precedes(
            #[trigger] s2.drop_first()[x],
            #[trigger] s2.drop_first()[y],
        ) by {
            assert(precedes(s2[x + 1], s2[y + 1]));
        }
        lemma_ranking_unique(s1.drop_first(), s2.drop_first());
        assert(s1.len() == s2.len());
        assert forall|k: int| 0 <= k < s1.len() implies s1[k] == s2[k] by {
            if k > 0 {
                assert(s1[k] == s1.drop_first()[k - 1]);
                assert(s2[k] == s2.drop_first()[k - 1]);
            }
        }
        assert(s1 =~= s2);
    }
}

/// Whether `a` comes before `b` in lexicographic order of character codes.
pub fn lex_less(a: &str, b: &str) -> (r: bool)
    ensures
        r == char_lex_lt(a@, b@),
{
    let n = a.unicode_len();
    let m = b.unicode_len();
    let mut i: usize = 0;
    assert(a@.skip(0) =~= a@ && b@.skip(0) =~= b@);
    while i < n && i < m
        invariant
            n == a@.len(),
            m == b@.len(),
            i <= n,
            i <= m,
            char_lex_lt(a@, b@) == char_lex_lt(a@.skip(i as int), b@.skip(i as int)),
        decreases n - i,
    {
        let x = a.get_char(i);
        let y = b.get_char(i);
        assert(a@.skip(i as int)[0] == x && b@.skip(i as int)[0] == y);
        if x != y {
            return (x as u32) < (y as u32);
        }
        assert(a@.skip(i as int).drop_first() =~= a@.skip(i + 1));
        assert(b@.skip(i as int).drop_first() =~= b@.skip(i + 1));
        i = i + 1;
    }
    i < m
}

/// Whether the characters of `s` end with those of `suffix`.
fn ends_with_str(s: &str, suffix: &str) -> (r: bool)
    ensures
        r == has_suffix(s@, suffix@),
{
    let n = s.unicode_len();
    let k = suffix.unicode_len();
    if n < k {
        return false;
    }
    let mut i: usize = 0;
    while i < k
        invariant
            k <= n,
            n == s@.len(),
            k == suffix@.len(),
            i <= k,
            forall|j: int| 0 <= j < i ==> s@[n - k + j] == suffix@[j],
        decreases k - i,
    {
        if s.get_char(n - k + i) != suffix.get_char(i) {
            assert(s@.subrange(n - k, n as int)[i as int] != suffix@[i as int]);
            return false;
        }
        i = i + 1;
    }
    assert(s@.subrange(n - k, n as int) =~= suffix@);
    true
}

/// Pairs of a completion and the position of its entry, as values.
pub open spec fn pairs_view(v: Seq<(FileCompletion, usize)>) -> Seq<(CompletionView, int)> {
    v.map_values(|x: (FileCompletion, usize)| (x.0@, x.1 as int))
}

impl FileCompletion {
    /// The completion for `entry` of the directory shown as `parent`.
    pub fn from_entry(entry: &ListedEntry, parent: &str) -> (c: FileCompletion)
        ensures
            c@ == completion_for(entry.name@, entry.is_dir, parent@),
    {
        proof {
            reveal_strlit("file ");
            reveal_strlit("/");
            reveal_strlit(".torrent");
        }
        let mut command = String::from_str("file ");
        command.append(parent);
        command.append(entry.name.as_str());
        if entry.is_dir {
            command.append("/");
        }
        let is_torrent = ends_with_str(entry.name.as_str(), ".torrent");
        let c = FileCompletion {
            command,
            is_dir: entry.is_dir,
            is_torrent,
            sort_name: to_ascii_lowercase(entry.name.as_str()),
        };
        assert(".torrent"@ =~= torrent_extension());
        assert(c.command@ =~= completion_for(entry.name@, entry.is_dir, parent@).0);
        c
    }
}

/// Whether the completion `a` of the entry at `ai` comes before the completion `b` of the
/// entry at `bi`.
fn precedes_exec(a: &FileCompletion, ai: usize, b: &FileCompletion, bi: usize) -> (r: bool)
    ensures
        r == precedes((a@, ai as int), (b@, bi as int)),
{
    if a.is_dir != b.is_dir {
        return a.is_dir;
    }
    if a.is_torrent != b.is_torrent {
        return a.is_torrent;
    }
    if lex_less(a.sort_name.as_str(), b.sort_name.as_str()) {
        return true;
    }
    if str_eq(a.sort_name.as_str(), b.sort_name.as_str()) {
        ai < bi
    } else {
        false
    }
}

/// Offers the entries of a directory as completions of a typed path.
pub struct FilePathSuggester;

impl FilePathSuggester {
    /// The completions offered for `query` among `entries`, the listing of its directory: one
    /// per entry whose name starts with the query's prefix, directories first, then torrent
    /// files, then by lower-case name, entries that rank alike in listing order; at most
    /// `limit` of them.
    pub fn suggestions_from(query: &FileCompletionQuery, entries: &Vec<ListedEntry>, limit: usize) -> (r: Vec<String>)
        ensures
            exists|s: Seq<(CompletionView, int)>|
                ranked(
                    candidates(entries_view(entries@), query.display_parent@, query.prefix@),
                    s,
                ) && #[trigger] texts_of(r@) == first_commands(s, limit as nat),
    {
        let ghost ev = entries_view(entries@);
        let ghost parent = query.display_parent@;
        let ghost prefix = query.prefix@;
        let mut sorted: Vec<(FileCompletion, usize)> = Vec::new();
        assert(ev.take(0) =~= Seq::<(Seq<char>, bool)>::empty());
        assert(pairs_view(sorted@) =~= Seq::<(CompletionView, int)>::empty());
        let mut k: usize = 0;
        while k < entries.len()
            invariant
                k <= entries@.len(),
                ev == entries_view(entries@),
                parent == query.display_parent@,
                prefix == query.prefix@,
                strictly_sorted(pairs_view(sorted@)),
                pairs_view(sorted@).to_multiset() == candidates(ev.take(k as int), parent, prefix).to_multiset(),
                forall|j: int| 0 <= j < sorted@.len() ==> #[trigger] sorted@[j].1 < k,
            decreases entries@.len() - k,
        {
            let ghost sv = pairs_view(sorted@);
            assert(ev.take(k + 1).drop_last() =~= ev.take(k as int));
            assert(ev.take(k + 1).last() == ev[k as int]);
            if starts_with_str(entries[k].name.as_str(), query.prefix.as_str()) {
                let c = FileCompletion::from_entry(&entries[k], query.display_parent.as_str());
                let ghost x = (c@, k as int);
                let mut p: usize = 0;
                while p < sorted.len() && precedes_exec(&sorted[p].0, sorted[p].1, &c, k)
                    invariant
                        p <= sorted@.len(),
                        sv == pairs_view(sorted@),
                        x == (c@, k as int),
                        forall|j: int| 0 <= j < p ==> precedes(#[trigger] sv[j], x),
                    decreases sorted@.len() - p,
                {
                    p = p + 1;
                }
                sorted.insert(p, (c, k));
                let ghost t = pairs_view(sorted@);
                assert(t =~= sv.insert(p as int, x));
                assert forall|i: int, j: int| 0 <= i < j < t.len() implies precedes(
                    #[trigger] t[i],
                    #[trigger] t[j],
                ) by {
                    if j < p {
                        assert(t[i] == sv[i] && t[j] == sv[j]);
                    } else if j == p {
                        assert(t[i] == sv[i]);
                    } else if i == p {
                        assert(t[j] == sv[j - 1]);
                        assert(sv[p as int].1 < k);
                        lemma_precedes_order(x, sv[p as int], sv[j - 1]);
                        lemma_precedes_order(sv[p as int], x, sv[j - 1]);
                    } else if i < p {
                        assert(t[i] == sv[i] && t[j] == sv[j - 1]);
                    } else {
                        assert(t[i] == sv[i - 1] && t[j] == sv[j - 1]);
                    }
                }
                assert(candidates(ev.take(k + 1), parent, prefix) == candidates(
                    ev.take(k as int),
                    parent,
                    prefix,
                ).push(x));
                proof {
                    vstd::seq_lib::to_multiset_insert(sv, p as int, x);
                    vstd::seq_lib::to_multiset_build(
                        candidates(ev.take(k as int), parent, prefix),
                        x,
                    );
                }
                assert(t.to_multiset() =~= sv.to_multiset().insert(x));
                assert(candidates(ev.take(k + 1), parent, prefix).to_multiset() =~= candidates(
                    ev.take(k as int),
                    parent,
                    prefix,
                ).to_multiset().insert(x));
            } else {
                assert(candidates(ev.take(k + 1), parent, prefix) == candidates(
                    ev.take(k as int),
                    parent,
                    prefix,
                ));
            }
            k = k + 1;
        }
        assert(ev.take(k as int) =~= ev);
        let ghost sv = pairs_view(sorted@);
        let mut r: Vec<String> = Vec::new();
        let mut i: usize = 0;
        while i < sorted.len() && i < limit
            invariant
                i <= sorted@.len(),
                i <= limit,
                sv == pairs_view(sorted@),
                texts_of(r@) == sv.take(i as int).map_values(|x: (CompletionView, int)| x.0.0),
            decreases sorted@.len() - i,
        {
            let command = sorted[i].0.command.clone();
            assert(command@ == sv[i as int].0.0);
            let ghost before = r@;
            r.push(command);
            assert(texts_of(r@) =~= texts_of(before).push(command@));
            assert(sv.take(i + 1) =~= sv.take(i as int).push(sv[i as int]));
            assert(texts_of(r@) =~= sv.take(i + 1).map_values(|x: (CompletionView, int)| x.0.0));
            i = i + 1;
        }
        assert(texts_of(r@) == first_commands(sv, limit as nat));
        r
    }
}

} // verus!
