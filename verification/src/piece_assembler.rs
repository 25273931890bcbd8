//! Collects the blocks of one piece and checks the assembled piece against its SHA-1 hash.
use crate::hash::{sha1, sha1_digest};
use std::collections::BTreeMap;
use std::ops::Range;
use vstd::laws_cmp::obeys_cmp;
use vstd::prelude::*;
use vstd::std_specs::btree::{increasing_seq, spec_btree_map_iter};
use vstd::std_specs::cmp::OrdSpec;
use vstd::std_specs::iter::IteratorSpec;

verus! {

broadcast use vstd::std_specs::btree::group_btree_axioms, vstd::laws_cmp::group_laws_cmp;

/// Why a block or a piece was refused.
#[derive(Debug, PartialEq, Eq)]
pub enum PieceAssemblyError {
    BlockOutOfRange { begin: usize, piece_length: usize },
    BlockTooLong { end: usize, piece_length: usize },
    OverlappingBlock,
    Incomplete,
    HashMismatch,
}

/// Whether two half-open ranges share a position.
pub open spec fn spec_ranges_overlap(ls: int, le: int, rs: int, re: int) -> bool {
    ls < re && rs < le
}

/// Whether two half-open ranges share a position.
pub fn ranges_overlap(left: Range<usize>, right: Range<usize>) -> (b: bool)
    ensures
        b == spec_ranges_overlap(left.start as int, left.end as int, right.start as int, right.end as int),
{
    left.start < right.end && right.start < left.end
}

/// End of a block that starts at `begin`: `begin + len`, saturated at `usize::MAX`.
pub open spec fn block_end(begin: int, len: int) -> int {
    if begin + len > usize::MAX {
        usize::MAX as int
    } else {
        begin + len
    }
}

/// The blocks as a map from offset to bytes.
pub open spec fn blocks_map(blocks: Seq<(usize, Seq<u8>)>) -> Map<usize, Seq<u8>>
    decreases blocks.len(),
{
    if blocks.len() == 0 {
        Map::empty()
    } else {
        blocks_map(blocks.drop_last()).insert(blocks.last().0, blocks.last().1)
    }
}

/// With distinct offsets, the map holds exactly the blocks of the sequence.
pub proof fn lemma_blocks_map(blocks: Seq<(usize, Seq<u8>)>)
    requires
        sorted_by_offset(blocks),
    ensures
        forall|i: int|
            0 <= i < blocks.len() ==> blocks_map(blocks).dom().contains((#[trigger] blocks[i]).0)
                && blocks_map(blocks)[blocks[i].0] == blocks[i].1,
        forall|key: usize| #[trigger]
            blocks_map(blocks).dom().contains(key) ==> exists|i: int|
                0 <= i < blocks.len() && (#[trigger] blocks[i]).0 == key,
    decreases blocks.len(),
{
    if blocks.len() > 0 {
        let init = blocks.drop_last();
        assert(sorted_by_offset(init));
        lemma_blocks_map(init);
        assert(blocks_map(blocks) == blocks_map(init).insert(blocks.last().0, blocks.last().1));
        assert forall|key: usize| #[trigger]
            blocks_map(blocks).dom().contains(key) implies exists|i: int|
                0 <= i < blocks.len() && (#[trigger] blocks[i]).0 == key by {
            if key == blocks.last().0 {
                assert(blocks[blocks.len() - 1].0 == key);
            } else {
                assert(blocks_map(init).dom().contains(key));
                let i = choose|i: int| 0 <= i < init.len() && (#[trigger] init[i]).0 == key;
                assert(init[i] == blocks[i]);
                assert(blocks[i].0 == key);
            }
        }
        assert forall|i: int| 0 <= i < blocks.len() implies blocks_map(blocks).dom().contains(
            (#[trigger] blocks[i]).0,
        ) && blocks_map(blocks)[blocks[i].0] == blocks[i].1 by {
            if i < blocks.len() - 1 {
                assert(init[i] == blocks[i]);
                assert(blocks[i].0 < blocks.last().0);
            }
        }
    }
}

/// Offsets strictly increase.
pub open spec fn sorted_by_offset(blocks: Seq<(usize, Seq<u8>)>) -> bool {
    forall|i: int, j: int| 0 <= i < j < blocks.len() ==> blocks[i].0 < blocks[j].0
}

/// Every block lies within the piece and no two blocks overlap.
pub open spec fn blocks_fit(blocks: Seq<(usize, Seq<u8>)>, piece_length: int) -> bool {
    &&& forall|i: int|
        0 <= i < blocks.len() ==> (#[trigger] blocks[i]).0 < piece_length && blocks[i].0
            + blocks[i].1.len() <= piece_length
    &&& forall|i: int, j: int|
        0 <= i < blocks.len() && 0 <= j < blocks.len() && i != j ==> !spec_ranges_overlap(
            blocks[i].0 as int,
            blocks[i].0 + blocks[i].1.len(),
            blocks[j].0 as int,
            blocks[j].0 + blocks[j].1.len(),
        )
}

/// The blocks, in offset order, cover the piece exactly: the first starts at 0, each starts
/// where the previous ends, and the last ends at the piece length.
pub open spec fn covers_piece(blocks: Seq<(usize, Seq<u8>)>, piece_length: int) -> bool {
    if blocks.len() == 0 {
        piece_length == 0
    } else {
        &&& blocks[0].0 == 0
        &&& forall|i: int|
            0 <= i < blocks.len() - 1 ==> #[trigger] blocks[i + 1].0 == blocks[i].0
                + blocks[i].1.len()
        &&& blocks.last().0 + blocks.last().1.len() == piece_length
    }
}

/// The bytes of the blocks, one after the other.
pub open spec fn concat_blocks(blocks: Seq<(usize, Seq<u8>)>) -> Seq<u8>
    decreases blocks.len(),
{
    if blocks.len() == 0 {
        Seq::empty()
    } else {
        concat_blocks(blocks.drop_last()) + blocks.last().1
    }
}

/// Abstract state of an assembler.
pub struct AssemblerView {
    pub expected_hash: Seq<u8>,
    pub piece_length: nat,
    /// The blocks received so far, in increasing offset order.
    pub blocks: Seq<(usize, Seq<u8>)>,
}

/// The blocks of a map from offsets to bytes, each block by its bytes.
pub open spec fn map_view(m: Map<usize, Vec<u8>>) -> Map<usize, Seq<u8>> {
    m.map_values(|v: Vec<u8>| v@)
}

/// The entries that an iteration over a map of blocks yields, as offsets and bytes.
pub open spec fn entries_of(r: Seq<(&usize, &Vec<u8>)>) -> Seq<(usize, Seq<u8>)> {
    r.map_values(|kv: (&usize, &Vec<u8>)| (*kv.0, kv.1@))
}

/// The offsets that an iteration over a map of blocks yields.
pub open spec fn keys_of(r: Seq<(&usize, &Vec<u8>)>) -> Seq<usize> {
    r.map_values(|kv: (&usize, &Vec<u8>)| *kv.0)
}

/// Gathers the blocks of a piece until they cover it, then yields the piece if its hash matches.
#[derive(Clone)]
pub struct PieceAssembler {
    expected_hash: [u8; 20],
    piece_length: usize,
    /// The blocks received so far, by offset.
    blocks: BTreeMap<usize, Vec<u8>>,
    /// The same blocks in increasing offset order.
    order: Ghost<Seq<(usize, Seq<u8>)>>,
}

impl View for PieceAssembler {
    type V = AssemblerView;

    closed spec fn view(&self) -> AssemblerView {
        AssemblerView {
            expected_hash: self.expected_hash@,
            piece_length: self.piece_length as nat,
            blocks: self.order@,
        }
    }
}

/// Offsets that `increasing_seq` orders strictly increase.
proof fn lemma_keys_increase(ks: Seq<usize>)
    requires
        increasing_seq(ks),
    ensures
        forall|i: int, j: int| 0 <= i < j < ks.len() ==> ks[i] < ks[j],
{
    assert(obeys_cmp::<usize>());
    assert forall|i: int, j: int| 0 <= i < j < ks.len() implies ks[i] < ks[j] by {
        assert(ks[i].cmp_spec(&ks[j]) is Less);
    }
}

/// Two sequences of blocks in increasing offset order that hold the same blocks are the same.
proof fn lemma_sorted_unique(s: Seq<(usize, Seq<u8>)>, t: Seq<(usize, Seq<u8>)>)
    requires
        sorted_by_offset(s),
        sorted_by_offset(t),
        blocks_map(s) == blocks_map(t),
    ensures
        s == t,
    decreases s.len() + t.len(),
{
    lemma_blocks_map(s);
    lemma_blocks_map(t);
    if s.len() == 0 || t.len() == 0 {
        if t.len() > 0 {
            assert(blocks_map(t).dom().contains(t[0].0));
        }
        if s.len() > 0 {
            assert(blocks_map(s).dom().contains(s[0].0));
        }
        assert(s =~= t);
    } else {
        let ks = s.last().0;
        let kt = t.last().0;
        assert(blocks_map(s).dom().contains(ks));
        assert(blocks_map(t).dom().contains(kt));
        let j = choose|j: int| 0 <= j < t.len() && (#[trigger] t[j]).0 == ks;
        if j < t.len() - 1 {
            assert(t[j].0 < t[t.len() - 1].0);
        }
        let i = choose|i: int| 0 <= i < s.len() && (#[trigger] s[i]).0 == kt;
        if i < s.len() - 1 {
            assert(s[i].0 < s[s.len() - 1].0);
        }
        assert(ks == kt);
        assert(blocks_map(s)[ks] == s.last().1);
        assert(blocks_map(t)[kt] == t.last().1);
        let si = s.drop_last();
        let ti = t.drop_last();
        assert(!blocks_map(si).dom().contains(ks)) by {
            lemma_blocks_map(si);
            if blocks_map(si).dom().contains(ks) {
                let k = choose|k: int| 0 <= k < si.len() && (#[trigger] si[k]).0 == ks;
                assert(s[k].0 < s[s.len() - 1].0);
            }
        }
        assert(!blocks_map(ti).dom().contains(kt)) by {
            lemma_blocks_map(ti);
            if blocks_map(ti).dom().contains(kt) {
                let k = choose|k: int| 0 <= k < ti.len() && (#[trigger] ti[k]).0 == kt;
                assert(t[k].0 < t[t.len() - 1].0);
            }
        }
        assert(blocks_map(si) =~= blocks_map(s).remove(ks));
        assert(blocks_map(ti) =~= blocks_map(t).remove(kt));
        assert(sorted_by_offset(si));
        assert(sorted_by_offset(ti));
        lemma_sorted_unique(si, ti);
        assert(s =~= si.push(s.last()));
        assert(t =~= ti.push(t.last()));
    }
}

/// The position at which a block at `key` goes in sorted blocks: after every block that starts
/// before it.
spec fn insertion_index(s: Seq<(usize, Seq<u8>)>, key: usize) -> int
    decreases s.len(),
{
    if s.len() == 0 {
        0
    } else if s.last().0 < key {
        s.len() as int
    } else {
        insertion_index(s.drop_last(), key)
    }
}

proof fn lemma_insertion_index(s: Seq<(usize, Seq<u8>)>, key: usize)
    requires
        sorted_by_offset(s),
    ensures
        0 <= insertion_index(s, key) <= s.len(),
        forall|k: int| 0 <= k < insertion_index(s, key) ==> (#[trigger] s[k]).0 < key,
        forall|k: int| insertion_index(s, key) <= k < s.len() ==> (#[trigger] s[k]).0 >= key,
    decreases s.len(),
{
    if s.len() > 0 {
        if s.last().0 < key {
            assert forall|k: int| 0 <= k < s.len() implies (#[trigger] s[k]).0 < key by {
                if k < s.len() - 1 {
                    assert(s[k].0 < s[s.len() - 1].0);
                }
            }
        } else {
            lemma_insertion_index(s.drop_last(), key);
            assert forall|k: int| 0 <= k < insertion_index(s, key) implies (#[trigger] s[k]).0 < key by {
                assert(s.drop_last()[k] == s[k]);
            }
            assert forall|k: int| insertion_index(s, key) <= k < s.len() implies (#[trigger] s[k]).0
                >= key by {
                if k < s.len() - 1 {
                    assert(s.drop_last()[k] == s[k]);
                }
            }
        }
    }
}

impl PieceAssembler {
    /// Blocks are kept in increasing offset order, inside the piece, without overlap, and the
    /// ordered blocks are those of the map.
    pub closed spec fn wf(&self) -> bool {
        &&& sorted_by_offset(self.order@)
        &&& blocks_fit(self.order@, self.piece_length as int)
        &&& blocks_map(self.order@) == map_view(self.blocks@)
    }

    /// What well-formedness means for the abstract state.
    pub proof fn lemma_wf(&self)
        requires
            self.wf(),
        ensures
            sorted_by_offset(self@.blocks),
            blocks_fit(self@.blocks, self@.piece_length as int),
    {
    }

    /// An iteration over the map of a well-formed assembler yields its blocks in offset order.
    proof fn lemma_iteration_order(&self, r: Seq<(&usize, &Vec<u8>)>)
        requires
            self.wf(),
            r == spec_btree_map_iter(&self.blocks).remaining(),
            increasing_seq(keys_of(r)),
        ensures
            entries_of(r) == self.order@,
    {
        let e = entries_of(r);
        lemma_keys_increase(keys_of(r));
        assert(sorted_by_offset(e)) by {
            assert forall|i: int, j: int| 0 <= i < j < e.len() implies e[i].0 < e[j].0 by {
                assert(keys_of(r)[i] == e[i].0);
                assert(keys_of(r)[j] == e[j].0);
            }
        }
        lemma_blocks_map(e);
        let m = map_view(self.blocks@);
        assert forall|k: usize| #[trigger] blocks_map(e).dom().contains(k) == m.dom().contains(k) by {
            if blocks_map(e).dom().contains(k) {
                let i = choose|i: int| 0 <= i < e.len() && (#[trigger] e[i]).0 == k;
                assert(self.blocks@.contains_key(*r[i].0));
            }
            if m.dom().contains(k) {
                assert(r.contains((&k, &self.blocks@[k])));
                let i = choose|i: int| 0 <= i < r.len() && r[i] == (&k, &self.blocks@[k]);
                assert(e[i].0 == k);
            }
        }
        assert forall|k: usize| #[trigger] blocks_map(e).dom().contains(k) implies blocks_map(e)[k]
            == m[k] by {
            let i = choose|i: int| 0 <= i < e.len() && (#[trigger] e[i]).0 == k;
            assert(self.blocks@.contains_key(*r[i].0) && self.blocks@[*r[i].0] == *r[i].1);
        }
        assert(blocks_map(e) =~= m);
        lemma_sorted_unique(e, self.order@);
    }

    /// An assembler for a piece of `piece_length` bytes whose SHA-1 must be `expected_hash`.
    pub fn new(expected_hash: [u8; 20], piece_length: usize) -> (a: Self)
        ensures
            a.wf(),
            a@.expected_hash == expected_hash@,
            a@.piece_length == piece_length,
            a@.blocks == Seq::<(usize, Seq<u8>)>::empty(),
    {
        let a = Self {
            expected_hash,
            piece_length,
            blocks: BTreeMap::new(),
            order: Ghost(Seq::empty()),
        };
        assert(blocks_map(a.order@) =~= map_view(a.blocks@));
        a
    }

    /// Adds the block of bytes that starts at offset `begin` of the piece. A block at an offset
    /// already present replaces the earlier one. The end of the block is `begin + block.len()`,
    /// saturated at `usize::MAX`; only a piece of `usize::MAX` bytes could take a block whose
    /// end saturates, and such a block would end past the piece, so that case is left out.
    pub fn insert_block(&mut self, begin: usize, block: Vec<u8>) -> (r: Result<(), PieceAssemblyError>)
        requires
            old(self).wf(),
            old(self)@.piece_length < usize::MAX || begin + block@.len() <= usize::MAX,
        ensures
            final(self).wf(),
            final(self)@.expected_hash == old(self)@.expected_hash,
            final(self)@.piece_length == old(self)@.piece_length,
            ({
                let l = old(self)@.piece_length as int;
                let blocks = old(self)@.blocks;
                let end = block_end(begin as int, block@.len() as int);
                let overlaps = exists|i: int|
                    0 <= i < blocks.len() && spec_ranges_overlap(
                        begin as int,
                        end,
                        (#[trigger] blocks[i]).0 as int,
                        blocks[i].0 + blocks[i].1.len(),
                    );
                &&& begin >= l ==> r == Err::<(), PieceAssemblyError>(
                    PieceAssemblyError::BlockOutOfRange { begin, piece_length: l as usize },
                )
                &&& begin < l && end > l ==> r == Err::<(), PieceAssemblyError>(
                    PieceAssemblyError::BlockTooLong { end: end as usize, piece_length: l as usize },
                )
                &&& begin < l && end <= l && overlaps ==> r == Err::<(), PieceAssemblyError>(
                    PieceAssemblyError::OverlappingBlock,
                )
                &&& r is Err ==> final(self)@ == old(self)@
                &&& r is Ok <==> (begin < l && end <= l && !overlaps)
                &&& r is Ok ==> blocks_map(final(self)@.blocks) == blocks_map(blocks).insert(
                    begin,
                    block@,
                )
            }),
    {
        if begin >= self.piece_length {
            return Err(
                PieceAssemblyError::BlockOutOfRange { begin, piece_length: self.piece_length },
            );
        }
        let end = begin.saturating_add(block.len());
        if end > self.piece_length {
            return Err(PieceAssemblyError::BlockTooLong { end, piece_length: self.piece_length });
        }
        let ghost blocks = self@.blocks;
        let ghost l = self.piece_length as int;
        let ghost r = spec_btree_map_iter(&self.blocks).remaining();
        for (existing_begin, existing_block) in it: self.blocks.iter()
            invariant
                it.seq() == r,
                r == spec_btree_map_iter(&self.blocks).remaining(),
                increasing_seq(keys_of(r)),
                self.wf(),
                blocks == self@.blocks,
                l == self.piece_length,
                end == begin + block@.len(),
                end <= l,
                forall|k: int|
                    0 <= k < it.index() ==> !spec_ranges_overlap(
                        begin as int,
                        end as int,
                        (#[trigger] blocks[k]).0 as int,
                        blocks[k].0 + blocks[k].1.len(),
                    ),
        {
            proof {
                self.lemma_iteration_order(r);
                self.lemma_wf();
                assert(entries_of(r)[it.index() as int] == blocks[it.index() as int]);
            }
            let existing_end = *existing_begin + existing_block.len();
            if ranges_overlap(begin..end, *existing_begin..existing_end) {
                return Err(PieceAssemblyError::OverlappingBlock);
            }
        }
        proof {
            self.lemma_iteration_order(r);
        }
        let ghost entry = (begin, block@);
        let ghost p = insertion_index(blocks, begin);
        proof {
            lemma_insertion_index(blocks, begin);
        }
        self.blocks.insert(begin, block);
        proof {
            if p < blocks.len() && blocks[p].0 == begin {
                lemma_replace_block(blocks, p, entry, l);
                self.order@ = blocks.update(p, entry);
            } else {
                lemma_insert_block(blocks, p, entry, l);
                self.order@ = blocks.insert(p, entry);
            }
            assert(blocks_map(self.order@) =~= map_view(self.blocks@));
        }
        Ok(())
    }
}

/// Conditions under which a block goes in at position `p` of sorted, fitting blocks.
pub open spec fn insertion_point(
    s: Seq<(usize, Seq<u8>)>,
    p: int,
    entry: (usize, Seq<u8>),
    piece_length: int,
) -> bool {
    &&& sorted_by_offset(s)
    &&& blocks_fit(s, piece_length)
    &&& 0 <= p <= s.len()
    &&& entry.0 < piece_length
    &&& entry.0 + entry.1.len() <= piece_length
    &&& forall|k: int| 0 <= k < p ==> (#[trigger] s[k]).0 < entry.0
    &&& forall|k: int| p <= k < s.len() ==> (#[trigger] s[k]).0 >= entry.0
    &&& forall|k: int|
        0 <= k < s.len() ==> !spec_ranges_overlap(
            entry.0 as int,
            entry.0 + entry.1.len(),
            (#[trigger] s[k]).0 as int,
            s[k].0 + s[k].1.len(),
        )
}

proof fn lemma_replace_block(s: Seq<(usize, Seq<u8>)>, p: int, entry: (usize, Seq<u8>), piece_length: int)
    requires
        insertion_point(s, p, entry, piece_length),
        p < s.len(),
        s[p].0 == entry.0,
    ensures
        sorted_by_offset(s.update(p, entry)),
        blocks_fit(s.update(p, entry), piece_length),
        blocks_map(s.update(p, entry)) == blocks_map(s).insert(entry.0, entry.1),
{
    let t = s.update(p, entry);
    assert(sorted_by_offset(t));
    assert(blocks_fit(t, piece_length)) by {
        assert forall|i: int, j: int|
            0 <= i < t.len() && 0 <= j < t.len() && i != j implies !spec_ranges_overlap(
            t[i].0 as int,
            t[i].0 + t[i].1.len(),
            t[j].0 as int,
            t[j].0 + t[j].1.len(),
        ) by {
            if i == p {
                assert(t[j] == s[j]);
            } else if j == p {
                assert(t[i] == s[i]);
            } else {
                assert(t[i] == s[i] && t[j] == s[j]);
            }
        }
    }
    lemma_blocks_map(s);
    lemma_blocks_map(t);
    let m = blocks_map(s).insert(entry.0, entry.1);
    assert forall|key: usize| #[trigger] blocks_map(t).dom().contains(key) == m.dom().contains(key) by {
        if blocks_map(t).dom().contains(key) {
            let j = choose|j: int| 0 <= j < t.len() && (#[trigger] t[j]).0 == key;
            if j != p {
                assert(s[j].0 == key);
            }
        }
        if blocks_map(s).dom().contains(key) {
            let j = choose|j: int| 0 <= j < s.len() && (#[trigger] s[j]).0 == key;
            assert(t[j].0 == key);
        }
        if key == entry.0 {
            assert(t[p].0 == key);
        }
    }
    assert forall|key: usize| #[trigger] blocks_map(t).dom().contains(key) implies blocks_map(t)[key]
        == m[key] by {
        let j = choose|j: int| 0 <= j < t.len() && (#[trigger] t[j]).0 == key;
        if j != p {
            assert(s[j].0 == key);
            assert(blocks_map(s)[s[j].0] == s[j].1);
        }
    }
    assert(blocks_map(t) =~= m);
}

proof fn lemma_insert_block(s: Seq<(usize, Seq<u8>)>, p: int, entry: (usize, Seq<u8>), piece_length: int)
    requires
        insertion_point(s, p, entry, piece_length),
        p < s.len() ==> s[p].0 != entry.0,
    ensures
        sorted_by_offset(s.insert(p, entry)),
        blocks_fit(s.insert(p, entry), piece_length),
        blocks_map(s.insert(p, entry)) == blocks_map(s).insert(entry.0, entry.1),
{
    let t = s.insert(p, entry);
    assert(sorted_by_offset(t)) by {
        assert forall|i: int, j: int| 0 <= i < j < t.len() implies t[i].0 < t[j].0 by {
            if i < p && j > p {
                assert(t[j] == s[j - 1]);
                assert(t[i] == s[i]);
            } else if i < p && j == p {
                assert(t[i] == s[i]);
            } else if i == p && j > p {
                assert(t[j] == s[j - 1]);
                if j - 1 > p {
                    assert(s[p].0 < s[j - 1].0);
                }
            } else if i > p {
                assert(t[i] == s[i - 1] && t[j] == s[j - 1]);
            } else {
                assert(t[i] == s[i] && t[j] == s[j]);
            }
        }
    }
    assert(blocks_fit(t, piece_length)) by {
        assert forall|i: int| 0 <= i < t.len() implies (#[trigger] t[i]).0 < piece_length && t[i].0
            + t[i].1.len() <= piece_length by {
            if i < p {
                assert(t[i] == s[i]);
            } else if i > p {
                assert(t[i] == s[i - 1]);
            }
        }
        assert forall|i: int, j: int|
            0 <= i < t.len() && 0 <= j < t.len() && i != j implies !spec_ranges_overlap(
            t[i].0 as int,
            t[i].0 + t[i].1.len(),
            t[j].0 as int,
            t[j].0 + t[j].1.len(),
        ) by {
            let si = if i < p { i } else { i - 1 };
            let sj = if j < p { j } else { j - 1 };
            if i == p {
                assert(t[j] == s[sj]);
            } else if j == p {
                assert(t[i] == s[si]);
            } else {
                assert(t[i] == s[si] && t[j] == s[sj]);
            }
        }
    }
    lemma_blocks_map(s);
    lemma_blocks_map(t);
    let m = blocks_map(s).insert(entry.0, entry.1);
    assert forall|key: usize| #[trigger] blocks_map(t).dom().contains(key) == m.dom().contains(key) by {
        if blocks_map(t).dom().contains(key) {
            let j = choose|j: int| 0 <= j < t.len() && (#[trigger] t[j]).0 == key;
            if j < p {
                assert(s[j].0 == key);
            } else if j > p {
                assert(s[j - 1].0 == key);
            }
        }
        if blocks_map(s).dom().contains(key) {
            let j = choose|j: int| 0 <= j < s.len() && (#[trigger] s[j]).0 == key;
            if j < p {
                assert(t[j].0 == key);
            } else {
                assert(t[j + 1].0 == key);
            }
        }
        if key == entry.0 {
            assert(t[p].0 == key);
        }
    }
    assert forall|key: usize| #[trigger] blocks_map(t).dom().contains(key) implies blocks_map(t)[key]
        == m[key] by {
        let j = choose|j: int| 0 <= j < t.len() && (#[trigger] t[j]).0 == key;
        if j < p {
            assert(s[j].0 == key);
            assert(blocks_map(s)[s[j].0] == s[j].1);
        } else if j > p {
            assert(s[j - 1].0 == key);
            assert(blocks_map(s)[s[j - 1].0] == s[j - 1].1);
        }
    }
    assert(blocks_map(t) =~= m);
}

impl PieceAssembler {
    /// Whether the blocks received so far cover the whole piece.
    pub fn is_complete(&self) -> (b: bool)
        requires
            self.wf(),
        ensures
            b == covers_piece(self@.blocks, self@.piece_length as int),
    {
        let mut offset: usize = 0;
        let ghost blocks = self@.blocks;
        let ghost r = spec_btree_map_iter(&self.blocks).remaining();
        for (begin, block) in it: self.blocks.iter()
            invariant
                it.seq() == r,
                r == spec_btree_map_iter(&self.blocks).remaining(),
                increasing_seq(keys_of(r)),
                self.wf(),
                blocks == self@.blocks,
                blocks_fit(blocks, self.piece_length as int),
                it.index() == 0 ==> offset == 0,
                it.index() > 0 ==> offset == blocks[it.index() - 1].0 + blocks[it.index() - 1].1.len(),
                it.index() > 0 ==> blocks[0].0 == 0,
                forall|k: int|
                    0 <= k < it.index() - 1 ==> #[trigger] blocks[k + 1].0 == blocks[k].0
                        + blocks[k].1.len(),
        {
            proof {
                self.lemma_iteration_order(r);
                assert(entries_of(r)[it.index() as int] == blocks[it.index() as int]);
            }
            if *begin != offset {
                proof {
                    let i = it.index() as int;
                    if i > 0 {
                        assert(blocks[(i - 1) + 1].0 != blocks[i - 1].0 + blocks[i - 1].1.len());
                    }
                }
                return false;
            }
            offset = *begin + block.len();
        }
        proof {
            self.lemma_iteration_order(r);
        }
        offset == self.piece_length
    }

    /// The piece, when the blocks cover it and its SHA-1 is the expected hash.
    pub fn assemble(self) -> (r: Result<Vec<u8>, PieceAssemblyError>)
        requires
            self.wf(),
        ensures
            !covers_piece(self@.blocks, self@.piece_length as int) ==> r == Err::<
                Vec<u8>,
                PieceAssemblyError,
            >(PieceAssemblyError::Incomplete),
            covers_piece(self@.blocks, self@.piece_length as int) && sha1(
                concat_blocks(self@.blocks),
            ) != self@.expected_hash ==> r == Err::<Vec<u8>, PieceAssemblyError>(
                PieceAssemblyError::HashMismatch,
            ),
            covers_piece(self@.blocks, self@.piece_length as int) && sha1(
                concat_blocks(self@.blocks),
            ) == self@.expected_hash ==> (r matches Ok(piece) && piece@ == concat_blocks(
                self@.blocks,
            )),
    {
        if !self.is_complete() {
            return Err(PieceAssemblyError::Incomplete);
        }
        let mut piece: Vec<u8> = Vec::new();
        let ghost blocks = self@.blocks;
        let ghost entries = spec_btree_map_iter(&self.blocks).remaining();
        for (_begin, block) in it: self.blocks.iter()
            invariant
                it.seq() == entries,
                entries == spec_btree_map_iter(&self.blocks).remaining(),
                increasing_seq(keys_of(entries)),
                self.wf(),
                blocks == self@.blocks,
                piece@ == concat_blocks(blocks.take(it.index() as int)),
        {
            proof {
                self.lemma_iteration_order(entries);
                assert(entries_of(entries)[it.index() as int] == blocks[it.index() as int]);
            }
            crate::wire::push_slice(&mut piece, block.as_slice());
            proof {
                let i = it.index() as int;
                assert(blocks.take(i + 1).drop_last() == blocks.take(i));
            }
        }
        proof {
            self.lemma_iteration_order(entries);
            assert(blocks.take(blocks.len() as int) == blocks);
        }
        let actual_hash = sha1_digest(piece.as_slice());
        let mut matches = true;
        let mut k: usize = 0;
        while k < 20
            invariant
                k <= 20,
                matches == (forall|j: int| 0 <= j < k ==> actual_hash@[j] == self.expected_hash@[j]),
            decreases 20 - k,
        {
            if actual_hash[k] != self.expected_hash[k] {
                matches = false;
            }
            k = k + 1;
        }
        if !matches {
            return Err(PieceAssemblyError::HashMismatch);
        }
        assert(actual_hash@ =~= self.expected_hash@);
        Ok(piece)
    }
}

} // verus!

verus! {

/// When the blocks cover a piece, their concatenation has the piece's length and holds each
/// block at that block's offset: the assembled piece is what the blocks say.
pub proof fn lemma_assembled_piece_places_blocks(blocks: Seq<(usize, Seq<u8>)>, piece_length: int)
    requires
        covers_piece(blocks, piece_length),
    ensures
        concat_blocks(blocks).len() == piece_length,
        forall|i: int|
            0 <= i < blocks.len() ==> (#[trigger] blocks[i]).0 + blocks[i].1.len() <= piece_length,
        forall|i: int|
            0 <= i < blocks.len() ==> concat_blocks(blocks).subrange(
                (#[trigger] blocks[i]).0 as int,
                blocks[i].0 + blocks[i].1.len(),
            ) == blocks[i].1,
    decreases blocks.len(),
{
    if blocks.len() > 0 {
        let init = blocks.drop_last();
        let last = blocks.last();
        let init_end: int = last.0 as int;
        if init.len() > 0 {
            assert(covers_piece(init, init_end)) by {
                assert forall|i: int| 0 <= i < init.len() - 1 implies #[trigger] init[i + 1].0
                    == init[i].0 + init[i].1.len() by {
                    assert(blocks[i + 1].0 == blocks[i].0 + blocks[i].1.len());
                }
                assert(blocks[(blocks.len() - 2) + 1].0 == blocks[blocks.len() - 2].0
                    + blocks[blocks.len() - 2].1.len());
            }
        } else {
            assert(last.0 == 0);
        }
        lemma_assembled_piece_places_blocks(init, init_end);
        let c = concat_blocks(blocks);
        assert(c == concat_blocks(init) + last.1);
        assert forall|i: int| 0 <= i < blocks.len() implies (#[trigger] blocks[i]).0
            + blocks[i].1.len() <= piece_length by {
            if i < blocks.len() - 1 {
                assert(init[i] == blocks[i]);
            }
        }
        assert forall|i: int| 0 <= i < blocks.len() implies c.subrange(
            (#[trigger] blocks[i]).0 as int,
            blocks[i].0 + blocks[i].1.len(),
        ) == blocks[i].1 by {
            if i < blocks.len() - 1 {
                assert(init[i] == blocks[i]);
                assert(blocks[i].0 + blocks[i].1.len() <= concat_blocks(init).len());
                assert(c.subrange(blocks[i].0 as int, blocks[i].0 + blocks[i].1.len())
                    =~= concat_blocks(init).subrange(
                    blocks[i].0 as int,
                    blocks[i].0 + blocks[i].1.len(),
                ));
            } else {
                assert(c.subrange(blocks[i].0 as int, blocks[i].0 + blocks[i].1.len()) =~= last.1);
            }
        }
    }
}

} // verus!
