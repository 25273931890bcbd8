//! Rarest-first selection of the next piece to request from peers.
use vstd::prelude::*;

verus! {

/// Number of peers, among the first `n` piece sets, that announce `piece`.
/// A peer that lists the same piece several times is counted once.
pub open spec fn availability_prefix(sets: Seq<Seq<usize>>, n: int, piece: int) -> nat
    decreases n,
{
    if n <= 0 {
        0
    } else {
        availability_prefix(sets, n - 1, piece) + if sets[n - 1].contains(piece as usize) {
            1nat
        } else {
            0nat
        }
    }
}

/// Number of peers that announce `piece`.
pub open spec fn availability(sets: Seq<Seq<usize>>, piece: int) -> nat {
    availability_prefix(sets, sets.len() as int, piece)
}

/// Abstract state of a picker: per piece, whether it is completed and whether it is requested.
pub struct PickerState {
    pub piece_count: nat,
    pub completed: Seq<bool>,
    pub requested: Seq<bool>,
}

impl PickerState {
    /// A piece may be picked when some peer has it and it is neither completed nor requested.
    pub open spec fn eligible(self, sets: Seq<Seq<usize>>, piece: int) -> bool {
        &&& 0 <= piece < self.piece_count
        &&& availability(sets, piece) > 0
        &&& !self.completed[piece]
        &&& !self.requested[piece]
    }

    /// `piece` is eligible and no eligible piece is rarer, or equally rare with a smaller index.
    pub open spec fn is_rarest(self, sets: Seq<Seq<usize>>, piece: int) -> bool {
        &&& self.eligible(sets, piece)
        &&& forall|other: int|
            #![trigger self.eligible(sets, other)]
            self.eligible(sets, other) ==> availability(sets, piece) < availability(sets, other)
                || (availability(sets, piece) == availability(sets, other) && piece <= other)
    }

    /// Number of `true` entries among the first `n` flags.
    pub open spec fn count_true(flags: Seq<bool>, n: int) -> nat
        decreases n,
    {
        if n <= 0 {
            0
        } else {
            Self::count_true(flags, n - 1) + if flags[n - 1] {
                1nat
            } else {
                0nat
            }
        }
    }
}

/// Tracks, for a fixed number of pieces, which are completed and which are requested.
#[derive(Debug, Clone)]
pub struct PiecePicker {
    piece_count: usize,
    completed: Vec<bool>,
    requested: Vec<bool>,
}

impl View for PiecePicker {
    type V = PickerState;

    closed spec fn view(&self) -> PickerState {
        PickerState {
            piece_count: self.piece_count as nat,
            completed: self.completed@,
            requested: self.requested@,
        }
    }
}

impl PiecePicker {
    /// Both flag vectors cover every piece, and no piece is at once completed and requested.
    pub closed spec fn wf(&self) -> bool {
        &&& self.completed@.len() == self.piece_count
        &&& self.requested@.len() == self.piece_count
        &&& forall|i: int|
            0 <= i < self.piece_count ==> !(#[trigger] self.completed@[i] && self.requested@[i])
    }

    /// What well-formedness means for the abstract state.
    pub proof fn lemma_wf(&self)
        requires
            self.wf(),
        ensures
            self@.completed.len() == self@.piece_count,
            self@.requested.len() == self@.piece_count,
            forall|i: int|
                0 <= i < self@.piece_count ==> !(#[trigger] self@.completed[i]
                    && self@.requested[i]),
    {
    }

    /// A picker for `piece_count` pieces, none completed and none requested.
    pub fn new(piece_count: usize) -> (picker: Self)
        ensures
            picker.wf(),
            picker@.piece_count == piece_count,
            picker@.completed == Seq::new(piece_count as nat, |i: int| false),
            picker@.requested == Seq::new(piece_count as nat, |i: int| false),
    {
        let mut completed: Vec<bool> = Vec::new();
        let mut requested: Vec<bool> = Vec::new();
        let mut i: usize = 0;
        while i < piece_count
            invariant
                i <= piece_count,
                completed@ == Seq::new(i as nat, |j: int| false),
                requested@ == Seq::new(i as nat, |j: int| false),
            decreases piece_count - i,
        {
            completed.push(false);
            requested.push(false);
            i = i + 1;
        }
        Self { piece_count, completed, requested }
    }

    /// Marks a piece as completed, which also clears its request; out-of-range indices are ignored.
    pub fn mark_completed(&mut self, piece_index: usize)
        requires
            old(self).wf(),
        ensures
            final(self).wf(),
            final(self)@.piece_count == old(self)@.piece_count,
            piece_index < old(self)@.piece_count ==> final(self)@.completed == old(
                self,
            )@.completed.update(piece_index as int, true) && final(self)@.requested == old(
                self,
            )@.requested.update(piece_index as int, false),
            piece_index >= old(self)@.piece_count ==> final(self)@ == old(self)@,
            final(self)@ == after_mark_completed(old(self)@, piece_index as int),
    {
        if piece_index < self.piece_count {
            self.requested.set(piece_index, false);
            self.completed.set(piece_index, true);
        }
    }

    /// Marks a piece as requested unless it is out of range or already completed.
    pub fn mark_requested(&mut self, piece_index: usize)
        requires
            old(self).wf(),
        ensures
            final(self).wf(),
            final(self)@.piece_count == old(self)@.piece_count,
            final(self)@.completed == old(self)@.completed,
            piece_index < old(self)@.piece_count && !old(self)@.completed[piece_index as int]
                ==> final(self)@.requested == old(self)@.requested.update(piece_index as int, true),
            !(piece_index < old(self)@.piece_count && !old(self)@.completed[piece_index as int])
                ==> final(self)@.requested == old(self)@.requested,
            final(self)@ == after_mark_requested(old(self)@, piece_index as int),
    {
        if piece_index < self.piece_count && !self.completed[piece_index] {
            self.requested.set(piece_index, true);
        }
    }

    /// Clears the request on a piece unless it is out of range or already completed.
    pub fn mark_request_failed(&mut self, piece_index: usize)
        requires
            old(self).wf(),
        ensures
            final(self).wf(),
            final(self)@.piece_count == old(self)@.piece_count,
            final(self)@.completed == old(self)@.completed,
            piece_index < old(self)@.piece_count && !old(self)@.completed[piece_index as int]
                ==> final(self)@.requested == old(self)@.requested.update(
                piece_index as int,
                false,
            ),
            !(piece_index < old(self)@.piece_count && !old(self)@.completed[piece_index as int])
                ==> final(self)@.requested == old(self)@.requested,
            final(self)@ == after_request_failed(old(self)@, piece_index as int),
    {
        if piece_index < self.piece_count && !self.completed[piece_index] {
            self.requested.set(piece_index, false);
        }
    }

    /// Counts, for every piece, how many peers announce it (each peer at most once per piece).
    fn availability_counts(piece_count: usize, peer_piece_sets: &[Vec<usize>]) -> (counts: Vec<usize>)
        ensures
            counts@.len() == piece_count,
            forall|i: int|
                0 <= i < piece_count ==> #[trigger] counts@[i] == availability(
                    peer_piece_sets@.map_values(|s: Vec<usize>| s@),
                    i,
                ),
    {
        let ghost sets = peer_piece_sets@.map_values(|s: Vec<usize>| s@);
        let mut counts: Vec<usize> = Vec::new();
        // `stamp[i] == p + 1` records that piece `i` was already counted for peer `p`.
        let mut stamp: Vec<usize> = Vec::new();
        let mut i: usize = 0;
        while i < piece_count
            invariant
                i <= piece_count,
                counts@ == Seq::new(i as nat, |j: int| 0usize),
                stamp@ == Seq::new(i as nat, |j: int| 0usize),
            decreases piece_count - i,
        {
            counts.push(0);
            stamp.push(0);
            i = i + 1;
        }
        let mut p: usize = 0;
        while p < peer_piece_sets.len()
            invariant
                p <= peer_piece_sets@.len(),
                sets == peer_piece_sets@.map_values(|s: Vec<usize>| s@),
                counts@.len() == piece_count,
                stamp@.len() == piece_count,
                forall|j: int|
                    0 <= j < piece_count ==> #[trigger] counts@[j] == availability_prefix(
                        sets,
                        p as int,
                        j,
                    ) && counts@[j] <= p,
                forall|j: int| 0 <= j < piece_count ==> #[trigger] stamp@[j] <= p,
            decreases peer_piece_sets@.len() - p,
        {
            let set = &peer_piece_sets[p];
            assert(sets[p as int] == set@);
            let mark = p + 1;
            assert forall|j: int| 0 <= j < piece_count implies availability_prefix(sets, p as int, j)
                <= p by {
                assert(counts@[j] == availability_prefix(sets, p as int, j));
            }
            let mut k: usize = 0;
            while k < set.len()
                invariant
                    p < peer_piece_sets@.len(),
                    mark == p + 1,
                    sets == peer_piece_sets@.map_values(|s: Vec<usize>| s@),
                    set@ == sets[p as int],
                    k <= set@.len(),
                    counts@.len() == piece_count,
                    stamp@.len() == piece_count,
                    forall|j: int|
                        0 <= j < piece_count ==> #[trigger] counts@[j] == availability_prefix(
                            sets,
                            p as int,
                            j,
                        ) + if set@.take(k as int).contains(j as usize) {
                            1nat
                        } else {
                            0nat
                        },
                    forall|j: int|
                        0 <= j < piece_count ==> (#[trigger] stamp@[j] == p + 1)
                            == set@.take(k as int).contains(j as usize),
                    forall|j: int| 0 <= j < piece_count ==> #[trigger] stamp@[j] <= p + 1,
                    forall|j: int| 0 <= j < piece_count ==> availability_prefix(sets, p as int, j) <= p,
                decreases set@.len() - k,
            {
                let piece = set[k];
                proof {
                    assert(set@.take(k + 1) == set@.take(k as int).push(piece));
                    assert forall|x: usize| #[trigger]
                        set@.take(k + 1).contains(x) == (set@.take(k as int).contains(x) || x
                            == piece) by {
                        if set@.take(k as int).contains(x) {
                            let w = choose|w: int|
                                0 <= w < k && #[trigger] set@.take(k as int)[w] == x;
                            assert(set@.take(k + 1)[w] == x);
                        }
                        if x == piece {
                            assert(set@.take(k + 1)[k as int] == x);
                        }
                        if set@.take(k + 1).contains(x) {
                            let w = choose|w: int| 0 <= w < k + 1 && #[trigger] set@.take(k + 1)[w] == x;
                            if w < k {
                                assert(set@.take(k as int)[w] == x);
                            }
                        }
                    }
                }
                if piece < piece_count && stamp[piece] != mark {
                    let c = counts[piece];
                    counts.set(piece, c + 1);
                    stamp.set(piece, mark);
                }
                k = k + 1;
            }
            proof {
                assert(set@.take(set@.len() as int) == set@);
                assert forall|j: int| 0 <= j < piece_count implies #[trigger] counts@[j]
                    == availability_prefix(sets, p + 1, j) by {
                    assert(availability_prefix(sets, p + 1, j) == availability_prefix(
                        sets,
                        p as int,
                        j,
                    ) + if sets[p as int].contains(j as usize) {
                        1nat
                    } else {
                        0nat
                    });
                }
            }
            p = p + 1;
        }
        counts
    }

    /// The piece that the fewest peers announce, among those some peer has and that are neither
    /// completed nor requested; ties go to the lowest index. `None` when there is no such piece.
    pub fn next_rarest_piece(&self, peer_piece_sets: &[Vec<usize>]) -> (picked: Option<usize>)
        requires
            self.wf(),
        ensures
            ({
                let sets = peer_piece_sets@.map_values(|s: Vec<usize>| s@);
                &&& picked is None <==> forall|i: int| !self@.eligible(sets, i)
                &&& picked matches Some(piece) ==> self@.is_rarest(sets, piece as int)
            }),
    {
        let ghost sets = peer_piece_sets@.map_values(|s: Vec<usize>| s@);
        let counts = Self::availability_counts(self.piece_count, peer_piece_sets);
        let mut best: Option<usize> = None;
        let mut i: usize = 0;
        while i < self.piece_count
            invariant
                i <= self.piece_count,
                self.completed@.len() == self.piece_count,
                self.requested@.len() == self.piece_count,
                counts@.len() == self.piece_count,
                forall|j: int|
                    0 <= j < self.piece_count ==> #[trigger] counts@[j] == availability(sets, j),
                best is None ==> forall|j: int| 0 <= j < i ==> !self@.eligible(sets, j),
                best matches Some(b) ==> b < i && self@.eligible(sets, b as int) && forall|j: int|
                    #![trigger self@.eligible(sets, j)]
                    0 <= j < i && self@.eligible(sets, j) ==> availability(sets, b as int)
                        < availability(sets, j) || (availability(sets, b as int) == availability(
                        sets,
                        j,
                    ) && b <= j),
            decreases self.piece_count - i,
        {
            if counts[i] > 0 && !self.completed[i] && !self.requested[i] {
                match best {
                    None => {
                        best = Some(i);
                    },
                    Some(b) => {
                        if counts[i] < counts[b] {
                            best = Some(i);
                        }
                    },
                }
            }
            i = i + 1;
        }
        best
    }

    /// Number of pieces marked completed.
    pub fn completed_count(&self) -> (count: usize)
        requires
            self.wf(),
        ensures
            count == PickerState::count_true(self@.completed, self@.piece_count as int),
    {
        Self::count_flags(&self.completed)
    }

    /// Number of pieces marked requested.
    pub fn requested_count(&self) -> (count: usize)
        requires
            self.wf(),
        ensures
            count == PickerState::count_true(self@.requested, self@.piece_count as int),
    {
        Self::count_flags(&self.requested)
    }

    fn count_flags(flags: &Vec<bool>) -> (count: usize)
        ensures
            count == PickerState::count_true(flags@, flags@.len() as int),
    {
        let mut count: usize = 0;
        let mut i: usize = 0;
        while i < flags.len()
            invariant
                i <= flags@.len(),
                count == PickerState::count_true(flags@, i as int),
                count <= i,
            decreases flags@.len() - i,
        {
            if flags[i] {
                count = count + 1;
            }
            i = i + 1;
        }
        count
    }
}


/// The state after `mark_completed(p)`.
pub open spec fn after_mark_completed(s: PickerState, p: int) -> PickerState {
    if 0 <= p < s.piece_count {
        PickerState {
            piece_count: s.piece_count,
            completed: s.completed.update(p, true),
            requested: s.requested.update(p, false),
        }
    } else {
        s
    }
}

/// The state after `mark_requested(p)`.
pub open spec fn after_mark_requested(s: PickerState, p: int) -> PickerState {
    if 0 <= p < s.piece_count && !s.completed[p] {
        PickerState { requested: s.requested.update(p, true), ..s }
    } else {
        s
    }
}

/// The state after `mark_request_failed(p)`.
pub open spec fn after_request_failed(s: PickerState, p: int) -> PickerState {
    if 0 <= p < s.piece_count && !s.completed[p] {
        PickerState { requested: s.requested.update(p, false), ..s }
    } else {
        s
    }
}

/// A request that fails undoes the request: requesting a piece that was not requested and
/// then failing it leaves the picker as it was, and the piece is eligible again when it was
/// before.
pub proof fn lemma_failed_request_restores(s: PickerState, sets: Seq<Seq<usize>>, p: int)
    requires
        s.completed.len() == s.piece_count,
        s.requested.len() == s.piece_count,
        0 <= p < s.piece_count ==> !s.requested[p],
    ensures
        after_request_failed(after_mark_requested(s, p), p) == s,
        s.eligible(sets, p) ==> after_request_failed(after_mark_requested(s, p), p).eligible(
            sets,
            p,
        ),
{
    if 0 <= p < s.piece_count && !s.completed[p] {
        assert(s.requested.update(p, true).update(p, false) =~= s.requested);
    }
}

/// A requested piece is not picked again until its request fails.
pub proof fn lemma_requested_piece_not_eligible(s: PickerState, sets: Seq<Seq<usize>>, p: int)
    requires
        s.completed.len() == s.piece_count,
        s.requested.len() == s.piece_count,
        0 <= p < s.piece_count,
        !s.completed[p],
    ensures
        !after_mark_requested(s, p).eligible(sets, p),
        after_request_failed(after_mark_requested(s, p), p).eligible(sets, p) <==> availability(
            sets,
            p,
        ) > 0,
{
}

/// Completion is final: no operation takes a piece back from completed, and a completed
/// piece is never eligible.
pub proof fn lemma_completed_stays_completed(s: PickerState, sets: Seq<Seq<usize>>, p: int, q: int)
    requires
        s.completed.len() == s.piece_count,
        s.requested.len() == s.piece_count,
        0 <= p < s.piece_count,
        s.completed[p],
    ensures
        after_mark_completed(s, q).completed[p],
        after_mark_requested(s, q).completed[p],
        after_request_failed(s, q).completed[p],
        !s.eligible(sets, p),
        !after_mark_requested(s, q).eligible(sets, p),
        !after_request_failed(s, q).eligible(sets, p),
{
}

/// The rarest piece is unique: two pieces that are both the rarest are the same piece.
pub proof fn lemma_rarest_unique(s: PickerState, sets: Seq<Seq<usize>>, a: int, b: int)
    requires
        s.is_rarest(sets, a),
        s.is_rarest(sets, b),
    ensures
        a == b,
{
    assert(s.eligible(sets, a));
    assert(s.eligible(sets, b));
}

} // verus!
