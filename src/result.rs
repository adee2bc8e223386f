use vstd::prelude::*;

use crate::count::Count;

verus! {

/// The first position at or after `j` whose count is strictly below `c`
/// (the length of `s` when there is none).
pub open spec fn insert_pos_from<T, C: Count>(s: Seq<(T, C)>, c: C, j: int) -> int
    decreases s.len() - j,
{
    if j >= s.len() {
        s.len() as int
    } else if C::lt_v(s[j].1, c) {
        j
    } else {
        insert_pos_from(s, c, j + 1)
    }
}

/// `s` ordered by count, highest first. Items with equal counts keep the
/// order in which they appear in `s`.
pub open spec fn sort_desc<T, C: Count>(s: Seq<(T, C)>) -> Seq<(T, C)>
    decreases s.len(),
{
    if s.len() == 0 {
        s
    } else {
        let rest = sort_desc(s.drop_last());
        rest.insert(insert_pos_from(rest, s.last().1, 0), s.last())
    }
}

/// No pair of `s` has a higher count than a pair before it.
pub open spec fn sorted_desc<T, C: Count>(s: Seq<(T, C)>) -> bool {
    forall|i: int, j: int| 0 <= i < j < s.len() ==> !C::lt_v(#[trigger] s[i].1, #[trigger] s[j].1)
}

proof fn lemma_insert_pos<T, C: Count>(s: Seq<(T, C)>, c: C, j: int)
    requires
        0 <= j <= s.len(),
    ensures
        j <= insert_pos_from(s, c, j) <= s.len(),
        forall|i: int| j <= i < insert_pos_from(s, c, j) ==> !C::lt_v(#[trigger] s[i].1, c),
        insert_pos_from(s, c, j) < s.len() ==> C::lt_v(s[insert_pos_from(s, c, j)].1, c),
    decreases s.len() - j,
{
    if j < s.len() && !C::lt_v(s[j].1, c) {
        lemma_insert_pos(s, c, j + 1);
    }
}

/// Ordering: `sort_desc` holds the same pairs as its input, each as often,
/// and no pair in it has a higher count than a pair before it.
pub proof fn lemma_sort_desc<T, C: Count>(s: Seq<(T, C)>)
    ensures
        sort_desc(s).len() == s.len(),
        sorted_desc(sort_desc(s)),
        sort_desc(s).to_multiset() == s.to_multiset(),
    decreases s.len(),
{
    if s.len() > 0 {
        let rest = sort_desc(s.drop_last());
        lemma_sort_desc(s.drop_last());
        let x = s.last();
        let p = insert_pos_from(rest, x.1, 0);
        lemma_insert_pos(rest, x.1, 0);
        let r = rest.insert(p, x);
        vstd::seq_lib::to_multiset_insert(rest, p, x);
        vstd::seq_lib::to_multiset_build(s.drop_last(), x);
        assert(s =~= s.drop_last().push(x));
        assert forall|i: int, j: int| 0 <= i < j < r.len() implies !C::lt_v(
            #[trigger] r[i].1,
            #[trigger] r[j].1,
        ) by {
            if i < p && j > p {
                assert(!C::lt_v(rest[i].1, rest[j - 1].1));
            } else if i > p {
                assert(!C::lt_v(rest[i - 1].1, rest[j - 1].1));
            } else if i == p {
                C::lemma_lt_order(rest[p].1, x.1, rest[j - 1].1);
                if j - 1 > p {
                    assert(!C::lt_v(rest[p].1, rest[j - 1].1));
                }
            } else if j < p {
                assert(!C::lt_v(rest[i].1, rest[j].1));
            }
        }
    }
}

/// Competition rank of position `i` of the ordered sequence `s`: 0 at the
/// front, and one more each time the count falls.
pub open spec fn dense_rank<T, C: Count>(s: Seq<(T, C)>, i: int) -> nat
    decreases i,
{
    if i <= 0 {
        0
    } else if C::lt_v(s[i].1, s[i - 1].1) {
        dense_rank(s, i - 1) + 1
    } else {
        dense_rank(s, i - 1)
    }
}

/// A rank as the `u32` that results carry; ranks beyond `u32::MAX` stay there.
pub open spec fn rank_u32(r: nat) -> u32 {
    if r > u32::MAX {
        u32::MAX
    } else {
        r as u32
    }
}

/// The first position at or after `k` where the count falls (the length of `s`
/// when it never does).
pub open spec fn cut_from<T, C: Count>(s: Seq<(T, C)>, k: int) -> int
    decreases s.len() - k,
{
    if k >= s.len() {
        s.len() as int
    } else if C::lt_v(s[k].1, s[k - 1].1) {
        k
    } else {
        cut_from(s, k + 1)
    }
}

/// How many positions of the ordered sequence `s` a request for `n` results
/// keeps: all of them for 0 or for a request beyond the length, else the first
/// `n` and every later position that shares the rank of position `n - 1`.
pub open spec fn cutoff<T, C: Count>(s: Seq<(T, C)>, n: nat) -> int {
    if n == 0 || n >= s.len() {
        s.len() as int
    } else {
        cut_from(s, n as int)
    }
}

/// The kept positions of the ordered sequence `s`, each with its rank.
pub open spec fn ranked_prefix<T, C: Count>(s: Seq<(T, C)>, n: nat) -> Seq<(T, u32)> {
    Seq::new(cutoff(s, n) as nat, |i: int| (s[i].0, rank_u32(dense_rank(s, i))))
}

/// The ranked result of a request for `n` results over the counted pairs `counted`.
pub open spec fn rank_spec<T, C: Count>(counted: Seq<(T, C)>, n: nat) -> Seq<(T, u32)> {
    ranked_prefix(sort_desc(counted), n)
}


proof fn lemma_cut_from<T, C: Count>(s: Seq<(T, C)>, j: int)
    requires
        1 <= j <= s.len(),
    ensures
        j <= cut_from(s, j) <= s.len(),
        forall|i: int| j <= i < cut_from(s, j) ==> !C::lt_v(#[trigger] s[i].1, s[i - 1].1),
        cut_from(s, j) < s.len() ==> C::lt_v(s[cut_from(s, j)].1, s[cut_from(s, j) - 1].1),
    decreases s.len() - j,
{
    if j < s.len() && !C::lt_v(s[j].1, s[j - 1].1) {
        lemma_cut_from(s, j + 1);
    }
}

proof fn lemma_rank_monotone<T, C: Count>(s: Seq<(T, C)>, i: int, j: int)
    requires
        0 <= i <= j,
    ensures
        dense_rank(s, i) <= dense_rank(s, j),
    decreases j,
{
    if j > i {
        lemma_rank_monotone(s, i, j - 1);
    }
}

proof fn lemma_rank_flat<T, C: Count>(s: Seq<(T, C)>, a: int, b: int)
    requires
        0 <= a <= b,
        forall|i: int| a < i <= b ==> !C::lt_v(#[trigger] s[i].1, s[i - 1].1),
    ensures
        dense_rank(s, a) == dense_rank(s, b),
    decreases b,
{
    if b > a {
        lemma_rank_flat(s, a, b - 1);
    }
}

/// Ties at the cutoff: a request for `n` results (0 < `n` < length) keeps at
/// least `n` positions, every position that shares the rank of position
/// `n - 1`, and none of lower rank; so where position `n` ties with position
/// `n - 1`, more than `n` positions are kept.
pub proof fn lemma_ties_at_cutoff<T, C: Count>(s: Seq<(T, C)>, n: nat)
    requires
        0 < n < s.len(),
    ensures
        n <= cutoff(s, n) <= s.len(),
        forall|k: int|
            0 <= k < s.len() ==> (k < cutoff(s, n) <==> #[trigger] dense_rank(s, k) <= dense_rank(
                s,
                n - 1,
            )),
        !C::lt_v(s[n as int].1, s[n - 1].1) ==> cutoff(s, n) > n,
{
    let c = cut_from(s, n as int);
    lemma_cut_from(s, n as int);
    assert forall|k: int| 0 <= k < s.len() implies (k < c <==> #[trigger] dense_rank(s, k) <= dense_rank(
        s,
        n - 1,
    )) by {
        if k < n - 1 {
            lemma_rank_monotone(s, k, n - 1);
        } else if k < c {
            lemma_rank_flat(s, n - 1, k);
        } else {
            lemma_rank_flat(s, n - 1, c - 1);
            lemma_rank_monotone(s, c, k);
        }
    }
}

/// Neither count is below the other.
pub open spec fn tied<C: Count>(a: C, b: C) -> bool {
    !C::lt_v(a, b) && !C::lt_v(b, a)
}

/// Ties are kept whole: for a request for `n` results (0 < `n` < number of
/// pairs), every counted pair whose count ties with that of the `n`-th best
/// is in the result, with that pair's rank; and where the `n + 1`-th best ties
/// with the `n`-th, the result holds more than `n` candidates.
pub proof fn lemma_winners_keep_ties<T, C: Count>(counted: Seq<(T, C)>, n: nat, x: (T, C))
    requires
        0 < n < counted.len(),
        counted.contains(x),
        tied(x.1, sort_desc(counted)[n - 1].1),
    ensures
        exists|i: int|
            0 <= i < rank_spec(counted, n).len() && sort_desc(counted)[i] == x
                && rank_spec(counted, n)[i].0 == x.0,
        tied(sort_desc(counted)[n as int].1, sort_desc(counted)[n - 1].1) ==> rank_spec(
            counted,
            n,
        ).len() > n,
{
    let s = sort_desc(counted);
    lemma_sort_desc(counted);
    lemma_ties_at_cutoff(s, n);
    vstd::seq_lib::to_multiset_contains(counted, x);
    vstd::seq_lib::to_multiset_contains(s, x);
    let k = choose|k: int| 0 <= k < s.len() && s[k] == x;
    if k >= n {
        assert forall|i: int| n - 1 < i <= k implies !C::lt_v(#[trigger] s[i].1, s[i - 1].1) by {
            if C::lt_v(s[i].1, s[i - 1].1) {
                if k > i {
                    assert(!C::lt_v(s[i].1, s[k].1));
                }
                C::lemma_lt_order(s[i].1, s[k].1, s[i - 1].1);
                if i - 1 > n - 1 {
                    assert(!C::lt_v(s[n - 1].1, s[i - 1].1));
                }
                C::lemma_lt_order(s[k].1, s[n - 1].1, s[i - 1].1);
            }
        }
        lemma_rank_flat(s, n - 1, k);
    } else {
        lemma_rank_monotone(s, k, n - 1);
    }
    assert(0 <= k < rank_spec(counted, n).len() && s[k] == x && rank_spec(counted, n)[k].0 == x.0);
}

/// An ordered sequence of candidates with their ranks, rank 0 being best.
/// Candidates with the same rank are tied.
pub struct RankedWinners<T> {
    ranked: Vec<(T, u32)>,
}

impl<T> View for RankedWinners<T> {
    type V = Seq<(T, u32)>;

    closed spec fn view(&self) -> Seq<(T, u32)> {
        self.ranked@
    }
}

impl<T: Copy + PartialEq> RankedWinners<T> {
    /// The number of ranked candidates.
    pub fn len(&self) -> (r: usize)
        ensures
            r == self@.len(),
    {
        self.ranked.len()
    }

    /// Whether there are no ranked candidates.
    pub fn is_empty(&self) -> (r: bool)
        ensures
            r == (self@.len() == 0),
    {
        self.ranked.len() == 0
    }

    /// Whether `candidate` is among the ranked candidates.
    pub fn contains(&self, candidate: &T) -> (r: bool)
        requires
            vstd::laws_eq::obeys_concrete_eq::<T>(),
        ensures
            r == (exists|i: int| 0 <= i < self@.len() && self@[i].0 == *candidate),
    {
        let mut i: usize = 0;
        while i < self.ranked.len()
            invariant
                0 <= i <= self@.len(),
                self@ == self.ranked@,
                vstd::laws_eq::obeys_concrete_eq::<T>(),
                forall|k: int| 0 <= k < i ==> self@[k].0 != *candidate,
            decreases self@.len() - i,
        {
            proof {
                reveal(vstd::laws_eq::obeys_concrete_eq);
            }
            if self.ranked[i].0 == *candidate {
                return true;
            }
            i = i + 1;
        }
        false
    }

    /// The candidates with their ranks, in order.
    pub fn into_vec(self) -> (r: Vec<(T, u32)>)
        ensures
            r@ == self@,
    {
        self.ranked
    }

    /// The candidates in order, without their ranks.
    pub fn into_unranked(self) -> (r: Vec<T>)
        ensures
            r@ == self@.map_values(|p: (T, u32)| p.0),
    {
        let mut out: Vec<T> = Vec::new();
        let mut i: usize = 0;
        while i < self.ranked.len()
            invariant
                0 <= i <= self@.len(),
                self@ == self.ranked@,
                out@ =~= self@.take(i as int).map_values(|p: (T, u32)| p.0),
            decreases self@.len() - i,
        {
            out.push(self.ranked[i].0);
            i = i + 1;
            assert(out@ =~= self@.take(i as int).map_values(|p: (T, u32)| p.0));
        }
        assert(self@.take(i as int) =~= self@);
        out
    }
}

/// An unordered snapshot of (candidate, count) pairs, to be ranked.
pub struct CountedCandidates<T, C> {
    counted: Vec<(T, C)>,
}

impl<T, C> View for CountedCandidates<T, C> {
    type V = Seq<(T, C)>;

    closed spec fn view(&self) -> Seq<(T, C)> {
        self.counted@
    }
}

impl<T: Copy, C: Count> CountedCandidates<T, C> {
    /// An empty snapshot.
    pub fn new() -> (r: Self)
        ensures
            r@ == Seq::<(T, C)>::empty(),
    {
        CountedCandidates { counted: Vec::new() }
    }

    /// Adds a pair to the snapshot.
    pub fn push(&mut self, candidate: T, count: C)
        ensures
            final(self)@ == old(self)@.push((candidate, count)),
    {
        self.counted.push((candidate, count));
    }

    /// The pairs ordered by count, highest first; pairs with equal counts keep
    /// the order in which they were pushed.
    pub fn into_vec(self) -> (r: Vec<(T, C)>)
        ensures
            r@ == sort_desc(self@),
    {
        sort_by_count(&self.counted)
    }

    /// Ranks the pairs, keeping `num_winners` of them and every candidate tied
    /// with the last one kept; 0 keeps them all.
    pub fn into_ranked(self, num_winners: u32) -> (r: RankedWinners<T>)
        ensures
            r@ == rank_spec(self@, num_winners as nat),
    {
        let sorted = sort_by_count(&self.counted);
        RankedWinners { ranked: rank_sorted(&sorted, num_winners) }
    }
}

/// Insertion sort by count, highest first, keeping the order of equal counts.
fn sort_by_count<T: Copy, C: Count>(s: &Vec<(T, C)>) -> (r: Vec<(T, C)>)
    ensures
        r@ == sort_desc(s@),
{
    let mut sorted: Vec<(T, C)> = Vec::new();
    let mut i: usize = 0;
    while i < s.len()
        invariant
            0 <= i <= s@.len(),
            sorted@ == sort_desc(s@.take(i as int)),
        decreases s@.len() - i,
    {
        let x = s[i];
        let mut j: usize = 0;
        while j < sorted.len() && !C::lt(sorted[j].1, x.1)
            invariant
                0 <= j <= sorted@.len(),
                insert_pos_from(sorted@, x.1, 0) == insert_pos_from(sorted@, x.1, j as int),
            decreases sorted@.len() - j,
        {
            j = j + 1;
        }
        assert(s@.take(i + 1).drop_last() =~= s@.take(i as int));
        sorted.insert(j, x);
        i = i + 1;
    }
    assert(s@.take(s@.len() as int) =~= s@);
    sorted
}

/// Ranks an ordered sequence and keeps what a request for `n` results keeps.
fn rank_sorted<T: Copy, C: Count>(s: &Vec<(T, C)>, n: u32) -> (r: Vec<(T, u32)>)
    ensures
        r@ == ranked_prefix(s@, n as nat),
{
    let len = s.len();
    let mut end: usize = len;
    if n != 0 && (n as usize) < len {
        let mut k: usize = n as usize;
        while k < len && !C::lt(s[k].1, s[k - 1].1)
            invariant
                1 <= n <= k <= len == s@.len(),
                cut_from(s@, n as int) == cut_from(s@, k as int),
            decreases len - k,
        {
            k = k + 1;
        }
        end = k;
    }
    assert(end == cutoff(s@, n as nat));
    let mut out: Vec<(T, u32)> = Vec::new();
    let mut rank: u32 = 0;
    let mut i: usize = 0;
    while i < end
        invariant
            0 <= i <= end <= s@.len(),
            end == cutoff(s@, n as nat),
            i > 0 ==> rank == rank_u32(dense_rank(s@, i - 1)),
            out@ =~= Seq::new(i as nat, |k: int| (s@[k].0, rank_u32(dense_rank(s@, k)))),
        decreases end - i,
    {
        if i == 0 {
            rank = 0;
        } else if C::lt(s[i].1, s[i - 1].1) {
            if rank < u32::MAX {
                rank = rank + 1;
            }
        }
        out.push((s[i].0, rank));
        i = i + 1;
    }
    out
}

} // verus!
