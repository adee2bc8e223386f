use vstd::prelude::*;

use crate::count::Count;
use crate::counter::{find_below, find_key, keys_unique, record, record_all};
use crate::plurality::PluralityTally;
use crate::result::{rank_spec, RankedWinners};

verus! {

/// How points are given to the candidates of a ranked ballot, by zero-based
/// position `p`, number of distinct candidates `N` and number of candidates
/// marked on the ballot `m`.
pub enum Variant {
    /// `N - p - 1`: the last of all candidates gets no point.
    Borda,
    /// `N - p`: the last of all candidates gets one point.
    ClassicBorda,
    /// `N / (p + 1)`: points fall with the inverse of the position. Only a
    /// count type with exact division (such as `Fraction`) can tally it.
    Dowdall,
    /// `m - p - 1`: points depend on how many candidates the ballot marks.
    ModifiedBorda,
    /// `m - p`: as `ModifiedBorda`, with one point for the last marked.
    ModifiedClassicBorda,
}

/// `a - b`, or zero where `b` exceeds `a`.
pub open spec fn sub_or_zero(a: usize, b: int) -> usize {
    if a >= b {
        (a - b) as usize
    } else {
        0
    }
}

/// The points a variant gives to position `p` of a ballot marking `m`
/// candidates, out of `n` candidates in all. Differences that would fall
/// below zero give zero points.
pub open spec fn points_spec<C: Count>(v: Variant, p: usize, n: usize, m: usize) -> C {
    match v {
        Variant::Borda => C::from_usize_v(sub_or_zero(n, p + 1)),
        Variant::ClassicBorda => C::from_usize_v(sub_or_zero(n, p as int)),
        Variant::Dowdall => C::div_usize_v(C::from_usize_v(n), (p + 1) as usize),
        Variant::ModifiedBorda => C::from_usize_v(sub_or_zero(m, p + 1)),
        Variant::ModifiedClassicBorda => C::from_usize_v(sub_or_zero(m, p as int)),
    }
}

impl Variant {
    /// The points for position `candidate_position` of a ballot marking
    /// `num_marked` candidates, out of `num_candidates` in all.
    pub fn points<C: Count>(&self, candidate_position: usize, num_candidates: usize, num_marked: usize) -> (r: C)
        requires
            candidate_position < usize::MAX,
        ensures
            r == points_spec::<C>(*self, candidate_position, num_candidates, num_marked),
    {
        match self {
            Variant::Borda => C::from_usize(sub_usize(num_candidates, candidate_position + 1)),
            Variant::ClassicBorda => C::from_usize(sub_usize(num_candidates, candidate_position)),
            Variant::Dowdall => C::div_usize(C::from_usize(num_candidates), candidate_position + 1),
            Variant::ModifiedBorda => C::from_usize(sub_usize(num_marked, candidate_position + 1)),
            Variant::ModifiedClassicBorda => C::from_usize(sub_usize(num_marked, candidate_position)),
        }
    }
}

fn sub_usize(a: usize, b: usize) -> (r: usize)
    ensures
        r == sub_or_zero(a, b as int),
{
    if a >= b {
        a - b
    } else {
        0
    }
}

/// `cands` with each candidate of `ballot` not yet in it appended, in ballot order.
pub open spec fn add_new<T>(cands: Seq<T>, ballot: Seq<T>) -> Seq<T>
    decreases ballot.len(),
{
    if ballot.len() == 0 {
        cands
    } else {
        let prev = add_new(cands, ballot.drop_last());
        if prev.contains(ballot.last()) {
            prev
        } else {
            prev.push(ballot.last())
        }
    }
}

/// The candidate set: `add_new` holds every candidate of `cands` and of
/// `ballot`, and no other, and brings in no duplicate.
pub proof fn lemma_add_new<T>(cands: Seq<T>, ballot: Seq<T>)
    ensures
        add_new(cands, ballot).to_set() == cands.to_set() + ballot.to_set(),
        cands.no_duplicates() ==> add_new(cands, ballot).no_duplicates(),
    decreases ballot.len(),
{
    if ballot.len() == 0 {
        assert(ballot.to_set() =~= Set::<T>::empty());
        assert(cands.to_set() + ballot.to_set() =~= cands.to_set());
    } else {
        let init = ballot.drop_last();
        let x = ballot.last();
        lemma_add_new(cands, init);
        let prev = add_new(cands, init);
        assert(ballot =~= init.push(x));
        assert(ballot.to_set() =~= init.to_set().insert(x)) by {
            assert forall|y: T| ballot.to_set().contains(y) <==> init.to_set().insert(x).contains(y) by {
                if ballot.to_set().contains(y) {
                    let j = choose|j: int| 0 <= j < ballot.len() && ballot[j] == y;
                    if j < init.len() {
                        assert(init[j] == y);
                    }
                }
                if init.to_set().contains(y) {
                    let j = choose|j: int| 0 <= j < init.len() && init[j] == y;
                    assert(ballot[j] == y);
                }
                if y == x {
                    assert(ballot[init.len() as int] == y);
                }
            }
        }
        if prev.contains(x) {
            assert(prev.to_set().contains(x));
            assert(cands.to_set() + ballot.to_set() =~= prev.to_set());
        } else {
            assert(prev.push(x).to_set() =~= prev.to_set().insert(x)) by {
                assert forall|y: T| prev.push(x).to_set().contains(y) <==> prev.to_set().insert(
                    x,
                ).contains(y) by {
                    if prev.push(x).to_set().contains(y) {
                        let j = choose|j: int| 0 <= j < prev.push(x).len() && prev.push(x)[j] == y;
                        if j < prev.len() {
                            assert(prev[j] == y);
                        }
                    }
                    if prev.to_set().contains(y) {
                        let j = choose|j: int| 0 <= j < prev.len() && prev[j] == y;
                        assert(prev.push(x)[j] == y);
                    }
                    if y == x {
                        assert(prev.push(x)[prev.len() as int] == y);
                    }
                }
            }
            assert(cands.to_set() + ballot.to_set() =~= prev.to_set().insert(x));
        }
    }
}

/// The plurality running total `s` after the first `j` positions of `ballot`,
/// recorded with weight `w`, have been given their points.
pub open spec fn expand_ballot<T, C: Count>(
    s: Seq<(T, C)>,
    ballot: Seq<T>,
    w: C,
    v: Variant,
    n: usize,
    j: int,
) -> Seq<(T, C)>
    decreases j,
{
    if j <= 0 {
        s
    } else {
        let prev = expand_ballot(s, ballot, w, v, n, j - 1);
        record(
            prev,
            ballot[j - 1],
            C::mul_v(w, points_spec::<C>(v, (j - 1) as usize, n, ballot.len() as usize)),
        )
    }
}

/// The plurality running total that the recorded ballots give, each position
/// of each ballot in turn, out of `n` candidates in all.
pub open spec fn expand<T, C: Count>(ballots: Seq<(Seq<T>, C)>, v: Variant, n: usize) -> Seq<(T, C)>
    decreases ballots.len(),
{
    if ballots.len() == 0 {
        Seq::empty()
    } else {
        let b = ballots.last();
        expand_ballot(expand(ballots.drop_last(), v, n), b.0, b.1, v, n, b.0.len() as int)
    }
}

/// The weighted single-candidate votes that the first `j` positions of
/// `ballot`, recorded with weight `w`, stand for.
pub open spec fn ballot_votes<T, C: Count>(ballot: Seq<T>, w: C, v: Variant, n: usize, j: int) -> Seq<(T, C)>
    decreases j,
{
    if j <= 0 {
        Seq::empty()
    } else {
        ballot_votes(ballot, w, v, n, j - 1).push(
            (
                ballot[j - 1],
                C::mul_v(w, points_spec::<C>(v, (j - 1) as usize, n, ballot.len() as usize)),
            ),
        )
    }
}

/// The weighted single-candidate votes that all recorded ballots stand for,
/// ballot by ballot.
pub open spec fn borda_votes<T, C: Count>(ballots: Seq<(Seq<T>, C)>, v: Variant, n: usize) -> Seq<(T, C)>
    decreases ballots.len(),
{
    if ballots.len() == 0 {
        Seq::empty()
    } else {
        let b = ballots.last();
        borda_votes(ballots.drop_last(), v, n) + ballot_votes(b.0, b.1, v, n, b.0.len() as int)
    }
}

proof fn lemma_expand_ballot_votes<T, C: Count>(
    s: Seq<(T, C)>,
    ballot: Seq<T>,
    w: C,
    v: Variant,
    n: usize,
    j: int,
)
    ensures
        expand_ballot(s, ballot, w, v, n, j) == record_all(s, ballot_votes(ballot, w, v, n, j)),
    decreases j,
{
    if j > 0 {
        lemma_expand_ballot_votes(s, ballot, w, v, n, j - 1);
        let prev = ballot_votes(ballot, w, v, n, j - 1);
        assert(ballot_votes(ballot, w, v, n, j).drop_last() =~= prev);
    } else {
        assert(ballot_votes(ballot, w, v, n, j) =~= Seq::<(T, C)>::empty());
    }
}

/// Borda as weighted plurality: what a Borda tally ranks is what a plurality
/// tally ranks after it is given, ballot by ballot and position by position,
/// one vote for the candidate at that position, weighted by the ballot's
/// weight times the position's points.
pub proof fn lemma_borda_is_weighted_plurality<T, C: Count>(
    ballots: Seq<(Seq<T>, C)>,
    v: Variant,
    n: usize,
    k: nat,
)
    ensures
        expand(ballots, v, n) == record_all(Seq::<(T, C)>::empty(), borda_votes(ballots, v, n)),
        rank_spec(expand(ballots, v, n), k) == rank_spec(
            record_all(Seq::<(T, C)>::empty(), borda_votes(ballots, v, n)),
            k,
        ),
    decreases ballots.len(),
{
    if ballots.len() > 0 {
        let init = ballots.drop_last();
        let b = ballots.last();
        lemma_borda_is_weighted_plurality(init, v, n, k);
        lemma_expand_ballot_votes(expand(init, v, n), b.0, b.1, v, n, b.0.len() as int);
        crate::counter::lemma_record_all_concat(
            Seq::<(T, C)>::empty(),
            borda_votes(init, v, n),
            ballot_votes(b.0, b.1, v, n, b.0.len() as int),
        );
    }
}

/// A Borda count tally: each ballot ranks candidates, most preferred first,
/// and gives each of them points by the chosen variant.
pub struct Tally<T, C> {
    ballots: Vec<Vec<T>>,
    weights: Vec<C>,
    candidates: Vec<T>,
    num_winners: u32,
    variant: Variant,
}

/// A Borda count tally counting in `u64`.
pub type DefaultTally<T> = Tally<T, u64>;

impl<T: Copy + PartialEq, C: Count> Tally<T, C> {
    /// Each distinct ballot recorded, with its accumulated weight.
    pub closed spec fn ballots_v(&self) -> Seq<(Seq<T>, C)> {
        Seq::new(self.ballots@.len(), |i: int| (self.ballots@[i]@, self.weights@[i]))
    }

    /// The distinct candidates seen, in the order first seen.
    pub closed spec fn candidates_v(&self) -> Seq<T> {
        self.candidates@
    }

    /// The number of winners asked for.
    pub closed spec fn requested(&self) -> u32 {
        self.num_winners
    }

    /// The point rule.
    pub closed spec fn variant_v(&self) -> Variant {
        self.variant
    }

    pub closed spec fn wf(&self) -> bool {
        &&& self.ballots@.len() == self.weights@.len()
        &&& keys_unique(self.ballots_v())
        &&& self.candidates@.no_duplicates()
    }

    /// An empty tally asking for `num_winners` winners under `variant`. The
    /// `Dowdall` variant needs a count type with exact division.
    pub fn new(num_winners: u32, variant: Variant) -> (r: Self)
        requires
            !(variant is Dowdall) || C::exact_division(),
        ensures
            r.wf(),
            r.ballots_v() == Seq::<(Seq<T>, C)>::empty(),
            r.candidates_v() == Seq::<T>::empty(),
            r.requested() == num_winners,
            r.variant_v() == variant,
    {
        let r = Tally {
            ballots: Vec::new(),
            weights: Vec::new(),
            candidates: Vec::new(),
            num_winners,
            variant,
        };
        assert(r.ballots_v() =~= Seq::<(Seq<T>, C)>::empty());
        r
    }

    /// An empty tally as `new` makes it, with room for
    /// `expected_ballots` distinct ballots.
    pub fn with_capacity(num_winners: u32, variant: Variant, expected_ballots: usize) -> (r: Self)
        requires
            !(variant is Dowdall) || C::exact_division(),
        ensures
            r.wf(),
            r.ballots_v() == Seq::<(Seq<T>, C)>::empty(),
            r.candidates_v() == Seq::<T>::empty(),
            r.requested() == num_winners,
            r.variant_v() == variant,
    {
        let r = Tally {
            ballots: Vec::with_capacity(expected_ballots),
            weights: Vec::with_capacity(expected_ballots),
            candidates: Vec::new(),
            num_winners,
            variant,
        };
        assert(r.ballots_v() =~= Seq::<(Seq<T>, C)>::empty());
        r
    }

    /// Adds a ballot with a weight of one.
    pub fn add(&mut self, selection: Vec<T>)
        requires
            old(self).wf(),
            vstd::laws_eq::obeys_concrete_eq::<T>(),
        ensures
            final(self).wf(),
            final(self).ballots_v() == record(old(self).ballots_v(), selection@, C::one_v()),
            final(self).candidates_v() == add_new(old(self).candidates_v(), selection@),
            final(self).requested() == old(self).requested(),
            final(self).variant_v() == old(self).variant_v(),
    {
        self.add_weighted(selection, C::one());
    }

    /// Adds a ballot with a weight of one, by reference.
    pub fn add_ref(&mut self, selection: &[T])
        requires
            old(self).wf(),
            vstd::laws_eq::obeys_concrete_eq::<T>(),
        ensures
            final(self).wf(),
            final(self).ballots_v() == record(old(self).ballots_v(), selection@, C::one_v()),
            final(self).candidates_v() == add_new(old(self).candidates_v(), selection@),
            final(self).requested() == old(self).requested(),
            final(self).variant_v() == old(self).variant_v(),
    {
        self.add_weighted_ref(selection, C::one());
    }

    /// Adds a ballot with a weight by reference.
    pub fn add_weighted_ref(&mut self, selection: &[T], weight: C)
        requires
            old(self).wf(),
            vstd::laws_eq::obeys_concrete_eq::<T>(),
        ensures
            final(self).wf(),
            final(self).ballots_v() == record(old(self).ballots_v(), selection@, weight),
            final(self).candidates_v() == add_new(old(self).candidates_v(), selection@),
            final(self).requested() == old(self).requested(),
            final(self).variant_v() == old(self).variant_v(),
    {
        let mut ballot: Vec<T> = Vec::new();
        let mut i: usize = 0;
        while i < selection.len()
            invariant
                0 <= i <= selection@.len(),
                ballot@ =~= selection@.take(i as int),
            decreases selection@.len() - i,
        {
            ballot.push(selection[i]);
            i = i + 1;
            assert(ballot@ =~= selection@.take(i as int));
        }
        assert(selection@.take(i as int) =~= selection@);
        self.add_weighted(ballot, weight);
    }

    /// Adds a ballot with a weight, accumulated into any weight the same
    /// ballot already has. Candidates not seen before join the candidate set.
    pub fn add_weighted(&mut self, selection: Vec<T>, weight: C)
        requires
            old(self).wf(),
            vstd::laws_eq::obeys_concrete_eq::<T>(),
        ensures
            final(self).wf(),
            final(self).ballots_v() == record(old(self).ballots_v(), selection@, weight),
            final(self).candidates_v() == add_new(old(self).candidates_v(), selection@),
            final(self).requested() == old(self).requested(),
            final(self).variant_v() == old(self).variant_v(),
    {
        let mut j: usize = 0;
        while j < selection.len()
            invariant
                0 <= j <= selection@.len(),
                vstd::laws_eq::obeys_concrete_eq::<T>(),
                self.candidates@ == add_new(old(self).candidates@, selection@.take(j as int)),
                self.candidates@.no_duplicates(),
                self.ballots == old(self).ballots,
                self.weights == old(self).weights,
                self.num_winners == old(self).num_winners,
                self.variant == old(self).variant,
            decreases selection@.len() - j,
        {
            let c = selection[j];
            assert(selection@.take(j + 1).drop_last() =~= selection@.take(j as int));
            if !vec_contains(&self.candidates, &c) {
                self.candidates.push(c);
            }
            j = j + 1;
        }
        assert(selection@.take(j as int) =~= selection@);
        let ghost before = self.ballots_v();
        proof {
            crate::counter::lemma_record_step(before, selection@, weight, selection@);
            crate::counter::lemma_find_below_range(before, selection@, before.len() as int);
        }
        match self.find_ballot(&selection) {
            Some(k) => {
                let c = self.weights[k];
                self.weights.set(k, C::add(c, weight));
                assert(self.ballots_v() =~= before.update(
                    k as int,
                    (selection@, C::add_v(before[k as int].1, weight)),
                ));
            },
            None => {
                self.ballots.push(selection);
                self.weights.push(C::add(C::zero(), weight));
                assert(self.ballots_v() =~= before.push((selection@, C::add_v(C::zero_v(), weight))));
            },
        }
    }

    /// The position of `ballot` among the recorded ballots, if it is there.
    fn find_ballot(&self, ballot: &Vec<T>) -> (r: Option<usize>)
        requires
            self.wf(),
            vstd::laws_eq::obeys_concrete_eq::<T>(),
        ensures
            match r {
                Some(k) => k == find_key(self.ballots_v(), ballot@) && k < self.ballots@.len(),
                None => find_key(self.ballots_v(), ballot@) == -1,
            },
    {
        let mut i: usize = self.ballots.len();
        while i > 0
            invariant
                0 <= i <= self.ballots@.len(),
                self.wf(),
                vstd::laws_eq::obeys_concrete_eq::<T>(),
                find_key(self.ballots_v(), ballot@) == find_below(self.ballots_v(), ballot@, i as int),
            decreases i,
        {
            if same_ballot(&self.ballots[i - 1], ballot) {
                return Some(i - 1);
            }
            i = i - 1;
        }
        None
    }

    /// The ranked winners: every position of every recorded ballot gives its
    /// candidate the ballot's weight times the variant's points, and the
    /// candidates are ranked by the totals, as a plurality tally does.
    pub fn winners(&self) -> (r: RankedWinners<T>)
        requires
            self.wf(),
            vstd::laws_eq::obeys_concrete_eq::<T>(),
        ensures
            r@ == rank_spec(
                expand(self.ballots_v(), self.variant_v(), self.candidates_v().len() as usize),
                self.requested() as nat,
            ),
    {
        let n = self.candidates.len();
        let ghost bv = self.ballots_v();
        let mut plurality: PluralityTally<T, C> = PluralityTally::with_capacity(self.num_winners, n);
        let mut i: usize = 0;
        while i < self.ballots.len()
            invariant
                0 <= i <= self.ballots@.len(),
                self.wf(),
                bv == self.ballots_v(),
                n == self.candidates@.len(),
                vstd::laws_eq::obeys_concrete_eq::<T>(),
                plurality@ == expand(bv.take(i as int), self.variant, n),
                plurality.requested() == self.num_winners,
            decreases self.ballots@.len() - i,
        {
            let w = self.weights[i];
            let ballot = &self.ballots[i];
            let m = ballot.len();
            assert(bv.take(i + 1).drop_last() =~= bv.take(i as int));
            assert(bv[i as int] == (ballot@, w));
            let mut j: usize = 0;
            while j < m
                invariant
                    0 <= j <= m == ballot@.len(),
                    vstd::laws_eq::obeys_concrete_eq::<T>(),
                    plurality@ == expand_ballot(
                        expand(bv.take(i as int), self.variant, n),
                        ballot@,
                        w,
                        self.variant,
                        n,
                        j as int,
                    ),
                    plurality.requested() == self.num_winners,
                decreases m - j,
            {
                let points: C = self.variant.points(j, n, m);
                plurality.add_weighted_ref(&ballot[j], C::mul(w, points));
                j = j + 1;
            }
            i = i + 1;
        }
        assert(bv.take(i as int) =~= bv);
        plurality.winners()
    }
}

/// Whether `x` occurs in `v`.
fn vec_contains<T: Copy + PartialEq>(v: &Vec<T>, x: &T) -> (r: bool)
    requires
        vstd::laws_eq::obeys_concrete_eq::<T>(),
    ensures
        r == v@.contains(*x),
{
    let mut i: usize = 0;
    while i < v.len()
        invariant
            0 <= i <= v@.len(),
            vstd::laws_eq::obeys_concrete_eq::<T>(),
            forall|k: int| 0 <= k < i ==> v@[k] != *x,
        decreases v@.len() - i,
    {
        proof {
            reveal(vstd::laws_eq::obeys_concrete_eq);
        }
        if v[i] == *x {
            return true;
        }
        i = i + 1;
    }
    false
}

/// Whether two ballots hold the same candidates in the same order.
fn same_ballot<T: Copy + PartialEq>(a: &Vec<T>, b: &Vec<T>) -> (r: bool)
    requires
        vstd::laws_eq::obeys_concrete_eq::<T>(),
    ensures
        r == (a@ == b@),
{
    if a.len() != b.len() {
        return false;
    }
    let mut i: usize = 0;
    while i < a.len()
        invariant
            0 <= i <= a@.len() == b@.len(),
            vstd::laws_eq::obeys_concrete_eq::<T>(),
            forall|k: int| 0 <= k < i ==> a@[k] == b@[k],
        decreases a@.len() - i,
    {
        proof {
            reveal(vstd::laws_eq::obeys_concrete_eq);
        }
        if a[i] != b[i] {
            return false;
        }
        i = i + 1;
    }
    assert(a@ =~= b@);
    true
}

} // verus!
