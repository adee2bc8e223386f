use vstd::prelude::*;

use crate::count::Count;
use crate::counter::{find_below, find_key, keys_of, keys_unique, record, record_all};
use crate::result::{rank_spec, sort_desc, CountedCandidates, RankedWinners};

verus! {

/// A plurality tally counting in `u64`.
pub type DefaultPluralityTally<T> = PluralityTally<T, u64>;

/// A plurality tally: each vote names one candidate, optionally with a weight,
/// and the candidates with the highest accumulated weights win.
///
/// `T` is the candidate type, `C` the type votes are counted in. Candidates are
/// kept in the order they were first seen.
pub struct PluralityTally<T, C> {
    running_total: Vec<(T, C)>,
    num_winners: u32,
}

impl<T, C> View for PluralityTally<T, C> {
    type V = Seq<(T, C)>;

    /// The running total: each candidate seen, with its accumulated weight.
    closed spec fn view(&self) -> Seq<(T, C)> {
        self.running_total@
    }
}

impl<T: Copy + PartialEq, C: Count> PluralityTally<T, C> {
    /// The number of winners asked for.
    pub closed spec fn requested(&self) -> u32 {
        self.num_winners
    }

    /// Each candidate occurs once in the running total.
    pub open spec fn wf(&self) -> bool {
        keys_unique(self@)
    }

    /// An empty tally asking for `num_winners` winners. Ties may give more
    /// winners than that (see `winners`).
    pub fn new(num_winners: u32) -> (r: Self)
        ensures
            r@ == Seq::<(T, C)>::empty(),
            r.requested() == num_winners,
            r.wf(),
    {
        PluralityTally { running_total: Vec::new(), num_winners }
    }

    /// An empty tally asking for `num_winners` winners, with room for
    /// `expected_candidates` candidates.
    pub fn with_capacity(num_winners: u32, expected_candidates: usize) -> (r: Self)
        ensures
            r@ == Seq::<(T, C)>::empty(),
            r.requested() == num_winners,
            r.wf(),
    {
        PluralityTally { running_total: Vec::with_capacity(expected_candidates), num_winners }
    }

    /// The position of `selection` in the running total, if it is there.
    fn find(&self, selection: &T) -> (r: Option<usize>)
        requires
            vstd::laws_eq::obeys_concrete_eq::<T>(),
        ensures
            match r {
                Some(k) => k == find_key(self@, *selection) && k < self@.len(),
                None => find_key(self@, *selection) == -1,
            },
    {
        let mut i: usize = self.running_total.len();
        while i > 0
            invariant
                0 <= i <= self@.len(),
                self@ == self.running_total@,
                vstd::laws_eq::obeys_concrete_eq::<T>(),
                find_key(self@, *selection) == find_below(self@, *selection, i as int),
            decreases i,
        {
            proof {
                reveal(vstd::laws_eq::obeys_concrete_eq);
            }
            if self.running_total[i - 1].0 == *selection {
                return Some(i - 1);
            }
            i = i - 1;
        }
        None
    }

    /// Adds a vote with a weight of one.
    pub fn add(&mut self, selection: T)
        requires
            vstd::laws_eq::obeys_concrete_eq::<T>(),
        ensures
            final(self)@ == record(old(self)@, selection, C::one_v()),
            final(self).requested() == old(self).requested(),
            old(self).wf() ==> final(self).wf(),
    {
        self.add_weighted(selection, C::one());
    }

    /// Adds a vote with a weight of one, by reference.
    pub fn add_ref(&mut self, selection: &T)
        requires
            vstd::laws_eq::obeys_concrete_eq::<T>(),
        ensures
            final(self)@ == record(old(self)@, *selection, C::one_v()),
            final(self).requested() == old(self).requested(),
            old(self).wf() ==> final(self).wf(),
    {
        self.add_weighted_ref(selection, C::one());
    }

    /// Adds a vote with the given weight, accumulated into any weight the
    /// candidate already has.
    pub fn add_weighted(&mut self, selection: T, weight: C)
        requires
            vstd::laws_eq::obeys_concrete_eq::<T>(),
        ensures
            final(self)@ == record(old(self)@, selection, weight),
            final(self).requested() == old(self).requested(),
            old(self).wf() ==> final(self).wf(),
    {
        self.add_weighted_ref(&selection, weight);
    }

    /// Adds a vote with the given weight, by reference.
    pub fn add_weighted_ref(&mut self, selection: &T, weight: C)
        requires
            vstd::laws_eq::obeys_concrete_eq::<T>(),
        ensures
            final(self)@ == record(old(self)@, *selection, weight),
            final(self).requested() == old(self).requested(),
            old(self).wf() ==> final(self).wf(),
    {
        proof {
            crate::counter::lemma_record_step(self@, *selection, weight, *selection);
        }
        match self.find(selection) {
            Some(k) => {
                let c = self.running_total[k].1;
                self.running_total.set(k, (*selection, C::add(c, weight)));
            },
            None => {
                self.running_total.push((*selection, C::add(C::zero(), weight)));
            },
        }
    }

    /// Adds every candidate's total from `other` to this tally, as if each had
    /// been added here as one weighted vote, in `other`'s order. Tallies kept
    /// apart (one per worker) are combined this way.
    pub fn merge(&mut self, other: &Self)
        requires
            vstd::laws_eq::obeys_concrete_eq::<T>(),
        ensures
            final(self)@ == record_all(old(self)@, other@),
            final(self).requested() == old(self).requested(),
            old(self).wf() ==> final(self).wf(),
    {
        let mut i: usize = 0;
        while i < other.running_total.len()
            invariant
                0 <= i <= other@.len(),
                other@ == other.running_total@,
                vstd::laws_eq::obeys_concrete_eq::<T>(),
                self@ == record_all(old(self)@, other@.take(i as int)),
                self.requested() == old(self).requested(),
                old(self).wf() ==> self.wf(),
            decreases other@.len() - i,
        {
            let (candidate, weight) = other.running_total[i];
            assert(other@.take(i + 1).drop_last() =~= other@.take(i as int));
            self.add_weighted_ref(&candidate, weight);
            i = i + 1;
        }
        assert(other@.take(i as int) =~= other@);
    }

    /// Every candidate seen by this tally, in the order first seen.
    pub fn candidates(&self) -> (r: Vec<T>)
        ensures
            r@ == keys_of(self@),
    {
        let mut out: Vec<T> = Vec::new();
        let mut i: usize = 0;
        while i < self.running_total.len()
            invariant
                0 <= i <= self@.len(),
                self@ == self.running_total@,
                out@ =~= keys_of(self@.take(i as int)),
            decreases self@.len() - i,
        {
            out.push(self.running_total[i].0);
            i = i + 1;
            assert(out@ =~= keys_of(self@.take(i as int)));
        }
        assert(self@.take(i as int) =~= self@);
        out
    }

    /// The ranked winners: the requested number of candidates with the
    /// highest totals, and every candidate tied with the last of them.
    pub fn winners(&self) -> (r: RankedWinners<T>)
        ensures
            r@ == rank_spec(self@, self.requested() as nat),
    {
        self.get_counted().into_ranked(self.num_winners)
    }

    /// Each candidate with its total, highest total first.
    pub fn totals(&self) -> (r: Vec<(T, C)>)
        ensures
            r@ == sort_desc(self@),
    {
        self.get_counted().into_vec()
    }

    /// Every candidate with its rank, best first.
    pub fn ranked(&self) -> (r: Vec<(T, u32)>)
        ensures
            r@ == rank_spec(self@, 0),
    {
        self.get_counted().into_ranked(0).into_vec()
    }

    /// The running total as a snapshot to rank.
    fn get_counted(&self) -> (r: CountedCandidates<T, C>)
        ensures
            r@ == self@,
    {
        let mut counted = CountedCandidates::new();
        let mut i: usize = 0;
        while i < self.running_total.len()
            invariant
                0 <= i <= self@.len(),
                self@ == self.running_total@,
                counted@ =~= self@.take(i as int),
            decreases self@.len() - i,
        {
            let (candidate, votecount) = self.running_total[i];
            counted.push(candidate, votecount);
            i = i + 1;
            assert(counted@ =~= self@.take(i as int));
        }
        assert(self@.take(i as int) =~= self@);
        counted
    }
}

/// Repeatable queries: `winners`, `totals`, `ranked` and `candidates` take the
/// tally by shared reference and their results are fixed by its running total
/// and the number of winners asked for, so two tallies that agree on both (in
/// particular, one tally queried twice with no `add` in between) give equal
/// results.
pub proof fn lemma_queries_repeatable<T: Copy + PartialEq, C: Count>(
    a: &PluralityTally<T, C>,
    b: &PluralityTally<T, C>,
)
    requires
        a@ == b@,
        a.requested() == b.requested(),
    ensures
        rank_spec(a@, a.requested() as nat) == rank_spec(b@, b.requested() as nat),
        rank_spec(a@, 0) == rank_spec(b@, 0),
        sort_desc(a@) == sort_desc(b@),
        keys_of(a@) == keys_of(b@),
{
}

} // verus!
