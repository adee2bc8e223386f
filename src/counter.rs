use vstd::prelude::*;

use crate::count::Count;

verus! {

/// The last position below `i` whose key is `key`, or -1.
pub open spec fn find_below<K, C>(s: Seq<(K, C)>, key: K, i: int) -> int
    decreases i,
{
    if i <= 0 {
        -1
    } else if s[i - 1].0 == key {
        i - 1
    } else {
        find_below(s, key, i - 1)
    }
}

/// The position of `key` in the running total `s`, or -1 when it has none.
pub open spec fn find_key<K, C>(s: Seq<(K, C)>, key: K) -> int {
    find_below(s, key, s.len() as int)
}

/// The weight accumulated for `key`: zero for a key never recorded.
pub open spec fn total_of<K, C: Count>(s: Seq<(K, C)>, key: K) -> C {
    let k = find_key(s, key);
    if k >= 0 {
        s[k].1
    } else {
        C::zero_v()
    }
}

/// The running total `s` after recording `weight` for `key`: added to the
/// key's weight where the key is present, else a new entry at the end whose
/// weight is zero plus `weight`.
pub open spec fn record<K, C: Count>(s: Seq<(K, C)>, key: K, weight: C) -> Seq<(K, C)> {
    let k = find_key(s, key);
    if k >= 0 {
        s.update(k, (key, C::add_v(s[k].1, weight)))
    } else {
        s.push((key, C::add_v(C::zero_v(), weight)))
    }
}

/// No key occurs twice in the running total.
pub open spec fn keys_unique<K, C>(s: Seq<(K, C)>) -> bool {
    forall|i: int, j: int| 0 <= i < j < s.len() ==> s[i].0 != s[j].0
}

/// The keys of the running total, in order.
pub open spec fn keys_of<K, C>(s: Seq<(K, C)>) -> Seq<K> {
    s.map_values(|p: (K, C)| p.0)
}

/// `record` applied once for each pair of `votes`, in order.
pub open spec fn record_all<K, C: Count>(s: Seq<(K, C)>, votes: Seq<(K, C)>) -> Seq<(K, C)>
    decreases votes.len(),
{
    if votes.len() == 0 {
        s
    } else {
        let prev = record_all(s, votes.drop_last());
        record(prev, votes.last().0, votes.last().1)
    }
}

/// `start` plus, in order, the weight of each vote in `votes` for `key`.
pub open spec fn sum_for<K, C: Count>(start: C, votes: Seq<(K, C)>, key: K) -> C
    decreases votes.len(),
{
    if votes.len() == 0 {
        start
    } else {
        let prev = sum_for(start, votes.drop_last(), key);
        if votes.last().0 == key {
            C::add_v(prev, votes.last().1)
        } else {
            prev
        }
    }
}

/// Recording two runs of votes one after the other is recording their concatenation.
pub proof fn lemma_record_all_concat<K, C: Count>(s: Seq<(K, C)>, a: Seq<(K, C)>, b: Seq<(K, C)>)
    ensures
        record_all(s, a + b) == record_all(record_all(s, a), b),
    decreases b.len(),
{
    if b.len() == 0 {
        assert(a + b =~= a);
    } else {
        lemma_record_all_concat(s, a, b.drop_last());
        assert((a + b).drop_last() =~= a + b.drop_last());
        assert((a + b).last() == b.last());
    }
}

proof fn lemma_find_below_agree<K, C, D>(s: Seq<(K, C)>, t: Seq<(K, D)>, key: K, i: int)
    requires
        i <= s.len(),
        i <= t.len(),
        forall|j: int| 0 <= j < i ==> (s[j].0 == key) == (t[j].0 == key),
    ensures
        find_below(s, key, i) == find_below(t, key, i),
    decreases i,
{
    if i > 0 {
        lemma_find_below_agree(s, t, key, i - 1);
    }
}

/// `find_below` gives -1 or a position below `i` that holds `key`, the last one.
pub proof fn lemma_find_below_range<K, C>(s: Seq<(K, C)>, key: K, i: int)
    requires
        0 <= i <= s.len(),
    ensures
        -1 <= find_below(s, key, i) < i,
        find_below(s, key, i) >= 0 ==> s[find_below(s, key, i)].0 == key,
        find_below(s, key, i) == -1 ==> forall|j: int| 0 <= j < i ==> s[j].0 != key,
    decreases i,
{
    if i > 0 {
        lemma_find_below_range(s, key, i - 1);
    }
}

/// Facts on one `record` step: the recorded key's total grows by the weight,
/// every other key's total stays, and keys stay unique.
pub proof fn lemma_record_step<K, C: Count>(s: Seq<(K, C)>, key: K, weight: C, other: K)
    ensures
        total_of(record(s, key, weight), key) == C::add_v(total_of(s, key), weight),
        other != key ==> total_of(record(s, key, weight), other) == total_of(s, other),
        keys_of(record(s, key, weight)).to_set() == keys_of(s).to_set().insert(key),
        keys_unique(s) ==> keys_unique(record(s, key, weight)),
{
    let r = record(s, key, weight);
    let k = find_key(s, key);
    lemma_find_below_range(s, key, s.len() as int);
    lemma_find_below_range(s, other, s.len() as int);
    lemma_find_below_agree(s, r, other, s.len() as int);
    if k >= 0 {
        lemma_find_below_agree(s, r, key, s.len() as int);
        assert(keys_of(r) =~= keys_of(s));
        assert(keys_of(s)[k] == key);
        assert(keys_of(s).to_set() =~= keys_of(s).to_set().insert(key));
    } else {
        lemma_find_below_range(r, key, r.len() as int);
        assert(keys_of(r) =~= keys_of(s).push(key));
        assert(keys_of(r).to_set() =~= keys_of(s).to_set().insert(key)) by {
            assert forall|x: K| keys_of(r).to_set().contains(x) <==> keys_of(s).to_set().insert(
                key,
            ).contains(x) by {
                if keys_of(s).to_set().contains(x) {
                    let j = choose|j: int| 0 <= j < keys_of(s).len() && keys_of(s)[j] == x;
                    assert(keys_of(r)[j] == x);
                }
                if x == key {
                    assert(keys_of(r)[s.len() as int] == x);
                }
                if keys_of(r).to_set().contains(x) {
                    let j = choose|j: int| 0 <= j < keys_of(r).len() && keys_of(r)[j] == x;
                    if j < s.len() {
                        assert(keys_of(s)[j] == x);
                    }
                }
            }
        }
        if other != key {
            lemma_find_below_agree(s, r, other, s.len() as int);
        }
    }
}

/// Accumulation: whatever votes are recorded, in whatever order and
/// interleaved with votes for other keys, a key's total is its starting total
/// plus each weight recorded for it, added in turn.
pub proof fn lemma_total_is_sum<K, C: Count>(s: Seq<(K, C)>, votes: Seq<(K, C)>, key: K)
    ensures
        total_of(record_all(s, votes), key) == sum_for(total_of(s, key), votes, key),
    decreases votes.len(),
{
    if votes.len() > 0 {
        let prev = record_all(s, votes.drop_last());
        lemma_total_is_sum(s, votes.drop_last(), key);
        lemma_record_step(prev, votes.last().0, votes.last().1, key);
    }
}

/// Distinct keys: after recording any votes into an empty running total, it
/// holds exactly one entry per distinct key among the votes.
pub proof fn lemma_one_entry_per_key<K, C: Count>(votes: Seq<(K, C)>)
    ensures
        keys_unique(record_all(Seq::<(K, C)>::empty(), votes)),
        keys_of(record_all(Seq::<(K, C)>::empty(), votes)).to_set() == keys_of(votes).to_set(),
        record_all(Seq::<(K, C)>::empty(), votes).len() == keys_of(votes).to_set().len(),
    decreases votes.len(),
{
    let e = Seq::<(K, C)>::empty();
    if votes.len() == 0 {
        assert(keys_of(e).to_set() =~= Set::<K>::empty());
        assert(keys_of(votes).to_set() =~= Set::<K>::empty());
    } else {
        let init = votes.drop_last();
        lemma_one_entry_per_key(init);
        let prev = record_all(e, init);
        lemma_record_step(prev, votes.last().0, votes.last().1, votes.last().0);
        assert(keys_of(votes) =~= keys_of(init).push(votes.last().0));
        assert(keys_of(votes).to_set() =~= keys_of(init).to_set().insert(votes.last().0)) by {
            assert forall|x: K| keys_of(votes).to_set().contains(x) <==> keys_of(
                init,
            ).to_set().insert(votes.last().0).contains(x) by {
                if keys_of(init).to_set().contains(x) {
                    let j = choose|j: int| 0 <= j < keys_of(init).len() && keys_of(init)[j] == x;
                    assert(keys_of(votes)[j] == x);
                }
                if x == votes.last().0 {
                    assert(keys_of(votes)[init.len() as int] == x);
                }
                if keys_of(votes).to_set().contains(x) {
                    let j = choose|j: int| 0 <= j < keys_of(votes).len() && keys_of(votes)[j] == x;
                    if j < init.len() {
                        assert(keys_of(init)[j] == x);
                    }
                }
            }
        }
    }
    let r = record_all(e, votes);
    assert(keys_of(r).no_duplicates());
    keys_of(r).unique_seq_to_set();
}

proof fn lemma_sum_for_unique<K, C: Count>(start: C, votes: Seq<(K, C)>, key: K)
    requires
        keys_unique(votes),
    ensures
        sum_for(start, votes, key) == if find_key(votes, key) >= 0 {
            C::add_v(start, votes[find_key(votes, key)].1)
        } else {
            start
        },
    decreases votes.len(),
{
    if votes.len() > 0 {
        let init = votes.drop_last();
        let x = votes.last();
        assert(keys_unique(init));
        lemma_sum_for_unique(start, init, key);
        lemma_find_below_range(init, key, init.len() as int);
        lemma_find_below_agree(init, votes, key, init.len() as int);
        if x.0 == key {
            if find_key(init, key) >= 0 {
                assert(votes[find_key(init, key)].0 == votes[init.len() as int].0);
            }
        }
    }
}

/// Merging: recording one running total's entries into another adds, key by
/// key, the two weights; a key that only one of them holds keeps its weight.
pub proof fn lemma_merge_adds<K, C: Count>(s: Seq<(K, C)>, other: Seq<(K, C)>, key: K)
    requires
        keys_unique(other),
    ensures
        total_of(record_all(s, other), key) == if find_key(other, key) >= 0 {
            C::add_v(total_of(s, key), total_of(other, key))
        } else {
            total_of(s, key)
        },
{
    lemma_total_is_sum(s, other, key);
    lemma_sum_for_unique(total_of(s, key), other, key);
}

} // verus!
