use tallyman::plurality::{DefaultPluralityTally, PluralityTally};

#[test]
fn plurality_test() {
    // Election between Alice, Bob, and Cir
    let mut tally = DefaultPluralityTally::new(2);
    tally.add("Alice");
    tally.add("Cir");
    tally.add("Bob");
    tally.add("Alice");
    tally.add("Alice");
    tally.add("Bob");

    assert_eq!(tally.candidates().len(), 3);
    assert_eq!(tally.totals(), vec![("Alice", 3), ("Bob", 2), ("Cir", 1)]);
    assert_eq!(tally.ranked(), vec![("Alice", 0), ("Bob", 1), ("Cir", 2)]);

    let winners = tally.winners();
    assert_eq!(winners.contains(&"Alice"), true);
    assert_eq!(winners.contains(&"Bob"), true);
    assert_eq!(winners.contains(&"Cir"), false);
    assert_eq!(winners.contains(&"Rando"), false);

    // Election for the most popular integer
    let mut tally = DefaultPluralityTally::new(1);
    tally.add(99);
    tally.add(100);
    tally.add(99);
    tally.add(99);
    tally.add(1);
    tally.add(1);
    tally.add(2);
    tally.add(0);

    let winners = tally.winners();

    assert_eq!(winners.contains(&99), true);
    assert_eq!(winners.contains(&100), false);
    assert_eq!(winners.contains(&1), false);
    assert_eq!(winners.contains(&2), false);
    assert_eq!(winners.contains(&1000), false);

    // Create an election with capacity
    let mut tally = DefaultPluralityTally::with_capacity(1, 2);
    let candidate_id_1 = 123;
    let candidate_id_2 = 456;
    tally.add_ref(&candidate_id_1);
    tally.add_ref(&candidate_id_2);

    let winners = tally.winners();
    assert_eq!(winners.contains(&candidate_id_1), true);
    assert_eq!(winners.contains(&candidate_id_2), true);
}

#[test]
fn two_winners_without_tie() {
    let mut tally = DefaultPluralityTally::new(2);
    for name in ["Alice", "Cir", "Bob", "Alice", "Alice", "Bob"] {
        tally.add(name);
    }
    let winners = tally.winners();
    assert_eq!(winners.len(), 2);
    assert_eq!(winners.into_vec(), vec![("Alice", 0), ("Bob", 1)]);
}

#[test]
fn tie_at_cutoff_grows_result() {
    let mut tally = DefaultPluralityTally::new(2);
    tally.add_weighted("Alice", 3);
    tally.add_weighted("Cir", 2);
    tally.add_weighted("Bob", 2);
    tally.add("Dave");
    let winners = tally.winners();
    assert_eq!(winners.len(), 3);
    assert_eq!(winners.into_vec(), vec![("Alice", 0), ("Cir", 1), ("Bob", 1)]);
}

#[test]
fn weights_accumulate_in_any_order() {
    let mut a: PluralityTally<&str, u64> = PluralityTally::new(1);
    a.add_weighted("X", 5);
    a.add("Y");
    a.add_weighted("X", 7);
    a.add_ref(&"X");
    let mut b: PluralityTally<&str, u64> = PluralityTally::new(1);
    b.add_ref(&"X");
    b.add_weighted_ref(&"X", 7);
    b.add_weighted("X", 5);
    b.add("Y");
    assert_eq!(a.totals(), vec![("X", 13), ("Y", 1)]);
    assert_eq!(b.totals(), vec![("X", 13), ("Y", 1)]);
}

#[test]
fn zero_weight_still_counts_as_candidate() {
    let mut tally: PluralityTally<u32, u64> = PluralityTally::new(1);
    tally.add_weighted(7, 0);
    tally.add(3);
    tally.add(3);
    tally.add(7);
    tally.add(9);
    assert_eq!(tally.candidates(), vec![7, 3, 9]);
    assert_eq!(tally.totals(), vec![(3, 2), (7, 1), (9, 1)]);
}

#[test]
fn queries_are_repeatable() {
    let mut tally = DefaultPluralityTally::new(1);
    tally.add("A");
    tally.add("B");
    tally.add("B");
    tally.add("C");
    assert_eq!(tally.totals(), tally.totals());
    assert_eq!(tally.winners().into_vec(), tally.winners().into_vec());
    assert_eq!(tally.ranked(), tally.ranked());
}

#[test]
fn zero_requested_ranks_everyone() {
    let mut tally = DefaultPluralityTally::new(0);
    tally.add_weighted("A", 1);
    tally.add_weighted("B", 5);
    tally.add_weighted("C", 5);
    tally.add_weighted("D", 2);
    assert_eq!(
        tally.winners().into_vec(),
        vec![("B", 0), ("C", 0), ("D", 1), ("A", 2)]
    );
}

#[test]
fn request_beyond_candidates_returns_all() {
    let mut tally = DefaultPluralityTally::new(10);
    tally.add("A");
    tally.add("B");
    tally.add("A");
    let winners = tally.winners();
    assert_eq!(winners.len(), 2);
    assert_eq!(winners.into_unranked(), vec!["A", "B"]);
}

#[test]
fn empty_tally_has_no_winners() {
    let tally: PluralityTally<&str, u64> = PluralityTally::new(3);
    let winners = tally.winners();
    assert!(winners.is_empty());
    assert!(tally.candidates().is_empty());
    assert!(tally.totals().is_empty());
}

#[test]
fn weights_saturate_at_the_maximum() {
    let mut tally: PluralityTally<&str, u64> = PluralityTally::new(1);
    tally.add_weighted("A", u64::MAX - 1);
    tally.add_weighted("A", 5);
    assert_eq!(tally.totals(), vec![("A", u64::MAX)]);
}

#[test]
fn candidates_counts_distinct_selections() {
    let mut tally: PluralityTally<char, u64> = PluralityTally::new(1);
    for c in ['b', 'a', 'b', 'c', 'a', 'b'] {
        tally.add(c);
    }
    assert_eq!(tally.candidates().len(), 3);
    assert_eq!(tally.candidates(), vec!['b', 'a', 'c']);
}

#[test]
fn negative_weights_lower_a_total() {
    let mut tally: PluralityTally<&str, i64> = PluralityTally::new(1);
    tally.add_weighted("A", 4);
    tally.add_weighted("B", 3);
    tally.add_weighted("A", -2);
    tally.add_weighted("C", -1);
    assert_eq!(tally.totals(), vec![("B", 3), ("A", 2), ("C", -1)]);
    assert_eq!(tally.winners().into_vec(), vec![("B", 0)]);
}

#[test]
fn signed_weights_saturate_both_ways() {
    let mut tally: PluralityTally<u8, i64> = PluralityTally::new(0);
    tally.add_weighted(1, i64::MAX);
    tally.add(1);
    tally.add_weighted(2, i64::MIN);
    tally.add_weighted(2, -1);
    assert_eq!(tally.totals(), vec![(1, i64::MAX), (2, i64::MIN)]);
}

#[test]
fn merge_adds_equal_keys() {
    let mut a = DefaultPluralityTally::new(1);
    a.add("X");
    a.add_weighted("Y", 4);
    let mut b = DefaultPluralityTally::new(1);
    b.add_weighted("Y", 2);
    b.add_weighted("Z", 9);
    b.add("X");
    a.merge(&b);
    assert_eq!(a.candidates(), vec!["X", "Y", "Z"]);
    assert_eq!(a.totals(), vec![("Z", 9), ("Y", 6), ("X", 2)]);
}
