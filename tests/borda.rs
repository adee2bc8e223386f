use tallyman::borda::{DefaultTally, Tally, Variant};
use tallyman::plurality::DefaultPluralityTally;

#[test]
fn borda_test() {
    let mut tally = DefaultTally::new(1, Variant::Borda);
    tally.add(vec!["Alice", "Bob", "Carlos", "Dave"]);
    tally.add(vec!["Bob", "Alice", "Carlos", "Dave"]);
    tally.add(vec!["Alice", "Carlos", "Bob", "Dave"]);
    assert_eq!(tally.winners().into_vec(), vec![("Alice", 0)]);
}

#[test]
fn point_formulas() {
    let positions = [0usize, 1, 2, 3];
    let borda: Vec<u64> = positions.iter().map(|p| Variant::Borda.points(*p, 4, 4)).collect();
    assert_eq!(borda, vec![3, 2, 1, 0]);
    let classic: Vec<u64> = positions.iter().map(|p| Variant::ClassicBorda.points(*p, 4, 4)).collect();
    assert_eq!(classic, vec![4, 3, 2, 1]);
    let dowdall: Vec<u64> = positions.iter().map(|p| Variant::Dowdall.points(*p, 12, 4)).collect();
    assert_eq!(dowdall, vec![12, 6, 4, 3]);
    let modified: Vec<u64> = positions.iter().map(|p| Variant::ModifiedBorda.points(*p, 9, 4)).collect();
    assert_eq!(modified, vec![3, 2, 1, 0]);
    let modified_classic: Vec<u64> =
        positions.iter().map(|p| Variant::ModifiedClassicBorda.points(*p, 9, 4)).collect();
    assert_eq!(modified_classic, vec![4, 3, 2, 1]);
}

#[test]
fn point_differences_stop_at_zero() {
    let p: u64 = Variant::Borda.points(5, 3, 6);
    assert_eq!(p, 0);
    let p: u64 = Variant::ModifiedClassicBorda.points(4, 3, 2);
    assert_eq!(p, 0);
}

#[test]
fn modified_borda_short_ballot() {
    let x: u64 = Variant::ModifiedBorda.points(0, 5, 2);
    let y: u64 = Variant::ModifiedBorda.points(1, 5, 2);
    assert_eq!((x, y), (1, 0));

    let mut tally = DefaultTally::new(0, Variant::ModifiedBorda);
    tally.add(vec!["V", "W", "Z"]);
    tally.add(vec!["X", "Y"]);
    assert_eq!(
        tally.winners().into_vec(),
        vec![("V", 0), ("W", 1), ("X", 1), ("Z", 2), ("Y", 2)]
    );
}

#[test]
fn borda_matches_weighted_plurality() {
    let ballots = vec![
        vec!["A", "B", "C", "D"],
        vec!["B", "C", "A", "D"],
        vec!["C", "B", "D", "A"],
        vec!["A", "B", "C", "D"],
    ];
    let mut borda = DefaultTally::new(2, Variant::Borda);
    let mut plurality = DefaultPluralityTally::new(2);
    for ballot in ballots.iter() {
        borda.add_ref(ballot);
        for (p, c) in ballot.iter().enumerate() {
            plurality.add_weighted(*c, 3 - p as u64);
        }
    }
    assert_eq!(plurality.totals(), vec![("B", 9), ("A", 7), ("C", 7), ("D", 1)]);
    assert_eq!(borda.winners().into_vec(), plurality.winners().into_vec());
    assert_eq!(borda.winners().into_vec(), vec![("B", 0), ("A", 1), ("C", 1)]);
}

#[test]
fn repeated_ballots_accumulate_weight() {
    let mut tally: Tally<u32, u64> = Tally::new(1, Variant::ClassicBorda);
    tally.add_weighted(vec![1, 2], 2);
    tally.add_weighted_ref(&[2, 1], 1);
    tally.add(vec![1, 2]);
    // Two candidates: first place gets 2 points, second 1.
    // 1: 3 * 2 + 1 * 1 = 7; 2: 3 * 1 + 1 * 2 = 5.
    assert_eq!(tally.winners().into_vec(), vec![(1, 0)]);
}

#[test]
fn duplicate_candidates_score_per_occurrence() {
    let mut tally = DefaultTally::new(0, Variant::ModifiedClassicBorda);
    tally.add(vec!["A", "B", "A"]);
    tally.add(vec!["B", "C"]);
    // A: 3 + 1 = 4; B: 2 + 2 = 4; C: 1.
    assert_eq!(
        tally.winners().into_vec(),
        vec![("A", 0), ("B", 0), ("C", 1)]
    );
}

#[test]
fn signed_points_truncate_toward_zero() {
    let p: i64 = Variant::Dowdall.points(2, 7, 3);
    assert_eq!(p, 2);
    let p: i64 = Variant::ClassicBorda.points(1, 5, 5);
    assert_eq!(p, 4);
}

#[test]
fn capacity_constructor_starts_empty() {
    let mut tally: Tally<&str, u64> = Tally::with_capacity(1, Variant::ClassicBorda, 8);
    assert!(tally.winners().is_empty());
    tally.add(vec!["P", "Q"]);
    tally.add(vec!["Q", "P"]);
    tally.add(vec!["Q", "P"]);
    assert_eq!(tally.winners().into_vec(), vec![("Q", 0)]);
}
