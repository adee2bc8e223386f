use tallyman::borda::{Tally, Variant};
use tallyman::fraction::Fraction;
use tallyman::plurality::PluralityTally;

fn parts(f: &Fraction) -> (i64, i64) {
    (f.numer(), f.denom())
}

#[test]
fn dowdall_with_fractions() {
    let mut tally: Tally<&str, Fraction> = Tally::new(1, Variant::Dowdall);
    tally.add(vec!["Barak Obama", "John McCain"]);
    tally.add(vec!["Barak Obama", "Mitt Romney"]);
    assert_eq!(tally.winners().into_vec(), vec![("Barak Obama", 0)]);

    let mut all: Tally<&str, Fraction> = Tally::new(0, Variant::Dowdall);
    all.add(vec!["Barak Obama", "John McCain"]);
    all.add(vec!["Barak Obama", "Mitt Romney"]);
    assert_eq!(
        all.winners().into_vec(),
        vec![("Barak Obama", 0), ("John McCain", 1), ("Mitt Romney", 1)]
    );
}

#[test]
fn dowdall_points_are_exact() {
    let p: Fraction = Variant::Dowdall.points(1, 3, 2);
    assert_eq!(parts(&p), (3, 2));
    let p: Fraction = Variant::Dowdall.points(3, 6, 4);
    assert_eq!(parts(&p), (3, 2));
    let p: Fraction = Variant::Dowdall.points(0, 3, 2);
    assert_eq!(parts(&p), (3, 1));
}

#[test]
fn fractional_weights_sum_exactly() {
    let half = Fraction::new(1, 2).unwrap();
    let third = Fraction::new(2, 6).unwrap();
    let mut tally: PluralityTally<&str, Fraction> = PluralityTally::new(1);
    tally.add_weighted("A", half);
    tally.add_weighted("B", third);
    tally.add_weighted("A", half);
    tally.add_weighted("B", third);
    tally.add_weighted("B", third);
    let totals: Vec<(&str, (i64, i64))> = tally.totals().iter().map(|(c, w)| (*c, parts(w))).collect();
    assert_eq!(totals, vec![("A", (1, 1)), ("B", (1, 1))]);
    assert_eq!(tally.winners().len(), 2);
}

#[test]
fn fraction_constructors() {
    assert!(Fraction::new(1, 0).is_none());
    assert!(Fraction::new(1, -2).is_none());
    assert_eq!(parts(&Fraction::new(-3, 4).unwrap()), (-3, 4));
    assert_eq!(parts(&Fraction::from_integer(7)), (7, 1));
}

#[test]
fn fraction_overflow_saturates() {
    let big = Fraction::from_integer(i64::MAX);
    let mut tally: PluralityTally<u8, Fraction> = PluralityTally::new(1);
    tally.add_weighted(1, big);
    tally.add_weighted(1, big);
    tally.add_weighted(2, Fraction::from_integer(i64::MIN));
    tally.add_weighted(2, Fraction::from_integer(-1));
    let totals: Vec<(u8, (i64, i64))> = tally.totals().iter().map(|(c, w)| (*c, parts(w))).collect();
    assert_eq!(totals, vec![(1, (i64::MAX, 1)), (2, (i64::MIN, 1))]);
}
