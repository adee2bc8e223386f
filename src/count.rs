use vstd::prelude::*;

verus! {

/// A numeric type that a tally can count votes in.
///
/// Each operation is described by a spec function, so that the contracts of the
/// tallies can speak of accumulated weights exactly, whatever the type's own
/// rounding or saturation rules are.
pub trait Count: Copy + Sized {
    /// The additive identity.
    spec fn zero_v() -> Self;

    /// The weight of a single, unweighted vote.
    spec fn one_v() -> Self;

    /// The sum of two counts, as this type computes it.
    spec fn add_v(a: Self, b: Self) -> Self;

    /// The product of two counts, as this type computes it.
    spec fn mul_v(a: Self, b: Self) -> Self;

    /// The quotient of a count by a positive whole number, as this type computes it.
    spec fn div_usize_v(a: Self, d: usize) -> Self;

    /// A whole number as a count.
    spec fn from_usize_v(n: usize) -> Self;

    /// Strict ordering of counts.
    spec fn lt_v(a: Self, b: Self) -> bool;

    /// Whether division is exact, so that fractional point values keep their value.
    spec fn exact_division() -> bool;

    /// `lt_v` is a strict weak order: irreflexive, transitive, and with
    /// transitive incomparability.
    proof fn lemma_lt_order(a: Self, b: Self, c: Self)
        ensures
            !Self::lt_v(a, a),
            Self::lt_v(a, b) && Self::lt_v(b, c) ==> Self::lt_v(a, c),
            !Self::lt_v(a, b) && !Self::lt_v(b, c) ==> !Self::lt_v(a, c),
    ;

    fn zero() -> (r: Self)
        ensures
            r == Self::zero_v(),
    ;

    fn one() -> (r: Self)
        ensures
            r == Self::one_v(),
    ;

    fn add(a: Self, b: Self) -> (r: Self)
        ensures
            r == Self::add_v(a, b),
    ;

    fn mul(a: Self, b: Self) -> (r: Self)
        ensures
            r == Self::mul_v(a, b),
    ;

    fn div_usize(a: Self, d: usize) -> (r: Self)
        requires
            d > 0,
        ensures
            r == Self::div_usize_v(a, d),
    ;

    fn from_usize(n: usize) -> (r: Self)
        ensures
            r == Self::from_usize_v(n),
    ;

    fn lt(a: Self, b: Self) -> (r: bool)
        ensures
            r == Self::lt_v(a, b),
    ;
}

/// Whole-vote counting in `u64`. Sums and products saturate at `u64::MAX`;
/// division truncates.
impl Count for u64 {
    open spec fn zero_v() -> u64 {
        0
    }

    open spec fn one_v() -> u64 {
        1
    }

    open spec fn add_v(a: u64, b: u64) -> u64 {
        if a + b > u64::MAX {
            u64::MAX
        } else {
            (a + b) as u64
        }
    }

    open spec fn mul_v(a: u64, b: u64) -> u64 {
        if a * b > u64::MAX {
            u64::MAX
        } else {
            (a * b) as u64
        }
    }

    open spec fn div_usize_v(a: u64, d: usize) -> u64 {
        (a as int / d as int) as u64
    }

    open spec fn from_usize_v(n: usize) -> u64 {
        n as u64
    }

    open spec fn lt_v(a: u64, b: u64) -> bool {
        a < b
    }

    open spec fn exact_division() -> bool {
        false
    }

    proof fn lemma_lt_order(a: u64, b: u64, c: u64) {
    }

    fn zero() -> (r: u64) {
        0
    }

    fn one() -> (r: u64) {
        1
    }

    fn add(a: u64, b: u64) -> (r: u64) {
        match a.checked_add(b) {
            Some(s) => s,
            None => u64::MAX,
        }
    }

    fn mul(a: u64, b: u64) -> (r: u64) {
        match a.checked_mul(b) {
            Some(p) => p,
            None => u64::MAX,
        }
    }

    fn div_usize(a: u64, d: usize) -> (r: u64) {
        a / (d as u64)
    }

    fn from_usize(n: usize) -> (r: u64) {
        n as u64
    }

    fn lt(a: u64, b: u64) -> (r: bool) {
        a < b
    }
}

/// Signed counting in `i64`, for weights that may be negative. Sums and
/// products saturate at `i64::MIN` and `i64::MAX`; division truncates toward
/// zero; whole numbers beyond `i64::MAX` become `i64::MAX`.
impl Count for i64 {
    open spec fn zero_v() -> i64 {
        0
    }

    open spec fn one_v() -> i64 {
        1
    }

    open spec fn add_v(a: i64, b: i64) -> i64 {
        if a + b > i64::MAX {
            i64::MAX
        } else if a + b < i64::MIN {
            i64::MIN
        } else {
            (a + b) as i64
        }
    }

    open spec fn mul_v(a: i64, b: i64) -> i64 {
        if a * b > i64::MAX {
            i64::MAX
        } else if a * b < i64::MIN {
            i64::MIN
        } else {
            (a * b) as i64
        }
    }

    open spec fn div_usize_v(a: i64, d: usize) -> i64 {
        let dd = Self::from_usize_v(d) as int;
        if a >= 0 {
            (a as int / dd) as i64
        } else {
            (-((-a) / dd)) as i64
        }
    }

    open spec fn from_usize_v(n: usize) -> i64 {
        if n > i64::MAX {
            i64::MAX
        } else {
            n as i64
        }
    }

    open spec fn lt_v(a: i64, b: i64) -> bool {
        a < b
    }

    open spec fn exact_division() -> bool {
        false
    }

    proof fn lemma_lt_order(a: i64, b: i64, c: i64) {
    }

    fn zero() -> (r: i64) {
        0
    }

    fn one() -> (r: i64) {
        1
    }

    fn add(a: i64, b: i64) -> (r: i64) {
        match a.checked_add(b) {
            Some(s) => s,
            None => if b > 0 {
                i64::MAX
            } else {
                i64::MIN
            },
        }
    }

    fn mul(a: i64, b: i64) -> (r: i64) {
        match a.checked_mul(b) {
            Some(p) => p,
            None => {
                if (a > 0) == (b > 0) {
                    assert(a * b > 0) by (nonlinear_arith)
                        requires
                            a != 0,
                            b != 0,
                            (a > 0) == (b > 0),
                    ;
                    i64::MAX
                } else {
                    assert(a * b < 0) by (nonlinear_arith)
                        requires
                            a != 0,
                            b != 0,
                            (a > 0) != (b > 0),
                    ;
                    i64::MIN
                }
            },
        }
    }

    fn div_usize(a: i64, d: usize) -> (r: i64) {
        let dd = Self::from_usize(d);
        proof {
            let x = if a >= 0 {
                a as int
            } else {
                -a
            };
            vstd::arithmetic::div_mod::lemma_div_is_ordered_by_denominator(x, 1, dd as int);
            vstd::arithmetic::div_mod::lemma_div_pos_is_pos(x, dd as int);
            vstd::arithmetic::div_mod::lemma_div_basics(x);
        }
        match a.checked_div(dd) {
            Some(q) => q,
            None => 0,
        }
    }

    fn from_usize(n: usize) -> (r: i64) {
        if n as u64 > 0x7fff_ffff_ffff_ffff {
            i64::MAX
        } else {
            n as i64
        }
    }

    fn lt(a: i64, b: i64) -> (r: bool) {
        a < b
    }
}

} // verus!
