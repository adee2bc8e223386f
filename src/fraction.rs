use vstd::prelude::*;

use num_rational::Ratio;

use crate::count::Count;

verus! {

/// The sum of two fractions `(numerator, denominator)`, as num_rational
/// computes it: in lowest terms, with a positive denominator.
pub uninterp spec fn ratio_sum(a: (int, int), b: (int, int)) -> (int, int);

/// The product of two fractions `(numerator, denominator)`, as num_rational
/// computes it: in lowest terms, with a positive denominator.
pub uninterp spec fn ratio_product(a: (int, int), b: (int, int)) -> (int, int);

/// Relies on num_rational's `Ratio::new` and `Add` for `Ratio<i128>`: the sum
/// in lowest terms with a positive denominator. With `i64` parts and positive
/// denominators no intermediate product reaches `i128::MAX`.
#[verifier::external_body]
fn add_ratios(an: i64, ad: i64, bn: i64, bd: i64) -> (r: (i128, i128))
    requires
        ad > 0,
        bd > 0,
    ensures
        (r.0 as int, r.1 as int) == ratio_sum((an as int, ad as int), (bn as int, bd as int)),
        r.1 > 0,
{
    let s = Ratio::new(an as i128, ad as i128) + Ratio::new(bn as i128, bd as i128);
    (*s.numer(), *s.denom())
}

/// Relies on num_rational's `Ratio::new` and `Mul` for `Ratio<i128>`: the
/// product in lowest terms with a positive denominator. With `i64` parts and
/// positive denominators no intermediate product reaches `i128::MAX`.
#[verifier::external_body]
fn mul_ratios(an: i64, ad: i64, bn: i64, bd: i64) -> (r: (i128, i128))
    requires
        ad > 0,
        bd > 0,
    ensures
        (r.0 as int, r.1 as int) == ratio_product((an as int, ad as int), (bn as int, bd as int)),
        r.1 > 0,
{
    let p = Ratio::new(an as i128, ad as i128) * Ratio::new(bn as i128, bd as i128);
    (*p.numer(), *p.denom())
}

/// An exact fraction with `i64` numerator and positive `i64` denominator, for
/// counting fractional votes (as the `Dowdall` variant gives).
///
/// Sums and products are computed exactly; one that does not fit in `i64`
/// parts saturates to `i64::MAX` or `i64::MIN` (over one) by its sign.
#[derive(Clone, Copy, Debug)]
pub struct Fraction {
    numer: i64,
    denom: i64,
}

/// A wide `(numerator, denominator)` result as a `Fraction`, saturating where
/// it does not fit.
pub closed spec fn from_wide_v(r: (int, int)) -> Fraction {
    if i64::MIN <= r.0 <= i64::MAX && 0 < r.1 <= i64::MAX {
        Fraction { numer: r.0 as i64, denom: r.1 as i64 }
    } else if r.0 > 0 {
        Fraction { numer: i64::MAX, denom: 1 }
    } else if r.0 < 0 {
        Fraction { numer: i64::MIN, denom: 1 }
    } else {
        Fraction { numer: 0, denom: 1 }
    }
}

/// The parts of a fraction, a fraction without a positive denominator read as zero.
pub closed spec fn parts(f: Fraction) -> (int, int) {
    if f.denom > 0 {
        (f.numer as int, f.denom as int)
    } else {
        (0, 1)
    }
}

impl Fraction {
    /// The numerator, as a number.
    pub closed spec fn numer_v(self) -> int {
        self.numer as int
    }

    /// The denominator, as a number.
    pub closed spec fn denom_v(self) -> int {
        self.denom as int
    }

    #[verifier::type_invariant]
    spec fn denom_positive(self) -> bool {
        self.denom > 0
    }

    /// `numer / denom`, or `None` where `denom` is not positive.
    pub fn new(numer: i64, denom: i64) -> (r: Option<Fraction>)
        ensures
            r is Some <==> denom > 0,
            r matches Some(f) ==> f.numer_v() == numer && f.denom_v() == denom,
    {
        if denom > 0 {
            Some(Fraction { numer, denom })
        } else {
            None
        }
    }

    /// The whole number `n`.
    pub fn from_integer(n: i64) -> (r: Fraction)
        ensures
            r.numer_v() == n,
            r.denom_v() == 1,
    {
        Fraction { numer: n, denom: 1 }
    }

    /// The numerator.
    pub fn numer(&self) -> (r: i64)
        ensures
            r == self.numer_v(),
    {
        self.numer
    }

    /// The denominator, always positive.
    pub fn denom(&self) -> (r: i64)
        ensures
            r == self.denom_v(),
            r > 0,
    {
        proof {
            use_type_invariant(self);
        }
        self.denom
    }

    fn from_wide(r: (i128, i128)) -> (f: Fraction)
        requires
            r.1 > 0,
        ensures
            f == from_wide_v((r.0 as int, r.1 as int)),
    {
        if i64::MIN as i128 <= r.0 && r.0 <= i64::MAX as i128 && r.1 <= i64::MAX as i128 {
            Fraction { numer: r.0 as i64, denom: r.1 as i64 }
        } else if r.0 > 0 {
            Fraction { numer: i64::MAX, denom: 1 }
        } else if r.0 < 0 {
            Fraction { numer: i64::MIN, denom: 1 }
        } else {
            Fraction { numer: 0, denom: 1 }
        }
    }
}

proof fn lemma_wide_product(x: i64, y: i64)
    ensures
        i128::MIN <= (x as int) * (y as int) <= i128::MAX,
{
    assert(-0x4000_0000_0000_0000_0000_0000_0000_0000 <= (x as int) * (y as int)
        <= 0x4000_0000_0000_0000_0000_0000_0000_0000) by (nonlinear_arith)
        requires
            -0x8000_0000_0000_0000 <= x <= 0x7fff_ffff_ffff_ffff,
            -0x8000_0000_0000_0000 <= y <= 0x7fff_ffff_ffff_ffff,
    ;
}

impl Count for Fraction {
    closed spec fn zero_v() -> Fraction {
        Fraction { numer: 0, denom: 1 }
    }

    closed spec fn one_v() -> Fraction {
        Fraction { numer: 1, denom: 1 }
    }

    closed spec fn add_v(a: Fraction, b: Fraction) -> Fraction {
        from_wide_v(ratio_sum(parts(a), parts(b)))
    }

    closed spec fn mul_v(a: Fraction, b: Fraction) -> Fraction {
        from_wide_v(ratio_product(parts(a), parts(b)))
    }

    closed spec fn div_usize_v(a: Fraction, d: usize) -> Fraction {
        from_wide_v(ratio_product(parts(a), (1, parts(Self::from_usize_v(d)).0)))
    }

    closed spec fn from_usize_v(n: usize) -> Fraction {
        if n > i64::MAX {
            Fraction { numer: i64::MAX, denom: 1 }
        } else {
            Fraction { numer: n as i64, denom: 1 }
        }
    }

    closed spec fn lt_v(a: Fraction, b: Fraction) -> bool {
        parts(a).0 * parts(b).1 < parts(b).0 * parts(a).1
    }

    closed spec fn exact_division() -> bool {
        true
    }

    proof fn lemma_lt_order(a: Fraction, b: Fraction, c: Fraction) {
        let (a1, a2) = parts(a);
        let (b1, b2) = parts(b);
        let (c1, c2) = parts(c);
        assert(a1 * b2 < b1 * a2 && b1 * c2 < c1 * b2 ==> a1 * c2 < c1 * a2) by (nonlinear_arith)
            requires
                a2 > 0,
                b2 > 0,
                c2 > 0,
        ;
        assert(a1 * b2 >= b1 * a2 && b1 * c2 >= c1 * b2 ==> a1 * c2 >= c1 * a2) by (nonlinear_arith)
            requires
                a2 > 0,
                b2 > 0,
                c2 > 0,
        ;
    }

    fn zero() -> (r: Fraction) {
        Fraction { numer: 0, denom: 1 }
    }

    fn one() -> (r: Fraction) {
        Fraction { numer: 1, denom: 1 }
    }

    fn add(a: Fraction, b: Fraction) -> (r: Fraction) {
        proof {
            use_type_invariant(&a);
            use_type_invariant(&b);
        }
        Fraction::from_wide(add_ratios(a.numer, a.denom, b.numer, b.denom))
    }

    fn mul(a: Fraction, b: Fraction) -> (r: Fraction) {
        proof {
            use_type_invariant(&a);
            use_type_invariant(&b);
        }
        Fraction::from_wide(mul_ratios(a.numer, a.denom, b.numer, b.denom))
    }

    fn div_usize(a: Fraction, d: usize) -> (r: Fraction) {
        proof {
            use_type_invariant(&a);
        }
        let dd = Self::from_usize(d);
        Fraction::from_wide(mul_ratios(a.numer, a.denom, 1, dd.numer))
    }

    fn from_usize(n: usize) -> (r: Fraction) {
        if n as u64 > 0x7fff_ffff_ffff_ffff {
            Fraction { numer: i64::MAX, denom: 1 }
        } else {
            Fraction { numer: n as i64, denom: 1 }
        }
    }

    fn lt(a: Fraction, b: Fraction) -> (r: bool) {
        proof {
            use_type_invariant(&a);
            use_type_invariant(&b);
            lemma_wide_product(a.numer, b.denom);
            lemma_wide_product(b.numer, a.denom);
        }
        (a.numer as i128) * (b.denom as i128) < (b.numer as i128) * (a.denom as i128)
    }
}

} // verus!
