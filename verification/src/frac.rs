use vstd::prelude::*;
use crate::vec2::int_abs;

verus! {

// ---------------------------------------------------------------------------
// Rational values as (numerator, denominator) pairs
//
// Times of impact are exact fractions of the tested displacement.  At the
// specification level a fraction is a pair of unbounded integers with a
// non-negative denominator; a pair with denominator 0 encodes an infinity
// whose sign is the numerator (used for the slab test's unbounded axes).
// With that convention a single cross-multiplication comparison is correct
// for finite and infinite values alike.
// ---------------------------------------------------------------------------

/// `a < b` for fractions with non-negative denominators.
pub open spec fn q_lt(a: (int, int), b: (int, int)) -> bool {
    a.0 * b.1 < b.0 * a.1
}

/// `a <= b` for fractions with non-negative denominators.
pub open spec fn q_le(a: (int, int), b: (int, int)) -> bool {
    a.0 * b.1 <= b.0 * a.1
}

/// `a == b` (as values) for fractions with non-negative denominators.
pub open spec fn q_eq(a: (int, int), b: (int, int)) -> bool {
    a.0 * b.1 == b.0 * a.1
}

/// Any product of two `i64` values stays strictly inside the `i128` range.
pub(crate) proof fn lemma_mul_i64_fits(a: int, b: int)
    by (nonlinear_arith)
    requires
        -0x8000_0000_0000_0000 <= a <= 0x8000_0000_0000_0000,
        -0x8000_0000_0000_0000 <= b <= 0x8000_0000_0000_0000,
    ensures
        -0x4000_0000_0000_0000_0000_0000_0000_0000 <= a * b
            <= 0x4000_0000_0000_0000_0000_0000_0000_0000,
{
}

/// `<` on fractions with positive denominators is transitive.
pub proof fn lemma_q_lt_trans(a: (int, int), b: (int, int), c: (int, int))
    by (nonlinear_arith)
    requires
        a.1 >= 1,
        b.1 >= 1,
        c.1 >= 1,
        q_lt(a, b),
        q_lt(b, c),
    ensures
        q_lt(a, c),
{
}

/// Value equality of fractions is transitive when the middle denominator
/// is positive.
pub proof fn lemma_q_eq_trans(a: (int, int), b: (int, int), c: (int, int))
    by (nonlinear_arith)
    requires
        b.1 >= 1,
        q_eq(a, b),
        q_eq(b, c),
    ensures
        q_eq(a, c),
{
}

/// An exact rational number with a positive denominator, used for times of
/// impact expressed as a fraction of the tested displacement.
#[derive(Clone, Copy, Debug)]
pub struct Frac {
    pub num: i64,
    pub den: i64,
}

impl Frac {
    /// The fraction as a specification-level pair.
    pub open spec fn q(self) -> (int, int) {
        (self.num as int, self.den as int)
    }

    /// The denominator is positive, as every constructed time is.
    pub open spec fn valid(self) -> bool {
        self.den >= 1
    }

    pub fn new(num: i64, den: i64) -> (r: Self)
        requires
            den >= 1,
        ensures
            r.num == num,
            r.den == den,
            r.valid(),
    {
        Frac { num, den }
    }

    /// The fraction representing exactly one.
    pub fn one() -> (r: Self)
        ensures
            r.num == 1,
            r.den == 1,
            r.valid(),
    {
        Frac { num: 1, den: 1 }
    }

    /// The fraction representing exactly zero.
    pub fn zero() -> (r: Self)
        ensures
            r.num == 0,
            r.den == 1,
            r.valid(),
    {
        Frac { num: 0, den: 1 }
    }

    /// Exact value comparison `self < other`.
    pub fn lt(&self, other: &Frac) -> (r: bool)
        ensures
            r == q_lt(self.q(), other.q()),
    {
        proof {
            lemma_mul_i64_fits(self.num as int, other.den as int);
            lemma_mul_i64_fits(other.num as int, self.den as int);
        }
        (self.num as i128) * (other.den as i128) < (other.num as i128) * (self.den as i128)
    }

}

impl PartialEq for Frac {
    /// Exact value equality: `2/4 == 1/2`.
    fn eq(&self, other: &Frac) -> (r: bool) {
        proof {
            lemma_mul_i64_fits(self.num as int, other.den as int);
            lemma_mul_i64_fits(other.num as int, self.den as int);
        }
        (self.num as i128) * (other.den as i128) == (other.num as i128) * (self.den as i128)
    }
}

impl vstd::std_specs::cmp::PartialEqSpecImpl for Frac {
    open spec fn obeys_eq_spec() -> bool {
        true
    }

    open spec fn eq_spec(&self, other: &Frac) -> bool {
        self.num * other.den == other.num * self.den
    }
}

/// An extended fraction for the slab test's per-axis entry and exit times:
/// `den == 0` encodes an infinity whose sign is `num` (an axis with zero
/// direction never binds, so its entry is minus infinity and its exit plus
/// infinity).  Cross-multiplication comparisons are exact for finite and
/// infinite values alike.
#[derive(Clone, Copy, Debug)]
pub(crate) struct Xf {
    pub num: i64,
    pub den: i64,
}

impl Xf {
    /// The extended fraction as a specification-level pair.
    pub(crate) open spec fn q(self) -> (int, int) {
        (self.num as int, self.den as int)
    }

    /// Shape of an entry time: finite, or minus infinity.
    pub(crate) open spec fn is_near(self) -> bool {
        self.den >= 1 || (self.num == -1 && self.den == 0)
    }

    /// Shape of an exit time: finite, or plus infinity.
    pub(crate) open spec fn is_far(self) -> bool {
        self.den >= 1 || (self.num == 1 && self.den == 0)
    }

    /// Exact value comparison `self < other`.
    pub(crate) fn lt(&self, other: &Xf) -> (r: bool)
        ensures
            r == q_lt(self.q(), other.q()),
    {
        proof {
            lemma_mul_i64_fits(self.num as int, other.den as int);
            lemma_mul_i64_fits(other.num as int, self.den as int);
        }
        (self.num as i128) * (other.den as i128) < (other.num as i128) * (self.den as i128)
    }
}

// ---------------------------------------------------------------------------
// Truncating division helpers
//
// Specification-level `/` is Euclidean; the engine needs division that
// rounds towards zero (halved motions for the broad-phase bound, and the
// slide computation, where rounding towards zero is what keeps a slid
// motion from overshooting the contact).
// ---------------------------------------------------------------------------

/// `n / d` rounded towards zero, for `d >= 1`.
pub open spec fn trunc_div(n: int, d: int) -> int {
    if n >= 0 {
        n / d
    } else {
        -((-n) / d)
    }
}

/// `m / 2` rounded towards zero.
pub open spec fn half_trunc(m: int) -> int {
    trunc_div(m, 2)
}

/// `|m| / 2` rounded away from zero.
pub open spec fn half_up(m: int) -> int {
    (int_abs(m) + 1) / 2
}

/// Truncating division shrinks magnitudes: `|n / d| <= |n|` for `d >= 1`.
pub(crate) proof fn lemma_trunc_div_bound(n: int, d: int)
    requires
        d >= 1,
    ensures
        int_abs(trunc_div(n, d)) <= int_abs(n),
        n >= 0 ==> 0 <= trunc_div(n, d) <= n,
        n < 0 ==> n <= trunc_div(n, d) <= 0,
{
    if n >= 0 {
        assert(0 <= n / d <= n) by (nonlinear_arith)
            requires
                n >= 0,
                d >= 1,
        ;
    } else {
        assert(0 <= (-n) / d <= -n) by (nonlinear_arith)
            requires
                n < 0,
                d >= 1,
        ;
    }
}

/// Truncating division of `i128` values by a positive divisor.
pub(crate) fn trunc_div_i128(n: i128, d: i128) -> (r: i128)
    requires
        n > i128::MIN,
        d >= 1,
    ensures
        r == trunc_div(n as int, d as int),
        int_abs(r as int) <= int_abs(n as int),
{
    proof {
        lemma_trunc_div_bound(n as int, d as int);
    }
    if n >= 0 {
        ((n as u128) / (d as u128)) as i128
    } else {
        -((((-n) as u128) / (d as u128)) as i128)
    }
}

/// `m / 2` rounded towards zero, on `i64`.
pub(crate) fn half_trunc_i64(m: i64) -> (r: i64)
    requires
        m > i64::MIN,
    ensures
        r == half_trunc(m as int),
        int_abs(r as int) <= int_abs(m as int),
{
    proof {
        lemma_trunc_div_bound(m as int, 2);
    }
    if m >= 0 {
        ((m as u64) / 2) as i64
    } else {
        -((((-m) as u64) / 2) as i64)
    }
}

/// `|m| / 2` rounded away from zero, on `i64`.
pub(crate) fn half_up_i64(m: i64) -> (r: i64)
    requires
        m > i64::MIN,
    ensures
        r == half_up(m as int),
        0 <= r,
        r <= int_abs(m as int),
{
    let a: u64 = if m >= 0 {
        m as u64
    } else {
        (-m) as u64
    };
    proof {
        assert(a == int_abs(m as int));
    }
    ((a + 1) / 2) as i64
}

} // verus!
