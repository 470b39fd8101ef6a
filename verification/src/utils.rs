use vstd::prelude::*;
use crate::frac::{trunc_div, trunc_div_i128, Frac};
use crate::vec2::{int_abs, int_sign, Vec2, GEOM_LIMIT};

verus! {

// ---------------------------------------------------------------------------
// Sliding
//
// A collision at time `t` with face normal `nrm` shortens the motion on the
// axis of the normal by the overshoot past the contact:
// `m' = m + |m| * nrm * (1 - t)`.  With `t` the exact fraction `n / d` this
// is `(m*d + |m|*nrm*(d - n)) / d`; the division is rounded towards zero,
// which is what keeps the slid motion from overshooting the contact when
// the exact value is not an integer.  The perpendicular axis is untouched:
// the body slides along the surface instead of stopping.
// ---------------------------------------------------------------------------

/// The slid motion on one axis: `m + |m| * nrm * (1 - t)` with the division
/// by `t`'s denominator rounded towards zero.
pub open spec fn slide_axis(m: int, nrm: int, t: (int, int)) -> int {
    trunc_div(m * t.1 + int_abs(m) * nrm * (t.1 - t.0), t.1)
}

/// `|a * b| <= ka * kb` when `|a| <= ka` and `|b| <= kb`.
pub(crate) proof fn lemma_mul_abs_bound(a: int, b: int, ka: int, kb: int)
    by (nonlinear_arith)
    requires
        int_abs(a) <= ka,
        int_abs(b) <= kb,
    ensures
        int_abs(a * b) <= ka * kb,
{
}

/// Dividing a value of magnitude at most `k * d` by `d` gives magnitude at
/// most `k`.
pub(crate) proof fn lemma_trunc_div_le(n: int, d: int, k: int)
    requires
        d >= 1,
        0 <= k,
        int_abs(n) <= k * d,
    ensures
        int_abs(trunc_div(n, d)) <= k,
{
    if n >= 0 {
        assert(0 <= n / d <= k) by (nonlinear_arith)
            requires
                n >= 0,
                d >= 1,
                n <= k * d,
        ;
    } else {
        assert(0 <= (-n) / d <= k) by (nonlinear_arith)
            requires
                n < 0,
                d >= 1,
                -n <= k * d,
        ;
    }
}

/// Dividing an exact multiple of `d` by `d` recovers the factor.
pub(crate) proof fn lemma_trunc_div_exact(m: int, d: int)
    requires
        d >= 1,
    ensures
        trunc_div(m * d, d) == m,
{
    if m >= 0 {
        assert((m * d) / d == m && m * d >= 0) by (nonlinear_arith)
            requires
                d >= 1,
                m >= 0,
        ;
    } else {
        assert(((-m) * d) / d == -m && m * d < 0 && -(m * d) == (-m) * d) by (nonlinear_arith)
            requires
                d >= 1,
                m < 0,
        ;
    }
}

/// A slide with a zero or motion-opposing normal never lengthens the
/// motion on that axis: a zero normal leaves it unchanged, an opposing
/// normal scales it down to the time of impact.
pub proof fn lemma_slide_axis_shortens(m: int, nrm: int, t: (int, int))
    requires
        t.1 >= 1,
        0 <= t.0 <= t.1,
        nrm == 0 || nrm == -int_sign(m),
    ensures
        int_abs(slide_axis(m, nrm, t)) <= int_abs(m),
        nrm == 0 ==> slide_axis(m, nrm, t) == m,
{
    if nrm == 0 {
        assert(m * t.1 + int_abs(m) * 0 * (t.1 - t.0) == m * t.1) by (nonlinear_arith);
        lemma_trunc_div_exact(m, t.1);
    } else {
        assert(m * t.1 + (int_abs(m) * nrm) * (t.1 - t.0) == m * t.0) by (nonlinear_arith)
            requires
                nrm == -int_sign(m),
                int_sign(m) == if m > 0 { 1int } else if m < 0 { -1int } else { 0int },
                int_abs(m) == if m >= 0 { m } else { -m },
        ;
        assert(m * t.1 + int_abs(m) * nrm * (t.1 - t.0) == m * t.0) by (nonlinear_arith)
            requires
                m * t.1 + (int_abs(m) * nrm) * (t.1 - t.0) == m * t.0,
        ;
        lemma_mul_abs_bound(m, t.0, int_abs(m), t.1);
        lemma_trunc_div_le(m * t.0, t.1, int_abs(m));
    }
}

/// The slid motion on one axis, computed exactly.
fn slide_axis_exec(m: i64, nrm: i64, t: Frac) -> (r: i64)
    requires
        int_abs(m as int) <= GEOM_LIMIT as int,
        -1 <= nrm <= 1,
        t.valid(),
        0 <= t.num <= t.den,
    ensures
        r == slide_axis(m as int, nrm as int, t.q()),
        int_abs(r as int) <= 2 * int_abs(m as int),
        nrm == 0 ==> r == m,
        nrm == -int_sign(m as int) ==> int_abs(r as int) <= int_abs(m as int),
{
    let am: i64 = if m >= 0 {
        m
    } else {
        -m
    };
    proof {
        lemma_mul_abs_bound(m as int, t.den as int, GEOM_LIMIT as int, 0x8000_0000_0000_0000);
        lemma_mul_abs_bound(am as int, nrm as int, GEOM_LIMIT as int, 1);
        lemma_mul_abs_bound(
            am as int * nrm as int,
            t.den - t.num,
            GEOM_LIMIT as int,
            0x8000_0000_0000_0000,
        );
    }
    let num: i128 = (m as i128) * (t.den as i128) + ((am as i128) * (nrm as i128)) * (
    (t.den as i128) - (t.num as i128));
    proof {
        // |num| <= 2 * |m| * den, so the quotient's magnitude is at most 2|m|
        assert(int_abs(num as int) <= (2 * int_abs(m as int)) * t.den) by (nonlinear_arith)
            requires
                num == m * t.den + (int_abs(m as int) * nrm) * (t.den - t.num),
                int_abs(m as int) == am,
                am >= 0,
                -1 <= nrm <= 1,
                0 <= t.num <= t.den,
                1 <= t.den,
        ;
        lemma_trunc_div_le(num as int, t.den as int, 2 * int_abs(m as int));
        if nrm == 0 {
            lemma_trunc_div_exact(m as int, t.den as int);
        }
        if nrm == -int_sign(m as int) {
            assert(num == m * t.num) by (nonlinear_arith)
                requires
                    num == m * t.den + (int_abs(m as int) * nrm) * (t.den - t.num),
                    int_abs(m as int) == am,
                    nrm == -int_sign(m as int),
                    am == if m >= 0 { m as int } else { -(m as int) },
            ;
            lemma_mul_abs_bound(m as int, t.num as int, int_abs(m as int), t.den as int);
            lemma_trunc_div_le(num as int, t.den as int, int_abs(m as int));
        }
    }
    let q = trunc_div_i128(num, t.den as i128);
    q as i64
}

/// Applies a slide to `motion` in place: on each axis the motion becomes
/// `m + |m| * nrm * (1 - t)`, rounded towards zero.  A zero normal leaves
/// the motion unchanged; a normal opposing the motion's sign on an axis
/// scales that axis down to `m * t`, never increasing its magnitude.
pub fn slide_motion(motion: &mut Vec2, normal: Vec2, time: Frac)
    requires
        old(motion).abs_le(GEOM_LIMIT as int),
        -1 <= normal.x <= 1,
        -1 <= normal.y <= 1,
        time.valid(),
        0 <= time.num <= time.den,
    ensures
        final(motion).x == slide_axis(old(motion).x as int, normal.x as int, time.q()),
        final(motion).y == slide_axis(old(motion).y as int, normal.y as int, time.q()),
        normal.x == 0 ==> final(motion).x == old(motion).x,
        normal.y == 0 ==> final(motion).y == old(motion).y,
        normal.x == -int_sign(old(motion).x as int) ==> int_abs(final(motion).x as int) <= int_abs(
            old(motion).x as int,
        ),
        normal.y == -int_sign(old(motion).y as int) ==> int_abs(final(motion).y as int) <= int_abs(
            old(motion).y as int,
        ),
{
    let mx = slide_axis_exec(motion.x, normal.x, time);
    let my = slide_axis_exec(motion.y, normal.y, time);
    motion.x = mx;
    motion.y = my;
}

} // verus!
