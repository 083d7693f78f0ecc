//! Sine, cosine, arcsine and the two-argument arctangent on fixed-point
//! scalars.
//!
//! Angles are scalars that count millionths of a radian. A quarter turn is
//! 1570796 of them, and half a turn and a full turn are exactly two and
//! four quarter turns, so that the sine and the cosine are exact at every
//! quarter turn and keep the symmetries of the circle: the sine is odd,
//! the cosine is even and is the sine a quarter turn further on, and both
//! repeat after a full turn. The sine is the Taylor polynomial of degree
//! eleven on the angle brought into the first quadrant; the arcsine is a
//! polynomial of degree seven times a square root. The contracts state
//! which polynomial is computed, the interval in which the result lies,
//! and these symmetries and special values.
use vstd::prelude::*;
use crate::fixed::{
    clamp, clamp_spec, div_floor, is_sqrt, isqrt, lemma_mul_bound, lemma_sqrt_exists,
    lemma_sqrt_monotone, root, root_spec, sqrt_floor, times, times_spec, wide_mul, ONE,
};

verus! {

/// A quarter of a turn, in millionths of a radian.
pub const HALF_PI: i64 = 1_570_796;

/// Half a turn: two quarter turns exactly.
pub const PI: i64 = 3_141_592;

/// A full turn: four quarter turns exactly.
pub const TAU: i64 = 6_283_184;

/// The angle `a` brought into the interval from minus a quarter turn to a
/// quarter turn, so that its sine stays the same.
pub open spec fn reduce_spec(a: int) -> int {
    let m = a % (TAU as int);
    if m <= HALF_PI {
        m
    } else if m <= PI + HALF_PI {
        PI - m
    } else {
        m - TAU
    }
}

/// The Taylor polynomial of the sine, of degree eleven, at an angle `r`
/// from zero to a quarter turn.
pub open spec fn sin_arc(r: int) -> int {
    let r2 = times_spec(r, r);
    let t5 = ONE - r2 / 110;
    let t4 = ONE - times_spec(r2, t5) / 72;
    let t3 = ONE - times_spec(r2, t4) / 42;
    let t2 = ONE - times_spec(r2, t3) / 20;
    let t1 = ONE - times_spec(r2, t2) / 6;
    clamp_spec(times_spec(r, t1), 0, ONE as int)
}

/// The sine of an angle `r` of at most a quarter turn to either side: the
/// polynomial for an angle that is not negative, and its opposite for the
/// opposite angle.
pub open spec fn sin_series(r: int) -> int {
    if r >= 0 {
        sin_arc(r)
    } else {
        -sin_arc(-r)
    }
}

/// The sine of the angle `a`.
pub open spec fn sin_spec(a: int) -> int {
    sin_series(reduce_spec(a))
}

/// The cosine of the angle `a`: the sine a quarter turn further on.
pub open spec fn cos_spec(a: int) -> int {
    sin_series(reduce_spec(a % (TAU as int) + HALF_PI))
}

/// The polynomial of the arcsine at `s`, by Horner's rule.
pub open spec fn asin_poly(s: int) -> int {
    let term7 = -1_262int;
    let term6 = times_spec(term7, s) + 6_670;
    let term5 = times_spec(term6, s) - 17_088;
    let term4 = times_spec(term5, s) + 30_892;
    let term3 = times_spec(term4, s) - 50_174;
    let term2 = times_spec(term3, s) + 88_979;
    let term1 = times_spec(term2, s) - 214_599;
    times_spec(term1, s) + 1_570_796
}

/// The arcsine of `s`, for `s` from zero to one: a quarter turn minus the
/// root of `1 - s` times the polynomial.
pub open spec fn asin_upper(s: int) -> int {
    clamp_spec(HALF_PI - times_spec(root_spec(ONE - s), asin_poly(s)), 0, HALF_PI as int)
}

/// The arcsine of `s`, for `s` from minus one to one.
pub open spec fn asin_spec(s: int) -> int {
    if s >= 0 {
        asin_upper(s)
    } else {
        -asin_upper(-s)
    }
}

/// The sine of the angle of the point `(x, y)` where `leg` is one of the
/// two coordinates and `r` the distance from the origin.
pub open spec fn leg_ratio(leg: int, r: int) -> int {
    clamp_spec((leg * ONE) / r, -ONE, ONE as int)
}

/// The angle of the point `(x, y)` against the first axis, from minus half
/// a turn to half a turn; zero for the origin.
pub open spec fn atan2_spec(y: int, x: int) -> int {
    let r = sqrt_floor(x * x + y * y);
    if r == 0 {
        0
    } else if -x <= y <= x || x <= y <= -x {
        let base = asin_spec(leg_ratio(y, r));
        if x > 0 {
            base
        } else if y >= 0 {
            PI - base
        } else {
            -PI - base
        }
    } else {
        let side = asin_spec(leg_ratio(x, r));
        if y > 0 {
            HALF_PI - side
        } else {
            side - HALF_PI
        }
    }
}

/// An angle in degrees, as millionths of a radian.
pub open spec fn to_radians_spec(degrees: int) -> int {
    (degrees * PI) / 180_000_000
}

/// The polynomial of the sine is zero at zero and one at a quarter turn.
pub proof fn lemma_sin_arc_ends()
    ensures
        sin_arc(0) == 0,
        sin_arc(HALF_PI as int) == ONE,
{
    assert(times_spec(0, 0) == 0);
    let r: int = 1_570_796;
    let r2 = times_spec(r, r);
    assert(r * r == 2_467_400_073_616) by (nonlinear_arith)
        requires
            r == 1_570_796,
    ;
    assert(r2 == 2_467_400);
    let t5 = ONE - r2 / 110;
    assert(t5 == 977_570);
    assert(r2 * t5 == 2_412_056_218_000) by (nonlinear_arith)
        requires
            r2 == 2_467_400,
            t5 == 977_570,
    ;
    let t4 = ONE - times_spec(r2, t5) / 72;
    assert(t4 == 966_500);
    assert(r2 * t4 == 2_384_742_100_000) by (nonlinear_arith)
        requires
            r2 == 2_467_400,
            t4 == 966_500,
    ;
    let t3 = ONE - times_spec(r2, t4) / 42;
    assert(t3 == 943_221);
    assert(r2 * t3 == 2_327_303_495_400) by (nonlinear_arith)
        requires
            r2 == 2_467_400,
            t3 == 943_221,
    ;
    let t2 = ONE - times_spec(r2, t3) / 20;
    assert(t2 == 883_635);
    assert(r2 * t2 == 2_180_280_999_000) by (nonlinear_arith)
        requires
            r2 == 2_467_400,
            t2 == 883_635,
    ;
    let t1 = ONE - times_spec(r2, t2) / 6;
    assert(t1 == 636_620);
    assert(r * t1 == 1_000_000_149_520) by (nonlinear_arith)
        requires
            r == 1_570_796,
            t1 == 636_620,
    ;
    assert(times_spec(r, t1) == 1_000_000);
}

/// The turns agree: half a turn is two quarter turns, and a full turn is
/// two half turns.
pub proof fn lemma_turns()
    ensures
        PI == 2 * HALF_PI,
        TAU == 2 * PI,
{
}

/// The reduced angle of the opposite angle is the opposite reduced angle,
/// a full turn further on the reduced angle is the same, and so it is at
/// the angle that is as far from a quarter turn on the other side.
pub proof fn lemma_reduce_symmetric(a: int)
    ensures
        reduce_spec(-a) == -reduce_spec(a),
        reduce_spec(a + TAU) == reduce_spec(a),
        reduce_spec(a - TAU) == reduce_spec(a),
        reduce_spec(PI - a) == reduce_spec(a),
        -HALF_PI <= reduce_spec(a) <= HALF_PI,
{
}

/// The sine is odd, repeats after a full turn, and is the same as far
/// before a quarter turn as behind it. Half a turn further on it is the
/// opposite.
pub proof fn lemma_sin_symmetric(a: int)
    ensures
        sin_spec(-a) == -sin_spec(a),
        sin_spec(a + TAU) == sin_spec(a),
        sin_spec(PI - a) == sin_spec(a),
        sin_spec(a + PI) == -sin_spec(a),
        -ONE <= sin_spec(a) <= ONE,
{
    lemma_reduce_symmetric(a);
    lemma_reduce_symmetric(-a);
    lemma_reduce_symmetric(a + PI);
    lemma_sin_arc_ends();
    assert(reduce_spec(a + PI) == -reduce_spec(a));
}

/// The cosine is the sine a quarter turn further on.
pub proof fn lemma_cos_is_shifted_sin(a: int)
    ensures
        cos_spec(a) == sin_spec(a + HALF_PI),
{
    let m = a % (TAU as int);
    assert((m + HALF_PI) % (TAU as int) == (a + HALF_PI) % (TAU as int));
}

/// The cosine is even, repeats after a full turn, and half a turn further
/// on it is the opposite. The sine is the cosine a quarter turn before.
pub proof fn lemma_cos_symmetric(a: int)
    ensures
        cos_spec(-a) == cos_spec(a),
        cos_spec(a + TAU) == cos_spec(a),
        cos_spec(a + PI) == -cos_spec(a),
        sin_spec(a) == cos_spec(a - HALF_PI),
        -ONE <= cos_spec(a) <= ONE,
{
    lemma_cos_is_shifted_sin(a);
    lemma_cos_is_shifted_sin(-a);
    lemma_cos_is_shifted_sin(a + TAU);
    lemma_cos_is_shifted_sin(a + PI);
    lemma_cos_is_shifted_sin(a - HALF_PI);
    lemma_sin_symmetric(a + HALF_PI);
    assert(PI - (a + HALF_PI) == -a + HALF_PI);
    assert(a + TAU + HALF_PI == (a + HALF_PI) + TAU);
    assert(a + PI + HALF_PI == (a + HALF_PI) + PI);
}

/// At the quarter turns the sine and the cosine are exact.
pub proof fn lemma_quarter_turns()
    ensures
        sin_spec(0) == 0,
        sin_spec(HALF_PI as int) == ONE,
        sin_spec(PI as int) == 0,
        sin_spec(PI + HALF_PI) == -ONE,
        sin_spec(TAU as int) == 0,
        cos_spec(0) == ONE,
        cos_spec(HALF_PI as int) == 0,
        cos_spec(PI as int) == -ONE,
        cos_spec(PI + HALF_PI) == 0,
        cos_spec(TAU as int) == ONE,
{
    lemma_sin_arc_ends();
}

/// The arcsine is odd, and exact at zero and at both ends.
pub proof fn lemma_asin_symmetric(s: int)
    ensures
        asin_spec(-s) == -asin_spec(s),
        asin_spec(0) == 0,
        asin_spec(ONE as int) == HALF_PI,
        asin_spec(-ONE) == -HALF_PI,
        -HALF_PI <= asin_spec(s) <= HALF_PI,
{
    assert(is_sqrt(ONE * ONE, ONE as int));
    crate::fixed::lemma_sqrt_floor(ONE * ONE, ONE as int);
    assert(is_sqrt(0, 0));
    crate::fixed::lemma_sqrt_floor(0, 0);
    assert(root_spec(ONE as int) == ONE);
    assert(root_spec(0) == 0);
    assert(asin_poly(0) == 1_570_796);
    assert(times_spec(ONE as int, 1_570_796) == 1_570_796);
    assert(asin_upper(0) == 0);
    assert(times_spec(0, asin_poly(ONE as int)) == 0);
    assert(asin_upper(ONE as int) == HALF_PI);
}

/// A right angle in degrees is a quarter turn, and so on around the
/// circle.
pub proof fn lemma_degrees()
    ensures
        to_radians_spec(0) == 0,
        to_radians_spec(90 * ONE) == HALF_PI,
        to_radians_spec(180 * ONE) == PI,
        to_radians_spec(360 * ONE) == TAU,
        to_radians_spec(-90 * ONE) == -HALF_PI,
{
}

/// The product of two numbers that are not negative is not negative.
proof fn lemma_mul_nonnegative(a: int, b: int)
    by (nonlinear_arith)
    requires
        0 <= a,
        0 <= b,
    ensures
        0 <= a * b,
{
}

/// The angle `a` brought into the interval from minus a quarter turn to a
/// quarter turn.
pub fn reduce(a: i64) -> (r: i64)
    ensures
        r == reduce_spec(a as int),
        -HALF_PI <= r <= HALF_PI,
{
    let q: i128 = div_floor(a as i128, TAU as i128);
    let m: i128 = a as i128 - q * (TAU as i128);
    assert(m == (a as int) % (TAU as int));
    if m <= HALF_PI as i128 {
        m as i64
    } else if m <= (PI + HALF_PI) as i128 {
        (PI as i128 - m) as i64
    } else {
        (m - TAU as i128) as i64
    }
}

/// The Taylor polynomial of the sine at an angle from zero to a quarter
/// turn.
fn sin_of_arc(r: i64) -> (s: i64)
    requires
        0 <= r <= HALF_PI,
    ensures
        s == sin_arc(r as int),
        0 <= s <= ONE,
{
    proof {
        lemma_mul_bound(r as int, r as int, 1_570_796, 1_570_796);
        lemma_mul_nonnegative(r as int, r as int);
    }
    let r2: i64 = times(r, r);
    let t5: i64 = ONE - r2 / 110;
    proof {
        lemma_mul_bound(r2 as int, t5 as int, 2_467_401, ONE as int);
        lemma_mul_nonnegative(r2 as int, t5 as int);
    }
    let t4: i64 = ONE - times(r2, t5) / 72;
    proof {
        lemma_mul_bound(r2 as int, t4 as int, 2_467_401, ONE as int);
        lemma_mul_nonnegative(r2 as int, t4 as int);
    }
    let t3: i64 = ONE - times(r2, t4) / 42;
    proof {
        lemma_mul_bound(r2 as int, t3 as int, 2_467_401, ONE as int);
        lemma_mul_nonnegative(r2 as int, t3 as int);
    }
    let t2: i64 = ONE - times(r2, t3) / 20;
    proof {
        lemma_mul_bound(r2 as int, t2 as int, 2_467_401, ONE as int);
        lemma_mul_nonnegative(r2 as int, t2 as int);
    }
    let t1: i64 = ONE - times(r2, t2) / 6;
    proof {
        lemma_mul_bound(r as int, t1 as int, 1_570_796, ONE as int);
    }
    clamp(times(r, t1), 0, ONE)
}

/// The sine of an angle of at most a quarter turn to either side.
fn sin_reduced(r: i64) -> (s: i64)
    requires
        -HALF_PI <= r <= HALF_PI,
    ensures
        s == sin_series(r as int),
        -ONE <= s <= ONE,
{
    if r >= 0 {
        sin_of_arc(r)
    } else {
        -sin_of_arc(-r)
    }
}

/// The sine of the angle `a`.
pub fn sin(a: i64) -> (s: i64)
    ensures
        s == sin_spec(a as int),
        -ONE <= s <= ONE,
{
    sin_reduced(reduce(a))
}

/// The cosine of the angle `a`.
pub fn cos(a: i64) -> (c: i64)
    ensures
        c == cos_spec(a as int),
        -ONE <= c <= ONE,
{
    let q: i128 = div_floor(a as i128, TAU as i128);
    let m: i128 = a as i128 - q * (TAU as i128);
    assert(m == (a as int) % (TAU as int));
    sin_reduced(reduce(m as i64 + HALF_PI))
}

/// The arcsine of `s`, for `s` from zero to one.
fn asin_of_upper(s: i64) -> (a: i64)
    requires
        0 <= s <= ONE,
    ensures
        a == asin_upper(s as int),
        0 <= a <= HALF_PI,
{
    let term7: i64 = -1_262;
    proof {
        lemma_mul_bound(term7 as int, s as int, 1_262, ONE as int);
    }
    let term6: i64 = times(term7, s) + 6_670;
    proof {
        lemma_mul_bound(term6 as int, s as int, 8_000, ONE as int);
    }
    let term5: i64 = times(term6, s) - 17_088;
    proof {
        lemma_mul_bound(term5 as int, s as int, 26_000, ONE as int);
    }
    let term4: i64 = times(term5, s) + 30_892;
    proof {
        lemma_mul_bound(term4 as int, s as int, 57_000, ONE as int);
    }
    let term3: i64 = times(term4, s) - 50_174;
    proof {
        lemma_mul_bound(term3 as int, s as int, 108_000, ONE as int);
    }
    let term2: i64 = times(term3, s) + 88_979;
    proof {
        lemma_mul_bound(term2 as int, s as int, 197_000, ONE as int);
    }
    let term1: i64 = times(term2, s) - 214_599;
    proof {
        lemma_mul_bound(term1 as int, s as int, 412_000, ONE as int);
    }
    let term0: i64 = times(term1, s) + 1_570_796;
    let w: i64 = root(ONE - s);
    proof {
        lemma_sqrt_exists((ONE - s) * ONE);
        assert(is_sqrt(ONE * ONE, ONE as int));
        assert((ONE - s) * ONE <= ONE * ONE) by (nonlinear_arith)
            requires
                0 <= s <= ONE,
        ;
        assert(0 <= (ONE - s) * ONE) by (nonlinear_arith)
            requires
                0 <= s <= ONE,
        ;
        lemma_sqrt_monotone((ONE - s) * ONE, ONE * ONE, w as int, ONE as int);
        lemma_mul_bound(w as int, term0 as int, ONE as int, 1_983_000);
    }
    clamp(HALF_PI - times(w, term0), 0, HALF_PI)
}

/// The arcsine of `s`, which lies between minus one and one.
pub fn asin(s: i64) -> (a: i64)
    requires
        -ONE <= s <= ONE,
    ensures
        a == asin_spec(s as int),
        -HALF_PI <= a <= HALF_PI,
{
    if s >= 0 {
        asin_of_upper(s)
    } else {
        -asin_of_upper(-s)
    }
}

/// The sine of the angle of a point, from one of its coordinates and its
/// distance from the origin.
fn ratio_of_leg(leg: i64, r: i128) -> (s: i64)
    requires
        0 < r < 0x1_0000_0000_0000_0000,
    ensures
        s == leg_ratio(leg as int, r as int),
        -ONE <= s <= ONE,
{
    let q: i128 = div_floor(wide_mul(leg, ONE), r);
    if q < -(ONE as i128) {
        -ONE
    } else if q > ONE as i128 {
        ONE
    } else {
        q as i64
    }
}

/// The angle of the point `(x, y)` against the first axis, from minus half
/// a turn to half a turn. The origin has the angle zero.
pub fn atan2(y: i64, x: i64) -> (a: i64)
    requires
        -0x4000_0000_0000_0000 <= x <= 0x4000_0000_0000_0000,
        -0x4000_0000_0000_0000 <= y <= 0x4000_0000_0000_0000,
    ensures
        a == atan2_spec(y as int, x as int),
        -PI - HALF_PI <= a <= PI + HALF_PI,
{
    proof {
        lemma_mul_bound(x as int, x as int, 0x4000_0000_0000_0000, 0x4000_0000_0000_0000);
        lemma_mul_bound(y as int, y as int, 0x4000_0000_0000_0000, 0x4000_0000_0000_0000);
        lemma_mul_nonnegative_square(x as int);
        lemma_mul_nonnegative_square(y as int);
    }
    let r: i128 = isqrt(wide_mul(x, x) + wide_mul(y, y));
    if r == 0 {
        0
    } else if (-x <= y && y <= x) || (x <= y && y <= -x) {
        let base: i64 = asin(ratio_of_leg(y, r));
        if x > 0 {
            base
        } else if y >= 0 {
            PI - base
        } else {
            -PI - base
        }
    } else {
        let side: i64 = asin(ratio_of_leg(x, r));
        if y > 0 {
            HALF_PI - side
        } else {
            side - HALF_PI
        }
    }
}

/// A square is not negative.
proof fn lemma_mul_nonnegative_square(a: int)
    by (nonlinear_arith)
    ensures
        0 <= a * a,
{
}

/// An angle in degrees, as millionths of a radian.
pub fn to_radians(degrees: i64) -> (a: i64)
    ensures
        a == to_radians_spec(degrees as int),
{
    proof {
        lemma_mul_bound(degrees as int, PI as int, 0x8000_0000_0000_0000, PI as int);
    }
    div_floor(wide_mul(degrees, PI), 180_000_000) as i64
}

} // verus!
