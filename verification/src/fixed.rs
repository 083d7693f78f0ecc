//! Fixed-point scalars.
//!
//! A scalar is an `i64` that counts millionths: the real number `1` is the
//! scalar [`ONE`]. Products and quotients are rounded down (towards minus
//! infinity), and square roots are rounded down to the nearest millionth.
//! The `spec` functions work on `int`, so they never overflow; the
//! executable functions ask in their `requires` that the result fits.
use vstd::prelude::*;
use vstd::arithmetic::div_mod::lemma_fundamental_div_mod_converse;

verus! {

/// The scalar that stands for the real number one.
pub const ONE: i64 = 1_000_000;

/// Whether `v` can be held in an `i64`.
pub open spec fn fits(v: int) -> bool {
    i64::MIN <= v <= i64::MAX
}

/// `a / b` rounded down, for any nonzero `b`.
pub open spec fn quot(a: int, b: int) -> int {
    if b > 0 {
        a / b
    } else {
        (-a) / (-b)
    }
}

/// The product of two scalars: `a * b / ONE`, rounded down.
pub open spec fn times_spec(a: int, b: int) -> int {
    (a * b) / (ONE as int)
}

/// The quotient of two scalars: `a * ONE / b`, rounded down.
pub open spec fn ratio_spec(a: int, b: int) -> int {
    quot(a * ONE, b)
}

/// `v` limited to the interval from `lo` to `hi`.
pub open spec fn clamp_spec(v: int, lo: int, hi: int) -> int {
    if v < lo {
        lo
    } else if v > hi {
        hi
    } else {
        v
    }
}

/// Whether `r` is the square root of `n`, rounded down.
pub open spec fn is_sqrt(n: int, r: int) -> bool {
    0 <= r && r * r <= n && n < (r + 1) * (r + 1)
}

/// The square root of `n`, rounded down.
pub open spec fn sqrt_floor(n: int) -> int {
    choose|r: int| is_sqrt(n, r)
}

/// The square root of a scalar, as a scalar: the root of `a * ONE`.
pub open spec fn root_spec(a: int) -> int {
    sqrt_floor(a * ONE)
}

/// A number has at most one rounded-down square root.
pub proof fn lemma_sqrt_unique(n: int, a: int, b: int)
    requires
        is_sqrt(n, a),
        is_sqrt(n, b),
    ensures
        a == b,
{
    if a < b {
        assert((a + 1) * (a + 1) <= b * b) by (nonlinear_arith)
            requires
                0 <= a,
                a + 1 <= b,
        ;
    } else if b < a {
        assert((b + 1) * (b + 1) <= a * a) by (nonlinear_arith)
            requires
                0 <= b,
                b + 1 <= a,
        ;
    }
}

/// Whatever meets `is_sqrt` is the value of `sqrt_floor`.
pub proof fn lemma_sqrt_floor(n: int, r: int)
    requires
        is_sqrt(n, r),
    ensures
        sqrt_floor(n) == r,
{
    lemma_sqrt_unique(n, r, sqrt_floor(n));
}

/// Every number that is not negative has a rounded-down square root.
pub proof fn lemma_sqrt_exists(n: int)
    requires
        n >= 0,
    ensures
        is_sqrt(n, sqrt_floor(n)),
    decreases n,
{
    if n == 0 {
        assert(is_sqrt(0, 0));
    } else {
        lemma_sqrt_exists(n - 1);
        let r = sqrt_floor(n - 1);
        if n < (r + 1) * (r + 1) {
            assert(is_sqrt(n, r));
        } else {
            assert((r + 1) * (r + 1) <= n < (r + 2) * (r + 2)) by (nonlinear_arith)
                requires
                    0 <= r,
                    r * r <= n - 1,
                    n - 1 < (r + 1) * (r + 1),
                    n >= (r + 1) * (r + 1),
            ;
            assert(is_sqrt(n, r + 1));
        }
    }
}

/// Square roots grow with their argument.
pub proof fn lemma_sqrt_monotone(m: int, n: int, a: int, b: int)
    requires
        m <= n,
        is_sqrt(m, a),
        is_sqrt(n, b),
    ensures
        a <= b,
{
    if b < a {
        assert((b + 1) * (b + 1) <= a * a) by (nonlinear_arith)
            requires
                0 <= b,
                b + 1 <= a,
        ;
    }
}

/// A product is bounded by the product of the bounds of its factors.
pub proof fn lemma_mul_bound(a: int, b: int, ma: int, mb: int)
    by (nonlinear_arith)
    requires
        -ma <= a <= ma,
        -mb <= b <= mb,
    ensures
        -(ma * mb) <= a * b <= ma * mb,
{
}

/// A quotient by a positive number is bounded as its numerator is.
pub proof fn lemma_div_bound(a: int, d: int, m: int)
    requires
        d > 0,
        -(m * d) <= a <= m * d,
    ensures
        -m <= a / d <= m,
{
    let q = a / d;
    let r = a % d;
    assert(a == d * q + r && 0 <= r < d) by (nonlinear_arith)
        requires
            d > 0,
            q == a / d,
            r == a % d,
    ;
    if q > m {
        assert(d * q >= d * (m + 1)) by (nonlinear_arith)
            requires
                d > 0,
                q >= m + 1,
        ;
        assert(d * (m + 1) == m * d + d) by (nonlinear_arith);
    }
    if q < -m {
        assert(d * q <= d * (-m - 1)) by (nonlinear_arith)
            requires
                d > 0,
                q <= -m - 1,
        ;
        assert(d * (-m - 1) == -(m * d) - d) by (nonlinear_arith);
    }
}

/// A numerator of at least `m * d` gives a quotient of at least `m`, and
/// one of at most `m * d` a quotient of at most `m`.
pub proof fn lemma_div_sides(a: int, d: int, m: int)
    requires
        d > 0,
    ensures
        a >= m * d ==> a / d >= m,
        a <= m * d ==> a / d <= m,
{
    let q = a / d;
    let r = a % d;
    assert(a == d * q + r && 0 <= r < d) by (nonlinear_arith)
        requires
            d > 0,
            q == a / d,
            r == a % d,
    ;
    if a >= m * d && q < m {
        assert(d * q + d <= m * d) by (nonlinear_arith)
            requires
                d > 0,
                q + 1 <= m,
        ;
    }
    if a <= m * d && q > m {
        assert(d * q >= m * d + d) by (nonlinear_arith)
            requires
                d > 0,
                q >= m + 1,
        ;
    }
}

/// Division rounded down.
pub fn div_floor(a: i128, b: i128) -> (q: i128)
    requires
        b != 0,
        a > i128::MIN,
        b > i128::MIN,
    ensures
        q == quot(a as int, b as int),
        a >= 0 ==> -a <= q <= a,
        a < 0 ==> a <= q <= -a,
{
    let (n, d): (i128, i128) = if b > 0 {
        (a, b)
    } else {
        (-a, -b)
    };
    proof {
        let m: int = if n >= 0 {
            n as int
        } else {
            -n
        };
        assert(-(m * d) <= n <= m * d) by (nonlinear_arith)
            requires
                d >= 1,
                m >= 0,
                -m <= n <= m,
        ;
        lemma_div_bound(n as int, d as int, m);
    }
    let q0: i128 = n / d;
    let r0: i128 = n % d;
    if r0 < 0 {
        proof {
            let m = -(n as int);
            let k = m / (d as int);
            let r = m % (d as int);
            assert(m == (d as int) * k + r && 0 <= r < d) by (nonlinear_arith)
                requires
                    d > 0,
                    k == m / (d as int),
                    r == m % (d as int),
            ;
            assert(n as int == (-k - 1) * (d as int) + (d - r)) by (nonlinear_arith)
                requires
                    m == (d as int) * k + r,
                    m == -(n as int),
            ;
            lemma_fundamental_div_mod_converse(n as int, d as int, -k - 1, d - r);
        }
        q0 - 1
    } else {
        proof {
            if n < 0 {
                let m = -(n as int);
                let k = m / (d as int);
                assert(m == (d as int) * k + m % (d as int)) by (nonlinear_arith)
                    requires
                        d > 0,
                        k == m / (d as int),
                ;
                assert(n as int == (-k) * (d as int) + 0) by (nonlinear_arith)
                    requires
                        m == (d as int) * k,
                        m == -(n as int),
                ;
                lemma_fundamental_div_mod_converse(n as int, d as int, -k, 0);
            }
        }
        q0
    }
}

/// The square root of `n`, rounded down.
pub fn isqrt(n: i128) -> (r: i128)
    requires
        n >= 0,
    ensures
        is_sqrt(n as int, r as int),
        r == sqrt_floor(n as int),
        r < 0x1_0000_0000_0000_0000,
{
    let target: u128 = n as u128;
    let mut lo: u128 = 0;
    let mut hi: u128 = 0x1_0000_0000_0000_0000;
    while hi - lo > 1
        invariant
            target == n,
            lo < hi <= 0x1_0000_0000_0000_0000,
            lo * lo <= target,
            target < hi * hi,
        decreases hi - lo,
    {
        let mid: u128 = lo + (hi - lo) / 2;
        assert(mid * mid <= 0xffff_ffff_ffff_ffff * 0xffff_ffff_ffff_ffff) by (nonlinear_arith)
            requires
                0 <= mid <= 0xffff_ffff_ffff_ffff,
        ;
        if mid * mid <= target {
            lo = mid;
        } else {
            hi = mid;
        }
    }
    proof {
        assert(hi == lo + 1);
        lemma_sqrt_floor(n as int, lo as int);
    }
    lo as i128
}

/// The exact product of two `i64` values.
pub fn wide_mul(a: i64, b: i64) -> (p: i128)
    ensures
        p == a * b,
        -0x4000_0000_0000_0000_0000_0000_0000_0000 <= p <= 0x4000_0000_0000_0000_0000_0000_0000_0000,
{
    assert(-0x4000_0000_0000_0000_0000_0000_0000_0000 <= a * b
        <= 0x4000_0000_0000_0000_0000_0000_0000_0000) by (nonlinear_arith)
        requires
            -0x8000_0000_0000_0000 <= a <= 0x7fff_ffff_ffff_ffff,
            -0x8000_0000_0000_0000 <= b <= 0x7fff_ffff_ffff_ffff,
    ;
    (a as i128) * (b as i128)
}

/// The product of two scalars, rounded down.
pub fn times(a: i64, b: i64) -> (r: i64)
    requires
        fits(times_spec(a as int, b as int)),
    ensures
        r == times_spec(a as int, b as int),
{
    let q: i128 = div_floor(wide_mul(a, b), ONE as i128);
    q as i64
}

/// The quotient of two scalars, rounded down.
pub fn ratio(a: i64, b: i64) -> (r: i64)
    requires
        b != 0,
        fits(ratio_spec(a as int, b as int)),
    ensures
        r == ratio_spec(a as int, b as int),
{
    let q: i128 = div_floor(wide_mul(a, ONE), b as i128);
    q as i64
}

/// The square root of a scalar that is not negative, rounded down.
pub fn root(a: i64) -> (r: i64)
    requires
        a >= 0,
    ensures
        r == root_spec(a as int),
        0 <= r,
{
    let n: i128 = wide_mul(a, ONE);
    let r: i128 = isqrt(n);
    proof {
        if r > 0x7fff_ffff_ffff_ffff {
            assert(r * r >= 0x8000_0000_0000_0000 * 0x8000_0000_0000_0000) by (nonlinear_arith)
                requires
                    r >= 0x8000_0000_0000_0000,
            ;
        }
    }
    r as i64
}

/// `v` limited to the interval from `lo` to `hi`.
pub fn clamp(v: i64, lo: i64, hi: i64) -> (r: i64)
    requires
        lo <= hi,
    ensures
        r == clamp_spec(v as int, lo as int, hi as int),
        lo <= r <= hi,
{
    if v < lo {
        lo
    } else if v > hi {
        hi
    } else {
        v
    }
}

} // verus!
