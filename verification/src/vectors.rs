//! Three-dimensional vectors over fixed-point scalars.
//!
//! [`Vec3`] is the mathematical vector, with integer components that have no
//! bounds; every contract is stated over it. [`Vector`] is the value that
//! programs hold, with `i64` components.
use vstd::prelude::*;
use vstd::std_specs::ops::{AddSpecImpl, DivSpecImpl, MulSpecImpl, NegSpecImpl, SubSpecImpl};
use crate::fixed::{
    clamp, clamp_spec, div_floor, fits, is_sqrt, isqrt, lemma_div_bound, lemma_div_sides,
    lemma_mul_bound, lemma_sqrt_exists, quot, ratio, ratio_spec, sqrt_floor, times, times_spec, wide_mul, ONE,
};
use crate::trig::{asin, asin_spec, cos, cos_spec, sin, sin_spec, HALF_PI};

verus! {

/// The largest magnitude of a component for which products of vectors are
/// computed: two to the power of sixty-one. The sum of three products of
/// such components still fits in an `i128`.
pub const SPAN: i64 = 0x2000_0000_0000_0000;

/// The largest magnitude of a component for a direction that is to be
/// reflected or refracted, or compared by angle: a million units.
pub const REACH: i64 = 1_000_000_000_000;

/// The mathematical vector that a [`Vector`] stands for: three integers
/// without bounds, each counting millionths.
pub ghost struct Vec3 {
    pub x: int,
    pub y: int,
    pub z: int,
}

impl Vec3 {
    /// The sum of two vectors.
    pub open spec fn plus(self, other: Vec3) -> Vec3 {
        Vec3 { x: self.x + other.x, y: self.y + other.y, z: self.z + other.z }
    }

    /// The difference of two vectors.
    pub open spec fn minus(self, other: Vec3) -> Vec3 {
        Vec3 { x: self.x - other.x, y: self.y - other.y, z: self.z - other.z }
    }

    /// The opposite vector.
    pub open spec fn negated(self) -> Vec3 {
        Vec3 { x: -self.x, y: -self.y, z: -self.z }
    }

    /// The vector times the scalar `k`, each component rounded down.
    pub open spec fn scaled(self, k: int) -> Vec3 {
        Vec3 {
            x: (self.x * k) / (ONE as int),
            y: (self.y * k) / (ONE as int),
            z: (self.z * k) / (ONE as int),
        }
    }

    /// The vector divided by the nonzero scalar `k`, each component rounded
    /// down.
    pub open spec fn divided(self, k: int) -> Vec3 {
        Vec3 { x: quot(self.x * ONE, k), y: quot(self.y * ONE, k), z: quot(self.z * ONE, k) }
    }

    /// The sum of the products of the components, not yet scaled down.
    pub open spec fn dot_wide(self, other: Vec3) -> int {
        self.x * other.x + self.y * other.y + self.z * other.z
    }

    /// The dot product, as a scalar.
    pub open spec fn dot(self, other: Vec3) -> int {
        self.dot_wide(other) / (ONE as int)
    }

    /// The cross product, each component rounded down.
    pub open spec fn cross(self, other: Vec3) -> Vec3 {
        Vec3 {
            x: (self.y * other.z - self.z * other.y) / (ONE as int),
            y: (self.z * other.x - self.x * other.z) / (ONE as int),
            z: (self.x * other.y - self.y * other.x) / (ONE as int),
        }
    }

    /// The cross product, not yet scaled down.
    pub open spec fn cross_wide(self, other: Vec3) -> Vec3 {
        Vec3 {
            x: self.y * other.z - self.z * other.y,
            y: self.z * other.x - self.x * other.z,
            z: self.x * other.y - self.y * other.x,
        }
    }

    /// The square of the length, not yet scaled down.
    pub open spec fn norm2(self) -> int {
        self.dot_wide(self)
    }

    /// The length, rounded down.
    pub open spec fn length(self) -> int {
        sqrt_floor(self.norm2())
    }

    /// The vector scaled to length one; meant for vectors that are not zero.
    pub open spec fn normalized(self) -> Vec3 {
        self.divided(self.length())
    }

    /// The mirror image of the direction `self` at a surface with the given
    /// normal: `self - normal * 2 * (self . normal)`.
    pub open spec fn reflect(self, normal: Vec3) -> Vec3 {
        self.minus(normal.scaled(2 * self.dot(normal)))
    }

    /// The angle by which refraction goes: the arcsine of the dot product
    /// of the two normalized vectors, which is zero where they are at
    /// right angles.
    pub open spec fn angle_with(self, other: Vec3) -> int {
        asin_spec(clamp_spec(self.normalized().dot(other.normalized()), -ONE, ONE as int))
    }

    /// The part of `self` along `normal`: `normal * (self . normal)`.
    pub open spec fn along(self, normal: Vec3) -> Vec3 {
        normal.scaled(self.dot(normal))
    }

    /// Whether `self` has a part along `normal` and a part across it, so
    /// that the refracted direction can be put together from the two.
    pub open spec fn refractable(self, normal: Vec3) -> bool {
        !self.is_zero() && !normal.is_zero() && !self.along(normal).is_zero() && !self.minus(
            self.along(normal),
        ).is_zero()
    }

    /// The angle of the refracted ray: the angle of incidence times the
    /// refractive index where its sine is positive, divided by it
    /// otherwise.
    pub open spec fn refracted_angle(self, normal: Vec3, index: int) -> int {
        let inciding = self.angle_with(normal);
        if sin_spec(inciding) > 0 {
            times_spec(inciding, index)
        } else {
            ratio_spec(inciding, index)
        }
    }

    /// The refracted direction: the unit vector along the normal times
    /// the cosine of the refracted angle, plus the unit vector across it
    /// times the sine.
    pub open spec fn refract(self, normal: Vec3, index: int) -> Vec3 {
        let angle = self.refracted_angle(normal, index);
        let along = self.along(normal);
        along.normalized().scaled(cos_spec(angle)).plus(
            self.minus(along).normalized().scaled(sin_spec(angle)),
        )
    }

    /// Whether the vector has the length one as far as rounding to
    /// millionths allows: the square of its length is less than one by at
    /// most six millionths, or more by at most eight.
    pub open spec fn is_nearly_unit(self) -> bool {
        ONE * ONE - 6 * ONE <= self.norm2() <= ONE * ONE + 8 * ONE + 3
    }

    /// Whether the vector has length exactly one.
    pub open spec fn is_unit(self) -> bool {
        self.norm2() == ONE * ONE
    }

    /// Whether the vector is the zero vector.
    pub open spec fn is_zero(self) -> bool {
        self.x == 0 && self.y == 0 && self.z == 0
    }

    /// Whether no component exceeds `bound` in magnitude.
    pub open spec fn within(self, bound: int) -> bool {
        &&& -bound <= self.x <= bound
        &&& -bound <= self.y <= bound
        &&& -bound <= self.z <= bound
    }

    /// Whether every component can be held in an `i64`.
    pub open spec fn fits(self) -> bool {
        fits(self.x) && fits(self.y) && fits(self.z)
    }
}

/// The dot product of bounded vectors is bounded.
pub proof fn lemma_dot_bound(a: Vec3, b: Vec3, ma: int, mb: int)
    requires
        a.within(ma),
        b.within(mb),
    ensures
        -(3 * (ma * mb)) <= a.dot_wide(b) <= 3 * (ma * mb),
        -(3 * (ma * mb)) / (ONE as int) <= a.dot(b) <= (3 * (ma * mb)) / (ONE as int),
{
    lemma_mul_bound(a.x, b.x, ma, mb);
    lemma_mul_bound(a.y, b.y, ma, mb);
    lemma_mul_bound(a.z, b.z, ma, mb);
}

/// The cross product of bounded vectors is bounded.
pub proof fn lemma_cross_bound(a: Vec3, b: Vec3, ma: int, mb: int)
    requires
        a.within(ma),
        b.within(mb),
    ensures
        a.cross(b).within((2 * (ma * mb)) / (ONE as int) + 1),
{
    lemma_mul_bound(a.y, b.z, ma, mb);
    lemma_mul_bound(a.z, b.y, ma, mb);
    lemma_mul_bound(a.z, b.x, ma, mb);
    lemma_mul_bound(a.x, b.z, ma, mb);
    lemma_mul_bound(a.x, b.y, ma, mb);
    lemma_mul_bound(a.y, b.x, ma, mb);
}

/// A scaled bounded vector is bounded.
pub proof fn lemma_scaled_bound(a: Vec3, k: int, ma: int, mk: int)
    requires
        a.within(ma),
        -mk <= k <= mk,
    ensures
        a.scaled(k).within((ma * mk) / (ONE as int) + 1),
{
    lemma_mul_bound(a.x, k, ma, mk);
    lemma_mul_bound(a.y, k, ma, mk);
    lemma_mul_bound(a.z, k, ma, mk);
}

/// A bounded vector divided by a positive scalar has no component beyond
/// the bound times one.
pub proof fn lemma_divided_bound(a: Vec3, k: int, ma: int)
    requires
        a.within(ma),
        k > 0,
        ma >= 0,
    ensures
        a.divided(k).within(ma * ONE),
{
    lemma_mul_bound(a.x, ONE as int, ma, ONE as int);
    lemma_mul_bound(a.y, ONE as int, ma, ONE as int);
    lemma_mul_bound(a.z, ONE as int, ma, ONE as int);
    assert((ma * ONE) * k >= ma * ONE) by (nonlinear_arith)
        requires
            k >= 1,
            ma >= 0,
    ;
    lemma_div_bound(a.x * ONE, k, ma * ONE);
    lemma_div_bound(a.y * ONE, k, ma * ONE);
    lemma_div_bound(a.z * ONE, k, ma * ONE);
}

/// No component is longer than the whole vector, and only the zero vector
/// has length zero.
pub proof fn lemma_length(a: Vec3)
    ensures
        is_sqrt(a.norm2(), a.length()),
        a.within(a.length()),
        a.length() == 0 <==> a.is_zero(),
{
    let n = a.norm2();
    assert(n >= 0 && a.x * a.x <= n && a.y * a.y <= n && a.z * a.z <= n) by (nonlinear_arith)
        requires
            n == a.x * a.x + a.y * a.y + a.z * a.z,
    ;
    lemma_sqrt_exists(n);
    let l = a.length();
    assert(is_sqrt(n, l));
    lemma_root_above(a.x, n, l);
    lemma_root_above(a.y, n, l);
    lemma_root_above(a.z, n, l);
    if a.is_zero() {
        assert(n == 0) by (nonlinear_arith)
            requires
                n == a.x * a.x + a.y * a.y + a.z * a.z,
                a.x == 0,
                a.y == 0,
                a.z == 0,
        ;
        assert(l == 0) by (nonlinear_arith)
            requires
                0 <= l,
                l * l <= 0,
        ;
    }
}

/// A number whose square is at most `n` is at most the root of `n` in
/// magnitude.
pub proof fn lemma_root_above(c: int, n: int, l: int)
    requires
        c * c <= n,
        is_sqrt(n, l),
    ensures
        -l <= c <= l,
{
    if c > l {
        assert(c * c >= (l + 1) * (l + 1)) by (nonlinear_arith)
            requires
                c >= l + 1,
                l >= 0,
        ;
    }
    if c < -l {
        assert(c * c >= (l + 1) * (l + 1)) by (nonlinear_arith)
            requires
                c <= -(l + 1),
                l >= 0,
        ;
    }
}

/// A normalized vector has no component beyond one.
pub proof fn lemma_normalized_bound(a: Vec3)
    requires
        !a.is_zero(),
    ensures
        a.length() > 0,
        a.normalized().within(ONE as int),
{
    lemma_length(a);
    let l = a.length();
    assert(ONE * l == l * ONE) by (nonlinear_arith);
    lemma_mul_bound(a.x, ONE as int, l, ONE as int);
    lemma_mul_bound(a.y, ONE as int, l, ONE as int);
    lemma_mul_bound(a.z, ONE as int, l, ONE as int);
    lemma_div_bound(a.x * ONE, l, ONE as int);
    lemma_div_bound(a.y * ONE, l, ONE as int);
    lemma_div_bound(a.z * ONE, l, ONE as int);
}

/// One component of a vector that is divided by a scalar `r`: what is
/// lost by rounding is less than `r`, and the square of the component
/// times `r` is near the square of the numerator.
pub proof fn lemma_quotient_component(d: int, r: int) -> (rest: int)
    requires
        r > 0,
        -r <= d <= r,
    ensures
        0 <= rest < r,
        ((d * ONE) / r) * r == d * ONE - rest,
        -(2 * ONE * (r * r)) <= (((d * ONE) / r) * ((d * ONE) / r)) * (r * r) - (d * d) * (ONE
            * ONE) <= 2 * ONE * (r * r) + r * r,
{
    let n = (d * ONE) / r;
    let rest = (d * ONE) % r;
    assert(d * ONE == r * n + rest && 0 <= rest < r) by (nonlinear_arith)
        requires
            r > 0,
            n == (d * ONE) / r,
            rest == (d * ONE) % r,
    ;
    assert(n * r == d * ONE - rest) by (nonlinear_arith)
        requires
            d * ONE == r * n + rest,
    ;
    let m = n * r;
    assert((n * n) * (r * r) == m * m) by (nonlinear_arith)
        requires
            m == n * r,
    ;
    assert(m * m == (d * d) * (ONE * ONE) - 2 * ONE * (d * rest) + rest * rest)
        by (nonlinear_arith)
        requires
            m == d * ONE - rest,
    ;
    assert(-(r * r) <= d * rest <= r * r) by (nonlinear_arith)
        requires
            -r <= d <= r,
            0 <= rest < r,
    ;
    assert(0 <= rest * rest <= r * r) by (nonlinear_arith)
        requires
            0 <= rest < r,
    ;
    let lost = d * rest;
    let square = rest * rest;
    let area = r * r;
    assert(-(2 * ONE * area) <= m * m - (d * d) * (ONE * ONE) <= 2 * ONE * area + area)
        by (nonlinear_arith)
        requires
            m * m == (d * d) * (ONE * ONE) - 2 * ONE * lost + square,
            -area <= lost <= area,
            0 <= square <= area,
    ;
    rest
}

/// Two components of a vector that is divided by a scalar `r` keep the
/// ratio of their numerators as far as rounding allows: the cross term
/// of quotients and numerators is at most twice `r`.
pub proof fn lemma_quotients_parallel(n1: int, d1: int, rest1: int, n2: int, d2: int, rest2: int, r: int)
    requires
        r > 0,
        -r <= d1 <= r,
        -r <= d2 <= r,
        0 <= rest1 < r,
        0 <= rest2 < r,
        n1 * r == d1 * ONE - rest1,
        n2 * r == d2 * ONE - rest2,
    ensures
        -(2 * r) <= n1 * d2 - n2 * d1 <= 2 * r,
{
    let c = n1 * d2 - n2 * d1;
    assert(c * r == rest2 * d1 - rest1 * d2) by (nonlinear_arith)
        requires
            c == n1 * d2 - n2 * d1,
            n1 * r == d1 * ONE - rest1,
            n2 * r == d2 * ONE - rest2,
    ;
    assert(-(r * r) <= rest2 * d1 <= r * r) by (nonlinear_arith)
        requires
            -r <= d1 <= r,
            0 <= rest2 < r,
    ;
    assert(-(r * r) <= rest1 * d2 <= r * r) by (nonlinear_arith)
        requires
            -r <= d2 <= r,
            0 <= rest1 < r,
    ;
    assert(-(2 * r) <= c <= 2 * r) by (nonlinear_arith)
        requires
            r > 0,
            -(2 * (r * r)) <= c * r <= 2 * (r * r),
    ;
}

/// A normalized vector has the length one as far as rounding allows: the
/// square of its length is less than one by at most six millionths, and
/// for a vector that was at least one unit long it is more than one by at
/// most eight millionths.
pub proof fn lemma_normalized_unit(a: Vec3)
    requires
        !a.is_zero(),
    ensures
        a.normalized().norm2() >= ONE * ONE - 6 * ONE,
        a.length() >= ONE ==> a.normalized().norm2() <= ONE * ONE + 8 * ONE + 3,
{
    lemma_length(a);
    let l = a.length();
    let n = a.normalized();
    let q = a.norm2();
    let px = lemma_quotient_component(a.x, l);
    let py = lemma_quotient_component(a.y, l);
    let pz = lemma_quotient_component(a.z, l);
    let ll = l * l;
    let total = n.norm2();
    assert(total * ll == (n.x * n.x) * ll + (n.y * n.y) * ll + (n.z * n.z) * ll)
        by (nonlinear_arith)
        requires
            total == n.x * n.x + n.y * n.y + n.z * n.z,
    ;
    assert((a.x * a.x) * (ONE * ONE) + (a.y * a.y) * (ONE * ONE) + (a.z * a.z) * (ONE * ONE) == (
    ONE * ONE) * q) by (nonlinear_arith)
        requires
            a.x * a.x + a.y * a.y + a.z * a.z == q,
    ;
    assert(ll > 0 && (l + 1) * (l + 1) == ll + 2 * l + 1) by (nonlinear_arith)
        requires
            l > 0,
            ll == l * l,
    ;
    assert(n.x == (a.x * ONE) / l && n.y == (a.y * ONE) / l && n.z == (a.z * ONE) / l);
    let tx = (n.x * n.x) * ll - (a.x * a.x) * (ONE * ONE);
    let ty = (n.y * n.y) * ll - (a.y * a.y) * (ONE * ONE);
    let tz = (n.z * n.z) * ll - (a.z * a.z) * (ONE * ONE);
    let w = 2 * ONE * ll;
    assert(-w <= tx <= w + ll);
    assert(-w <= ty <= w + ll);
    assert(-w <= tz <= w + ll);
    assert(total * ll - (ONE * ONE) * q == tx + ty + tz);
    let t = tx + ty + tz;
    assert(-(3 * w) <= t <= 3 * w + 3 * ll);
    assert(total >= ONE * ONE - 6 * ONE) by (nonlinear_arith)
        requires
            ll > 0,
            q >= ll,
            w == 2 * ONE * ll,
            total * ll - (ONE * ONE) * q == t,
            t >= -(3 * w),
    ;
    if l >= ONE {
        assert(total <= ONE * ONE + 8 * ONE + 3) by (nonlinear_arith)
            requires
                ll > 0,
                ll == l * l,
                l >= ONE,
                q <= ll + 2 * l,
                w == 2 * ONE * ll,
                total * ll - (ONE * ONE) * q == t,
                t <= 3 * w + 3 * ll,
        ;
    }
}

/// Head-on reflection reverses the direction exactly: a vector of length
/// one that runs against the normal comes back as its opposite.
pub proof fn lemma_reflect_head_on(v: Vec3, n: Vec3)
    requires
        v.is_unit(),
        v == n.negated(),
    ensures
        v.reflect(n) == v.negated(),
{
    let w = v.dot_wide(n);
    assert(w == -(ONE * ONE)) by (nonlinear_arith)
        requires
            w == v.x * n.x + v.y * n.y + v.z * n.z,
            v.x == -n.x,
            v.y == -n.y,
            v.z == -n.z,
            v.x * v.x + v.y * v.y + v.z * v.z == ONE * ONE,
    ;
    assert(v.dot(n) == -(ONE as int));
    let k = 2 * v.dot(n);
    assert(n.x * k == (-2 * n.x) * ONE) by (nonlinear_arith)
        requires
            k == -2 * ONE,
    ;
    assert(n.y * k == (-2 * n.y) * ONE) by (nonlinear_arith)
        requires
            k == -2 * ONE,
    ;
    assert(n.z * k == (-2 * n.z) * ONE) by (nonlinear_arith)
        requires
            k == -2 * ONE,
    ;
    assert(n.scaled(k) == Vec3 { x: -2 * n.x, y: -2 * n.y, z: -2 * n.z });
}

/// A vector or a point in space, with fixed-point components.
#[derive(Debug, Copy, Clone, PartialEq, Eq, Structural)]
pub struct Vector {
    pub x: i64,
    pub y: i64,
    pub z: i64,
}

impl View for Vector {
    type V = Vec3;

    open spec fn view(&self) -> Vec3 {
        Vec3 { x: self.x as int, y: self.y as int, z: self.z as int }
    }
}

impl Vector {
    /// The vector with the given components.
    pub fn make(x: i64, y: i64, z: i64) -> (v: Vector)
        ensures
            v.x == x,
            v.y == y,
            v.z == z,
    {
        Vector { x: x, y: y, z: z }
    }

    /// The sum of two vectors.
    pub fn plus(&self, other: &Vector) -> (sum: Vector)
        requires
            self@.plus(other@).fits(),
        ensures
            sum@ == self@.plus(other@),
    {
        Vector { x: self.x + other.x, y: self.y + other.y, z: self.z + other.z }
    }

    /// The difference of two vectors.
    pub fn minus(&self, other: &Vector) -> (difference: Vector)
        requires
            self@.minus(other@).fits(),
        ensures
            difference@ == self@.minus(other@),
    {
        Vector { x: self.x - other.x, y: self.y - other.y, z: self.z - other.z }
    }

    /// The opposite vector.
    pub fn negated(&self) -> (opposite: Vector)
        requires
            self@.negated().fits(),
        ensures
            opposite@ == self@.negated(),
    {
        Vector { x: -self.x, y: -self.y, z: -self.z }
    }

    /// The vector times the scalar `k`.
    pub fn scaled(&self, k: i64) -> (product: Vector)
        requires
            self@.scaled(k as int).fits(),
        ensures
            product@ == self@.scaled(k as int),
    {
        Vector {
            x: div_floor(wide_mul(self.x, k), ONE as i128) as i64,
            y: div_floor(wide_mul(self.y, k), ONE as i128) as i64,
            z: div_floor(wide_mul(self.z, k), ONE as i128) as i64,
        }
    }

    /// The vector divided by the scalar `k`, which is not zero.
    pub fn divided(&self, k: i64) -> (quotient: Vector)
        requires
            k != 0,
            self@.divided(k as int).fits(),
        ensures
            quotient@ == self@.divided(k as int),
    {
        Vector {
            x: div_floor(wide_mul(self.x, ONE), k as i128) as i64,
            y: div_floor(wide_mul(self.y, ONE), k as i128) as i64,
            z: div_floor(wide_mul(self.z, ONE), k as i128) as i64,
        }
    }

    /// The sum of the products of the components, not yet scaled down.
    pub fn dot_wide(&self, other: &Vector) -> (d: i128)
        requires
            self@.within(SPAN as int),
            other@.within(SPAN as int),
        ensures
            d == self@.dot_wide(other@),
    {
        proof {
            lemma_mul_bound(self.x as int, other.x as int, SPAN as int, SPAN as int);
            lemma_mul_bound(self.y as int, other.y as int, SPAN as int, SPAN as int);
            lemma_mul_bound(self.z as int, other.z as int, SPAN as int, SPAN as int);
        }
        wide_mul(self.x, other.x) + wide_mul(self.y, other.y) + wide_mul(self.z, other.z)
    }

    /// The length of the vector, rounded down.
    pub fn length(&self) -> (l: i64)
        requires
            self@.within(SPAN as int),
        ensures
            l == self@.length(),
            l == 0 <==> self@.is_zero(),
            0 <= l <= 2 * SPAN,
    {
        let n: i128 = self.dot_wide(self);
        proof {
            lemma_length(self@);
            lemma_dot_bound(self@, self@, SPAN as int, SPAN as int);
        }
        let l: i128 = isqrt(n);
        proof {
            if l > 2 * SPAN {
                assert(l * l > 3 * (SPAN * SPAN)) by (nonlinear_arith)
                    requires
                        l > 2 * SPAN,
                        SPAN > 0,
                ;
            }
        }
        l as i64
    }

    /// The vector scaled to length one. A vector of length zero has no
    /// direction and is not accepted.
    pub fn normalized(&self) -> (n: Vector)
        requires
            self@.within(SPAN as int),
            !self@.is_zero(),
        ensures
            n@ == self@.normalized(),
            n@.within(ONE as int),
            n@.norm2() >= ONE * ONE - 6 * ONE,
    {
        let length: i64 = self.length();
        proof {
            lemma_normalized_bound(self@);
            lemma_normalized_unit(self@);
        }
        Vector {
            x: div_floor(wide_mul(self.x, ONE), length as i128) as i64,
            y: div_floor(wide_mul(self.y, ONE), length as i128) as i64,
            z: div_floor(wide_mul(self.z, ONE), length as i128) as i64,
        }
    }

    /// The dot product of two vectors.
    pub fn dot(&self, other: &Vector) -> (d: i64)
        requires
            self@.within(SPAN as int),
            other@.within(SPAN as int),
            fits(self@.dot(other@)),
        ensures
            d == self@.dot(other@),
    {
        let wide: i128 = self.dot_wide(other);
        div_floor(wide, ONE as i128) as i64
    }

    /// The cross product of two vectors.
    pub fn cross(&self, other: &Vector) -> (c: Vector)
        requires
            self@.within(SPAN as int),
            other@.within(SPAN as int),
            self@.cross(other@).fits(),
        ensures
            c@ == self@.cross(other@),
    {
        proof {
            lemma_mul_bound(self.y as int, other.z as int, SPAN as int, SPAN as int);
            lemma_mul_bound(self.z as int, other.y as int, SPAN as int, SPAN as int);
            lemma_mul_bound(self.z as int, other.x as int, SPAN as int, SPAN as int);
            lemma_mul_bound(self.x as int, other.z as int, SPAN as int, SPAN as int);
            lemma_mul_bound(self.x as int, other.y as int, SPAN as int, SPAN as int);
            lemma_mul_bound(self.y as int, other.x as int, SPAN as int, SPAN as int);
        }
        let x: i128 = wide_mul(self.y, other.z) - wide_mul(self.z, other.y);
        let y: i128 = wide_mul(self.z, other.x) - wide_mul(self.x, other.z);
        let z: i128 = wide_mul(self.x, other.y) - wide_mul(self.y, other.x);
        Vector {
            x: div_floor(x, ONE as i128) as i64,
            y: div_floor(y, ONE as i128) as i64,
            z: div_floor(z, ONE as i128) as i64,
        }
    }

    /// The mirror image of the direction `self` at a surface whose normal
    /// is `normal`, a vector of length one.
    pub fn reflect(&self, normal: &Vector) -> (r: Vector)
        requires
            self@.within(REACH as int),
            normal@.within(ONE as int),
        ensures
            r@ == self@.reflect(normal@),
            r@.within(8 * REACH),
    {
        proof {
            lemma_dot_bound(self@, normal@, REACH as int, ONE as int);
        }
        let d: i64 = self.dot(normal);
        proof {
            lemma_scaled_bound(normal@, 2 * d, ONE as int, 6 * REACH);
        }
        self.minus(&normal.scaled(2 * d))
    }

    /// Whether no component exceeds `bound` in magnitude.
    pub fn within(&self, bound: i64) -> (inside: bool)
        ensures
            inside == self@.within(bound as int),
    {
        let low: i128 = -(bound as i128);
        let high: i128 = bound as i128;
        low <= self.x as i128 && self.x as i128 <= high && low <= self.y as i128 && self.y as i128
            <= high && low <= self.z as i128 && self.z as i128 <= high
    }

    /// Whether the vector has the length one as far as rounding allows.
    pub fn is_nearly_unit(&self) -> (unit: bool)
        requires
            self@.within(SPAN as int),
        ensures
            unit == self@.is_nearly_unit(),
    {
        let norm2: i128 = self.dot_wide(self);
        999_994_000_000 <= norm2 && norm2 <= 1_000_008_000_003
    }

    /// Whether the vector is the zero vector.
    pub fn is_zero(&self) -> (z: bool)
        ensures
            z == self@.is_zero(),
    {
        self.x == 0 && self.y == 0 && self.z == 0
    }

    /// The arcsine of the dot product of the two directions, each
    /// normalized first.
    pub fn angle_with(&self, other: &Vector) -> (a: i64)
        requires
            self@.within(REACH as int),
            other@.within(REACH as int),
            !self@.is_zero(),
            !other@.is_zero(),
        ensures
            a == self@.angle_with(other@),
            -HALF_PI <= a <= HALF_PI,
    {
        let a: Vector = self.normalized();
        let b: Vector = other.normalized();
        proof {
            lemma_dot_bound(a@, b@, ONE as int, ONE as int);
        }
        let d: i64 = a.dot(&b);
        asin(clamp(d, -ONE, ONE))
    }

    /// Whether `refract` accepts this direction at this normal.
    pub fn refractable(&self, normal: &Vector) -> (ok: bool)
        requires
            self@.within(ONE as int),
            normal@.within(ONE as int),
        ensures
            ok == self@.refractable(normal@),
    {
        if self.is_zero() || normal.is_zero() {
            return false;
        }
        proof {
            lemma_dot_bound(self@, normal@, ONE as int, ONE as int);
        }
        let d: i64 = self.dot(normal);
        proof {
            lemma_scaled_bound(normal@, d as int, ONE as int, 3 * ONE);
        }
        let along: Vector = normal.scaled(d);
        !along.is_zero() && !self.minus(&along).is_zero()
    }

    /// The direction of the ray `self` after it has passed a surface with
    /// the given normal into a medium with the given relative refractive
    /// index. Both vectors have length one, and the ray neither runs along
    /// the normal nor across it.
    pub fn refract(&self, normal: &Vector, refraction_index: i64) -> (r: Vector)
        requires
            self@.within(ONE as int),
            normal@.within(ONE as int),
            self@.refractable(normal@),
            0 < refraction_index <= REACH,
        ensures
            r@ == self@.refract(normal@, refraction_index as int),
            r@.within(2 * ONE + 2),
    {
        let inciding_angle: i64 = self.angle_with(normal);
        proof {
            lemma_mul_bound(inciding_angle as int, refraction_index as int, 1_570_796, REACH as int);
            lemma_mul_bound(inciding_angle as int, ONE as int, 1_570_796, ONE as int);
            lemma_div_bound(inciding_angle * ONE, refraction_index as int, 1_570_796_000_000);
            assert(1_570_796_000_000 * refraction_index >= 1_570_796_000_000) by (nonlinear_arith)
                requires
                    refraction_index >= 1,
            ;
        }
        let refracted_angle: i64 = if sin(inciding_angle) > 0 {
            times(inciding_angle, refraction_index)
        } else {
            ratio(inciding_angle, refraction_index)
        };
        proof {
            lemma_dot_bound(self@, normal@, ONE as int, ONE as int);
        }
        let d: i64 = self.dot(normal);
        proof {
            lemma_scaled_bound(normal@, d as int, ONE as int, 3 * ONE);
        }
        let along: Vector = normal.scaled(d);
        let across: Vector = self.minus(&along).normalized();
        let along: Vector = along.normalized();
        let c: i64 = cos(refracted_angle);
        let s: i64 = sin(refracted_angle);
        proof {
            lemma_scaled_bound(along@, c as int, ONE as int, ONE as int);
            lemma_scaled_bound(across@, s as int, ONE as int, ONE as int);
        }
        along.scaled(c).plus(&across.scaled(s))
    }
}

impl AddSpecImpl for Vector {
    open spec fn obeys_add_spec() -> bool {
        true
    }

    open spec fn add_req(self, other: Vector) -> bool {
        self@.plus(other@).fits()
    }

    open spec fn add_spec(self, other: Vector) -> Vector {
        Vector {
            x: (self.x + other.x) as i64,
            y: (self.y + other.y) as i64,
            z: (self.z + other.z) as i64,
        }
    }
}

impl core::ops::Add for Vector {
    type Output = Vector;

    /// The sum of two vectors.
    fn add(self, other: Vector) -> (sum: Vector)
        ensures
            sum@ == self@.plus(other@),
    {
        Vector { x: self.x + other.x, y: self.y + other.y, z: self.z + other.z }
    }
}

impl SubSpecImpl for Vector {
    open spec fn obeys_sub_spec() -> bool {
        true
    }

    open spec fn sub_req(self, other: Vector) -> bool {
        self@.minus(other@).fits()
    }

    open spec fn sub_spec(self, other: Vector) -> Vector {
        Vector {
            x: (self.x - other.x) as i64,
            y: (self.y - other.y) as i64,
            z: (self.z - other.z) as i64,
        }
    }
}

impl core::ops::Sub for Vector {
    type Output = Vector;

    /// The difference of two vectors.
    fn sub(self, other: Vector) -> (difference: Vector)
        ensures
            difference@ == self@.minus(other@),
    {
        Vector { x: self.x - other.x, y: self.y - other.y, z: self.z - other.z }
    }
}

impl MulSpecImpl<i64> for Vector {
    open spec fn obeys_mul_spec() -> bool {
        true
    }

    open spec fn mul_req(self, other: i64) -> bool {
        self@.scaled(other as int).fits()
    }

    open spec fn mul_spec(self, other: i64) -> Vector {
        Vector {
            x: self@.scaled(other as int).x as i64,
            y: self@.scaled(other as int).y as i64,
            z: self@.scaled(other as int).z as i64,
        }
    }
}

impl core::ops::Mul<i64> for Vector {
    type Output = Vector;

    /// The vector times a scalar.
    fn mul(self, other: i64) -> (product: Vector)
        ensures
            product@ == self@.scaled(other as int),
    {
        Vector {
            x: div_floor(wide_mul(self.x, other), ONE as i128) as i64,
            y: div_floor(wide_mul(self.y, other), ONE as i128) as i64,
            z: div_floor(wide_mul(self.z, other), ONE as i128) as i64,
        }
    }
}

impl MulSpecImpl<Vector> for i64 {
    open spec fn obeys_mul_spec() -> bool {
        true
    }

    open spec fn mul_req(self, other: Vector) -> bool {
        other@.scaled(self as int).fits()
    }

    open spec fn mul_spec(self, other: Vector) -> Vector {
        Vector {
            x: other@.scaled(self as int).x as i64,
            y: other@.scaled(self as int).y as i64,
            z: other@.scaled(self as int).z as i64,
        }
    }
}

impl core::ops::Mul<Vector> for i64 {
    type Output = Vector;

    /// A scalar times a vector.
    fn mul(self, other: Vector) -> (product: Vector)
        ensures
            product@ == other@.scaled(self as int),
    {
        Vector {
            x: div_floor(wide_mul(other.x, self), ONE as i128) as i64,
            y: div_floor(wide_mul(other.y, self), ONE as i128) as i64,
            z: div_floor(wide_mul(other.z, self), ONE as i128) as i64,
        }
    }
}

impl DivSpecImpl<i64> for Vector {
    open spec fn obeys_div_spec() -> bool {
        true
    }

    open spec fn div_req(self, other: i64) -> bool {
        other != 0 && self@.divided(other as int).fits()
    }

    open spec fn div_spec(self, other: i64) -> Vector {
        Vector {
            x: self@.divided(other as int).x as i64,
            y: self@.divided(other as int).y as i64,
            z: self@.divided(other as int).z as i64,
        }
    }
}

impl core::ops::Div<i64> for Vector {
    type Output = Vector;

    /// The vector divided by a scalar that is not zero.
    fn div(self, other: i64) -> (quotient: Vector)
        ensures
            quotient@ == self@.divided(other as int),
    {
        Vector {
            x: div_floor(wide_mul(self.x, ONE), other as i128) as i64,
            y: div_floor(wide_mul(self.y, ONE), other as i128) as i64,
            z: div_floor(wide_mul(self.z, ONE), other as i128) as i64,
        }
    }
}

impl NegSpecImpl for Vector {
    open spec fn obeys_neg_spec() -> bool {
        true
    }

    open spec fn neg_req(self) -> bool {
        self@.negated().fits()
    }

    open spec fn neg_spec(self) -> Vector {
        Vector { x: (-self.x) as i64, y: (-self.y) as i64, z: (-self.z) as i64 }
    }
}

impl core::ops::Neg for Vector {
    type Output = Vector;

    /// The opposite vector.
    fn neg(self) -> (opposite: Vector)
        ensures
            opposite@ == self@.negated(),
    {
        Vector { x: -self.x, y: -self.y, z: -self.z }
    }
}

} // verus!
