//! What a scene is made of: colors, materials, lights, and the three kinds
//! of surface with their intersection tests.
use vstd::prelude::*;
use crate::camera::{HalfLine, Ray};
use crate::texture::{sphere_uv_spec, Texture};
use crate::fixed::{
    div_floor, is_sqrt, isqrt, lemma_div_bound, lemma_mul_bound, ratio_spec, root_spec, times, times_spec, wide_mul, ONE,
};
use crate::vectors::{
    lemma_cross_bound, lemma_divided_bound, lemma_dot_bound, lemma_normalized_bound,
    lemma_quotient_component,
    lemma_quotients_parallel, lemma_root_above, Vec3, Vector, SPAN,
};

verus! {

/// Half the width of the world: the points that place a surface or a
/// light lie in the cube from `-LIMIT` to `LIMIT` on each axis, a hundred
/// thousand units, and only points of that cube are shaded. A plane goes
/// on beyond it, and a ray may meet it there.
pub const LIMIT: i64 = 100_000_000_000;

/// The distance below which a hit counts as the ray touching the surface
/// it starts from: a thousandth of a unit.
pub const HIT_EPSILON: i64 = 1_000;

/// The greatest distance that a surface reports: a million million units.
/// No sphere and no plane of the world is that far from a ray that starts
/// in the world, and a triangle reports no distance beyond it.
pub const MAX_DISTANCE: i64 = 1_000_000_000_000_000_000;

/// A ray whose direction has less than this against a triangle's plane
/// counts as parallel to it: a hundred-thousandth.
pub const TRIANGLE_EPSILON: i64 = 10;

/// A ray whose direction has less than this along a plane's normal counts
/// as parallel to the plane: a millionth.
pub const PLANE_EPSILON: i64 = 1;

/// A color with three channels.
#[derive(Debug, Copy, Clone, PartialEq, Eq, Structural)]
pub struct Color {
    pub r: u8,
    pub g: u8,
    pub b: u8,
}

impl Color {
    /// The color with the given red, green and blue.
    pub fn rgb(r: u8, g: u8, b: u8) -> (c: Color)
        ensures
            c == (Color { r, g, b }),
    {
        Color { r, g, b }
    }
}

/// A color for every point of the world: a picture, a pattern, or any
/// other rule that gives the same color for the same point.
pub trait ColorSource {
    /// Whether the source can be asked.
    spec fn valid(&self) -> bool;

    /// The color at `point`.
    spec fn color_at(&self, point: Vec3) -> Color;

    /// The color at a point of the world.
    fn color(&self, point: Vector) -> (c: Color)
        requires
            self.valid(),
            point@.within(LIMIT as int),
        ensures
            c == self.color_at(point@),
    ;

    /// Whether the source can be asked.
    fn is_valid(&self) -> (ok: bool)
        ensures
            ok == self.valid(),
    ;
}

/// A picture that is wrapped around a sphere.
pub struct SphereMap {
    pub texture: Texture,
    pub center: Vector,
    pub radius: i64,
}

impl ColorSource for SphereMap {
    /// Whether the sphere lies in the world and has a positive radius.
    open spec fn valid(&self) -> bool {
        self.center@.within(LIMIT as int) && 0 < self.radius
    }

    /// The color that the picture has nearest to the place of the point on
    /// the sphere.
    open spec fn color_at(&self, point: Vec3) -> Color {
        let (u, v) = sphere_uv_spec(self.center@, self.radius as int, point);
        self.texture.uv_pixel_spec(u, v)
    }

    fn color(&self, point: Vector) -> (c: Color) {
        let (u, v): (i64, i64) = Texture::sphere_uv(self.center, self.radius, point);
        self.texture.uv_pixel_from_texture(u, v)
    }

    fn is_valid(&self) -> (ok: bool) {
        self.center.within(LIMIT) && 0 < self.radius
    }
}

/// Where the color of a surface comes from.
pub enum ColorType {
    /// One color all over.
    Solid(Color),
    /// A color for every point.
    Function(Box<dyn ColorSource>),
}

impl ColorType {
    /// Whether the color source, where there is one, can be asked.
    pub open spec fn valid(&self) -> bool {
        match self {
            ColorType::Solid(_) => true,
            ColorType::Function(source) => source.valid(),
        }
    }

    /// Whether the color source is valid.
    pub fn is_valid(&self) -> (ok: bool)
        ensures
            ok == self.valid(),
    {
        match self {
            ColorType::Solid(_) => true,
            ColorType::Function(source) => source.is_valid(),
        }
    }

    /// The color of the surface at `point`.
    pub open spec fn color_at(&self, point: Vec3) -> Color {
        match self {
            ColorType::Solid(c) => *c,
            ColorType::Function(source) => source.color_at(point),
        }
    }

    /// The color of the surface at a point of the world.
    pub fn color(&self, point: Vector) -> (c: Color)
        requires
            self.valid(),
            point@.within(LIMIT as int),
        ensures
            c == self.color_at(point@),
    {
        match self {
            ColorType::Solid(c) => *c,
            ColorType::Function(source) => source.color(point),
        }
    }
}

/// How a surface looks: its color, how much it mirrors, and how much light
/// passes through it.
pub struct Material {
    pub color: ColorType,
    /// The weight of the mirrored light, from zero to one.
    pub reflectivity: Option<i64>,
    /// The weight of the light that passes through, from zero to one, and
    /// the refractive index.
    pub transparency: Option<(i64, i64)>,
}

impl Material {
    /// Whether the color is valid and the refractive index, where there
    /// is one, is positive and at most a million.
    pub open spec fn valid(&self) -> bool {
        &&& self.color.valid()
        &&& match self.transparency {
            Some((_, index)) => 0 < index <= 1_000_000_000_000,
            None => true,
        }
    }

    /// Whether the material is valid.
    pub fn is_valid(&self) -> (ok: bool)
        ensures
            ok == self.valid(),
    {
        self.color.is_valid() && match self.transparency {
            Some((_, index)) => 0 < index && index <= 1_000_000_000_000,
            None => true,
        }
    }
}

/// A point light.
pub struct Light {
    pub position: Vector,
    /// Meant to lie between zero and one.
    pub intensity: i64,
}

impl Light {
    /// Whether the light lies in the world and its intensity is at most a
    /// million in magnitude.
    pub open spec fn valid(&self) -> bool {
        &&& self.position@.within(LIMIT as int)
        &&& -1_000_000_000_000 <= self.intensity <= 1_000_000_000_000
    }

    /// Whether the light is valid.
    pub fn is_valid(&self) -> (ok: bool)
        ensures
            ok == self.valid(),
    {
        self.position.within(LIMIT) && -1_000_000_000_000 <= self.intensity && self.intensity
            <= 1_000_000_000_000
    }
}

/// What the shader asks of a surface: where a ray meets it, which way it
/// faces there, and how it looks.
pub trait Hittable {
    /// Whether the surface lies in the world and its data is well formed.
    spec fn valid(&self) -> bool;

    /// The distance at which the ray meets the surface.
    spec fn hit_spec(&self, ray: HalfLine) -> Option<int>;

    /// The normal of the surface at `point`.
    spec fn normal_spec(&self, point: Vec3) -> Vec3;

    /// The material of the surface.
    spec fn material_spec(&self) -> Material;

    /// The distance along the ray at which it meets the surface, if it
    /// does. A distance is always positive, and at most `MAX_DISTANCE`.
    fn hit(&self, ray: &Ray) -> (distance: Option<i64>)
        requires
            self.valid(),
            ray.valid(),
        ensures
            match distance {
                Some(t) => self.hit_spec(ray@) == Some(t as int),
                None => self.hit_spec(ray@).is_none(),
            },
            distance matches Some(t) ==> 0 < t <= MAX_DISTANCE,
    ;

    /// The normal of the surface at a point of the world.
    fn normal(&self, point: Vector) -> (n: Vector)
        requires
            self.valid(),
            point@.within(LIMIT as int),
        ensures
            n@ == self.normal_spec(point@),
            n@.within(SPAN as int),
    ;

    /// The material of the surface.
    fn material(&self) -> (m: &Material)
        ensures
            *m == self.material_spec(),
    ;

    /// Whether the surface is valid.
    fn is_valid(&self) -> (ok: bool)
        ensures
            ok == self.valid(),
    ;
}

/// The distance that counts, of the two roots of a sphere's equation: the
/// smaller one if it is beyond the guard distance, else the larger one.
pub open spec fn pick_root(root1: int, root2: int) -> Option<int> {
    if root1 > HIT_EPSILON {
        Some(root1)
    } else if root2 > HIT_EPSILON {
        Some(root2)
    } else {
        None
    }
}

/// A sphere.
pub struct Sphere {
    pub center: Vector,
    pub radius: i64,
    pub material: Material,
}

impl Sphere {
    /// The discriminant of the equation `a t^2 + b t + c = 0` for the
    /// distances at which the ray meets the sphere.
    pub open spec fn discriminant(&self, ray: HalfLine) -> int {
        let oc = ray.origin.minus(self.center@);
        let a = ray.direction.dot(ray.direction);
        let b = 2 * oc.dot(ray.direction);
        let c = oc.dot(oc) - times_spec(self.radius as int, self.radius as int);
        times_spec(b, b) - 4 * times_spec(a, c)
    }

    /// Where the line of the ray first meets the sphere, as a signed
    /// distance along the ray: the smaller root of the sphere's equation,
    /// or minus one where the line misses the sphere.
    pub open spec fn hit_distance_spec(&self, ray: HalfLine) -> int {
        let oc = ray.origin.minus(self.center@);
        let a = ray.direction.dot(ray.direction);
        let b = 2 * oc.dot(ray.direction);
        if self.discriminant(ray) < 0 {
            -ONE
        } else {
            ratio_spec(-b - root_spec(self.discriminant(ray)), 2 * a)
        }
    }

    /// The signed distance along the ray at which its line first meets
    /// the sphere, or minus one where the line misses it. A sphere behind
    /// the ray gives a negative distance.
    pub fn hit_distance(&self, ray: &Ray) -> (distance: i64)
        requires
            self.valid(),
            ray.valid(),
        ensures
            distance == self.hit_distance_spec(ray@),
    {
        let (a, b, discriminant): (i64, i64, i128) = self.equation(ray);
        if discriminant < 0 {
            -ONE
        } else {
            let root: i128 = Sphere::root_of(discriminant);
            proof {
                lemma_mul_bound(-b - root, ONE as int, 3_300_000_000_000, ONE as int);
            }
            div_floor((-(b as i128) - root) * (ONE as i128), 2 * (a as i128)) as i64
        }
    }

    /// The coefficients `a` and `b` of the sphere's equation for the ray,
    /// and its discriminant.
    fn equation(&self, ray: &Ray) -> (abd: (i64, i64, i128))
        requires
            self.valid(),
            ray.valid(),
        ensures
            abd.0 == ray@.direction.dot(ray@.direction),
            abd.1 == 2 * ray@.origin.minus(self.center@).dot(ray@.direction),
            abd.2 == self.discriminant(ray@),
            999_994 <= abd.0 <= 3_000_000,
            -1_200_006_000_000 <= abd.1 <= 1_200_006_000_000,
            abd.2 <= 3_000_100_000_000_000_000,
    {
        let oc: Vector = ray.origin.minus(&self.center);
        proof {
            lemma_dot_bound(ray.direction@, ray.direction@, ONE as int, ONE as int);
            lemma_dot_bound(oc@, ray.direction@, 200_001_000_000, ONE as int);
            lemma_dot_bound(oc@, oc@, 200_001_000_000, 200_001_000_000);
            lemma_mul_bound(self.radius as int, self.radius as int, LIMIT as int, LIMIT as int);
        }
        let a: i64 = ray.direction.dot(&ray.direction);
        let b: i64 = 2 * oc.dot(&ray.direction);
        let c: i64 = oc.dot(&oc) - times(self.radius, self.radius);
        proof {
            lemma_mul_bound(b as int, b as int, 1_200_006_000_000, 1_200_006_000_000);
            lemma_mul_bound(a as int, c as int, 3_000_000, 130_001_300_003_000_000);
        }
        let discriminant: i128 = div_floor(wide_mul(b, b), ONE as i128) - 4 * div_floor(
            wide_mul(a, c),
            ONE as i128,
        );
        (a, b, discriminant)
    }

    /// The square root of a discriminant that is not negative.
    fn root_of(discriminant: i128) -> (root: i128)
        requires
            0 <= discriminant <= 3_000_100_000_000_000_000,
        ensures
            root == root_spec(discriminant as int),
            0 <= root <= 2_000_000_000_000,
    {
        proof {
            lemma_mul_bound(discriminant as int, ONE as int, 3_000_100_000_000_000_000, ONE as int);
        }
        let root: i128 = isqrt(discriminant * (ONE as i128));
        proof {
            if root > 2_000_000_000_000 {
                assert(root * root > 3_000_100_000_000_000_000 * ONE) by (nonlinear_arith)
                    requires
                        root > 2_000_000_000_000,
                ;
            }
        }
        root
    }

    /// The sphere with the given center, radius and material. The radius
    /// is positive.
    pub fn make(center: &Vector, radius: i64, material: Material) -> (s: Sphere)
        requires
            0 < radius,
        ensures
            s.center == *center,
            s.radius == radius,
            s.material == material,
            center@.within(LIMIT as int) && radius <= LIMIT && material.valid() ==> s.valid(),
    {
        Sphere { center: *center, radius: radius, material: material }
    }
}

impl Hittable for Sphere {
    /// Whether the sphere has a positive radius and lies in the world.
    open spec fn valid(&self) -> bool {
        &&& self.center@.within(LIMIT as int)
        &&& 0 < self.radius <= LIMIT
        &&& self.material.valid()
    }

    /// The smaller root of the sphere's equation if it lies beyond the
    /// guard distance, else the larger one.
    open spec fn hit_spec(&self, ray: HalfLine) -> Option<int> {
        let oc = ray.origin.minus(self.center@);
        let a = ray.direction.dot(ray.direction);
        let b = 2 * oc.dot(ray.direction);
        let discriminant = self.discriminant(ray);
        if discriminant < 0 {
            None
        } else {
            let root = root_spec(discriminant);
            pick_root(ratio_spec(-b - root, 2 * a), ratio_spec(-b + root, 2 * a))
        }
    }

    /// The vector from the center to the point, divided by the radius.
    open spec fn normal_spec(&self, point: Vec3) -> Vec3 {
        point.minus(self.center@).divided(self.radius as int)
    }

    open spec fn material_spec(&self) -> Material {
        self.material
    }

    fn hit(&self, ray: &Ray) -> (distance: Option<i64>)
        ensures
            distance matches Some(t) ==> HIT_EPSILON < t,
    {
        let (a, b, discriminant): (i64, i64, i128) = self.equation(ray);
        if discriminant < 0 {
            None
        } else {
            let root: i128 = Sphere::root_of(discriminant);
            proof {
                lemma_mul_bound(-b - root, ONE as int, 3_300_000_000_000, ONE as int);
                lemma_mul_bound(-b + root, ONE as int, 3_300_000_000_000, ONE as int);
                assert(3_300_000_000_000_000_000 <= 2_000_000_000_000 * (2 * a))
                    by (nonlinear_arith)
                    requires
                        a >= 999_994,
                ;
                lemma_div_bound((-b - root) * ONE, 2 * a, 2_000_000_000_000);
                lemma_div_bound((-b + root) * ONE, 2 * a, 2_000_000_000_000);
            }
            let root1: i128 = div_floor((-(b as i128) - root) * (ONE as i128), 2 * (a as i128));
            if root1 > HIT_EPSILON as i128 {
                Some(root1 as i64)
            } else {
                let root2: i128 = div_floor((-(b as i128) + root) * (ONE as i128), 2 * (a as i128));
                if root2 > HIT_EPSILON as i128 {
                    Some(root2 as i64)
                } else {
                    None
                }
            }
        }
    }

    fn normal(&self, point: Vector) -> (n: Vector) {
        let offset: Vector = point.minus(&self.center);
        proof {
            lemma_divided_bound(offset@, self.radius as int, 200_000_000_000);
        }
        offset.divided(self.radius)
    }

    fn material(&self) -> (m: &Material) {
        &self.material
    }

    fn is_valid(&self) -> (ok: bool) {
        self.center.within(LIMIT) && 0 < self.radius && self.radius <= LIMIT
            && self.material.is_valid()
    }
}

/// A triangle, with the normal of its plane.
pub struct Triangle {
    pub vertices: (Vector, Vector, Vector),
    pub normal: Vector,
    pub material: Material,
}

impl Triangle {
    /// The cross product of the two edges that leave the first vertex.
    pub open spec fn face(a: Vec3, b: Vec3, c: Vec3) -> Vec3 {
        b.minus(a).cross(c.minus(a))
    }

    /// The cross product of the two edges that leave the first corner of
    /// this triangle.
    pub open spec fn face_normal(&self) -> Vec3 {
        Triangle::face(self.vertices.0@, self.vertices.1@, self.vertices.2@)
    }

    /// The triangle with the given corners, which lie in the world and not
    /// on one line. Its normal follows the order of the corners.
    pub fn make(a: Vector, b: Vector, c: Vector, material: Material) -> (t: Triangle)
        requires
            a@.within(LIMIT as int),
            b@.within(LIMIT as int),
            c@.within(LIMIT as int),
            !Triangle::face(a@, b@, c@).is_zero(),
        ensures
            t.vertices == (a, b, c),
            t.normal@ == Triangle::face(a@, b@, c@).normalized(),
            t.normal@.norm2() >= ONE * ONE - 6 * ONE,
            t.material == material,
            material.valid() ==> t.valid(),
    {
        let (v1, v2): (Vector, Vector) = (b.minus(&a), c.minus(&a));
        proof {
            lemma_cross_bound(v1@, v2@, 200_000_000_000, 200_000_000_000);
        }
        let n: Vector = v1.cross(&v2).normalized();
        Triangle { vertices: (a, b, c), normal: n, material: material }
    }
}

impl Hittable for Triangle {
    /// Whether the corners lie in the world and not on one line, and the
    /// normal is the normalized face normal of the corners.
    open spec fn valid(&self) -> bool {
        &&& self.vertices.0@.within(LIMIT as int)
        &&& self.vertices.1@.within(LIMIT as int)
        &&& self.vertices.2@.within(LIMIT as int)
        &&& !self.face_normal().is_zero()
        &&& self.normal@ == self.face_normal().normalized()
        &&& self.material.valid()
    }

    /// The distance by the method of Moeller and Trumbore: none where the
    /// ray runs along the plane, or where it meets the plane outside the
    /// triangle or not beyond the guard distance. A quotient beyond
    /// `MAX_DISTANCE`, ten million times the width of the world, is not
    /// taken for a distance.
    open spec fn hit_spec(&self, ray: HalfLine) -> Option<int> {
        let v0 = self.vertices.0@;
        let e1 = self.vertices.1@.minus(v0);
        let e2 = self.vertices.2@.minus(v0);
        let h = ray.direction.cross(e2);
        let a = e1.dot(h);
        if -TRIANGLE_EPSILON < a < TRIANGLE_EPSILON {
            None
        } else {
            let s = ray.origin.minus(v0);
            let u = ratio_spec(s.dot(h), a);
            if u > ONE || u < 0 {
                None
            } else {
                let q = s.cross(e1);
                let v = ratio_spec(ray.direction.dot(q), a);
                if v < 0 || u + v > ONE {
                    None
                } else {
                    let t = ratio_spec(e2.dot(q), a);
                    if HIT_EPSILON < t <= MAX_DISTANCE {
                        Some(t)
                    } else {
                        None
                    }
                }
            }
        }
    }

    open spec fn normal_spec(&self, point: Vec3) -> Vec3 {
        self.normal@
    }

    open spec fn material_spec(&self) -> Material {
        self.material
    }

    fn hit(&self, ray: &Ray) -> (distance: Option<i64>)
        ensures
            distance matches Some(t) ==> HIT_EPSILON < t,
    {
        let (v0, v1, v2): (Vector, Vector, Vector) = self.vertices;
        let (e1, e2): (Vector, Vector) = (v1.minus(&v0), v2.minus(&v0));
        proof {
            lemma_cross_bound(ray.direction@, e2@, ONE as int, 200_000_000_000);
        }
        let h: Vector = ray.direction.cross(&e2);
        proof {
            lemma_dot_bound(e1@, h@, 200_000_000_000, 400_000_000_001);
        }
        let a: i64 = e1.dot(&h);
        if -TRIANGLE_EPSILON < a && a < TRIANGLE_EPSILON {
            return None;
        }
        let s: Vector = ray.origin.minus(&v0);
        proof {
            lemma_dot_bound(s@, h@, 200_001_000_000, 400_000_000_001);
        }
        let u: i128 = div_floor(wide_mul(s.dot(&h), ONE), a as i128);
        if u > ONE as i128 || u < 0 {
            return None;
        }
        proof {
            lemma_cross_bound(s@, e1@, 200_001_000_000, 200_000_000_000);
        }
        let q: Vector = s.cross(&e1);
        proof {
            lemma_dot_bound(ray.direction@, q@, ONE as int, 80_000_400_000_000_001);
        }
        let v: i128 = div_floor(wide_mul(ray.direction.dot(&q), ONE), a as i128);
        if v < 0 || u + v > ONE as i128 {
            return None;
        }
        proof {
            lemma_dot_bound(e2@, q@, 200_000_000_000, 80_000_400_000_000_001);
        }
        let along: i128 = div_floor(e2.dot_wide(&q), ONE as i128);
        proof {
            lemma_mul_bound(along as int, ONE as int, 48_000_240_000_000_001_000_000, ONE as int);
        }
        let t: i128 = div_floor(along * (ONE as i128), a as i128);
        if t > HIT_EPSILON as i128 && t <= MAX_DISTANCE as i128 {
            Some(t as i64)
        } else {
            None
        }
    }

    fn normal(&self, _point: Vector) -> (n: Vector) {
        proof {
            lemma_normalized_bound(self.face_normal());
        }
        self.normal
    }

    fn material(&self) -> (m: &Material) {
        &self.material
    }

    fn is_valid(&self) -> (ok: bool) {
        let (a, b, c): (Vector, Vector, Vector) = self.vertices;
        if !(a.within(LIMIT) && b.within(LIMIT) && c.within(LIMIT)) {
            return false;
        }
        let (v1, v2): (Vector, Vector) = (b.minus(&a), c.minus(&a));
        proof {
            lemma_cross_bound(v1@, v2@, 200_000_000_000, 200_000_000_000);
        }
        let face: Vector = v1.cross(&v2);
        if face.is_zero() {
            return false;
        }
        face.normalized() == self.normal && self.material.is_valid()
    }
}

/// A plane without end, through a point and across a normal.
pub struct Plane {
    pub point: Vector,
    pub normal: Vector,
    pub material: Material,
}

impl Hittable for Plane {
    /// Whether the point lies in the world and the normal has the length
    /// one, as far as rounding allows.
    open spec fn valid(&self) -> bool {
        &&& self.point@.within(LIMIT as int)
        &&& self.normal@.within(ONE as int)
        &&& self.normal@.is_nearly_unit()
        &&& self.material.valid()
    }

    /// The distance to the plane along the ray: none where the ray runs
    /// along the plane, or where the plane lies behind it.
    open spec fn hit_spec(&self, ray: HalfLine) -> Option<int> {
        let denom = self.normal@.dot(ray.direction);
        if -PLANE_EPSILON < denom < PLANE_EPSILON {
            None
        } else {
            let t = ratio_spec(self.point@.minus(ray.origin).dot(self.normal@), denom);
            if 0 < t {
                Some(t)
            } else {
                None
            }
        }
    }

    open spec fn normal_spec(&self, point: Vec3) -> Vec3 {
        self.normal@
    }

    open spec fn material_spec(&self) -> Material {
        self.material
    }

    fn hit(&self, ray: &Ray) -> (distance: Option<i64>) {
        proof {
            lemma_dot_bound(self.normal@, ray.direction@, ONE as int, ONE as int);
        }
        let denom: i64 = self.normal.dot(&ray.direction);
        if -PLANE_EPSILON < denom && denom < PLANE_EPSILON {
            return None;
        }
        let offset: Vector = self.point.minus(&ray.origin);
        proof {
            lemma_dot_bound(offset@, self.normal@, 200_001_000_000, ONE as int);
        }
        let t: i128 = div_floor(wide_mul(offset.dot(&self.normal), ONE), denom as i128);
        if t > 0 {
            Some(t as i64)
        } else {
            None
        }
    }

    fn normal(&self, _point: Vector) -> (n: Vector) {
        self.normal
    }

    fn material(&self) -> (m: &Material) {
        &self.material
    }

    fn is_valid(&self) -> (ok: bool) {
        self.point.within(LIMIT) && self.normal.within(ONE) && self.normal.is_nearly_unit()
            && self.material.is_valid()
    }
}

/// One surface of a scene.
pub enum Primitive {
    Sphere(Sphere),
    Triangle(Triangle),
    Plane(Plane),
}

impl Hittable for Primitive {
    open spec fn valid(&self) -> bool {
        match self {
            Primitive::Sphere(s) => s.valid(),
            Primitive::Triangle(t) => t.valid(),
            Primitive::Plane(p) => p.valid(),
        }
    }

    open spec fn hit_spec(&self, ray: HalfLine) -> Option<int> {
        match self {
            Primitive::Sphere(s) => s.hit_spec(ray),
            Primitive::Triangle(t) => t.hit_spec(ray),
            Primitive::Plane(p) => p.hit_spec(ray),
        }
    }

    open spec fn normal_spec(&self, point: Vec3) -> Vec3 {
        match self {
            Primitive::Sphere(s) => s.normal_spec(point),
            Primitive::Triangle(t) => t.normal_spec(point),
            Primitive::Plane(p) => p.normal_spec(point),
        }
    }

    open spec fn material_spec(&self) -> Material {
        match self {
            Primitive::Sphere(s) => s.material_spec(),
            Primitive::Triangle(t) => t.material_spec(),
            Primitive::Plane(p) => p.material_spec(),
        }
    }

    fn hit(&self, ray: &Ray) -> (distance: Option<i64>) {
        match self {
            Primitive::Sphere(s) => s.hit(ray),
            Primitive::Triangle(t) => t.hit(ray),
            Primitive::Plane(p) => p.hit(ray),
        }
    }

    fn normal(&self, point: Vector) -> (n: Vector) {
        match self {
            Primitive::Sphere(s) => s.normal(point),
            Primitive::Triangle(t) => t.normal(point),
            Primitive::Plane(p) => p.normal(point),
        }
    }

    fn material(&self) -> (m: &Material) {
        match self {
            Primitive::Sphere(s) => s.material(),
            Primitive::Triangle(t) => t.material(),
            Primitive::Plane(p) => p.material(),
        }
    }

    fn is_valid(&self) -> (ok: bool) {
        match self {
            Primitive::Sphere(s) => s.is_valid(),
            Primitive::Triangle(t) => t.is_valid(),
            Primitive::Plane(p) => p.is_valid(),
        }
    }
}

/// The surfaces and lights of a picture, and the light that is everywhere.
pub struct Scene {
    pub objects: Vec<Primitive>,
    pub lights: Vec<Light>,
    pub ambient_light: i64,
}

impl Scene {
    /// Whether every surface and every light is valid.
    pub open spec fn valid(&self) -> bool {
        &&& forall|i: int| 0 <= i < self.objects@.len() ==> (#[trigger] self.objects@[i]).valid()
        &&& forall|i: int| 0 <= i < self.lights@.len() ==> (#[trigger] self.lights@[i]).valid()
    }

    /// The scene of the given surfaces and lights.
    pub fn make(objects: Vec<Primitive>, lights: Vec<Light>, ambient_light: i64) -> (scene: Scene)
        ensures
            scene.objects == objects,
            scene.lights == lights,
            scene.ambient_light == ambient_light,
    {
        Scene { objects, lights, ambient_light }
    }

    /// Whether every surface and every light is valid.
    pub fn is_valid(&self) -> (ok: bool)
        ensures
            ok == self.valid(),
    {
        let mut i: usize = 0;
        while i < self.objects.len()
            invariant
                i <= self.objects@.len(),
                forall|j: int| 0 <= j < i ==> (#[trigger] self.objects@[j]).valid(),
            decreases self.objects@.len() - i,
        {
            if !self.objects[i].is_valid() {
                return false;
            }
            i += 1;
        }
        let mut k: usize = 0;
        while k < self.lights.len()
            invariant
                k <= self.lights@.len(),
                forall|j: int| 0 <= j < self.objects@.len() ==> (#[trigger] self.objects@[j]).valid(),
                forall|j: int| 0 <= j < k ==> (#[trigger] self.lights@[j]).valid(),
            decreases self.lights@.len() - k,
        {
            if !self.lights[k].is_valid() {
                return false;
            }
            k += 1;
        }
        true
    }

    /// The surface that the ray meets first and the point at which it
    /// meets it, or none.
    pub fn trace_ray<'a>(&'a self, ray: &'a Ray) -> (found: Option<(&'a Primitive, Vector)>)
        requires
            self.valid(),
            ray.valid(),
        ensures
            match found {
                None => ray@.closest(self).is_none(),
                Some((object, point)) => {
                    &&& ray@.closest(self) matches Some(k)
                    &&& 0 <= k < self.objects@.len()
                    &&& *object == self.objects@[k]
                    &&& point@ == ray@.landing(self, k)
                    &&& point@.within(LIMIT + ONE + MAX_DISTANCE + 1)
                },
            },
    {
        match ray.trace(self) {
            Some(collision) => Some((collision.object, collision.point)),
            None => None,
        }
    }
}

/// Where a ray first meets a scene: the surface, and the point of the
/// ray on it, which may lie outside the world.
pub struct Collision<'a> {
    pub object: &'a Primitive,
    pub point: Vector,
}

/// No surface reports a distance that is zero or negative.
pub proof fn lemma_hit_positive(object: Primitive, ray: HalfLine)
    ensures
        object.hit_spec(ray) matches Some(t) ==> 0 < t,
{
}

/// The normal of a sphere at a point of its surface has the length one
/// and is parallel to the vector from the center to the point, both as
/// far as rounding to millionths allows: the square of its length differs
/// from one by less than seven millionths, and no component of its exact
/// cross product with that vector exceeds twice the radius.
pub proof fn lemma_sphere_normal(sphere: Sphere, point: Vec3)
    requires
        sphere.radius > 0,
        point.minus(sphere.center@).norm2() == sphere.radius * sphere.radius,
    ensures
        ONE * ONE - 6 * ONE <= sphere.normal_spec(point).norm2() <= ONE * ONE + 6 * ONE + 3,
        sphere.normal_spec(point).cross_wide(point.minus(sphere.center@)).within(
            2 * sphere.radius,
        ),
{
    let r = sphere.radius as int;
    let d = point.minus(sphere.center@);
    let n = sphere.normal_spec(point);
    assert(d.x * d.x >= 0 && d.y * d.y >= 0 && d.z * d.z >= 0) by (nonlinear_arith);
    assert(is_sqrt(r * r, r)) by (nonlinear_arith)
        requires
            r > 0,
    ;
    lemma_root_above(d.x, r * r, r);
    lemma_root_above(d.y, r * r, r);
    lemma_root_above(d.z, r * r, r);
    let px = lemma_quotient_component(d.x, r);
    let py = lemma_quotient_component(d.y, r);
    let pz = lemma_quotient_component(d.z, r);
    let rr = r * r;
    let total = n.norm2();
    assert(total * rr == (n.x * n.x) * rr + (n.y * n.y) * rr + (n.z * n.z) * rr)
        by (nonlinear_arith)
        requires
            total == n.x * n.x + n.y * n.y + n.z * n.z,
    ;
    assert((d.x * d.x) * (ONE * ONE) + (d.y * d.y) * (ONE * ONE) + (d.z * d.z) * (ONE * ONE) == (
    ONE * ONE) * rr) by (nonlinear_arith)
        requires
            d.x * d.x + d.y * d.y + d.z * d.z == rr,
    ;
    assert(rr > 0) by (nonlinear_arith)
        requires
            r > 0,
            rr == r * r,
    ;
    assert(n.x == (d.x * ONE) / r && n.y == (d.y * ONE) / r && n.z == (d.z * ONE) / r);
    let tx = (n.x * n.x) * rr - (d.x * d.x) * (ONE * ONE);
    let ty = (n.y * n.y) * rr - (d.y * d.y) * (ONE * ONE);
    let tz = (n.z * n.z) * rr - (d.z * d.z) * (ONE * ONE);
    let w = 2 * ONE * rr;
    assert(-w <= tx <= w + rr);
    assert(-w <= ty <= w + rr);
    assert(-w <= tz <= w + rr);
    let t = tx + ty + tz;
    assert(total * rr - (ONE * ONE) * rr == t);
    assert(-(3 * w) <= t <= 3 * w + 3 * rr);
    assert(total >= ONE * ONE - 6 * ONE) by (nonlinear_arith)
        requires
            rr > 0,
            w == 2 * ONE * rr,
            total * rr - (ONE * ONE) * rr == t,
            t >= -(3 * w),
    ;
    assert(total <= ONE * ONE + 6 * ONE + 3) by (nonlinear_arith)
        requires
            rr > 0,
            w == 2 * ONE * rr,
            total * rr - (ONE * ONE) * rr == t,
            t <= 3 * w + 3 * rr,
    ;
    lemma_quotients_parallel(n.y, d.y, py, n.z, d.z, pz, r);
    lemma_quotients_parallel(n.z, d.z, pz, n.x, d.x, px, r);
    lemma_quotients_parallel(n.x, d.x, px, n.y, d.y, py, r);
}

} // verus!
