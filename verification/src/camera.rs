//! Rays and the closest-hit query, and the camera that sends a ray through
//! every pixel of a picture.
use vstd::prelude::*;
use crate::fixed::{
    is_sqrt, lemma_div_bound, lemma_div_sides, lemma_mul_bound, lemma_sqrt_floor, quot, times,
    times_spec, ONE,
};
use crate::scene::{Collision, Color, Hittable, Primitive, Scene, LIMIT, MAX_DISTANCE};
use crate::shader::{secondary, secondary_spec, RenderError};
use crate::trig::{
    cos, cos_spec, lemma_degrees, lemma_quarter_turns, sin, sin_spec, to_radians,
    to_radians_spec,
};
use crate::vectors::{
    lemma_cross_bound, lemma_length, lemma_quotient_component, lemma_quotients_parallel,
    lemma_scaled_bound, Vec3, Vector, SPAN,
};

verus! {

/// The mathematical ray that a [`Ray`] stands for: the points
/// `origin + direction * t` for `t` from zero on.
pub ghost struct HalfLine {
    pub origin: Vec3,
    pub direction: Vec3,
}

impl HalfLine {
    /// Whether the ray starts inside the world, or within one unit of it,
    /// and its direction has been normalized: no component is beyond one,
    /// and the square of the length is at least one less six millionths.
    pub open spec fn valid(self) -> bool {
        &&& self.origin.within(LIMIT + ONE)
        &&& self.direction.within(ONE as int)
        &&& self.direction.norm2() >= 999_994_000_000
    }

    /// The point of the ray at the distance `t`.
    pub open spec fn at(self, t: int) -> Vec3 {
        self.origin.plus(self.direction.scaled(t))
    }

    /// The index of the surface that the ray meets first among the first
    /// `n` of `objects`: the one with the least distance, and of two at the
    /// same distance the earlier one.
    pub open spec fn closest_among(self, objects: Seq<Primitive>, n: int) -> Option<int>
        decreases n,
    {
        if n <= 0 {
            None
        } else {
            let before = self.closest_among(objects, n - 1);
            match (objects[n - 1].hit_spec(self), before) {
                (None, _) => before,
                (Some(_), None) => Some(n - 1),
                (Some(t), Some(k)) => if t < objects[k].hit_spec(self).unwrap() {
                    Some(n - 1)
                } else {
                    before
                },
            }
        }
    }

    /// The index of the surface of the scene that the ray meets first.
    pub open spec fn closest(self, scene: &Scene) -> Option<int> {
        self.closest_among(scene.objects@, scene.objects@.len() as int)
    }

    /// The distance at which the ray meets the surface with the index `k`.
    pub open spec fn reach(self, scene: &Scene, k: int) -> int {
        scene.objects@[k].hit_spec(self).unwrap()
    }

    /// The point at which the ray meets the surface with the index `k`.
    pub open spec fn landing(self, scene: &Scene, k: int) -> Vec3 {
        self.at(self.reach(scene, k))
    }
}

/// The surface that `closest_among` names is met by the ray, and no
/// surface before the limit is met at a shorter distance, nor an earlier
/// one at the same distance. Where it names none, the ray meets none.
pub proof fn lemma_closest_among(ray: HalfLine, objects: Seq<Primitive>, n: int)
    requires
        0 <= n <= objects.len(),
    ensures
        match ray.closest_among(objects, n) {
            None => forall|j: int| 0 <= j < n ==> (#[trigger] objects[j].hit_spec(ray)).is_none(),
            Some(k) => {
                &&& 0 <= k < n
                &&& objects[k].hit_spec(ray).is_some()
                &&& forall|j: int|
                    0 <= j < n ==> match #[trigger] objects[j].hit_spec(ray) {
                        Some(t) => {
                            let best = objects[k].hit_spec(ray).unwrap();
                            best < t || (best == t && k <= j)
                        },
                        None => true,
                    }
            },
        },
    decreases n,
{
    if n > 0 {
        lemma_closest_among(ray, objects, n - 1);
    }
}

/// The closest-hit rule: where the surface with the index `j` reports
/// a distance for the ray, the scene query names a surface that reports
/// that distance or a shorter one, and at the same distance only one that
/// does not come later. So of two surfaces that the ray meets at different
/// distances the nearer one is named, in whichever order they stand.
pub proof fn lemma_closest_hit(ray: HalfLine, scene: &Scene, j: int)
    requires
        0 <= j < scene.objects@.len(),
        scene.objects@[j].hit_spec(ray).is_some(),
    ensures
        ray.closest(scene).is_some(),
        0 <= ray.closest(scene).unwrap() < scene.objects@.len(),
        scene.objects@[ray.closest(scene).unwrap()].hit_spec(ray).is_some(),
        ray.reach(scene, ray.closest(scene).unwrap()) <= ray.reach(scene, j),
        ray.reach(scene, ray.closest(scene).unwrap()) == ray.reach(scene, j)
            ==> ray.closest(scene).unwrap() <= j,
{
    lemma_closest_among(ray, scene.objects@, scene.objects@.len() as int);
}

/// The scene query names no surface if and only if no surface of the scene
/// reports a distance for the ray.
pub proof fn lemma_closest_none(ray: HalfLine, scene: &Scene)
    ensures
        ray.closest(scene).is_none() <==> forall|j: int|
            0 <= j < scene.objects@.len() ==> (#[trigger] scene.objects@[j].hit_spec(
                ray,
            )).is_none(),
{
    lemma_closest_among(ray, scene.objects@, scene.objects@.len() as int);
}

/// A ray, with its direction normalized.
pub struct Ray {
    pub origin: Vector,
    pub direction: Vector,
}

impl View for Ray {
    type V = HalfLine;

    open spec fn view(&self) -> HalfLine {
        HalfLine { origin: self.origin@, direction: self.direction@ }
    }
}

impl Ray {
    /// Whether the ray starts inside the world, or within one unit of it,
    /// and its direction has been normalized.
    pub open spec fn valid(&self) -> bool {
        self@.valid()
    }

    /// Whether the ray is valid.
    pub fn is_valid(&self) -> (ok: bool)
        ensures
            ok == self.valid(),
    {
        self.origin.within(LIMIT + ONE) && self.direction.within(ONE) && self.direction.dot_wide(
            &self.direction,
        ) >= 999_994_000_000
    }

    /// The ray from `origin` in the given direction, which is normalized
    /// here. A direction of length zero is not accepted.
    pub fn new(origin: Vector, direction: Vector) -> (ray: Ray)
        requires
            direction@.within(SPAN as int),
            !direction@.is_zero(),
        ensures
            ray.origin == origin,
            ray.direction@ == direction@.normalized(),
            origin@.within(LIMIT + ONE) ==> ray.valid(),
    {
        Ray { origin, direction: direction.normalized() }
    }

    /// The point of the ray at the distance `t`.
    pub fn point_at(&self, t: i64) -> (p: Vector)
        requires
            self.valid(),
            0 <= t <= MAX_DISTANCE,
        ensures
            p@ == self@.at(t as int),
            p@.within(LIMIT + ONE + MAX_DISTANCE + 1),
    {
        proof {
            lemma_scaled_bound(self.direction@, t as int, ONE as int, MAX_DISTANCE as int);
            assert((ONE * MAX_DISTANCE) / (ONE as int) == MAX_DISTANCE);
        }
        self.origin.plus(&self.direction.scaled(t))
    }

    /// The closest collision of the ray with the scene: the surface that
    /// reports the least distance, the first of them where several report
    /// it, and the point of the ray at that distance. There is none if and
    /// only if no surface reports a distance. The point may lie outside
    /// the world.
    pub fn trace<'a>(&'a self, scene: &'a Scene) -> (found: Option<Collision<'a>>)
        requires
            self.valid(),
            scene.valid(),
        ensures
            match found {
                None => self@.closest(scene).is_none(),
                Some(c) => {
                    &&& self@.closest(scene) matches Some(k)
                    &&& 0 <= k < scene.objects@.len()
                    &&& *c.object == scene.objects@[k]
                    &&& c.point@ == self@.landing(scene, k)
                    &&& c.point@.within(LIMIT + ONE + MAX_DISTANCE + 1)
                    &&& c.object.hit_spec(self@).is_some()
                    &&& forall|j: int|
                        0 <= j < scene.objects@.len() ==> match #[trigger] scene.objects@[j].hit_spec(
                            self@,
                        ) {
                            Some(t) => self@.reach(scene, k) < t || (self@.reach(scene, k) == t
                                && k <= j),
                            None => true,
                        }
                },
            },
            found.is_none() <==> forall|j: int|
                0 <= j < scene.objects@.len() ==> (#[trigger] scene.objects@[j].hit_spec(
                    self@,
                )).is_none(),
    {
        proof {
            lemma_closest_among(self@, scene.objects@, scene.objects@.len() as int);
        }
        let mut best: Option<(usize, i64, Vector)> = None;
        let mut i: usize = 0;
        while i < scene.objects.len()
            invariant
                i <= scene.objects@.len(),
                self.valid(),
                scene.valid(),
                match best {
                    None => self@.closest_among(scene.objects@, i as int).is_none(),
                    Some((k, t, p)) => {
                        &&& self@.closest_among(scene.objects@, i as int) == Some(k as int)
                        &&& k < i
                        &&& scene.objects@[k as int].hit_spec(self@) == Some(t as int)
                        &&& p@ == self@.at(t as int)
                        &&& p@.within(LIMIT + ONE + MAX_DISTANCE + 1)
                    },
                },
            decreases scene.objects@.len() - i,
        {
            let object: &Primitive = &scene.objects[i];
            match object.hit(self) {
                Some(t) => {
                    let closer: bool = match best {
                        None => true,
                        Some((_, nearest, _)) => t < nearest,
                    };
                    if closer {
                        best = Some((i, t, self.point_at(t)));
                    }
                },
                None => {},
            }
            i += 1;
        }
        match best {
            None => None,
            Some((k, _, p)) => Some(Collision { object: &scene.objects[k], point: p }),
        }
    }
}

/// The direction that counts as up in the world.
pub open spec fn up_spec() -> Vec3 {
    Vec3 { x: 0, y: ONE as int, z: 0 }
}

/// The direction that counts as up in the world.
pub fn world_up() -> (up: Vector)
    ensures
        up@ == up_spec(),
{
    Vector::make(0, ONE, 0)
}

/// The three directions of a view, as mathematical vectors.
pub ghost struct Frame {
    pub forward: Vec3,
    pub right: Vec3,
    pub up: Vec3,
}

/// The three directions of a camera: where it looks, what is to its right
/// and what is above it.
pub struct CameraBasis {
    pub forward: Vector,
    pub right: Vector,
    pub up: Vector,
}

impl View for CameraBasis {
    type V = Frame;

    open spec fn view(&self) -> Frame {
        Frame { forward: self.forward@, right: self.right@, up: self.up@ }
    }
}

impl Frame {
    /// Whether no direction is longer than one.
    pub open spec fn valid(self) -> bool {
        self.forward.within(ONE as int) && self.right.within(ONE as int) && self.up.within(
            ONE as int,
        )
    }

    /// The frame of a camera that looks along `forward`: to the right is
    /// the normalized cross product of `forward` and the world's up, above
    /// the normalized cross product of that and `forward`. There is none
    /// where one of the two cross products vanishes.
    pub open spec fn of(forward: Vec3) -> Option<Frame> {
        let sideways = forward.cross(up_spec());
        if sideways.is_zero() {
            None
        } else {
            let right = sideways.normalized();
            let above = right.cross(forward);
            if above.is_zero() {
                None
            } else {
                Some(Frame { forward, right, up: above.normalized() })
            }
        }
    }

    /// The direction from the camera through the pixel `(x, y)` of a
    /// picture of the given size, not yet normalized:
    /// `forward + right * (u * 2 * aspect) + up * (-v * 2)`.
    pub open spec fn through(self, x: int, y: int, width: int, height: int, aspect: int) -> Vec3 {
        let u = offset_spec(x, width);
        let v = offset_spec(y, height);
        self.forward.plus(self.right.scaled(times_spec(2 * u, aspect))).plus(
            self.up.scaled(-2 * v),
        )
    }
}

/// Where the middle of the pixel with the index `i` lies on an axis of `n`
/// pixels, from minus a half to a half: `(i + 0.5) / n - 0.5`.
pub open spec fn offset_spec(i: int, n: int) -> int {
    ((2 * i + 1) * ONE) / (2 * n) - ONE / 2
}

/// The height of a picture of the given width and aspect ratio, which is
/// at most 65535.
pub open spec fn height_spec(width: int, x_ratio: int, y_ratio: int) -> int {
    let height = (width * y_ratio) / x_ratio;
    if height > 65535 {
        65535
    } else {
        height
    }
}

/// The keys that move the camera.
#[derive(Debug, Copy, Clone, PartialEq, Eq, Structural)]
pub enum Keycode {
    /// Forward, level with the ground.
    W,
    /// To the left.
    A,
    /// Backward, level with the ground.
    S,
    /// To the right.
    D,
    /// Up.
    Space,
    /// Down.
    LShift,
}

impl Frame {
    /// The direction in which the key moves a camera with this frame, not
    /// yet normalized. There is none where the camera is to move level
    /// with the ground and looks straight up or down.
    pub open spec fn movement(self, keycode: Keycode) -> Option<Vec3> {
        let level = Vec3 { x: self.forward.x, y: 0, z: self.forward.z };
        match keycode {
            Keycode::W => if level.is_zero() {
                None
            } else {
                Some(level.normalized())
            },
            Keycode::S => if level.is_zero() {
                None
            } else {
                Some(level.normalized().negated())
            },
            Keycode::A => Some(self.right.negated()),
            Keycode::D => Some(self.right),
            Keycode::Space => Some(up_spec()),
            Keycode::LShift => Some(up_spec().negated()),
        }
    }
}

impl CameraBasis {
    /// The direction from the camera through the pixel `(x, y)`.
    pub fn through(&self, x: u16, y: u16, width: u16, height: u16, aspect_ratio: i64) -> (direction:
        Vector)
        requires
            self@.valid(),
            width > 0,
            height > 0,
            0 <= aspect_ratio <= 65_535_000_000,
        ensures
            direction@ == self@.through(
                x as int,
                y as int,
                width as int,
                height as int,
                aspect_ratio as int,
            ),
            direction@.within(SPAN as int),
    {
        let u: i64 = ((2 * (x as i64) + 1) * ONE) / (2 * (width as i64)) - ONE / 2;
        let v: i64 = ((2 * (y as i64) + 1) * ONE) / (2 * (height as i64)) - ONE / 2;
        proof {
            lemma_offset_bound(x as int, width as int);
            lemma_offset_bound(y as int, height as int);
            lemma_mul_bound(2 * u, aspect_ratio as int, 131_072_000_000, 65_535_000_000);
        }
        let across: i64 = times(2 * u, aspect_ratio);
        proof {
            lemma_scaled_bound(self.right@, across as int, ONE as int, 8_589_803_520_000_000);
            lemma_scaled_bound(self.up@, -2 * v, ONE as int, 131_072_000_000);
        }
        self.forward.plus(&self.right.scaled(across)).plus(&self.up.scaled(-2 * v))
    }
}

/// The offset of a pixel from the middle of the picture is at most the
/// number of pixels that a picture can have on an axis.
proof fn lemma_offset_bound(i: int, n: int)
    requires
        0 <= i <= 65535,
        0 < n <= 65535,
    ensures
        -500_000 <= offset_spec(i, n) <= 65_536_000_000,
{
    let a = (2 * i + 1) * ONE;
    assert(0 <= a <= 131_071_000_000);
    assert(a <= 65_535_500_000 * (2 * n)) by (nonlinear_arith)
        requires
            0 <= a <= 131_071_000_000,
            n >= 1,
    ;
    lemma_div_bound(a, 2 * n, 65_535_500_000);
    lemma_div_sides(a, 2 * n, 0);
}

/// A camera: where it stands and where it looks.
pub struct Camera {
    pub coords: Vector,
    pub direction: Vector,
}

impl Camera {
    /// Whether the camera stands in the world, or within one unit of it,
    /// and its direction is at most one unit long.
    pub open spec fn valid(&self) -> bool {
        self.coords@.within(LIMIT + ONE) && self.direction@.within(ONE as int)
    }

    /// The color of the pixel `(x, y)`: the color of the ray through the
    /// pixel, or the background in its direction where it meets nothing.
    pub open spec fn pixel_spec(
        &self,
        scene: &Scene,
        frame: Frame,
        x: int,
        y: int,
        width: int,
        height: int,
        aspect: int,
        depth: nat,
    ) -> Result<Color, RenderError> {
        secondary_spec(scene, self.coords@, frame.through(x, y, width, height, aspect), depth)
    }

    /// The camera at `coords` that looks along `direction`, which is
    /// normalized here. A direction of length zero is not accepted.
    pub fn new(coords: Vector, direction: Vector) -> (camera: Camera)
        requires
            direction@.within(SPAN as int),
            !direction@.is_zero(),
        ensures
            camera.coords == coords,
            camera.direction@ == direction@.normalized(),
            coords@.within(LIMIT + ONE) ==> camera.valid(),
    {
        Camera { coords, direction: direction.normalized() }
    }

    /// Whether the camera can be used to draw.
    pub fn is_valid(&self) -> (ok: bool)
        ensures
            ok == self.valid(),
    {
        self.coords.within(LIMIT + ONE) && self.direction.within(ONE)
    }

    /// The camera at its first place: three units back on the first axis,
    /// looking along it.
    pub fn reset_location(&self) -> (camera: Camera)
        ensures
            camera.coords@ == (Vec3 { x: -3 * ONE, y: 0, z: 0 }),
            camera.direction@ == (Vec3 { x: ONE as int, y: 0, z: 0 }),
            camera.valid(),
    {
        let direction: Vector = Vector::make(ONE, 0, 0);
        proof {
            lemma_unit_axis(direction@);
        }
        Camera::new(Vector::make(-3 * ONE, 0, 0), direction)
    }

    /// The camera on the other side: three units forward on the first
    /// axis, looking back along it.
    pub fn reset_location_reversed(&self) -> (camera: Camera)
        ensures
            camera.coords@ == (Vec3 { x: 3 * ONE, y: 0, z: 0 }),
            camera.direction@ == (Vec3 { x: -ONE, y: 0, z: 0 }),
            camera.valid(),
    {
        let direction: Vector = Vector::make(-ONE, 0, 0);
        proof {
            lemma_unit_axis(direction@);
        }
        Camera::new(Vector::make(3 * ONE, 0, 0), direction)
    }

    /// The directions of the camera, or an error where it looks straight
    /// up or down, so that nothing is to its right.
    pub fn camera_basis(&self) -> (basis: Result<CameraBasis, RenderError>)
        requires
            self.valid(),
        ensures
            match basis {
                Ok(b) => {
                    &&& Frame::of(self.direction@) == Some(b@)
                    &&& b@.valid()
                    &&& b.forward == self.direction
                    &&& b.right.y == 0
                    &&& b.right@.norm2() >= ONE * ONE - 6 * ONE
                    &&& b.up@.norm2() >= ONE * ONE - 6 * ONE
                },
                Err(_) => Frame::of(self.direction@).is_none(),
            },
    {
        let forward: Vector = self.direction;
        let up: Vector = world_up();
        proof {
            lemma_cross_bound(forward@, up@, ONE as int, ONE as int);
        }
        let sideways: Vector = forward.cross(&up);
        if sideways.is_zero() {
            return Err(RenderError::ZeroLength);
        }
        let right: Vector = sideways.normalized();
        proof {
            assert(sideways.y == 0);
            lemma_length(sideways@);
            lemma_div_sides(0, sideways@.length(), 0);
            lemma_cross_bound(right@, forward@, ONE as int, ONE as int);
        }
        let above: Vector = right.cross(&forward);
        if above.is_zero() {
            return Err(RenderError::ZeroLength);
        }
        Ok(CameraBasis { forward, right, up: above.normalized() })
    }

    /// Where the key takes the camera: one unit along the direction of
    /// the key. The camera keeps its direction. There is an error where
    /// the camera looks straight up or down.
    pub open spec fn relocate_spec(&self, keycode: Keycode) -> Option<Vec3> {
        match Frame::of(self.direction@) {
            None => None,
            Some(frame) => match frame.movement(keycode) {
                None => None,
                Some(movement) => if movement.is_zero() {
                    None
                } else {
                    Some(self.coords@.plus(movement.normalized()))
                },
            },
        }
    }

    /// The direction of the camera turned about the vertical axis by an
    /// angle in degrees, not yet normalized.
    pub open spec fn rotate_spec(&self, angle_degrees: int) -> Vec3 {
        let angle = to_radians_spec(angle_degrees);
        let c = cos_spec(angle);
        let s = sin_spec(angle);
        let d = self.direction@;
        Vec3 {
            x: times_spec(d.x, c) - times_spec(d.z, s),
            y: d.y,
            z: times_spec(d.x, s) + times_spec(d.z, c),
        }
    }

    /// Moves the camera by one unit as the key says.
    pub fn relocate(self, keycode: Keycode) -> (moved: Result<Camera, RenderError>)
        requires
            self.valid(),
        ensures
            match moved {
                Ok(camera) => self.relocate_spec(keycode) == Some(camera.coords@)
                    && camera.direction == self.direction,
                Err(_) => self.relocate_spec(keycode).is_none(),
            },
    {
        let base: CameraBasis = match self.camera_basis() {
            Ok(b) => b,
            Err(e) => {
                return Err(e);
            },
        };
        let level: Vector = Vector::make(base.forward.x, 0, base.forward.z);
        let movement: Vector = match keycode {
            Keycode::W => {
                if level.is_zero() {
                    return Err(RenderError::ZeroLength);
                }
                level.normalized()
            },
            Keycode::S => {
                if level.is_zero() {
                    return Err(RenderError::ZeroLength);
                }
                level.normalized().negated()
            },
            Keycode::A => base.right.negated(),
            Keycode::D => base.right,
            Keycode::Space => world_up(),
            Keycode::LShift => world_up().negated(),
        };
        if movement.is_zero() {
            return Err(RenderError::ZeroLength);
        }
        Ok(Camera { coords: self.coords.plus(&movement.normalized()), direction: self.direction })
    }

    /// Turns the camera about the vertical axis by an angle in degrees.
    /// There is an error where the turned direction has vanished.
    pub fn rotate(&self, angle_degrees: i64) -> (turned: Result<Camera, RenderError>)
        requires
            self.valid(),
        ensures
            match turned {
                Ok(camera) => {
                    &&& !self.rotate_spec(angle_degrees as int).is_zero()
                    &&& camera.direction@ == self.rotate_spec(angle_degrees as int).normalized()
                    &&& camera.coords == self.coords
                    &&& camera.valid()
                },
                Err(_) => self.rotate_spec(angle_degrees as int).is_zero(),
            },
    {
        let angle_rad: i64 = to_radians(angle_degrees);
        let cos_theta: i64 = cos(angle_rad);
        let sin_theta: i64 = sin(angle_rad);
        let dir: Vector = self.direction;
        proof {
            lemma_mul_bound(dir.x as int, cos_theta as int, ONE as int, ONE as int);
            lemma_mul_bound(dir.z as int, sin_theta as int, ONE as int, ONE as int);
            lemma_mul_bound(dir.x as int, sin_theta as int, ONE as int, ONE as int);
            lemma_mul_bound(dir.z as int, cos_theta as int, ONE as int, ONE as int);
        }
        let new_direction: Vector = Vector::make(
            times(dir.x, cos_theta) - times(dir.z, sin_theta),
            dir.y,
            times(dir.x, sin_theta) + times(dir.z, cos_theta),
        );
        if new_direction.is_zero() {
            return Err(RenderError::ZeroLength);
        }
        Ok(Camera { coords: self.coords, direction: new_direction.normalized() })
    }

    /// The ray from the camera through the pixel `(x, y)` of a picture of
    /// the given size, or an error where the direction through the pixel
    /// has vanished.
    pub fn generate_ray(
        &self,
        x: u16,
        y: u16,
        width: u16,
        height: u16,
        aspect_ratio: i64,
        basis: &CameraBasis,
    ) -> (ray: Result<Ray, RenderError>)
        requires
            self.valid(),
            basis@.valid(),
            width > 0,
            height > 0,
            0 <= aspect_ratio <= 65_535_000_000,
        ensures
            match ray {
                Ok(r) => {
                    let direction = basis@.through(
                        x as int,
                        y as int,
                        width as int,
                        height as int,
                        aspect_ratio as int,
                    );
                    &&& !direction.is_zero()
                    &&& r.origin == self.coords
                    &&& r.direction@ == direction.normalized()
                    &&& r.valid()
                },
                Err(_) => basis@.through(
                    x as int,
                    y as int,
                    width as int,
                    height as int,
                    aspect_ratio as int,
                ).is_zero(),
            },
    {
        let direction: Vector = basis.through(x, y, width, height, aspect_ratio);
        if direction.is_zero() {
            return Err(RenderError::ZeroLength);
        }
        Ok(Ray::new(self.coords, direction))
    }

    /// The color of one pixel.
    pub fn pixel(
        &self,
        scene: &Scene,
        basis: &CameraBasis,
        x: u16,
        y: u16,
        width: u16,
        height: u16,
        aspect_ratio: i64,
        depth: u32,
    ) -> (color: Result<Color, RenderError>)
        requires
            self.valid(),
            scene.valid(),
            basis@.valid(),
            width > 0,
            height > 0,
            0 <= aspect_ratio <= 65_535_000_000,
        ensures
            color == self.pixel_spec(
                scene,
                basis@,
                x as int,
                y as int,
                width as int,
                height as int,
                aspect_ratio as int,
                depth as nat,
            ),
    {
        secondary(scene, self.coords, basis.through(x, y, width, height, aspect_ratio), depth)
    }

    /// The picture that the camera sees, row by row from the top: for a
    /// width and an aspect ratio `x_ratio : y_ratio`, the color of every
    /// pixel, or the error that its ray ran into. There is an error for
    /// the whole picture where the camera looks straight up or down.
    pub fn draw(&self, scene: &Scene, width: u16, ratio: (u16, u16), depth: u32) -> (picture:
        Result<Vec<Vec<Result<Color, RenderError>>>, RenderError>)
        requires
            self.valid(),
            scene.valid(),
            ratio.0 > 0,
            ratio.1 > 0,
        ensures
            match picture {
                Err(_) => Frame::of(self.direction@).is_none(),
                Ok(rows) => {
                    let height = height_spec(width as int, ratio.0 as int, ratio.1 as int);
                    let aspect = (ratio.0 * ONE) / (ratio.1 as int);
                    &&& Frame::of(self.direction@).is_some()
                    &&& rows@.len() == height
                    &&& forall|y: int|
                        0 <= y < height ==> (#[trigger] rows@[y])@.len() == width
                    &&& forall|x: int, y: int|
                        0 <= y < height && 0 <= x < width ==> (#[trigger] rows@[y]@[x])
                            == self.pixel_spec(
                            scene,
                            Frame::of(self.direction@).unwrap(),
                            x,
                            y,
                            width as int,
                            height,
                            aspect,
                            depth as nat,
                        )
                },
            },
    {
        let cam_basis: CameraBasis = match self.camera_basis() {
            Ok(b) => b,
            Err(e) => {
                return Err(e);
            },
        };
        let (x_ratio, y_ratio): (u16, u16) = ratio;
        proof {
            lemma_mul_bound(width as int, y_ratio as int, 65535, 65535);
        }
        let tall: u32 = (width as u32 * y_ratio as u32) / (x_ratio as u32);
        let height: u16 = if tall > 65535 {
            65535
        } else {
            tall as u16
        };
        let aspect_ratio: i64 = (x_ratio as i64 * ONE) / (y_ratio as i64);
        proof {
            lemma_div_bound(x_ratio * ONE, y_ratio as int, 65_535_000_000);
            assert(x_ratio * ONE <= 65_535_000_000 * y_ratio) by (nonlinear_arith)
                requires
                    0 <= x_ratio <= 65535,
                    y_ratio >= 1,
            ;
            lemma_div_sides(x_ratio * ONE, y_ratio as int, 0);
        }
        let mut rows: Vec<Vec<Result<Color, RenderError>>> = Vec::new();
        let mut row: u16 = 0;
        while row < height
            invariant
                row <= height,
                self.valid(),
                scene.valid(),
                cam_basis@.valid(),
                width > 0 || height == 0,
                0 <= aspect_ratio <= 65_535_000_000,
                rows@.len() == row,
                forall|y: int| 0 <= y < row ==> (#[trigger] rows@[y])@.len() == width,
                forall|x: int, y: int|
                    0 <= y < row && 0 <= x < width ==> (#[trigger] rows@[y]@[x])
                        == self.pixel_spec(
                        scene,
                        cam_basis@,
                        x,
                        y,
                        width as int,
                        height as int,
                        aspect_ratio as int,
                        depth as nat,
                    ),
            decreases height - row,
        {
            let mut line: Vec<Result<Color, RenderError>> = Vec::new();
            let mut x: u16 = 0;
            while x < width
                invariant
                    x <= width,
                    row < height,
                    self.valid(),
                    scene.valid(),
                    cam_basis@.valid(),
                    0 <= aspect_ratio <= 65_535_000_000,
                    line@.len() == x,
                    forall|k: int|
                        0 <= k < x ==> (#[trigger] line@[k]) == self.pixel_spec(
                            scene,
                            cam_basis@,
                            k,
                            row as int,
                            width as int,
                            height as int,
                            aspect_ratio as int,
                            depth as nat,
                        ),
                decreases width - x,
            {
                line.push(self.pixel(scene, &cam_basis, x, row, width, height, aspect_ratio, depth));
                x += 1;
            }
            rows.push(line);
            row += 1;
        }
        Ok(rows)
    }
}

/// The right direction of a camera is level, and at right angles to the
/// direction in which the camera looks as far as rounding allows: their
/// exact dot product is at most twice the length of the level part of
/// that direction.
pub proof fn lemma_right_is_across(forward: Vec3)
    requires
        Frame::of(forward).is_some(),
    ensures
        Frame::of(forward).unwrap().right.y == 0,
        -(2 * forward.cross(up_spec()).length()) <= Frame::of(forward).unwrap().right.dot_wide(
            forward,
        ) <= 2 * forward.cross(up_spec()).length(),
{
    let sideways = forward.cross(up_spec());
    let right = sideways.normalized();
    let l = sideways.length();
    assert(sideways == Vec3 { x: -forward.z, y: 0, z: forward.x });
    lemma_length(sideways);
    lemma_div_sides(0, l, 0);
    let rest_x = lemma_quotient_component(sideways.x, l);
    let rest_z = lemma_quotient_component(sideways.z, l);
    lemma_quotients_parallel(right.z, sideways.z, rest_z, right.x, sideways.x, rest_x, l);
    assert(right.dot_wide(forward) == right.x * forward.x + right.z * forward.z)
        by (nonlinear_arith)
        requires
            right.dot_wide(forward) == right.x * forward.x + right.y * forward.y + right.z
                * forward.z,
            right.y == 0,
    ;
    assert(right.z * sideways.x - right.x * sideways.z == -(right.x * forward.x + right.z
        * forward.z)) by (nonlinear_arith)
        requires
            sideways.x == -forward.z,
            sideways.z == forward.x,
    ;
}

/// A turn of the camera by a right angle is exact, and a turn by four
/// right angles changes nothing.
pub proof fn lemma_rotate_by_right_angles(camera: Camera)
    ensures
        camera.rotate_spec(90 * ONE) == (Vec3 {
            x: -camera.direction@.z,
            y: camera.direction@.y,
            z: camera.direction@.x,
        }),
        camera.rotate_spec(360 * ONE) == camera.direction@,
        camera.rotate_spec(0) == camera.direction@,
{
    lemma_degrees();
    lemma_quarter_turns();
    let d = camera.direction@;
    assert(times_spec(d.x, 0) == 0 && times_spec(d.z, 0) == 0);
    assert(times_spec(d.x, ONE as int) == d.x && times_spec(d.z, ONE as int) == d.z) by {
        assert(d.x * ONE == ONE * d.x && d.z * ONE == ONE * d.z) by (nonlinear_arith);
    }
}

/// A vector along the first axis with the length one is its own
/// normalization.
proof fn lemma_unit_axis(v: Vec3)
    requires
        v.y == 0,
        v.z == 0,
        v.x == ONE || v.x == -ONE,
    ensures
        !v.is_zero(),
        v.normalized() == v,
{
    assert(v.norm2() == ONE * ONE) by (nonlinear_arith)
        requires
            v.norm2() == v.x * v.x + v.y * v.y + v.z * v.z,
            v.y == 0,
            v.z == 0,
            v.x == ONE || v.x == -ONE,
    ;
    assert(is_sqrt(ONE * ONE, ONE as int));
    lemma_sqrt_floor(v.norm2(), ONE as int);
    assert(v.length() == ONE);
    assert(quot(v.x * ONE, ONE as int) == v.x);
    assert(quot(0 * ONE, ONE as int) == 0);
}

} // verus!
