//! Lighting, the blending of colors, and the recursive shader.
//!
//! The color of a ray is found by recursion over a budget, the depth: a
//! ray that meets a surface asks for the color of the ray that the
//! surface mirrors and of the ray that passes through it, each with a
//! budget that is one less, and a ray without budget is black.
use vstd::prelude::*;
use crate::camera::{HalfLine, Ray};
use crate::fixed::{
    clamp, clamp_spec, div_floor, lemma_div_bound, lemma_div_sides, lemma_mul_bound, ratio,
    ratio_spec, times, times_spec, ONE,
};
use crate::scene::{Color, Hittable, Light, Material, Primitive, Scene, HIT_EPSILON, LIMIT};
use crate::vectors::{lemma_dot_bound, lemma_scaled_bound, Vec3, Vector, SPAN};

verus! {

/// Why the color of a ray could not be computed.
#[derive(Debug, Copy, Clone, PartialEq, Eq, Structural)]
pub enum RenderError {
    /// A direction of length zero was to be normalized: a light lies at
    /// the very point that it is to light, a surface has no normal there,
    /// or a mirrored or refracted direction has vanished.
    ZeroLength,
    /// The ray meets its first surface at a point outside the world, where
    /// nothing can be shaded.
    OutOfWorld,
}

/// The whole number `v` as a color channel: limited to the range from 0
/// to 255.
pub open spec fn channel_spec(v: int) -> u8 {
    clamp_spec(v, 0, 255) as u8
}

/// A whole number as a color channel.
fn channel(v: i128) -> (c: u8)
    ensures
        c == channel_spec(v as int),
{
    if v < 0 {
        0
    } else if v > 255 {
        255
    } else {
        v as u8
    }
}

/// The color with each channel multiplied by the brightness.
pub open spec fn scale_color_spec(color: Color, brightness: int) -> Color {
    Color {
        r: channel_spec((color.r * brightness) / (ONE as int)),
        g: channel_spec((color.g * brightness) / (ONE as int)),
        b: channel_spec((color.b * brightness) / (ONE as int)),
    }
}

/// One channel times a weight.
fn weigh(c: u8, weight: i64) -> (w: i128)
    ensures
        w == c * weight,
        -0x80_0000_0000_0000_0000 <= w <= 0x80_0000_0000_0000_0000,
{
    proof {
        lemma_mul_bound(c as int, weight as int, 256, 0x8000_0000_0000_0000);
    }
    (c as i128) * (weight as i128)
}

/// Applies the brightness to a color.
pub fn scale_color(color: Color, brightness: i64) -> (scaled: Color)
    ensures
        scaled == scale_color_spec(color, brightness as int),
{
    Color {
        r: channel(div_floor(weigh(color.r, brightness), ONE as i128)),
        g: channel(div_floor(weigh(color.g, brightness), ONE as i128)),
        b: channel(div_floor(weigh(color.b, brightness), ONE as i128)),
    }
}

/// One channel of a blend: the weighted sum of three channels.
pub open spec fn mix_spec(
    base: u8,
    base_weight: int,
    first: u8,
    first_weight: int,
    second: u8,
    second_weight: int,
) -> u8 {
    channel_spec((base * base_weight + first * first_weight + second * second_weight) / (ONE as int))
}

/// One channel of a blend.
fn mix(
    base: u8,
    base_weight: i64,
    first: u8,
    first_weight: i64,
    second: u8,
    second_weight: i64,
) -> (c: u8)
    ensures
        c == mix_spec(
            base,
            base_weight as int,
            first,
            first_weight as int,
            second,
            second_weight as int,
        ),
{
    let sum: i128 = weigh(base, base_weight) + weigh(first, first_weight) + weigh(
        second,
        second_weight,
    );
    channel(div_floor(sum, ONE as i128))
}

/// The three colors mixed channel by channel.
pub open spec fn mix_colors(
    base: Color,
    base_weight: int,
    first: Color,
    first_weight: int,
    second: Color,
    second_weight: int,
) -> Color {
    Color {
        r: mix_spec(base.r, base_weight, first.r, first_weight, second.r, second_weight),
        g: mix_spec(base.g, base_weight, first.g, first_weight, second.g, second_weight),
        b: mix_spec(base.b, base_weight, first.b, first_weight, second.b, second_weight),
    }
}

/// The color of a surface point: its own color under the given
/// brightness, mixed with what it mirrors and what shows through it. The
/// two weights are limited to the range from zero to one. Where both a
/// mirrored and a refracted color are there, each has half its weight;
/// the base color has what is left of one.
pub open spec fn blend_colors_spec(
    base: Color,
    reflected: Option<Color>,
    refracted: Option<Color>,
    reflectivity: int,
    transparency: int,
    brightness: int,
) -> Color {
    let base_color = scale_color_spec(base, brightness);
    let r = clamp_spec(reflectivity, 0, ONE as int);
    let t = clamp_spec(transparency, 0, ONE as int);
    match (reflected, refracted) {
        (Some(reflected_color), Some(refracted_color)) => mix_colors(
            base_color,
            ONE - t / 2 - r / 2,
            reflected_color,
            r / 2,
            refracted_color,
            t / 2,
        ),
        (Some(reflected_color), None) => mix_colors(
            base_color,
            ONE - r,
            reflected_color,
            r,
            reflected_color,
            0,
        ),
        (None, Some(refracted_color)) => mix_colors(
            base_color,
            ONE - t,
            refracted_color,
            t,
            refracted_color,
            0,
        ),
        (None, None) => base_color,
    }
}

/// Whether the channel `c` lies between the least and the greatest of
/// three channels.
pub open spec fn amid(c: u8, x: u8, y: u8, z: u8) -> bool {
    &&& c >= x || c >= y || c >= z
    &&& c <= x || c <= y || c <= z
}

/// A mixture with weights that are not negative and add up to one lies
/// between the channels that are mixed.
pub proof fn lemma_mix_amid(
    base: u8,
    base_weight: int,
    first: u8,
    first_weight: int,
    second: u8,
    second_weight: int,
)
    requires
        base_weight >= 0,
        first_weight >= 0,
        second_weight >= 0,
        base_weight + first_weight + second_weight == ONE,
    ensures
        amid(
            mix_spec(base, base_weight, first, first_weight, second, second_weight),
            base,
            first,
            second,
        ),
{
    let lo: int = if base <= first && base <= second {
        base as int
    } else if first <= second {
        first as int
    } else {
        second as int
    };
    let hi: int = if base >= first && base >= second {
        base as int
    } else if first >= second {
        first as int
    } else {
        second as int
    };
    let sum = base * base_weight + first * first_weight + second * second_weight;
    assert(lo * ONE <= sum <= hi * ONE) by (nonlinear_arith)
        requires
            sum == base * base_weight + first * first_weight + second * second_weight,
            base_weight >= 0,
            first_weight >= 0,
            second_weight >= 0,
            base_weight + first_weight + second_weight == ONE,
            lo <= base <= hi,
            lo <= first <= hi,
            lo <= second <= hi,
    ;
}

/// Blending invents no color: every channel of the blended color lies
/// between the channels of the shaded base color, the mirrored color and
/// the refracted color, whatever the weights are.
pub proof fn lemma_blend_amid(
    base: Color,
    reflected: Option<Color>,
    refracted: Option<Color>,
    reflectivity: int,
    transparency: int,
    brightness: int,
)
    ensures
        ({
            let shaded = scale_color_spec(base, brightness);
            let mirrored = match reflected {
                Some(c) => c,
                None => shaded,
            };
            let through = match refracted {
                Some(c) => c,
                None => shaded,
            };
            let blended = blend_colors_spec(
                base,
                reflected,
                refracted,
                reflectivity,
                transparency,
                brightness,
            );
            &&& amid(blended.r, shaded.r, mirrored.r, through.r)
            &&& amid(blended.g, shaded.g, mirrored.g, through.g)
            &&& amid(blended.b, shaded.b, mirrored.b, through.b)
        }),
{
    let shaded = scale_color_spec(base, brightness);
    let r = clamp_spec(reflectivity, 0, ONE as int);
    let t = clamp_spec(transparency, 0, ONE as int);
    match (reflected, refracted) {
        (Some(m), Some(g)) => {
            lemma_mix_amid(shaded.r, ONE - t / 2 - r / 2, m.r, r / 2, g.r, t / 2);
            lemma_mix_amid(shaded.g, ONE - t / 2 - r / 2, m.g, r / 2, g.g, t / 2);
            lemma_mix_amid(shaded.b, ONE - t / 2 - r / 2, m.b, r / 2, g.b, t / 2);
        },
        (Some(m), None) => {
            lemma_mix_amid(shaded.r, ONE - r, m.r, r, m.r, 0);
            lemma_mix_amid(shaded.g, ONE - r, m.g, r, m.g, 0);
            lemma_mix_amid(shaded.b, ONE - r, m.b, r, m.b, 0);
        },
        (None, Some(g)) => {
            lemma_mix_amid(shaded.r, ONE - t, g.r, t, g.r, 0);
            lemma_mix_amid(shaded.g, ONE - t, g.g, t, g.g, 0);
            lemma_mix_amid(shaded.b, ONE - t, g.b, t, g.b, 0);
        },
        (None, None) => {},
    }
}

/// Mixes three colors, each with its weight.
fn mix_three(
    base: Color,
    base_weight: i64,
    first: Color,
    first_weight: i64,
    second: Color,
    second_weight: i64,
) -> (c: Color)
    ensures
        c == mix_colors(
            base,
            base_weight as int,
            first,
            first_weight as int,
            second,
            second_weight as int,
        ),
{
    Color {
        r: mix(base.r, base_weight, first.r, first_weight, second.r, second_weight),
        g: mix(base.g, base_weight, first.g, first_weight, second.g, second_weight),
        b: mix(base.b, base_weight, first.b, first_weight, second.b, second_weight),
    }
}

/// Blends the base color of a point with the mirrored and the refracted
/// color.
pub fn blend_colors(
    base: Color,
    reflected: Option<Color>,
    refracted: Option<Color>,
    reflectivity: i64,
    transparency: i64,
    brightness: i64,
) -> (blended: Color)
    ensures
        blended == blend_colors_spec(
            base,
            reflected,
            refracted,
            reflectivity as int,
            transparency as int,
            brightness as int,
        ),
{
    let base_color: Color = scale_color(base, brightness);
    let r: i64 = clamp(reflectivity, 0, ONE);
    let t: i64 = clamp(transparency, 0, ONE);
    match (reflected, refracted) {
        (Some(reflected_color), Some(refracted_color)) => {
            let transparency: i64 = t / 2;
            let reflectivity: i64 = r / 2;
            let base_weight: i64 = ONE - transparency - reflectivity;
            mix_three(
                base_color,
                base_weight,
                reflected_color,
                reflectivity,
                refracted_color,
                transparency,
            )
        },
        (Some(reflected_color), None) => mix_three(
            base_color,
            ONE - r,
            reflected_color,
            r,
            reflected_color,
            0,
        ),
        (None, Some(refracted_color)) => mix_three(
            base_color,
            ONE - t,
            refracted_color,
            t,
            refracted_color,
            0,
        ),
        (None, None) => base_color,
    }
}

/// The color of the sky in the direction `dir`: a gradient along the
/// height of the direction.
pub open spec fn background_color_spec(dir: Vec3) -> Color {
    let t = clamp_spec((dir.y + ONE) / 2, 0, ONE as int);
    Color {
        r: channel_spec(((ONE - t) * 135) / (ONE as int)),
        g: 155,
        b: channel_spec(((ONE - t) * 235 + t * 128) / (ONE as int)),
    }
}

/// The color of the background in the direction of the given vector.
pub fn background_color(dir: Vector) -> (sky: Color)
    ensures
        sky == background_color_spec(dir@),
{
    let half: i128 = (dir.y as i128 + ONE as i128) / 2;
    let t: i128 = if half < 0 {
        0
    } else if half > ONE as i128 {
        ONE as i128
    } else {
        half
    };
    let r: i128 = ((ONE as i128 - t) * 135) / (ONE as i128);
    let b: i128 = ((ONE as i128 - t) * 235 + t * 128) / (ONE as i128);
    Color { r: channel(r), g: 155, b: channel(b) }
}

/// Whether a computed scalar is the expected one, or the computation
/// failed as expected.
pub open spec fn agrees(got: Result<i64, RenderError>, expected: Result<int, RenderError>) -> bool {
    match (got, expected) {
        (Ok(a), Ok(b)) => a == b,
        (Err(e), Err(f)) => e == f,
        _ => false,
    }
}

/// The point from which a secondary ray leaves the surface: the point
/// that was hit, moved by the guard distance along `direction`.
pub open spec fn lifted(point: Vec3, direction: Vec3) -> Vec3 {
    point.plus(direction.scaled(HIT_EPSILON as int))
}

/// The ray from a surface point towards a light, which starts a little
/// above the surface. The light does not lie at the point.
pub open spec fn shadow_ray(light: Light, hit_point: Vec3, normal: Vec3) -> HalfLine {
    HalfLine {
        origin: lifted(hit_point, normal),
        direction: light.position@.minus(hit_point).normalized().normalized(),
    }
}

/// Whether a surface of the scene stands between the point and the light:
/// the shadow ray meets a surface, and meets it nearer to the point than
/// the light is.
pub open spec fn in_shadow(scene: &Scene, light: Light, hit_point: Vec3, normal: Vec3) -> bool {
    let ray = shadow_ray(light, hit_point, normal);
    match ray.closest(scene) {
        Some(k) => ray.landing(scene, k).minus(hit_point).length() < light.position@.minus(
            hit_point,
        ).length(),
        None => false,
    }
}

/// What a light adds to the brightness of a point that it reaches: the
/// intensity times the cosine of the angle between the normal and the
/// direction to the light, where that is positive.
pub open spec fn light_gain(light: Light, hit_point: Vec3, normal: Vec3) -> int {
    let cosine = normal.dot(light.position@.minus(hit_point).normalized());
    times_spec(
        if cosine > 0 {
            cosine
        } else {
            0
        },
        light.intensity as int,
    )
}

/// What one light adds to the brightness of the point `hit_point` with
/// the given normal: nothing where a surface stands between the point and
/// the light, else its gain. A light at the very point is an error.
pub open spec fn light_term(scene: &Scene, light: Light, hit_point: Vec3, normal: Vec3) -> Result<
    int,
    RenderError,
> {
    if light.position@.minus(hit_point).is_zero() {
        Err(RenderError::ZeroLength)
    } else if in_shadow(scene, light, hit_point, normal) {
        Ok(0)
    } else {
        Ok(light_gain(light, hit_point, normal))
    }
}

/// A surface between a point and its only light makes the point strictly
/// darker: of two scenes with the same light and the same ambient light,
/// which is less than one, the one in which the light is hidden gives the
/// ambient light alone, and the one in which the light reaches the point
/// and adds to it gives more.
pub proof fn lemma_shadow_darkens(open: &Scene, shaded: &Scene, hit_point: Vec3, normal: Vec3)
    requires
        open.lights@.len() == 1,
        shaded.lights@ == open.lights@,
        shaded.ambient_light == open.ambient_light,
        0 <= open.ambient_light < ONE,
        !open.lights@[0].position@.minus(hit_point).is_zero(),
        !in_shadow(open, open.lights@[0], hit_point, normal),
        in_shadow(shaded, open.lights@[0], hit_point, normal),
        light_gain(open.lights@[0], hit_point, normal) > 0,
    ensures
        compute_lighting_spec(shaded, hit_point, normal) == Ok::<int, RenderError>(
            open.ambient_light as int,
        ),
        compute_lighting_spec(open, hit_point, normal) == Ok::<int, RenderError>(
            clamp_spec(
                open.ambient_light + light_gain(open.lights@[0], hit_point, normal),
                0,
                ONE as int,
            ),
        ),
        compute_lighting_spec(shaded, hit_point, normal).unwrap() < compute_lighting_spec(
            open,
            hit_point,
            normal,
        ).unwrap(),
{
    reveal_with_fuel(lights_sum, 2);
    assert(lights_sum(open, hit_point, normal, 0) == Ok::<int, RenderError>(0));
    assert(lights_sum(shaded, hit_point, normal, 0) == Ok::<int, RenderError>(0));
    assert(light_term(shaded, shaded.lights@[0], hit_point, normal) == Ok::<int, RenderError>(0));
    assert(lights_sum(shaded, hit_point, normal, 1) == Ok::<int, RenderError>(0));
    assert(lights_sum(open, hit_point, normal, 1) == Ok::<int, RenderError>(
        light_gain(open.lights@[0], hit_point, normal),
    ));
}

/// What the first `n` lights of the scene add to the brightness.
pub open spec fn lights_sum(scene: &Scene, hit_point: Vec3, normal: Vec3, n: int) -> Result<
    int,
    RenderError,
>
    decreases n,
{
    if n <= 0 {
        Ok(0)
    } else {
        match (
            lights_sum(scene, hit_point, normal, n - 1),
            light_term(scene, scene.lights@[n - 1], hit_point, normal),
        ) {
            (Ok(sum), Ok(term)) => Ok(sum + term),
            _ => Err(RenderError::ZeroLength),
        }
    }
}

/// The brightness of a point: the ambient light plus what every light
/// adds, limited to the range from zero to one.
pub open spec fn compute_lighting_spec(scene: &Scene, hit_point: Vec3, normal: Vec3) -> Result<
    int,
    RenderError,
> {
    match lights_sum(scene, hit_point, normal, scene.lights@.len() as int) {
        Ok(sum) => Ok(clamp_spec(scene.ambient_light + sum, 0, ONE as int)),
        Err(e) => Err(e),
    }
}

/// What one light adds to the brightness of a point.
fn light_contribution(scene: &Scene, light: &Light, hit_point: Vector, normal: Vector) -> (term:
    Result<i64, RenderError>)
    requires
        scene.valid(),
        light.valid(),
        hit_point@.within(LIMIT as int),
        normal@.within(ONE as int),
    ensures
        agrees(term, light_term(scene, *light, hit_point@, normal@)),
        term matches Ok(v) ==> -3_000_000_000_001 <= v <= 3_000_000_000_001,
{
    let to_light: Vector = light.position.minus(&hit_point);
    if to_light.is_zero() {
        return Err(RenderError::ZeroLength);
    }
    let light_dir: Vector = to_light.normalized();
    let light_distance: i64 = to_light.length();
    proof {
        lemma_scaled_bound(normal@, HIT_EPSILON as int, ONE as int, HIT_EPSILON as int);
    }
    // The shadow ray starts a little above the surface, so that it does
    // not meet the surface that it leaves.
    let shadow_ray: Ray = Ray::new(hit_point.plus(&normal.scaled(HIT_EPSILON)), light_dir);
    let in_shadow: bool = match shadow_ray.trace(scene) {
        Some(collision) => collision.point.minus(&hit_point).length() < light_distance,
        None => false,
    };
    if in_shadow {
        Ok(0)
    } else {
        proof {
            lemma_dot_bound(normal@, light_dir@, ONE as int, ONE as int);
        }
        let cosine: i64 = normal.dot(&light_dir);
        let facing: i64 = if cosine > 0 {
            cosine
        } else {
            0
        };
        proof {
            lemma_mul_bound(facing as int, light.intensity as int, 3_000_000, 1_000_000_000_000);
        }
        Ok(times(facing, light.intensity))
    }
}

/// The brightness of a point from its normal, the surfaces and the lights
/// of the scene.
pub fn compute_lighting(scene: &Scene, hit_point: Vector, normal: Vector) -> (brightness: Result<
    i64,
    RenderError,
>)
    requires
        scene.valid(),
        hit_point@.within(LIMIT as int),
        normal@.within(ONE as int),
    ensures
        agrees(brightness, compute_lighting_spec(scene, hit_point@, normal@)),
        brightness matches Ok(b) ==> 0 <= b <= ONE,
{
    let mut sum: i128 = 0;
    let mut i: usize = 0;
    while i < scene.lights.len()
        invariant
            i <= scene.lights@.len(),
            scene.valid(),
            hit_point@.within(LIMIT as int),
            normal@.within(ONE as int),
            lights_sum(scene, hit_point@, normal@, i as int) == Ok::<int, RenderError>(sum as int),
            -(i * 3_000_000_000_001) <= sum <= i * 3_000_000_000_001,
        decreases scene.lights@.len() - i,
    {
        match light_contribution(scene, &scene.lights[i], hit_point, normal) {
            Ok(term) => {
                sum = sum + term as i128;
            },
            Err(e) => {
                proof {
                    lemma_lights_sum_fails(scene, hit_point@, normal@, i as int, scene.lights@.len() as int);
                }
                return Err(e);
            },
        }
        i += 1;
    }
    let total: i128 = scene.ambient_light as i128 + sum;
    if total < 0 {
        Ok(0)
    } else if total > ONE as i128 {
        Ok(ONE)
    } else {
        Ok(total as i64)
    }
}

/// Once one light fails, the sum over any longer run of lights fails.
proof fn lemma_lights_sum_fails(scene: &Scene, hit_point: Vec3, normal: Vec3, i: int, n: int)
    requires
        0 <= i < n,
        light_term(scene, scene.lights@[i], hit_point, normal).is_err(),
    ensures
        lights_sum(scene, hit_point, normal, n) == Err::<int, RenderError>(RenderError::ZeroLength),
    decreases n,
{
    if n > i + 1 {
        lemma_lights_sum_fails(scene, hit_point, normal, i, n - 1);
    }
}

/// The color that a ray brings back when the budget of recursion is
/// spent.
pub open spec fn exhausted() -> Color {
    Color { r: 0, g: 0, b: 0 }
}

/// The refractive index that a ray meets at a surface: the index of the
/// material where the ray enters it, and its inverse where the ray
/// leaves, which it does where it runs along the normal.
pub open spec fn relative_index(direction: Vec3, normal: Vec3, index: int) -> int {
    if direction.dot(normal) > 0 {
        ratio_spec(ONE as int, index)
    } else {
        index
    }
}

/// The color of a ray, by recursion over the budget `depth`: black where
/// the budget is spent, nothing where the ray meets no surface, and else
/// the color of the surface that it meets first, shaded at the normalized
/// normal of that surface. A ray that meets its first surface outside the
/// world has no color, nor has one whose surface has no normal there.
pub open spec fn trace_color_spec(scene: &Scene, ray: HalfLine, depth: nat) -> Result<
    Option<Color>,
    RenderError,
>
    decreases depth, 2int,
{
    if depth == 0 {
        Ok(Some(exhausted()))
    } else {
        match ray.closest(scene) {
            None => Ok(None),
            Some(k) => {
                let object = scene.objects@[k];
                let point = ray.landing(scene, k);
                let normal = object.normal_spec(point);
                if !point.within(LIMIT as int) {
                    Err(RenderError::OutOfWorld)
                } else if normal.is_zero() {
                    Err(RenderError::ZeroLength)
                } else {
                    match handle_hit_spec(
                        point,
                        normal.normalized(),
                        object.material_spec(),
                        scene,
                        ray,
                        depth,
                    ) {
                        Ok(color) => Ok(Some(color)),
                        Err(e) => Err(e),
                    }
                }
            },
        }
    }
}

/// The color that comes along a secondary ray, which leaves `origin` in
/// the given direction: the color of that ray, or the background in its
/// direction where it meets nothing. A direction of length zero gives no
/// ray.
pub open spec fn secondary_spec(scene: &Scene, origin: Vec3, direction: Vec3, depth: nat) -> Result<
    Color,
    RenderError,
>
    decreases depth, 3int,
{
    if direction.is_zero() {
        Err(RenderError::ZeroLength)
    } else {
        let ray = HalfLine { origin, direction: direction.normalized() };
        match trace_color_spec(scene, ray, depth) {
            Ok(Some(color)) => Ok(color),
            Ok(None) => Ok(background_color_spec(ray.direction)),
            Err(e) => Err(e),
        }
    }
}

/// The refracted color at a surface point, where the material lets light
/// through: the color along the refracted direction, from a point moved
/// by the guard distance along it.
pub open spec fn refracted_spec(
    point: Vec3,
    normal: Vec3,
    material: Material,
    scene: &Scene,
    ray: HalfLine,
    depth: nat,
) -> Result<Option<Color>, RenderError>
    decreases depth, 0int,
{
    match material.transparency {
        Some((_, index)) => {
            if depth == 0 || !ray.direction.refractable(normal) {
                Err(RenderError::ZeroLength)
            } else {
                let direction = ray.direction.refract(
                    normal,
                    relative_index(ray.direction, normal, index as int),
                );
                match secondary_spec(scene, lifted(point, direction), direction, (depth - 1) as nat) {
                    Ok(color) => Ok(Some(color)),
                    Err(e) => Err(e),
                }
            }
        },
        None => Ok(None),
    }
}

/// The mirrored color at a surface point, where the material has a
/// reflectivity other than zero: the color along the mirrored direction,
/// from a point moved by the guard distance along the normal.
pub open spec fn reflected_spec(
    point: Vec3,
    normal: Vec3,
    material: Material,
    scene: &Scene,
    ray: HalfLine,
    depth: nat,
) -> Result<Option<Color>, RenderError>
    decreases depth, 0int,
{
    match material.reflectivity {
        Some(reflectivity) => {
            if reflectivity == 0 {
                Ok(None)
            } else if depth == 0 {
                Err(RenderError::ZeroLength)
            } else {
                match secondary_spec(
                    scene,
                    lifted(point, normal),
                    ray.direction.reflect(normal),
                    (depth - 1) as nat,
                ) {
                    Ok(color) => Ok(Some(color)),
                    Err(e) => Err(e),
                }
            }
        },
        None => Ok(None),
    }
}

/// The color of a surface point that the ray `ray` has met, for a budget
/// of recursion of at least one: the color of the material under the
/// light that reaches the point, blended with the refracted and the
/// mirrored color, each found with a budget that is one less. Where one
/// of the three fails, the point has its error: that of the light before
/// that of the refracted ray, and that before the one of the mirrored ray.
pub open spec fn handle_hit_spec(
    point: Vec3,
    normal: Vec3,
    material: Material,
    scene: &Scene,
    ray: HalfLine,
    depth: nat,
) -> Result<Color, RenderError>
    decreases depth, 1int,
{
    match (
        compute_lighting_spec(scene, point, normal),
        refracted_spec(point, normal, material, scene, ray, depth),
        reflected_spec(point, normal, material, scene, ray, depth),
    ) {
        (Ok(brightness), Ok(refracted), Ok(reflected)) => Ok(
            blend_colors_spec(
                material.color.color_at(point),
                reflected,
                refracted,
                match material.reflectivity {
                    Some(r) => r as int,
                    None => 0,
                },
                match material.transparency {
                    Some((t, _)) => t as int,
                    None => 0,
                },
                brightness,
            ),
        ),
        (Err(e), _, _) => Err(e),
        (Ok(_), Err(e), _) => Err(e),
        (Ok(_), Ok(_), Err(e)) => Err(e),
    }
}

/// How deep the calls of the shader nest along a secondary ray with the
/// budget `depth`: not at all where the direction has vanished.
pub open spec fn secondary_nesting(scene: &Scene, origin: Vec3, direction: Vec3, depth: nat) -> nat
    decreases depth, 1int,
{
    if direction.is_zero() {
        0
    } else {
        nesting(scene, HalfLine { origin, direction: direction.normalized() }, depth)
    }
}

/// How deep the calls of the shader nest for a ray with the budget
/// `depth`: one call for the ray itself, and with it the deeper of the
/// two chains that its refracted and its mirrored ray may start.
pub open spec fn nesting(scene: &Scene, ray: HalfLine, depth: nat) -> nat
    decreases depth, 0int,
{
    if depth == 0 {
        1
    } else {
        match ray.closest(scene) {
            None => 1,
            Some(k) => {
                let object = scene.objects@[k];
                let point = ray.landing(scene, k);
                if !point.within(LIMIT as int) || object.normal_spec(point).is_zero() {
                    1
                } else {
                    let normal = object.normal_spec(point).normalized();
                    let through = match object.material_spec().transparency {
                        Some((_, index)) => if ray.direction.refractable(normal) {
                            let direction = ray.direction.refract(
                                normal,
                                relative_index(ray.direction, normal, index as int),
                            );
                            secondary_nesting(
                                scene,
                                lifted(point, direction),
                                direction,
                                (depth - 1) as nat,
                            )
                        } else {
                            0
                        },
                        None => 0,
                    };
                    let mirrored = match object.material_spec().reflectivity {
                        Some(reflectivity) => if reflectivity != 0 {
                            secondary_nesting(
                                scene,
                                lifted(point, normal),
                                ray.direction.reflect(normal),
                                (depth - 1) as nat,
                            )
                        } else {
                            0
                        },
                        None => 0,
                    };
                    if through > mirrored {
                        1 + through
                    } else {
                        1 + mirrored
                    }
                }
            },
        }
    }
}

/// The recursion of the shader ends: for any scene, any ray and any
/// budget, the calls nest at most one deeper than the budget.
pub proof fn lemma_nesting_bounded(scene: &Scene, ray: HalfLine, depth: nat)
    ensures
        1 <= nesting(scene, ray, depth) <= depth + 1,
    decreases depth,
{
    if depth > 0 {
        match ray.closest(scene) {
            None => {},
            Some(k) => {
                let object = scene.objects@[k];
                let point = ray.landing(scene, k);
                if point.within(LIMIT as int) && !object.normal_spec(point).is_zero() {
                    let normal = object.normal_spec(point).normalized();
                    match object.material_spec().transparency {
                        Some((_, index)) => {
                            let direction = ray.direction.refract(
                                normal,
                                relative_index(ray.direction, normal, index as int),
                            );
                            if !direction.is_zero() {
                                lemma_nesting_bounded(
                                    scene,
                                    HalfLine {
                                        origin: lifted(point, direction),
                                        direction: direction.normalized(),
                                    },
                                    (depth - 1) as nat,
                                );
                            }
                        },
                        None => {},
                    }
                    let mirror = ray.direction.reflect(normal);
                    if !mirror.is_zero() {
                        lemma_nesting_bounded(
                            scene,
                            HalfLine { origin: lifted(point, normal), direction: mirror.normalized() },
                            (depth - 1) as nat,
                        );
                    }
                }
            },
        }
    }
}

/// A ray without budget brings back black, whatever the scene holds.
pub proof fn lemma_no_budget_is_black(scene: &Scene, ray: HalfLine)
    ensures
        trace_color_spec(scene, ray, 0) == Ok::<Option<Color>, RenderError>(Some(exhausted())),
{
}

/// The color that comes along the ray that leaves `origin` in the given
/// direction, which is normalized here: the color of the ray, or the
/// background in its direction where it meets nothing.
pub fn secondary(scene: &Scene, origin: Vector, direction: Vector, depth: u32) -> (color: Result<
    Color,
    RenderError,
>)
    requires
        scene.valid(),
        origin@.within(LIMIT + ONE),
        direction@.within(SPAN as int),
    ensures
        color == secondary_spec(scene, origin@, direction@, depth as nat),
    decreases depth, 3int,
{
    if direction.is_zero() {
        return Err(RenderError::ZeroLength);
    }
    let ray: Ray = Ray::new(origin, direction);
    match trace_color(scene, &ray, depth) {
        Ok(Some(color)) => Ok(color),
        Ok(None) => Ok(background_color(ray.direction)),
        Err(e) => Err(e),
    }
}

/// The refracted color at a surface point, where the material lets light
/// through.
fn refracted(
    point: Vector,
    normal: Vector,
    material: &Material,
    scene: &Scene,
    ray: &Ray,
    depth: u32,
) -> (color: Result<Option<Color>, RenderError>)
    requires
        point@.within(LIMIT as int),
        normal@.within(ONE as int),
        material.valid(),
        scene.valid(),
        ray.valid(),
        depth > 0,
    ensures
        color == refracted_spec(point@, normal@, *material, scene, ray@, depth as nat),
    decreases depth, 0int,
{
    match material.transparency {
        None => Ok(None),
        Some((_, refraction_index)) => {
            if !ray.direction.refractable(&normal) {
                return Err(RenderError::ZeroLength);
            }
            proof {
                lemma_dot_bound(ray.direction@, normal@, ONE as int, ONE as int);
                lemma_div_sides(ONE * ONE, refraction_index as int, 1);
                assert(ONE * ONE <= 1_000_000_000_000 * refraction_index) by (nonlinear_arith)
                    requires
                        refraction_index >= 1,
                ;
                lemma_div_bound(ONE * ONE, refraction_index as int, 1_000_000_000_000);
            }
            // A ray that runs along the normal leaves the material.
            let index: i64 = if ray.direction.dot(&normal) > 0 {
                ratio(ONE, refraction_index)
            } else {
                refraction_index
            };
            let direction: Vector = ray.direction.refract(&normal, index);
            proof {
                lemma_scaled_bound(direction@, HIT_EPSILON as int, 2 * ONE + 2, HIT_EPSILON as int);
            }
            let origin: Vector = point.plus(&direction.scaled(HIT_EPSILON));
            match secondary(scene, origin, direction, depth - 1) {
                Ok(color) => Ok(Some(color)),
                Err(e) => Err(e),
            }
        },
    }
}

/// The mirrored color at a surface point, where the material mirrors.
fn reflected(
    point: Vector,
    normal: Vector,
    material: &Material,
    scene: &Scene,
    ray: &Ray,
    depth: u32,
) -> (color: Result<Option<Color>, RenderError>)
    requires
        point@.within(LIMIT as int),
        normal@.within(ONE as int),
        material.valid(),
        scene.valid(),
        ray.valid(),
        depth > 0,
    ensures
        color == reflected_spec(point@, normal@, *material, scene, ray@, depth as nat),
    decreases depth, 0int,
{
    match material.reflectivity {
        None => Ok(None),
        Some(reflectivity) => {
            if reflectivity == 0 {
                return Ok(None);
            }
            let direction: Vector = ray.direction.reflect(&normal);
            proof {
                lemma_scaled_bound(normal@, HIT_EPSILON as int, ONE as int, HIT_EPSILON as int);
            }
            let origin: Vector = point.plus(&normal.scaled(HIT_EPSILON));
            match secondary(scene, origin, direction, depth - 1) {
                Ok(color) => Ok(Some(color)),
                Err(e) => Err(e),
            }
        },
    }
}

/// The color of the surface point that the ray has met. `normal` is the
/// normalized normal of the surface there, and `depth`, the budget of
/// recursion, is at least one.
pub fn handle_hit(
    point_of_collision: Vector,
    normal: Vector,
    material: &Material,
    scene: &Scene,
    ray: &Ray,
    depth: u32,
) -> (color: Result<Color, RenderError>)
    requires
        point_of_collision@.within(LIMIT as int),
        normal@.within(ONE as int),
        material.valid(),
        scene.valid(),
        ray.valid(),
        depth > 0,
    ensures
        color == handle_hit_spec(
            point_of_collision@,
            normal@,
            *material,
            scene,
            ray@,
            depth as nat,
        ),
    decreases depth, 1int,
{
    let brightness: i64 = match compute_lighting(scene, point_of_collision, normal) {
        Ok(b) => b,
        Err(e) => {
            return Err(e);
        },
    };
    let base_color: Color = material.color.color(point_of_collision);
    let refracted_color: Option<Color> = match refracted(
        point_of_collision,
        normal,
        material,
        scene,
        ray,
        depth,
    ) {
        Ok(c) => c,
        Err(e) => {
            return Err(e);
        },
    };
    let reflected_color: Option<Color> = match reflected(
        point_of_collision,
        normal,
        material,
        scene,
        ray,
        depth,
    ) {
        Ok(c) => c,
        Err(e) => {
            return Err(e);
        },
    };
    let reflectivity: i64 = match material.reflectivity {
        Some(r) => r,
        None => 0,
    };
    let transparency: i64 = match material.transparency {
        Some((t, _)) => t,
        None => 0,
    };
    Ok(
        blend_colors(
            base_color,
            reflected_color,
            refracted_color,
            reflectivity,
            transparency,
            brightness,
        ),
    )
}

/// The color that the ray brings back, or none where it meets no surface
/// of the scene. `depth` is the budget of recursion: a ray with no budget
/// left brings back black, whatever it would have met. A ray that meets
/// its first surface outside the world, or runs into a direction of
/// length zero, brings back the error.
pub fn trace_color(scene: &Scene, ray: &Ray, depth: u32) -> (color: Result<
    Option<Color>,
    RenderError,
>)
    requires
        scene.valid(),
        ray.valid(),
    ensures
        color == trace_color_spec(scene, ray@, depth as nat),
    decreases depth, 2int,
{
    if depth == 0 {
        return Ok(Some(Color::rgb(0, 0, 0)));
    }
    match ray.trace(scene) {
        None => Ok(None),
        Some(collision) => {
            let object: &Primitive = collision.object;
            let point: Vector = collision.point;
            if !point.within(LIMIT) {
                return Err(RenderError::OutOfWorld);
            }
            let surface_normal: Vector = object.normal(point);
            if surface_normal.is_zero() {
                return Err(RenderError::ZeroLength);
            }
            let normal: Vector = surface_normal.normalized();
            match handle_hit(point, normal, object.material(), scene, ray, depth) {
                Ok(color) => Ok(Some(color)),
                Err(e) => Err(e),
            }
        },
    }
}

} // verus!
