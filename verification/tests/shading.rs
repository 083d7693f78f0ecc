use raytracer::camera::Ray;
use raytracer::shader::{
    background_color, blend_colors, compute_lighting, handle_hit, scale_color, trace_color,
    RenderError,
};
use raytracer::fixed::ONE;
use raytracer::scene::{
    Color, ColorType, Hittable, Light, Material, Plane, Primitive, Scene, Sphere,
};
use raytracer::vectors::Vector;

fn fx(v: f64) -> i64 {
    (v * ONE as f64).round() as i64
}

fn v(x: f64, y: f64, z: f64) -> Vector {
    Vector::make(fx(x), fx(y), fx(z))
}

fn matte(r: u8, g: u8, b: u8) -> Material {
    Material { color: ColorType::Solid(Color::rgb(r, g, b)), reflectivity: None, transparency: None }
}

fn unit_sphere() -> Sphere {
    Sphere::make(&v(0.0, 0.0, 0.0), fx(1.0), matte(200, 100, 50))
}

#[test]
fn ray_meets_unit_sphere_at_distance_four() {
    let ray = Ray::new(v(0.0, 0.0, -5.0), v(0.0, 0.0, 1.0));
    let sphere = unit_sphere();
    assert_eq!(sphere.hit(&ray), Some(fx(4.0)));
    let scene = Scene::make(vec![Primitive::Sphere(unit_sphere())], vec![], fx(1.0));
    let collision = ray.trace(&scene).expect("the ray meets the sphere");
    assert_eq!(collision.point, v(0.0, 0.0, -1.0));
    assert_eq!(collision.object.normal(collision.point), v(0.0, 0.0, -1.0));
}

#[test]
fn empty_scene_gives_background() {
    let ray = Ray::new(v(0.0, 0.0, -5.0), v(0.0, 0.0, 1.0));
    let scene = Scene::make(vec![], vec![], fx(0.2));
    assert!(ray.trace(&scene).is_none());
    assert_eq!(trace_color(&scene, &ray, 5), Ok(None));
    assert_eq!(background_color(ray.direction), Color::rgb(67, 155, 181));
}

#[test]
fn mirror_with_no_budget_is_black() {
    let mirror = Material {
        color: ColorType::Solid(Color::rgb(255, 255, 255)),
        reflectivity: Some(fx(1.0)),
        transparency: None,
    };
    let scene = Scene::make(
        vec![Primitive::Sphere(Sphere::make(&v(0.0, 0.0, 0.0), fx(1.0), mirror))],
        vec![Light { position: v(0.0, 5.0, -5.0), intensity: fx(1.0) }],
        fx(0.5),
    );
    let ray = Ray::new(v(0.0, 0.0, -5.0), v(0.0, 0.0, 1.0));
    assert_eq!(trace_color(&scene, &ray, 0), Ok(Some(Color::rgb(0, 0, 0))));
}

fn floor() -> Primitive {
    Primitive::Plane(Plane { point: v(0.0, 0.0, 0.0), normal: v(0.0, 1.0, 0.0), material: matte(100, 100, 100) })
}

#[test]
fn occluder_darkens_the_point_below() {
    let light = || Light { position: v(0.0, 10.0, 0.0), intensity: fx(0.8) };
    let open = Scene::make(vec![floor()], vec![light()], fx(0.1));
    let shaded = Scene::make(
        vec![floor(), Primitive::Sphere(Sphere::make(&v(0.0, 5.0, 0.0), fx(1.0), matte(9, 9, 9)))],
        vec![light()],
        fx(0.1),
    );
    let point = v(0.0, 0.0, 0.0);
    let normal = v(0.0, 1.0, 0.0);
    let lit = compute_lighting(&open, point, normal).unwrap();
    let dark = compute_lighting(&shaded, point, normal).unwrap();
    assert_eq!(lit, fx(0.9));
    assert_eq!(dark, fx(0.1));
    assert!(dark < lit);
}

#[test]
fn light_at_the_point_is_an_error() {
    let scene = Scene::make(vec![floor()], vec![Light { position: v(1.0, 0.0, 1.0), intensity: fx(1.0) }], 0);
    assert_eq!(compute_lighting(&scene, v(1.0, 0.0, 1.0), v(0.0, 1.0, 0.0)), Err(RenderError::ZeroLength));
}

#[test]
fn blend_halves_both_weights() {
    let base = Color::rgb(100, 100, 100);
    let mirrored = Color::rgb(200, 0, 0);
    let through = Color::rgb(0, 0, 200);
    let both = blend_colors(base, Some(mirrored), Some(through), fx(0.5), fx(0.5), fx(1.0));
    assert_eq!(both, Color::rgb(100, 50, 100));
    let one = blend_colors(base, Some(mirrored), None, fx(0.5), 0, fx(1.0));
    assert_eq!(one, Color::rgb(150, 50, 50));
    let none = blend_colors(base, None, None, fx(0.5), fx(0.5), fx(0.5));
    assert_eq!(none, Color::rgb(50, 50, 50));
    assert_eq!(scale_color(Color::rgb(200, 100, 0), fx(2.0)), Color::rgb(255, 200, 0));
}

fn solid(r: u8, g: u8, b: u8, reflectivity: Option<f64>, transparency: Option<(f64, f64)>) -> Material {
    Material {
        color: ColorType::Solid(Color::rgb(r, g, b)),
        reflectivity: reflectivity.map(fx),
        transparency: transparency.map(|(t, i)| (fx(t), fx(i))),
    }
}

fn three_spheres() -> Scene {
    Scene::make(
        vec![
            Primitive::Sphere(Sphere::make(&v(0.0, 0.0, 0.0), fx(1.0), solid(200, 200, 200, Some(0.5), None))),
            Primitive::Sphere(Sphere::make(&v(3.0, 0.0, 0.0), fx(1.0), solid(50, 50, 250, None, Some((0.6, 1.5))))),
            Primitive::Sphere(Sphere::make(&v(-3.0, 0.0, 0.0), fx(1.0), solid(250, 50, 50, Some(0.4), Some((0.6, 1.5))))),
            floor_at(-2.0),
        ],
        vec![Light { position: v(0.0, 10.0, -10.0), intensity: fx(0.7) }],
        fx(0.2),
    )
}

fn floor_at(height: f64) -> Primitive {
    Primitive::Plane(Plane { point: v(0.0, height, 0.0), normal: v(0.0, 1.0, 0.0), material: matte(100, 100, 100) })
}

fn seen(scene: &Scene, origin: Vector, direction: Vector, depth: u32) -> Result<Option<Color>, RenderError> {
    trace_color(scene, &Ray::new(origin, direction), depth)
}

#[test]
fn mirror_shows_more_with_more_budget() {
    let scene = three_spheres();
    let at = |depth: u32| seen(&scene, v(0.3, 0.2, -5.0), v(0.0, 0.0, 1.0), depth);
    assert_eq!(at(0), Ok(Some(Color::rgb(0, 0, 0))));
    assert_eq!(at(1), Ok(Some(Color::rgb(74, 74, 74))));
    assert_eq!(at(2), Ok(Some(Color::rgb(95, 151, 154))));
    assert_eq!(at(5), Ok(Some(Color::rgb(95, 151, 154))));
}

#[test]
fn glass_shows_what_lies_behind() {
    let scene = three_spheres();
    let at = |depth: u32| seen(&scene, v(3.3, 0.2, -5.0), v(0.0, 0.0, 1.0), depth);
    assert_eq!(at(1), Ok(Some(Color::rgb(13, 13, 67))));
    assert_eq!(at(2), Ok(Some(Color::rgb(15, 15, 79))));
    assert_eq!(at(5), Ok(Some(Color::rgb(41, 41, 106))));
}

#[test]
fn mirror_and_glass_share_the_weight() {
    let scene = three_spheres();
    let at = |depth: u32| seen(&scene, v(-3.3, 0.2, -5.0), v(0.0, 0.0, 1.0), depth);
    assert_eq!(at(1), Ok(Some(Color::rgb(84, 16, 16))));
    assert_eq!(at(2), Ok(Some(Color::rgb(100, 49, 50))));
    assert_eq!(at(5), Ok(Some(Color::rgb(110, 57, 58))));
}

#[test]
fn ray_through_the_middle_of_glass_has_no_refraction() {
    let scene = three_spheres();
    // The ray runs along the normal, so that nothing of it lies across.
    assert_eq!(seen(&scene, v(3.0, 0.0, -5.0), v(0.0, 0.0, 1.0), 1), Err(RenderError::ZeroLength));
    assert_eq!(seen(&scene, v(3.0, 0.0, -5.0), v(0.0, 0.0, 1.0), 0), Ok(Some(Color::rgb(0, 0, 0))));
}

#[test]
fn matte_floor_and_sky() {
    let scene = three_spheres();
    for depth in [1, 2, 5] {
        assert_eq!(seen(&scene, v(0.0, 0.0, -5.0), v(0.0, -1.0, 0.2), depth), Ok(Some(Color::rgb(83, 83, 83))));
        assert_eq!(seen(&scene, v(0.0, 0.0, -5.0), v(0.0, 1.0, 0.2), depth), Ok(None));
    }
}

#[test]
fn brightness_is_ambient_plus_the_lights_that_are_seen() {
    let scene = three_spheres();
    assert_eq!(compute_lighting(&scene, v(0.0, -2.0, -1.0), v(0.0, 1.0, 0.0)), Ok(760_000));
    // Below the middle sphere the light is hidden.
    assert_eq!(compute_lighting(&scene, v(0.0, -2.0, 1.5), v(0.0, 1.0, 0.0)), Ok(200_000));
    // A surface that faces away gets the ambient light only.
    assert_eq!(compute_lighting(&scene, v(0.0, -2.0, -1.0), v(0.0, -1.0, 0.0)), Ok(200_000));
}

#[test]
fn brightness_stays_between_zero_and_one() {
    let lights = |intensity: f64, ambient: f64| {
        Scene::make(
            vec![],
            vec![
                Light { position: v(0.0, 5.0, 0.0), intensity: fx(intensity) },
                Light { position: v(0.0, 7.0, 0.0), intensity: fx(intensity) },
            ],
            fx(ambient),
        )
    };
    let at = |scene: &Scene| compute_lighting(scene, v(0.0, 0.0, 0.0), v(0.0, 1.0, 0.0));
    assert_eq!(at(&lights(0.8, 0.1)), Ok(ONE));
    assert_eq!(at(&lights(0.3, 0.1)), Ok(700_000));
    assert_eq!(at(&lights(-0.8, 0.1)), Ok(0));
    assert_eq!(at(&lights(0.0, -3.0)), Ok(0));
    assert_eq!(at(&lights(0.0, 3.0)), Ok(ONE));
}

#[test]
fn surface_point_is_shaded_by_its_light() {
    let scene = three_spheres();
    let ray = Ray::new(v(0.0, 0.0, -5.0), v(0.0, -2.0, 4.0));
    let color = handle_hit(v(0.0, -2.0, -1.0), v(0.0, 1.0, 0.0), &matte(100, 100, 100), &scene, &ray, 3);
    assert_eq!(color, Ok(Color::rgb(76, 76, 76)));
}

#[test]
fn reflectivity_of_zero_spawns_no_ray() {
    let scene = three_spheres();
    let ray = Ray::new(v(0.0, 0.0, -5.0), v(0.0, -2.0, 4.0));
    let dull = solid(100, 100, 100, Some(0.0), None);
    let color = handle_hit(v(0.0, -2.0, -1.0), v(0.0, 1.0, 0.0), &dull, &scene, &ray, 1);
    assert_eq!(color, Ok(Color::rgb(76, 76, 76)));
}

#[test]
fn weights_outside_the_range_are_limited() {
    let base = Color::rgb(100, 100, 100);
    let mirrored = Color::rgb(200, 0, 0);
    assert_eq!(blend_colors(base, Some(mirrored), None, fx(7.0), 0, fx(1.0)), mirrored);
    assert_eq!(blend_colors(base, Some(mirrored), None, fx(-7.0), 0, fx(1.0)), base);
    assert_eq!(blend_colors(base, None, Some(mirrored), 0, fx(7.0), fx(1.0)), mirrored);
    assert_eq!(scale_color(base, fx(-1.0)), Color::rgb(0, 0, 0));
    assert_eq!(scale_color(Color::rgb(255, 1, 3), fx(0.5)), Color::rgb(127, 0, 1));
}

#[test]
fn sky_is_a_gradient() {
    assert_eq!(background_color(v(0.0, 1.0, 0.0)), Color::rgb(0, 155, 128));
    assert_eq!(background_color(v(0.0, -1.0, 0.0)), Color::rgb(135, 155, 235));
    assert_eq!(background_color(v(1.0, 0.0, 0.0)), Color::rgb(67, 155, 181));
    assert_eq!(background_color(v(0.0, 5.0, 0.0)), Color::rgb(0, 155, 128));
    assert_eq!(background_color(v(0.0, -5.0, 0.0)), Color::rgb(135, 155, 235));
}

fn mirror_wall(point: Vector, normal: Vector) -> Primitive {
    Primitive::Plane(Plane { point, normal, material: solid(200, 220, 240, Some(0.8), None) })
}

#[test]
fn rays_between_two_mirrors_end_with_the_budget() {
    let scene = Scene::make(
        vec![
            mirror_wall(v(0.0, 0.0, 3.0), v(0.0, 0.0, -1.0)),
            mirror_wall(v(0.0, 0.0, -3.0), v(0.0, 0.0, 1.0)),
        ],
        vec![Light { position: v(0.0, 2.0, 0.0), intensity: fx(0.5) }],
        fx(0.3),
    );
    let mut last = None;
    for depth in [0u32, 1, 2, 3, 10, 40, 200] {
        let color = seen(&scene, v(0.0, 0.0, 0.0), v(0.0, 0.1, 1.0), depth);
        assert!(matches!(color, Ok(Some(_))), "at depth {}", depth);
        last = color.unwrap();
    }
    // After many mirrors nothing of the black at the end is left.
    assert_eq!(seen(&scene, v(0.0, 0.0, 0.0), v(0.0, 0.1, 1.0), 199), Ok(last));
}

#[test]
fn surface_outside_the_world_is_an_error_of_its_ray() {
    let edge = Primitive::Plane(Plane { point: v(0.0, -100000.0, 0.0), normal: v(0.0, 1.0, 0.0), material: matte(9, 9, 9) });
    let scene = Scene::make(vec![edge], vec![], fx(1.0));
    // Straight down the plane is met inside the world.
    assert_eq!(seen(&scene, v(0.0, 0.0, 0.0), v(0.0, -1.0, 0.0), 2), Ok(Some(Color::rgb(9, 9, 9))));
    // On a slant it is met beside the world.
    assert_eq!(seen(&scene, v(99999.0, 0.0, 0.0), v(0.6, -0.8, 0.0), 2), Err(RenderError::OutOfWorld));
    assert_eq!(seen(&scene, v(99999.0, 0.0, 0.0), v(0.6, -0.8, 0.0), 0), Ok(Some(Color::rgb(0, 0, 0))));
    // Away from the plane nothing is met.
    assert_eq!(seen(&scene, v(99999.0, 0.0, 0.0), v(0.6, 0.8, 0.0), 2), Ok(None));
}

#[test]
fn surface_outside_the_world_still_casts_a_shadow() {
    // The light stands at the edge of the world, the wall before it
    // half a unit outside.
    let wall = Primitive::Plane(Plane { point: v(0.0, 100000.0, 0.0), normal: v(0.0, -1.0, 0.0), material: matte(9, 9, 9) });
    let light = || Light { position: v(0.0, 100000.0, 0.0), intensity: fx(0.5) };
    let open = Scene::make(vec![], vec![light()], fx(0.25));
    let closed = Scene::make(vec![wall], vec![light()], fx(0.25));
    let point = v(0.0, 0.0, 0.0);
    let normal = v(0.0, 1.0, 0.0);
    assert_eq!(compute_lighting(&open, point, normal), Ok(fx(0.75)));
    // The wall lies exactly as far as the light, which is not nearer.
    assert_eq!(compute_lighting(&closed, point, normal), Ok(fx(0.75)));
}
