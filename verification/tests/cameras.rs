use raytracer::camera::{Camera, Keycode};
use raytracer::shader::RenderError;
use raytracer::fixed::ONE;
use raytracer::scene::{Color, ColorType, Light, Material, Plane, Primitive, Scene, Sphere, LIMIT};
use raytracer::vectors::Vector;

fn fx(v: f64) -> i64 {
    (v * ONE as f64).round() as i64
}

fn v(x: f64, y: f64, z: f64) -> Vector {
    Vector::make(fx(x), fx(y), fx(z))
}

fn solid(r: u8, g: u8, b: u8, reflectivity: Option<f64>, transparency: Option<(f64, f64)>) -> Material {
    Material {
        color: ColorType::Solid(Color::rgb(r, g, b)),
        reflectivity: reflectivity.map(fx),
        transparency: transparency.map(|(t, i)| (fx(t), fx(i))),
    }
}

fn three_spheres() -> Scene {
    Scene::make(
        vec![
            Primitive::Sphere(Sphere::make(&v(0.0, 0.0, 0.0), fx(1.0), solid(200, 200, 200, Some(0.5), None))),
            Primitive::Sphere(Sphere::make(&v(3.0, 0.0, 0.0), fx(1.0), solid(50, 50, 250, None, Some((0.6, 1.5))))),
            Primitive::Sphere(Sphere::make(&v(-3.0, 0.0, 0.0), fx(1.0), solid(250, 50, 50, Some(0.4), Some((0.6, 1.5))))),
            Primitive::Plane(Plane { point: v(0.0, -2.0, 0.0), normal: v(0.0, 1.0, 0.0), material: solid(100, 100, 100, None, None) }),
        ],
        vec![Light { position: v(0.0, 10.0, -10.0), intensity: fx(0.7) }],
        fx(0.2),
    )
}

fn start() -> Camera {
    Camera::new(v(-3.0, 0.0, 0.0), v(1.0, 0.0, 0.0))
}

#[test]
fn camera_normalizes_its_direction() {
    let c = Camera::new(v(1.0, 2.0, 3.0), v(0.0, 0.0, 9.0));
    assert_eq!(c.coords, v(1.0, 2.0, 3.0));
    assert_eq!(c.direction, v(0.0, 0.0, 1.0));
    assert!(c.is_valid());
    let tilted = Camera::new(v(0.0, 1.0, -6.0), v(0.1, -0.2, 1.0));
    assert_eq!(tilted.direction, Vector::make(97_590, -195_181, 975_900));
    let outside = Camera::new(Vector::make(LIMIT + ONE + 1, 0, 0), v(1.0, 0.0, 0.0));
    assert!(!outside.is_valid());
}

#[test]
fn camera_places() {
    let anywhere = Camera::new(v(9.0, 9.0, 9.0), v(0.0, 1.0, 0.0));
    let home = anywhere.reset_location();
    assert_eq!((home.coords, home.direction), (v(-3.0, 0.0, 0.0), v(1.0, 0.0, 0.0)));
    let back = anywhere.reset_location_reversed();
    assert_eq!((back.coords, back.direction), (v(3.0, 0.0, 0.0), v(-1.0, 0.0, 0.0)));
}

#[test]
fn camera_frame_is_at_right_angles() {
    let basis = start().camera_basis().unwrap();
    assert_eq!(basis.forward, v(1.0, 0.0, 0.0));
    assert_eq!(basis.right, v(0.0, 0.0, 1.0));
    assert_eq!(basis.up, v(0.0, 1.0, 0.0));
    let tilted = Camera::new(v(0.0, 1.0, -6.0), v(0.1, -0.2, 1.0)).camera_basis().unwrap();
    assert_eq!(tilted.right, Vector::make(-995_038, 0, 99_503));
    assert_eq!(tilted.up, Vector::make(19_421, 980_768, 194_212));
    assert!(tilted.right.dot(&tilted.up).abs() <= 2);
    assert!(tilted.right.dot(&tilted.forward).abs() <= 2);
    assert!(tilted.up.dot(&tilted.forward).abs() <= 2);
}

#[test]
fn camera_that_looks_straight_up_has_no_frame() {
    let up = Camera::new(v(0.0, 0.0, 0.0), v(0.0, 1.0, 0.0));
    assert!(matches!(up.camera_basis(), Err(RenderError::ZeroLength)));
    assert!(matches!(up.draw(&three_spheres(), 4, (4, 3), 2), Err(RenderError::ZeroLength)));
    assert!(matches!(up.relocate(Keycode::Space), Err(RenderError::ZeroLength)));
}

#[test]
fn rays_go_through_the_middle_of_the_pixels() {
    let cam = start();
    let basis = cam.camera_basis().unwrap();
    let aspect = fx(1.6);
    assert_eq!(basis.through(0, 0, 10, 6, aspect), Vector::make(1_000_000, 833_334, -1_440_000));
    assert_eq!(basis.through(9, 4, 10, 6, aspect), Vector::make(1_000_000, -500_000, 1_440_000));
    let ray = cam.generate_ray(0, 0, 10, 6, aspect, &basis).unwrap();
    assert_eq!(ray.origin, v(-3.0, 0.0, 0.0));
    assert_eq!(ray.direction, Vector::make(515_159, 429_300, -741_831));
    // With an odd number of pixels the middle one lies straight ahead.
    let middle = cam.generate_ray(2, 1, 5, 3, aspect, &basis).unwrap();
    assert_eq!(middle.direction, v(1.0, 0.0, 0.0));
}

#[test]
fn keys_move_the_camera_by_one_unit() {
    let moved = |key: Keycode| start().relocate(key).unwrap();
    assert_eq!(moved(Keycode::W).coords, v(-2.0, 0.0, 0.0));
    assert_eq!(moved(Keycode::S).coords, v(-4.0, 0.0, 0.0));
    assert_eq!(moved(Keycode::A).coords, v(-3.0, 0.0, -1.0));
    assert_eq!(moved(Keycode::D).coords, v(-3.0, 0.0, 1.0));
    assert_eq!(moved(Keycode::Space).coords, v(-3.0, 1.0, 0.0));
    assert_eq!(moved(Keycode::LShift).coords, v(-3.0, -1.0, 0.0));
    assert_eq!(moved(Keycode::W).direction, v(1.0, 0.0, 0.0));
}

#[test]
fn forward_stays_level_with_the_ground() {
    let tilted = Camera::new(v(0.0, 0.0, 0.0), v(3.0, -5.0, 4.0));
    let moved = tilted.relocate(Keycode::W).unwrap();
    assert_eq!(moved.coords, v(0.6, 0.0, 0.8));
}

#[test]
fn camera_turns_about_the_vertical_axis() {
    let cam = start();
    assert_eq!(cam.rotate(fx(15.0)).unwrap().direction, Vector::make(965_926, 0, 258_818));
    assert_eq!(cam.rotate(fx(-15.0)).unwrap().direction, Vector::make(965_926, 0, -258_819));
    assert_eq!(cam.rotate(fx(90.0)).unwrap().direction, v(0.0, 0.0, 1.0));
    assert_eq!(cam.rotate(fx(-90.0)).unwrap().direction, v(0.0, 0.0, -1.0));
    assert_eq!(cam.rotate(fx(180.0)).unwrap().direction, v(-1.0, 0.0, 0.0));
    assert_eq!(cam.rotate(fx(360.0)).unwrap().direction, v(1.0, 0.0, 0.0));
    assert_eq!(cam.rotate(0).unwrap().direction, v(1.0, 0.0, 0.0));
    assert_eq!(cam.rotate(fx(15.0)).unwrap().coords, v(-3.0, 0.0, 0.0));
    let up = Camera::new(v(0.0, 0.0, 0.0), v(0.0, 1.0, 0.0));
    assert_eq!(up.rotate(fx(40.0)).unwrap().direction, v(0.0, 1.0, 0.0));
    let none = Camera { coords: v(0.0, 0.0, 0.0), direction: v(0.0, 0.0, 0.0) };
    assert!(matches!(none.rotate(fx(40.0)), Err(RenderError::ZeroLength)));
}

#[test]
fn picture_has_a_color_for_every_pixel() {
    let cam = Camera::new(v(0.0, 1.0, -6.0), v(0.1, -0.2, 1.0));
    let picture = cam.draw(&three_spheres(), 4, (4, 3), 3).unwrap();
    let c = |r: u8, g: u8, b: u8| Ok(Color::rgb(r, g, b));
    assert_eq!(
        picture,
        vec![
            vec![c(47, 155, 165), c(42, 155, 161), c(42, 155, 161), c(47, 155, 165)],
            vec![c(51, 51, 51), c(27, 75, 152), c(56, 56, 56), c(50, 50, 50)],
            vec![c(79, 79, 79), c(80, 80, 80), c(80, 80, 80), c(78, 78, 78)],
        ]
    );
}

#[test]
fn picture_is_as_high_as_the_ratio_says() {
    let cam = start();
    let scene = Scene::make(vec![], vec![], 0);
    let rows = cam.draw(&scene, 10, (16, 10), 1).unwrap();
    assert_eq!(rows.len(), 6);
    assert!(rows.iter().all(|row| row.len() == 10));
    assert_eq!(cam.draw(&scene, 0, (16, 10), 1).unwrap().len(), 0);
    assert_eq!(cam.draw(&scene, 1, (16, 10), 1).unwrap().len(), 0);
    assert_eq!(cam.draw(&scene, 3, (1, 2), 1).unwrap().len(), 6);
    // Only the sky is seen: the top row is darker than the bottom row.
    let sky = cam.draw(&scene, 2, (1, 1), 1).unwrap();
    assert_eq!(sky, vec![vec![Ok(Color::rgb(39, 155, 159)); 2], vec![Ok(Color::rgb(95, 155, 203)); 2]]);
}

#[test]
fn pixel_is_the_color_of_its_ray() {
    let cam = Camera::new(v(0.0, 1.0, -6.0), v(0.1, -0.2, 1.0));
    let scene = three_spheres();
    let basis = cam.camera_basis().unwrap();
    let aspect = (4 * ONE) / 3;
    assert_eq!(cam.pixel(&scene, &basis, 1, 1, 4, 3, aspect, 3), Ok(Color::rgb(27, 75, 152)));
    assert_eq!(cam.pixel(&scene, &basis, 1, 1, 4, 3, aspect, 0), Ok(Color::rgb(0, 0, 0)));
}
