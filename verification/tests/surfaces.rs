use raytracer::camera::Ray;
use raytracer::fixed::ONE;
use raytracer::scene::{
    Color, ColorType, Hittable, Light, Material, Plane, Primitive, Scene, Sphere, Triangle,
    HIT_EPSILON, LIMIT, MAX_DISTANCE,
};
use raytracer::vectors::Vector;

fn fx(v: f64) -> i64 {
    (v * ONE as f64).round() as i64
}

fn v(x: f64, y: f64, z: f64) -> Vector {
    Vector::make(fx(x), fx(y), fx(z))
}

fn matte(r: u8, g: u8, b: u8) -> Material {
    Material { color: ColorType::Solid(Color::rgb(r, g, b)), reflectivity: None, transparency: None }
}

fn ball(x: f64, y: f64, z: f64, radius: f64) -> Sphere {
    Sphere::make(&v(x, y, z), fx(radius), matte(200, 100, 50))
}

fn floor() -> Plane {
    Plane { point: v(0.0, -2.0, 0.0), normal: v(0.0, 1.0, 0.0), material: matte(100, 100, 100) }
}

fn wall() -> Triangle {
    Triangle::make(v(-1.0, 0.0, 0.0), v(1.0, 0.0, 0.0), v(0.0, 2.0, 0.0), matte(1, 2, 3))
}

#[test]
fn sphere_is_met_from_outside_inside_and_not_from_behind() {
    let s = ball(0.0, 0.0, 0.0, 1.0);
    assert_eq!(s.hit(&Ray::new(v(0.0, 0.0, -5.0), v(0.0, 0.0, 1.0))), Some(fx(4.0)));
    assert_eq!(s.hit(&Ray::new(v(0.5, 0.0, -5.0), v(0.0, 0.0, 1.0))), Some(4_133_975));
    // From the center only the larger root lies ahead.
    assert_eq!(s.hit(&Ray::new(v(0.0, 0.0, 0.0), v(0.0, 0.0, 1.0))), Some(fx(1.0)));
    assert_eq!(s.hit(&Ray::new(v(0.0, 0.0, 5.0), v(0.0, 0.0, 1.0))), None);
    assert_eq!(s.hit(&Ray::new(v(3.0, 0.0, -5.0), v(0.0, 0.0, 1.0))), None);
}

#[test]
fn sphere_ignores_the_surface_that_a_ray_starts_from() {
    let s = ball(0.0, 0.0, 0.0, 1.0);
    // The ray starts on the surface and leaves it: both roots are behind
    // the guard distance.
    assert_eq!(s.hit(&Ray::new(v(0.0, 0.0, 1.0), v(0.0, 0.0, 1.0))), None);
    // It starts on the surface and crosses the sphere.
    assert_eq!(s.hit(&Ray::new(v(0.0, 0.0, -1.0), v(0.0, 0.0, 1.0))), Some(fx(2.0)));
}

#[test]
fn signed_distance_of_a_sphere() {
    let s = ball(0.0, 0.0, 0.0, 1.0);
    assert_eq!(s.hit_distance(&Ray::new(v(0.5, 0.0, -5.0), v(0.0, 0.0, 1.0))), 4_133_975);
    assert_eq!(s.hit_distance(&Ray::new(v(0.0, 0.0, 5.0), v(0.0, 0.0, 1.0))), fx(-6.0));
    assert_eq!(s.hit_distance(&Ray::new(v(3.0, 0.0, -5.0), v(0.0, 0.0, 1.0))), -ONE);
}

#[test]
fn sphere_normal_points_outward_with_length_one() {
    let s = ball(1.0, 2.0, 3.0, 2.0);
    assert_eq!(s.normal(v(3.0, 2.0, 3.0)), v(1.0, 0.0, 0.0));
    assert_eq!(s.normal(v(1.0, 0.0, 3.0)), v(0.0, -1.0, 0.0));
    let unit = ball(0.0, 0.0, 0.0, 1.0);
    let ray = Ray::new(v(0.5, 0.0, -5.0), v(0.0, 0.0, 1.0));
    let point = ray.point_at(unit.hit(&ray).unwrap());
    let n = unit.normal(point);
    assert_eq!(n, Vector::make(500_000, 0, -866_025));
    let length2 = n.dot_wide(&n);
    assert!((length2 - 1_000_000_000_000).abs() <= 6_000_003);
    // Parallel to the offset from the center.
    let offset = point.minus(&unit.center);
    assert!((n.x as i128 * offset.z as i128 - n.z as i128 * offset.x as i128).abs() <= 2 * unit.radius as i128);
}

#[test]
fn triangle_is_met_inside_its_corners_only() {
    let t = wall();
    assert_eq!(t.normal, v(0.0, 0.0, 1.0));
    assert_eq!(t.vertices, (v(-1.0, 0.0, 0.0), v(1.0, 0.0, 0.0), v(0.0, 2.0, 0.0)));
    assert_eq!(t.hit(&Ray::new(v(0.0, 0.5, -3.0), v(0.0, 0.0, 1.0))), Some(fx(3.0)));
    assert_eq!(t.hit(&Ray::new(v(0.2, 0.7, -3.0), v(0.1, 0.1, 1.0))), Some(3_029_850));
    // From the other side.
    assert_eq!(t.hit(&Ray::new(v(0.0, 0.5, 3.0), v(0.0, 0.0, -1.0))), Some(fx(3.0)));
    // Beside the triangle, behind the ray, and along its plane.
    assert_eq!(t.hit(&Ray::new(v(0.9, 1.5, -3.0), v(0.0, 0.0, 1.0))), None);
    assert_eq!(t.hit(&Ray::new(v(0.0, -0.1, -3.0), v(0.0, 0.0, 1.0))), None);
    assert_eq!(t.hit(&Ray::new(v(0.0, 0.5, 3.0), v(0.0, 0.0, 1.0))), None);
    assert_eq!(t.hit(&Ray::new(v(0.0, 0.5, -3.0), v(1.0, 0.0, 0.0))), None);
    assert_eq!(t.normal(v(0.3, 0.3, 0.0)), v(0.0, 0.0, 1.0));
}

#[test]
fn triangle_normal_follows_the_order_of_the_corners() {
    let back = Triangle::make(v(-1.0, 0.0, 0.0), v(0.0, 2.0, 0.0), v(1.0, 0.0, 0.0), matte(1, 2, 3));
    assert_eq!(back.normal, v(0.0, 0.0, -1.0));
}

#[test]
fn plane_is_met_in_front_only() {
    let p = floor();
    assert_eq!(p.hit(&Ray::new(v(0.0, 0.0, 0.0), v(0.0, -1.0, 0.0))), Some(fx(2.0)));
    assert_eq!(p.hit(&Ray::new(v(0.0, 0.0, 0.0), v(1.0, -1.0, 0.0))), Some(2_828_422));
    assert_eq!(p.hit(&Ray::new(v(0.0, 0.0, 0.0), v(0.0, 1.0, 0.0))), None);
    assert_eq!(p.hit(&Ray::new(v(0.0, 0.0, 0.0), v(1.0, 0.0, 0.0))), None);
    // From below the plane is met as well.
    assert_eq!(p.hit(&Ray::new(v(0.0, -5.0, 0.0), v(0.0, 1.0, 0.0))), Some(fx(3.0)));
    assert_eq!(p.normal(v(7.0, -2.0, 1.0)), v(0.0, 1.0, 0.0));
}

#[test]
fn plane_is_met_however_far_away() {
    let p = Plane { point: v(0.0, -1.0, 0.0), normal: v(0.0, 1.0, 0.0), material: matte(1, 1, 1) };
    // The ray sinks by a millionth for every unit, so that it reaches the
    // plane after a million units.
    let ray = Ray { origin: v(0.0, 0.0, 0.0), direction: Vector::make(ONE, -1, 0) };
    assert!(ray.is_valid());
    assert_eq!(p.hit(&ray), Some(fx(1000000.0)));
    // A ray that sinks less counts as running along the plane.
    let level = Ray { origin: v(0.0, 0.0, 0.0), direction: Vector::make(ONE, 0, 0) };
    assert_eq!(p.hit(&level), None);
    let deep = Plane { point: v(0.0, -90000.0, 0.0), normal: v(0.0, 1.0, 0.0), material: matte(1, 1, 1) };
    let slanted = Ray::new(v(0.0, 0.0, 0.0), v(1.0, -0.1, 0.0));
    assert_eq!(deep.hit(&slanted), Some(904_486_251_808));
    assert!(fx(1000000.0) <= MAX_DISTANCE);
}

#[test]
fn nearer_sphere_wins_at_the_edge_of_the_world() {
    let near = Sphere::make(&Vector::make(LIMIT, 0, 0), fx(0.5), matte(1, 0, 0));
    let far = Sphere::make(&Vector::make(LIMIT - fx(2.0), 0, 0), fx(1.0), matte(2, 0, 0));
    let ray = Ray::new(Vector::make(LIMIT + ONE, 0, 0), v(-1.0, 0.0, 0.0));
    assert!(ray.is_valid() && near.is_valid() && far.is_valid());
    assert_eq!(near.hit(&ray), Some(fx(0.5)));
    assert_eq!(far.hit(&ray), Some(fx(2.0)));
    for near_first in [true, false] {
        let a = Primitive::Sphere(Sphere::make(&near.center, near.radius, matte(1, 0, 0)));
        let b = Primitive::Sphere(Sphere::make(&far.center, far.radius, matte(2, 0, 0)));
        let scene = Scene::make(if near_first { vec![a, b] } else { vec![b, a] }, vec![], 0);
        let c = ray.trace(&scene).unwrap();
        // The point lies half a unit outside the world.
        assert_eq!(c.point, Vector::make(LIMIT + fx(0.5), 0, 0));
        match c.object {
            Primitive::Sphere(s) => assert_eq!(s.center, near.center),
            _ => panic!("a sphere was met"),
        }
    }
}

#[test]
fn every_distance_is_positive() {
    let objects = [
        Primitive::Sphere(ball(0.0, 0.0, 0.0, 1.0)),
        Primitive::Triangle(wall()),
        Primitive::Plane(floor()),
    ];
    let mut seen = 0;
    for ox in -3..=3 {
        for oy in -3..=3 {
            for (dx, dy, dz) in [(0.0, 0.0, 1.0), (0.3, -0.5, 1.0), (1.0, 0.2, -0.4), (-1.0, -1.0, -1.0), (0.0, 1.0, 0.0)] {
                let ray = Ray::new(v(ox as f64 * 0.7, oy as f64 * 0.7, -4.0), v(dx, dy, dz));
                for object in &objects {
                    if let Some(t) = object.hit(&ray) {
                        assert!(t > 0 && t <= MAX_DISTANCE);
                        seen += 1;
                    }
                }
            }
        }
    }
    assert!(seen > 50);
    assert!(HIT_EPSILON > 0);
}

#[test]
fn closest_surface_wins() {
    let near = ball(0.0, 0.0, 0.0, 1.0);
    let far = ball(0.0, 0.0, 5.0, 1.0);
    let ray = Ray::new(v(0.0, 0.0, -5.0), v(0.0, 0.0, 1.0));
    assert_eq!(near.hit(&ray), Some(fx(4.0)));
    assert_eq!(far.hit(&ray), Some(fx(9.0)));
    for order in [[0, 1], [1, 0]] {
        let spheres = [ball(0.0, 0.0, 0.0, 1.0), ball(0.0, 0.0, 5.0, 1.0)];
        let mut objects = Vec::new();
        for i in order {
            objects.push(Primitive::Sphere(Sphere::make(&spheres[i].center, spheres[i].radius, matte(i as u8, 0, 0))));
        }
        let scene = Scene::make(objects, vec![], 0);
        let c = ray.trace(&scene).unwrap();
        assert_eq!(c.point, v(0.0, 0.0, -1.0));
        match c.object {
            Primitive::Sphere(s) => assert_eq!(s.center, v(0.0, 0.0, 0.0)),
            _ => panic!("a sphere was met"),
        }
        let (object, point) = scene.trace_ray(&ray).unwrap();
        assert_eq!(point, v(0.0, 0.0, -1.0));
        assert!(matches!(object, Primitive::Sphere(_)));
    }
}

#[test]
fn first_of_two_equal_distances_wins() {
    let first = Primitive::Sphere(Sphere::make(&v(0.0, 0.0, 0.0), fx(1.0), matte(1, 0, 0)));
    let second = Primitive::Sphere(Sphere::make(&v(0.0, 0.0, 0.0), fx(1.0), matte(2, 0, 0)));
    let scene = Scene::make(vec![first, second], vec![], 0);
    let ray = Ray::new(v(0.0, 0.0, -5.0), v(0.0, 0.0, 1.0));
    let c = ray.trace(&scene).unwrap();
    match &c.object.material().color {
        ColorType::Solid(color) => assert_eq!(*color, Color::rgb(1, 0, 0)),
        _ => panic!("a solid color"),
    }
}

#[test]
fn points_outside_the_world_are_met_as_well() {
    let edge = Plane { point: v(0.0, -100000.0, 0.0), normal: v(0.0, 1.0, 0.0), material: matte(1, 1, 1) };
    assert!(edge.is_valid());
    let scene = Scene::make(vec![Primitive::Plane(edge)], vec![], 0);
    let inside = Ray::new(v(0.0, 0.0, 0.0), v(0.0, -1.0, 0.0));
    assert_eq!(inside.trace(&scene).unwrap().point, v(0.0, -100000.0, 0.0));
    // This ray reaches the plane beside the world.
    let slanted = Ray::new(v(99999.0, 0.0, 0.0), v(0.6, -0.8, 0.0));
    assert_eq!(scene.objects[0].hit(&slanted), Some(fx(125000.0)));
    let c = slanted.trace(&scene).unwrap();
    assert_eq!(c.point, v(174999.0, -100000.0, 0.0));
    assert!(!c.point.within(LIMIT));
}

#[test]
fn query_is_empty_only_where_nothing_is_met() {
    let objects = || vec![Primitive::Sphere(ball(0.0, 0.0, 0.0, 1.0)), Primitive::Triangle(wall()), Primitive::Plane(floor())];
    let scene = Scene::make(objects(), vec![], 0);
    for ox in -4..=4 {
        for (dx, dy, dz) in [(0.0, 0.0, 1.0), (0.3, -0.5, 1.0), (0.0, 1.0, 0.0), (1.0, 0.4, 0.0), (-1.0, -0.01, 0.3)] {
            let ray = Ray::new(v(ox as f64 * 0.6, 0.5, -4.0), v(dx, dy, dz));
            let least = scene.objects.iter().filter_map(|o| o.hit(&ray)).min();
            match ray.trace(&scene) {
                None => assert_eq!(least, None),
                Some(c) => assert_eq!(c.point, ray.point_at(least.unwrap())),
            }
        }
    }
}

#[test]
fn validity_of_scenes() {
    let good = Scene::make(
        vec![Primitive::Sphere(ball(0.0, 0.0, 0.0, 1.0)), Primitive::Plane(floor()), Primitive::Triangle(wall())],
        vec![Light { position: v(0.0, 5.0, 0.0), intensity: fx(1.0) }],
        fx(0.2),
    );
    assert!(good.is_valid());
    assert_eq!(good.objects.len(), 3);
    assert_eq!(good.lights.len(), 1);
    assert_eq!(good.ambient_light, fx(0.2));
    assert!(Scene::make(vec![], vec![], 0).is_valid());
    assert!(!Sphere { center: v(0.0, 0.0, 0.0), radius: 0, material: matte(1, 1, 1) }.is_valid());
    assert!(!Sphere { center: v(0.0, 0.0, 0.0), radius: -ONE, material: matte(1, 1, 1) }.is_valid());
    assert!(!Sphere::make(&Vector::make(LIMIT + 1, 0, 0), ONE, matte(1, 1, 1)).is_valid());
    assert!(!Plane { point: v(0.0, 0.0, 0.0), normal: v(0.0, 2.0, 0.0), material: matte(1, 1, 1) }.is_valid());
    assert!(!Plane { point: v(0.0, 0.0, 0.0), normal: v(0.0, 0.9, 0.0), material: matte(1, 1, 1) }.is_valid());
    assert!(!Plane { point: v(0.0, 0.0, 0.0), normal: v(0.0, 0.0, 0.0), material: matte(1, 1, 1) }.is_valid());
    assert!(Plane { point: v(0.0, 0.0, 0.0), normal: v(0.6, 0.0, -0.8), material: matte(1, 1, 1) }.is_valid());
    assert!(wall().is_valid());
    // A triangle whose normal is not that of its corners.
    let mut bent = wall();
    bent.normal = v(0.0, 1.0, 0.0);
    assert!(!bent.is_valid());
    let mut line = wall();
    line.vertices = (v(0.0, 0.0, 0.0), v(1.0, 1.0, 1.0), v(2.0, 2.0, 2.0));
    assert!(!line.is_valid());
    let far_light = Scene::make(vec![], vec![Light { position: Vector::make(0, LIMIT + 1, 0), intensity: ONE }], 0);
    assert!(!far_light.is_valid());
    let zero_index = Material { color: ColorType::Solid(Color::rgb(1, 1, 1)), reflectivity: None, transparency: Some((ONE, 0)) };
    assert!(!zero_index.is_valid());
    assert!(!Scene::make(vec![Primitive::Sphere(Sphere::make(&v(0.0, 0.0, 0.0), ONE, zero_index))], vec![], 0).is_valid());
    assert!(Ray::new(v(0.0, 0.0, 0.0), v(0.0, 3.0, 0.0)).is_valid());
    assert!(!Ray { origin: v(0.0, 0.0, 0.0), direction: v(0.0, 0.0, 0.0) }.is_valid());
}
