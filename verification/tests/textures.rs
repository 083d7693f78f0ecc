use raytracer::fixed::ONE;
use raytracer::scene::{Color, ColorSource, ColorType, SphereMap};
use raytracer::texture::Texture;
use raytracer::vectors::{Vec3, Vector};

fn fx(v: f64) -> i64 {
    (v * ONE as f64).round() as i64
}

fn v(x: f64, y: f64, z: f64) -> Vector {
    Vector::make(fx(x), fx(y), fx(z))
}

/// Four columns and two rows; the pixel `(x, y)` is
/// `(12 y + 3 x, 12 y + 3 x + 1, 12 y + 3 x + 2)`.
fn counted() -> Texture {
    Texture::from_raw(4, 2, (0u8..24).collect()).unwrap()
}

#[test]
fn texture_needs_enough_bytes() {
    assert!(Texture::from_raw(4, 2, vec![0; 24]).is_some());
    assert!(Texture::from_raw(4, 2, vec![0; 30]).is_some());
    assert!(Texture::from_raw(4, 2, vec![0; 23]).is_none());
    assert!(Texture::from_raw(0, 2, vec![0; 24]).is_none());
    assert!(Texture::from_raw(4, 0, vec![0; 24]).is_none());
    assert!(Texture::from_raw(u32::MAX, u32::MAX, vec![0; 24]).is_none());
    let t = counted();
    assert_eq!((t.width(), t.height()), (4, 2));
}

#[test]
fn texture_is_read_from_the_bottom_up() {
    let t = counted();
    assert_eq!(t.uv_pixel_from_texture(0, 0), Color::rgb(12, 13, 14));
    assert_eq!(t.uv_pixel_from_texture(fx(0.1), fx(0.1)), Color::rgb(12, 13, 14));
    assert_eq!(t.uv_pixel_from_texture(fx(0.3), fx(0.9)), Color::rgb(3, 4, 5));
    assert_eq!(t.uv_pixel_from_texture(fx(0.99), fx(0.5)), Color::rgb(21, 22, 23));
    assert_eq!(t.uv_pixel_from_texture(fx(0.5), fx(0.75)), Color::rgb(6, 7, 8));
}

#[test]
fn texture_repeats_and_clips() {
    let t = counted();
    // Only what stands behind the point counts.
    assert_eq!(t.uv_pixel_from_texture(fx(1.25), fx(1.75)), Color::rgb(3, 4, 5));
    assert_eq!(t.uv_pixel_from_texture(fx(0.5), fx(1.0)), Color::rgb(18, 19, 20));
    // A negative part gives the first column, and the last row.
    assert_eq!(t.uv_pixel_from_texture(fx(-0.3), fx(-0.2)), Color::rgb(12, 13, 14));
}

#[test]
fn places_on_a_sphere() {
    let c = v(1.0, 2.0, 3.0);
    let r = fx(2.0);
    assert_eq!(Texture::sphere_uv(c, r, v(3.0, 2.0, 3.0)), (500_000, 500_000));
    assert_eq!(Texture::sphere_uv(c, r, v(1.0, 4.0, 3.0)), (500_000, 1_000_000));
    assert_eq!(Texture::sphere_uv(c, r, v(1.0, 2.0, 5.0)), (250_000, 500_000));
    assert_eq!(Texture::sphere_uv(c, r, v(-1.0, 2.0, 3.0)), (0, 500_000));
    assert_eq!(Texture::sphere_uv(c, r, v(1.0, 0.0, 3.0)), (500_000, 0));
    assert_eq!(Texture::sphere_uv(c, r, v(2.0, 3.0, 4.0)), (375_000, 666_667));
}

#[test]
fn color_of_a_wrapped_sphere() {
    let wrapped = ColorType::Function(Box::new(SphereMap { texture: counted(), center: v(1.0, 2.0, 3.0), radius: fx(2.0) }));
    assert!(wrapped.is_valid());
    assert_eq!(wrapped.color(v(3.0, 2.0, 3.0)), Color::rgb(18, 19, 20));
    assert_eq!(wrapped.color(v(1.0, 2.0, 1.0)), Color::rgb(21, 22, 23));
    let solid = ColorType::Solid(Color::rgb(9, 8, 7));
    assert_eq!(solid.color(v(3.0, 2.0, 3.0)), Color::rgb(9, 8, 7));
    let flat = ColorType::Function(Box::new(SphereMap { texture: counted(), center: v(1.0, 2.0, 3.0), radius: 0 }));
    assert!(!flat.is_valid());
    let map = SphereMap { texture: counted(), center: v(1.0, 2.0, 3.0), radius: fx(2.0) };
    assert!(map.is_valid());
    assert_eq!(map.color(v(3.0, 2.0, 3.0)), Color::rgb(18, 19, 20));
}

/// Black and white squares of one unit on the ground.
struct Checker;

impl ColorSource for Checker {
    // The first two are asked in proofs only.
    fn valid(&self) -> bool {
        unreachable!()
    }

    fn color_at(&self, _point: Vec3) -> Color {
        unreachable!()
    }

    fn color(&self, point: Vector) -> Color {
        let square = point.x.div_euclid(ONE) + point.z.div_euclid(ONE);
        if square.rem_euclid(2) == 0 {
            Color::rgb(255, 255, 255)
        } else {
            Color::rgb(0, 0, 0)
        }
    }

    fn is_valid(&self) -> bool {
        true
    }
}

#[test]
fn any_rule_can_color_a_surface() {
    let squares = ColorType::Function(Box::new(Checker));
    assert!(squares.is_valid());
    assert_eq!(squares.color(v(0.5, 0.0, 0.5)), Color::rgb(255, 255, 255));
    assert_eq!(squares.color(v(1.5, 0.0, 0.5)), Color::rgb(0, 0, 0));
    assert_eq!(squares.color(v(-0.5, 0.0, 0.5)), Color::rgb(0, 0, 0));
}
