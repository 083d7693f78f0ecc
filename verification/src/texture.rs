//! Pictures that are wrapped around spheres.
use vstd::prelude::*;
use crate::fixed::{clamp, clamp_spec, div_floor, lemma_mul_bound, quot, wide_mul, ONE};
use crate::scene::{Color, LIMIT};
use crate::trig::{asin, asin_spec, atan2, atan2_spec, PI, TAU};
use crate::vectors::{lemma_divided_bound, Vec3, Vector};

verus! {

/// A picture of red, green and blue pixels, held by the `image` crate.
#[verifier::external_body]
pub struct Picture {
    image: image::RgbImage,
}

/// The width and the height of a picture, in pixels.
pub uninterp spec fn picture_size(picture: Picture) -> (u32, u32);

/// The pixels of a picture, each by its column and its row, as red, green
/// and blue.
pub uninterp spec fn picture_texels(picture: Picture) -> Map<(int, int), (u8, u8, u8)>;

/// The pixel in the column `x` and the row `y` of a picture whose rows
/// lie one after the other in `bytes`, three bytes to a pixel.
pub open spec fn texel_of(bytes: Seq<u8>, width: int, x: int, y: int) -> (u8, u8, u8) {
    let at = (y * width + x) * 3;
    (bytes[at], bytes[at + 1], bytes[at + 2])
}

/// `ImageBuffer::from_raw`: the picture of the given size whose pixels are
/// the bytes of `bytes`, row after row, three bytes to a pixel. There is
/// none where the bytes are too few for the size.
#[verifier::external_body]
fn picture_from_raw(width: u32, height: u32, bytes: Vec<u8>) -> (picture: Option<Picture>)
    ensures
        picture.is_some() <==> 3 * width * height <= bytes@.len(),
        picture matches Some(p) ==> {
            &&& picture_size(p) == (width, height)
            &&& forall|x: int, y: int|
                0 <= x < width && 0 <= y < height ==> #[trigger] picture_texels(p)[(x, y)]
                    == texel_of(bytes@, width as int, x, y)
        },
{
    match image::RgbImage::from_raw(width, height, bytes) {
        Some(image) => Some(Picture { image }),
        None => None,
    }
}

/// `ImageBuffer::get_pixel`: the pixel in the column `x` and the row `y`,
/// which must lie inside the picture.
#[verifier::external_body]
fn picture_texel(picture: &Picture, x: u32, y: u32) -> (c: Color)
    requires
        x < picture_size(*picture).0,
        y < picture_size(*picture).1,
    ensures
        (c.r, c.g, c.b) == picture_texels(*picture)[(x as int, y as int)],
{
    let pixel = picture.image.get_pixel(x, y);
    Color { r: pixel[0], g: pixel[1], b: pixel[2] }
}

/// The part of a scalar behind the point, with the sign of the scalar.
pub open spec fn fract_spec(v: int) -> int {
    if v >= 0 {
        v % (ONE as int)
    } else {
        -((-v) % (ONE as int))
    }
}

/// The index of the pixel at the share `part` of an axis of `count`
/// pixels: the share times the count, rounded down, and at least zero and
/// at most the last index.
pub open spec fn texel_index(part: int, count: int) -> int {
    clamp_spec((part * count) / (ONE as int), 0, count - 1)
}

/// Where a point of a sphere lies on a picture that is wrapped around
/// the sphere: `u` runs around the vertical axis and `v` from the bottom
/// to the top, both from zero to one.
pub open spec fn sphere_uv_spec(center: Vec3, radius: int, point: Vec3) -> (int, int) {
    let p = point.minus(center).divided(radius);
    (
        ONE / 2 - quot(atan2_spec(p.z, p.x) * ONE, TAU as int),
        ONE / 2 + quot(asin_spec(clamp_spec(p.y, -ONE, ONE as int)) * ONE, PI as int),
    )
}

/// A picture with its size.
pub struct Texture {
    image: Picture,
    width: u32,
    height: u32,
}

impl Texture {
    /// Every texture has at least one pixel and records the size of its
    /// picture.
    #[verifier::type_invariant]
    spec fn well_formed(&self) -> bool {
        &&& (self.width, self.height) == picture_size(self.image)
        &&& self.width > 0
        &&& self.height > 0
    }

    /// The width in pixels.
    pub closed spec fn spec_width(&self) -> int {
        self.width as int
    }

    /// The height in pixels.
    pub closed spec fn spec_height(&self) -> int {
        self.height as int
    }

    /// The pixel in the column `x` and the row `y`.
    pub closed spec fn texel(&self, x: int, y: int) -> Color {
        let (r, g, b) = picture_texels(self.image)[(x, y)];
        Color { r, g, b }
    }

    /// The color of the picture at the place `(u, v)`. Only the parts of
    /// `u` and `v` behind the point count; `v` runs from the bottom of the
    /// picture to its top.
    pub open spec fn uv_pixel_spec(&self, u: int, v: int) -> Color {
        self.texel(
            texel_index(fract_spec(u), self.spec_width()),
            texel_index(ONE - fract_spec(v), self.spec_height()),
        )
    }

    /// The texture of the given size whose pixels are the bytes of
    /// `bytes`, row after row from the top, three bytes to a pixel: red,
    /// green, blue. There is none for an empty picture, or where the
    /// bytes are too few.
    pub fn from_raw(width: u32, height: u32, bytes: Vec<u8>) -> (texture: Option<Texture>)
        ensures
            texture.is_some() <==> width > 0 && height > 0 && 3 * width * height <= bytes@.len(),
            texture matches Some(t) ==> {
                &&& t.spec_width() == width
                &&& t.spec_height() == height
                &&& forall|x: int, y: int|
                    0 <= x < width && 0 <= y < height ==> {
                        let (r, g, b) = texel_of(bytes@, width as int, x, y);
                        #[trigger] t.texel(x, y) == (Color { r, g, b })
                    }
            },
    {
        if width == 0 || height == 0 {
            return None;
        }
        match picture_from_raw(width, height, bytes) {
            Some(image) => Some(Texture { image, width, height }),
            None => None,
        }
    }

    /// The width in pixels.
    pub fn width(&self) -> (w: u32)
        ensures
            w == self.spec_width(),
    {
        self.width
    }

    /// The height in pixels.
    pub fn height(&self) -> (h: u32)
        ensures
            h == self.spec_height(),
    {
        self.height
    }

    /// The color of the picture at the place `(u, v)`.
    pub fn uv_pixel_from_texture(&self, u: i64, v: i64) -> (c: Color)
        ensures
            c == self.uv_pixel_spec(u as int, v as int),
    {
        proof {
            use_type_invariant(&*self);
        }
        let x: u32 = index_of(fract(u), self.width);
        let y: u32 = index_of(ONE - fract(v), self.height);
        picture_texel(&self.image, x, y)
    }

    /// Where a point of the sphere with the given center and radius lies
    /// on a picture that is wrapped around the sphere.
    pub fn sphere_uv(center: Vector, radius: i64, point: Vector) -> (uv: (i64, i64))
        requires
            center@.within(LIMIT as int),
            point@.within(LIMIT as int),
            0 < radius,
        ensures
            (uv.0 as int, uv.1 as int) == sphere_uv_spec(center@, radius as int, point@),
    {
        let offset: Vector = point.minus(&center);
        proof {
            lemma_divided_bound(offset@, radius as int, 200_000_000_000);
        }
        let p: Vector = offset.divided(radius);
        let around: i64 = atan2(p.z, p.x);
        let rise: i64 = asin(clamp(p.y, -ONE, ONE));
        proof {
            lemma_mul_bound(around as int, ONE as int, 4_712_388, ONE as int);
            lemma_mul_bound(rise as int, ONE as int, 1_570_796, ONE as int);
        }
        let u: i128 = (ONE / 2) as i128 - div_floor(wide_mul(around, ONE), TAU as i128);
        let v: i128 = (ONE / 2) as i128 + div_floor(wide_mul(rise, ONE), PI as i128);
        (u as i64, v as i64)
    }
}

/// The part of a scalar behind the point, with the sign of the scalar.
fn fract(v: i64) -> (f: i64)
    ensures
        f == fract_spec(v as int),
        -ONE < f < ONE,
{
    v % ONE
}

/// The index of the pixel at the share `part` of an axis of `count`
/// pixels.
fn index_of(part: i64, count: u32) -> (index: u32)
    requires
        count > 0,
    ensures
        index == texel_index(part as int, count as int),
        index < count,
{
    proof {
        lemma_mul_bound(part as int, count as int, 0x8000_0000_0000_0000, 0x1_0000_0000);
    }
    let at: i128 = div_floor((part as i128) * (count as i128), ONE as i128);
    if at < 0 {
        0
    } else if at > (count - 1) as i128 {
        count - 1
    } else {
        at as u32
    }
}

} // verus!
