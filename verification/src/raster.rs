//! Edges of triangles on a grid of pixels.
use vstd::prelude::*;
use crate::fixed::{
    div_floor, lemma_mul_bound, lemma_div_sides, quot, times, times_spec, wide_mul, ONE,
};
use crate::trig::{cos, cos_spec, sin, sin_spec};
use crate::vectors::{Vec3, Vector, REACH, SPAN};

verus! {

/// `n / d` rounded towards zero, for a positive `d`.
pub open spec fn toward_zero(n: int, d: int) -> int {
    if n >= 0 {
        n / d
    } else {
        -((-n) / d)
    }
}

/// The column at which the line from `(x1, 0)` to `(x2, rows)` crosses the
/// row `k`, rounded towards zero.
pub open spec fn column_at(x1: int, x2: int, rows: int, k: int) -> int {
    toward_zero(x1 * (rows - k) + x2 * k, rows)
}

/// What `interpolate` returns: for every row from `y1` to `y2` the column
/// of the line from `(x1, y1)` to `(x2, y2)`. Where the two rows are the
/// same these are the two ends, and where `y1` lies below `y2` there is no
/// row at all.
pub open spec fn interpolate_spec(y1: int, x1: int, y2: int, x2: int) -> Seq<i32> {
    if y1 == y2 {
        seq![x1 as i32, x2 as i32]
    } else if y1 > y2 {
        Seq::empty()
    } else {
        Seq::new((y2 - y1 + 1) as nat, |k: int| column_at(x1, x2, y2 - y1, k) as i32)
    }
}

/// A column between the two ends lies between them.
pub proof fn lemma_column_between(x1: int, x2: int, rows: int, k: int)
    requires
        rows > 0,
        0 <= k <= rows,
    ensures
        x1 <= x2 ==> x1 <= column_at(x1, x2, rows, k) <= x2,
        x2 <= x1 ==> x2 <= column_at(x1, x2, rows, k) <= x1,
{
    let n = x1 * (rows - k) + x2 * k;
    let (lo, hi) = if x1 <= x2 {
        (x1, x2)
    } else {
        (x2, x1)
    };
    assert(lo * rows <= n <= hi * rows) by (nonlinear_arith)
        requires
            n == x1 * (rows - k) + x2 * k,
            0 <= k <= rows,
            lo <= x1 <= hi,
            lo <= x2 <= hi,
    ;
    if n >= 0 {
        lemma_div_sides(n, rows, hi);
        lemma_div_sides(n, rows, 0);
        if lo > 0 {
            lemma_div_sides(n, rows, lo);
        }
    } else {
        assert(-n <= (-lo) * rows) by (nonlinear_arith)
            requires
                lo * rows <= n,
        ;
        lemma_div_sides(-n, rows, -lo);
        lemma_div_sides(-n, rows, 0);
        if hi < 0 {
            assert(-n >= (-hi) * rows) by (nonlinear_arith)
                requires
                    n <= hi * rows,
            ;
            lemma_div_sides(-n, rows, -hi);
        }
    }
}

/// The columns of the line from `(x1, y1)` to `(x2, y2)`, one for every
/// row from `y1` to `y2`.
pub fn interpolate(y1: i32, x1: i32, y2: i32, x2: i32) -> (result: Vec<i32>)
    ensures
        result@ == interpolate_spec(y1 as int, x1 as int, y2 as int, x2 as int),
{
    let mut result: Vec<i32> = Vec::new();
    if y1 == y2 {
        result.push(x1);
        result.push(x2);
        assert(result@ =~= seq![x1, x2]);
        return result;
    }
    if y1 > y2 {
        assert(result@ =~= Seq::<i32>::empty());
        return result;
    }
    let rows: i64 = y2 as i64 - y1 as i64;
    let mut k: i64 = 0;
    while k <= rows
        invariant
            0 <= k <= rows + 1,
            rows == y2 - y1,
            rows > 0,
            result@.len() == k,
            forall|j: int|
                0 <= j < k ==> (#[trigger] result@[j]) == column_at(
                    x1 as int,
                    x2 as int,
                    rows as int,
                    j,
                ),
        decreases rows + 1 - k,
    {
        proof {
            lemma_mul_bound(x1 as int, rows - k, 0x8000_0000, 0x1_0000_0000);
            lemma_mul_bound(x2 as int, k as int, 0x8000_0000, 0x1_0000_0000);
            lemma_column_between(x1 as int, x2 as int, rows as int, k as int);
        }
        let n: i128 = (x1 as i128) * ((rows - k) as i128) + (x2 as i128) * (k as i128);
        let column: i128 = n / (rows as i128);
        result.push(column as i32);
        k += 1;
    }
    assert(result@ =~= interpolate_spec(y1 as int, x1 as int, y2 as int, x2 as int));
    result
}

/// A corner of a triangle on the screen: its column and its row.
pub type Corner = (i32, i32);

/// The three corners in the order of their rows. Corners in the same row
/// keep the order in which they were given.
pub open spec fn by_row(v1: Corner, v2: Corner, v3: Corner) -> (Corner, Corner, Corner) {
    let (a, b) = if v2.1 < v1.1 {
        (v2, v1)
    } else {
        (v1, v2)
    };
    if v3.1 < a.1 {
        (v3, a, b)
    } else if v3.1 < b.1 {
        (a, v3, b)
    } else {
        (a, b, v3)
    }
}

/// The left edge of the triangle with the given corners in the order of
/// their rows: the line from the first corner to the last.
pub open spec fn left_edge_spec(low: Corner, mid: Corner, high: Corner) -> Seq<i32> {
    interpolate_spec(low.1 as int, low.0 as int, high.1 as int, high.0 as int)
}

/// The right edge: the column of the middle corner for every row before
/// its own, then the line from the middle corner to the last.
pub open spec fn right_edge_spec(low: Corner, mid: Corner, high: Corner) -> Seq<i32> {
    interpolate_spec(low.1 as int, mid.0 as int, mid.1 as int, mid.0 as int).drop_last()
        + interpolate_spec(mid.1 as int, mid.0 as int, high.1 as int, high.0 as int)
}

/// The horizontal lines that fill the triangle, one for every row from
/// the first corner to the last: each from the left edge to the right.
pub open spec fn fill_triangle_spec(v1: Corner, v2: Corner, v3: Corner) -> Seq<(Corner, Corner)> {
    let (low, mid, high) = by_row(v1, v2, v3);
    Seq::new(
        (high.1 - low.1 + 1) as nat,
        |k: int|
            (
                (left_edge_spec(low, mid, high)[k], (low.1 + k) as i32),
                (right_edge_spec(low, mid, high)[k], (low.1 + k) as i32),
            ),
    )
}

/// The horizontal lines that fill the triangle with the given corners,
/// from its first row to its last.
pub fn fill_triangle(v1: Corner, v2: Corner, v3: Corner) -> (lines: Vec<(Corner, Corner)>)
    ensures
        lines@ == fill_triangle_spec(v1, v2, v3),
{
    let (a, b): (Corner, Corner) = if v2.1 < v1.1 {
        (v2, v1)
    } else {
        (v1, v2)
    };
    let (low, mid, high): (Corner, Corner, Corner) = if v3.1 < a.1 {
        (v3, a, b)
    } else if v3.1 < b.1 {
        (a, v3, b)
    } else {
        (a, b, v3)
    };
    let (x1, y1): (i32, i32) = low;
    let (x2, y2): (i32, i32) = mid;
    let (x3, y3): (i32, i32) = high;
    let left_edge: Vec<i32> = interpolate(y1, x1, y3, x3);
    let mut right_edge: Vec<i32> = interpolate(y1, x2, y2, x2);
    right_edge.pop();
    let mut rest: Vec<i32> = interpolate(y2, x2, y3, x3);
    right_edge.append(&mut rest);
    assert(right_edge@ =~= right_edge_spec(low, mid, high));
    let rows: i64 = y3 as i64 - y1 as i64;
    let mut lines: Vec<(Corner, Corner)> = Vec::new();
    let mut k: i64 = 0;
    while k <= rows
        invariant
            0 <= k <= rows + 1,
            rows == y3 - y1,
            y1 <= y2 <= y3,
            low == (x1, y1),
            mid == (x2, y2),
            high == (x3, y3),
            left_edge@ == left_edge_spec(low, mid, high),
            right_edge@ == right_edge_spec(low, mid, high),
            lines@.len() == k,
            forall|j: int|
                0 <= j < k ==> (#[trigger] lines@[j]) == (
                    (left_edge@[j], (y1 + j) as i32),
                    (right_edge@[j], (y1 + j) as i32),
                ),
        decreases rows + 1 - k,
    {
        let y: i32 = (y1 as i64 + k) as i32;
        let xl: i32 = left_edge[k as usize];
        let xr: i32 = right_edge[k as usize];
        lines.push(((xl, y), (xr, y)));
        k += 1;
    }
    assert(lines@ =~= fill_triangle_spec(v1, v2, v3));
    lines
}

/// A whole number of pixels from a scalar: rounded towards zero and
/// limited to the range of an `i32`.
pub open spec fn pixel_spec(v: int) -> int {
    let whole = toward_zero(v, ONE as int);
    if whole < i32::MIN {
        i32::MIN as int
    } else if whole > i32::MAX {
        i32::MAX as int
    } else {
        whole
    }
}

/// By how much a point at the depth `z` is scaled on the screen:
/// `fov / (fov + z) + zoom`.
pub open spec fn scale_spec(z: int, fov: int, zoom: int) -> int {
    quot(fov * ONE, fov + z) + zoom
}

/// Where a point of space lies on a screen of the given size, with the
/// middle of the screen straight ahead.
pub open spec fn project_spec(vertex: Vec3, width: int, height: int, fov: int, zoom: int) -> (
    int,
    int,
) {
    let scale = scale_spec(vertex.z, fov, zoom);
    (
        pixel_spec(times_spec(vertex.x, scale) + toward_zero(width, 2)),
        pixel_spec(times_spec(vertex.y, scale) + toward_zero(height, 2)),
    )
}

/// A whole number of pixels from a scalar.
fn pixel(v: i128) -> (p: i32)
    requires
        -0x4000_0000_0000_0000_0000_0000_0000_0000 <= v <= 0x4000_0000_0000_0000_0000_0000_0000_0000,
    ensures
        p == pixel_spec(v as int),
{
    let whole: i128 = v / (ONE as i128);
    if whole < i32::MIN as i128 {
        i32::MIN
    } else if whole > i32::MAX as i128 {
        i32::MAX
    } else {
        whole as i32
    }
}

/// Converts a point of space to a point of the screen. The point does
/// not lie at the depth `-fov`, where the projection has no value.
pub fn project(vertex: &Vector, width: i64, height: i64, fov: i64, zoom: i64) -> (at: (i32, i32))
    requires
        fov + vertex.z != 0,
        vertex@.within(SPAN as int),
        -REACH <= fov <= REACH,
        -REACH <= zoom <= REACH,
    ensures
        (at.0 as int, at.1 as int) == project_spec(
            vertex@,
            width as int,
            height as int,
            fov as int,
            zoom as int,
        ),
{
    let depth: i128 = fov as i128 + vertex.z as i128;
    let scale: i128 = div_floor(wide_mul(fov, ONE), depth) + zoom as i128;
    proof {
        lemma_mul_bound(fov as int, ONE as int, REACH as int, ONE as int);
        lemma_mul_bound(
            vertex.x as int,
            scale as int,
            SPAN as int,
            1_000_001_000_000_000_000,
        );
        lemma_mul_bound(
            vertex.y as int,
            scale as int,
            SPAN as int,
            1_000_001_000_000_000_000,
        );
    }
    let x_proj: i128 = div_floor((vertex.x as i128) * scale, ONE as i128) + (width / 2) as i128;
    let y_proj: i128 = div_floor((vertex.y as i128) * scale, ONE as i128) + (height / 2) as i128;
    (pixel(x_proj), pixel(y_proj))
}

/// The vector turned about the vertical axis by an angle in radians.
pub open spec fn rotate_y_spec(v: Vec3, angle: int) -> Vec3 {
    let c = cos_spec(angle);
    let s = sin_spec(angle);
    Vec3 {
        x: times_spec(c, v.x) + times_spec(s, v.z),
        y: v.y,
        z: times_spec(-s, v.x) + times_spec(c, v.z),
    }
}

/// Turns a vector about the vertical axis.
pub fn rotate_y(vec: &Vector, angle: i64) -> (turned: Vector)
    requires
        vec@.within(SPAN as int),
    ensures
        turned@ == rotate_y_spec(vec@, angle as int),
{
    let cos_a: i64 = cos(angle);
    let sin_a: i64 = sin(angle);
    proof {
        lemma_mul_bound(cos_a as int, vec.x as int, ONE as int, SPAN as int);
        lemma_mul_bound(sin_a as int, vec.z as int, ONE as int, SPAN as int);
        lemma_mul_bound(-sin_a, vec.x as int, ONE as int, SPAN as int);
        lemma_mul_bound(cos_a as int, vec.z as int, ONE as int, SPAN as int);
    }
    Vector::make(
        times(cos_a, vec.x) + times(sin_a, vec.z),
        vec.y,
        times(-sin_a, vec.x) + times(cos_a, vec.z),
    )
}

/// The corners of a triangle of space on a screen of the given size, seen
/// from five hundred units away. No corner lies five hundred units
/// behind the screen.
pub fn render_triangle(width: u32, height: u32, v1: Vector, v2: Vector, v3: Vector) -> (corners: (
    Corner,
    Corner,
    Corner,
))
    requires
        v1@.within(SPAN as int),
        v2@.within(SPAN as int),
        v3@.within(SPAN as int),
        500 * ONE + v1.z != 0,
        500 * ONE + v2.z != 0,
        500 * ONE + v3.z != 0,
    ensures
        (corners.0.0 as int, corners.0.1 as int) == outline_corner(v1@, width as int, height as int),
        (corners.1.0 as int, corners.1.1 as int) == outline_corner(v2@, width as int, height as int),
        (corners.2.0 as int, corners.2.1 as int) == outline_corner(v3@, width as int, height as int),
{
    let w: i64 = width as i64 * ONE;
    let h: i64 = height as i64 * ONE;
    (
        project(&v1, w, h, 500 * ONE, 0),
        project(&v2, w, h, 500 * ONE, 0),
        project(&v3, w, h, 500 * ONE, 0),
    )
}

/// Where a corner of an outlined triangle lies on the screen.
pub open spec fn outline_corner(vertex: Vec3, width: int, height: int) -> (int, int) {
    project_spec(vertex, width * ONE, height * ONE, 500 * ONE, 0)
}

} // verus!
