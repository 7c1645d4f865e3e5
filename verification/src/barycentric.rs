//! Barycentric coordinates of a point with respect to a triangle, and the
//! bounding box that limits the pixels a triangle can cover.
//!
//! The coordinates are kept exact: each weight is a ratio of two integers,
//! and the three weights of a point share their denominator. The weight
//! `w` belongs to the first vertex of the triangle, `u` to the second and
//! `v` to the third.

use crate::geometry::{Vector2, Vector2Int, XYAxis};
use crate::numeric::{one, zero};
use vstd::math::{max, min};
use vstd::prelude::*;

verus! {

/// The weights of a point inside a triangle, as numerators over the common
/// denominator `det`, which is positive. The point is
/// `(w * first + u * second + v * third) / det`.
#[derive(Copy, Clone, Debug, PartialEq, Eq, Structural)]
pub struct PointBarycentricCoords {
    pub u: i128,
    pub v: i128,
    pub w: i128,
    pub det: i128,
}

/// The greatest denominator that the weights of a triangle between 32-bit
/// positions can have.
pub const MAX_WEIGHT_SCALE: i128 = 0x2_0000_0000_0000_0000;

impl PointBarycentricCoords {
    /// The weights are numerators over a positive denominator that they
    /// add up to, and none is negative.
    pub open spec fn wf(self) -> bool {
        &&& 0 < self.det <= MAX_WEIGHT_SCALE
        &&& self.u >= 0
        &&& self.v >= 0
        &&& self.w >= 0
        &&& self.u + self.v + self.w == self.det
    }
}

/// Twice the signed area of the triangle `a`, `b`, `c`: zero exactly when
/// the three points lie on one line.
pub open spec fn determinant(a: (int, int), b: (int, int), c: (int, int)) -> int {
    (b.0 - a.0) * (c.1 - a.1) - (b.1 - a.1) * (c.0 - a.0)
}

/// A value measured against the triangle's orientation: itself for a
/// triangle whose determinant is positive, its opposite for one whose
/// determinant is negative.
pub open spec fn oriented(a: (int, int), b: (int, int), c: (int, int), value: int) -> int {
    if determinant(a, b, c) < 0 {
        -value
    } else {
        value
    }
}

/// The common denominator of the weights: twice the area of the triangle.
pub open spec fn weight_scale(a: (int, int), b: (int, int), c: (int, int)) -> int {
    oriented(a, b, c, determinant(a, b, c))
}

/// Numerator of the weight of `b` at `p`: twice the area that `p` spans
/// with the opposite side, positive where `p` lies on the side of `b`.
pub open spec fn weight_u(a: (int, int), b: (int, int), c: (int, int), p: (int, int)) -> int {
    oriented(a, b, c, determinant(a, p, c))
}

/// Numerator of the weight of `c` at `p`.
pub open spec fn weight_v(a: (int, int), b: (int, int), c: (int, int), p: (int, int)) -> int {
    oriented(a, b, c, determinant(a, b, p))
}

/// Numerator of the weight of `a` at `p`: what the other two leave of the
/// whole.
pub open spec fn weight_w(a: (int, int), b: (int, int), c: (int, int), p: (int, int)) -> int {
    weight_scale(a, b, c) - weight_u(a, b, c, p) - weight_v(a, b, c, p)
}

/// Whether `p` lies in the triangle, its sides and corners included. A
/// triangle without area contains no point.
pub open spec fn contains(a: (int, int), b: (int, int), c: (int, int), p: (int, int)) -> bool {
    &&& determinant(a, b, c) != 0
    &&& weight_u(a, b, c, p) >= 0
    &&& weight_v(a, b, c, p) >= 0
    &&& weight_w(a, b, c, p) >= 0
}

/// The integer position of a vertex.
pub open spec fn position<P: XYAxis<i32>>(vertex: &P) -> (int, int) {
    (vertex.spec_x() as int, vertex.spec_y() as int)
}

/// `(a - b) * (c - d)` multiplied out.
pub proof fn lemma_product_of_differences(a: int, b: int, c: int, d: int)
    ensures
        (a - b) * (c - d) == a * c - a * d - b * c + b * d,
{
    assert((a - b) * (c - d) == a * c - a * d - b * c + b * d) by (nonlinear_arith);
}

/// Partition of unity: the three weights of any point add up to the whole.
pub proof fn lemma_partition_of_unity(
    a: (int, int),
    b: (int, int),
    c: (int, int),
    p: (int, int),
)
    ensures
        weight_u(a, b, c, p) + weight_v(a, b, c, p) + weight_w(a, b, c, p) == weight_scale(a, b, c),
        determinant(a, b, c) != 0 ==> weight_scale(a, b, c) > 0,
        weight_w(a, b, c, p) == oriented(a, b, c, determinant(p, b, c)),
{
    lemma_product_of_differences(p.0, a.0, c.1, a.1);
    lemma_product_of_differences(p.1, a.1, c.0, a.0);
    lemma_product_of_differences(b.0, a.0, p.1, a.1);
    lemma_product_of_differences(b.1, a.1, p.0, a.0);
    lemma_product_of_differences(b.0, p.0, c.1, p.1);
    lemma_product_of_differences(b.1, p.1, c.0, p.0);
    lemma_product_of_differences(b.0, a.0, c.1, a.1);
    lemma_product_of_differences(b.1, a.1, c.0, a.0);
    assert(determinant(a, p, c) + determinant(a, b, p) + determinant(p, b, c) == determinant(
        a,
        b,
        c,
    ));
}

/// Vertex exactness: at a vertex of a triangle with area, that vertex has
/// the whole weight and the other two have none.
pub proof fn lemma_vertex_weights(a: (int, int), b: (int, int), c: (int, int))
    requires
        determinant(a, b, c) != 0,
    ensures
        weight_w(a, b, c, a) == weight_scale(a, b, c),
        weight_u(a, b, c, a) == 0,
        weight_v(a, b, c, a) == 0,
        weight_w(a, b, c, b) == 0,
        weight_u(a, b, c, b) == weight_scale(a, b, c),
        weight_v(a, b, c, b) == 0,
        weight_w(a, b, c, c) == 0,
        weight_u(a, b, c, c) == 0,
        weight_v(a, b, c, c) == weight_scale(a, b, c),
        contains(a, b, c, a),
        contains(a, b, c, b),
        contains(a, b, c, c),
{
    lemma_product_of_differences(b.0, a.0, b.1, a.1);
    lemma_product_of_differences(b.1, a.1, b.0, a.0);
    lemma_product_of_differences(c.0, a.0, c.1, a.1);
    lemma_product_of_differences(c.1, a.1, c.0, a.0);
    assert(determinant(a, a, c) == 0);
    assert(determinant(a, b, a) == 0);
    assert(determinant(a, b, b) == 0);
    assert(determinant(a, c, c) == 0);
    lemma_partition_of_unity(a, b, c, a);
    lemma_partition_of_unity(a, b, c, b);
    lemma_partition_of_unity(a, b, c, c);
}

/// The product of two differences of 32-bit integers.
proof fn lemma_difference_product(x: int, y: int)
    requires
        -0xffff_ffff <= x <= 0xffff_ffff,
        -0xffff_ffff <= y <= 0xffff_ffff,
    ensures
        -0x1_0000_0000_0000_0000 < x * y < 0x1_0000_0000_0000_0000,
{
    assert(-0x1_0000_0000_0000_0000 < x * y < 0x1_0000_0000_0000_0000) by (nonlinear_arith)
        requires
            -0xffff_ffff <= x <= 0xffff_ffff,
            -0xffff_ffff <= y <= 0xffff_ffff,
    ;
}

/// Whether the triangle has no area: its three vertices lie on one line.
pub fn is_degenerate(v1: &Vector2Int, v2: &Vector2Int, v3: &Vector2Int) -> (flat: bool)
    ensures
        flat == (determinant(position(v1), position(v2), position(v3)) == 0),
{
    let side_one_x: i128 = v2.x as i128 - v1.x as i128;
    let side_one_y: i128 = v2.y as i128 - v1.y as i128;
    let side_two_x: i128 = v3.x as i128 - v1.x as i128;
    let side_two_y: i128 = v3.y as i128 - v1.y as i128;
    proof {
        lemma_difference_product(side_one_x as int, side_two_y as int);
        lemma_difference_product(side_one_y as int, side_two_x as int);
    }
    side_one_x * side_two_y - side_one_y * side_two_x == zero() as i128
}

/// Solves for the barycentric coordinates of `point` in the triangle
/// `triangle_points`.
///
/// Returns the weights where the point lies in the triangle, sides and
/// corners included, and `None` where it lies outside or the triangle has
/// no area.
pub fn barycentric<U: XYAxis<i32>, V: XYAxis<i32>>(triangle_points: &[U; 3], point: V) -> (coords:
    Option<PointBarycentricCoords>)
    ensures
        coords is Some <==> contains(
            position(&triangle_points[0]),
            position(&triangle_points[1]),
            position(&triangle_points[2]),
            position(&point),
        ),
        coords matches Some(c) ==> {
            let a = position(&triangle_points[0]);
            let b = position(&triangle_points[1]);
            let c3 = position(&triangle_points[2]);
            let p = position(&point);
            &&& c.u == weight_u(a, b, c3, p)
            &&& c.v == weight_v(a, b, c3, p)
            &&& c.w == weight_w(a, b, c3, p)
            &&& c.det == weight_scale(a, b, c3)
            &&& c.wf()
        },
{
    let ghost a = position(&triangle_points[0]);
    let ghost b = position(&triangle_points[1]);
    let ghost c = position(&triangle_points[2]);
    let ghost p = position(&point);
    // the point and the two sides that leave the first vertex, seen from
    // that vertex
    let point_vec_x: i128 = point.get_x() as i128 - triangle_points[0].get_x() as i128;
    let point_vec_y: i128 = point.get_y() as i128 - triangle_points[0].get_y() as i128;
    let side_one_x: i128 = triangle_points[1].get_x() as i128 - triangle_points[0].get_x() as i128;
    let side_one_y: i128 = triangle_points[1].get_y() as i128 - triangle_points[0].get_y() as i128;
    let side_two_x: i128 = triangle_points[2].get_x() as i128 - triangle_points[0].get_x() as i128;
    let side_two_y: i128 = triangle_points[2].get_y() as i128 - triangle_points[0].get_y() as i128;
    proof {
        lemma_difference_product(side_one_x as int, side_two_y as int);
        lemma_difference_product(side_one_y as int, side_two_x as int);
        lemma_difference_product(side_two_y as int, point_vec_x as int);
        lemma_difference_product(side_two_x as int, point_vec_y as int);
        lemma_difference_product(side_one_y as int, point_vec_x as int);
        lemma_difference_product(side_one_x as int, point_vec_y as int);
        lemma_partition_of_unity(a, b, c, p);
    }
    let det: i128 = side_one_x * side_two_y - side_one_y * side_two_x;
    if det == zero() as i128 {
        return None;
    }
    // the matrix of the two sides is
    // | s1.x  s2.x |
    // | s1.y  s2.y |
    // and its adjugate, which turns the point into the weights times the
    // determinant, is
    // |  s2.y  -s2.x |
    // | -s1.y   s1.x |
    let adj_coeffs = ((side_two_y, -side_two_x), (-side_one_y, side_one_x));
    proof {
        assert((-side_two_x) * point_vec_y == -(side_two_x * point_vec_y)) by (nonlinear_arith);
        assert((-side_one_y) * point_vec_x == -(side_one_y * point_vec_x)) by (nonlinear_arith);
    }
    let result = (
        adj_coeffs.0.0 * point_vec_x + adj_coeffs.0.1 * point_vec_y,
        adj_coeffs.1.0 * point_vec_x + adj_coeffs.1.1 * point_vec_y,
    );
    proof {
        assert(result.0 == determinant(a, p, c)) by (nonlinear_arith)
            requires
                result.0 == side_two_y * point_vec_x - side_two_x * point_vec_y,
                determinant(a, p, c) == point_vec_x * side_two_y - point_vec_y * side_two_x,
        ;
        assert(result.1 == determinant(a, b, p)) by (nonlinear_arith)
            requires
                result.1 == -(side_one_y * point_vec_x) + side_one_x * point_vec_y,
                determinant(a, b, p) == side_one_x * point_vec_y - side_one_y * point_vec_x,
        ;
    }
    let (u, v, det) = if det < 0 {
        (-result.0, -result.1, -det)
    } else {
        (result.0, result.1, det)
    };
    let w = det - u - v;
    if u >= 0 && v >= 0 && w >= 0 {
        Some(PointBarycentricCoords { u, v, w, det })
    } else {
        None
    }
}

/// Lower corner of the bounding box on one axis: the smallest of the three
/// vertex coordinates, but not less than 0.
pub open spec fn box_lower(a: int, b: int, c: int) -> int {
    max(0, min(a, min(b, c)))
}

/// Upper corner of the bounding box on one axis: the largest of the three
/// vertex coordinates, but not more than the last pixel, `size - 1`.
pub open spec fn box_upper(a: int, b: int, c: int, size: int) -> int {
    min(size - 1, max(a, max(b, c)))
}

/// Whether `p` lies in the bounding box that `boundary_box_setup` gives the
/// triangle `a`, `b`, `c` in an image of `width` by `height` pixels.
pub open spec fn in_boundary_box(
    a: (int, int),
    b: (int, int),
    c: (int, int),
    width: int,
    height: int,
    p: (int, int),
) -> bool {
    &&& box_lower(a.0, b.0, c.0) <= p.0 <= box_upper(a.0, b.0, c.0, width)
    &&& box_lower(a.1, b.1, c.1) <= p.1 <= box_upper(a.1, b.1, c.1, height)
}

/// Cramer's rule for two unknowns: the determinant of two vectors times a
/// third is the sum of the two, each times the determinant in which the
/// third takes the place of the other.
pub proof fn lemma_cramer(bx: int, by: int, cx: int, cy: int, px: int, py: int)
    ensures
        (bx * cy - by * cx) * px == (px * cy - py * cx) * bx + (bx * py - by * px) * cx,
        (bx * cy - by * cx) * py == (px * cy - py * cx) * by + (bx * py - by * px) * cy,
{
    assert((bx * cy - by * cx) * px == (bx * cy) * px - (by * cx) * px) by (nonlinear_arith);
    assert((px * cy - py * cx) * bx == (px * cy) * bx - (py * cx) * bx) by (nonlinear_arith);
    assert((bx * py - by * px) * cx == (bx * py) * cx - (by * px) * cx) by (nonlinear_arith);
    assert((bx * cy) * px == (px * cy) * bx) by (nonlinear_arith);
    assert((py * cx) * bx == (bx * py) * cx) by (nonlinear_arith);
    assert((by * cx) * px == (by * px) * cx) by (nonlinear_arith);
    assert((bx * cy - by * cx) * py == (bx * cy) * py - (by * cx) * py) by (nonlinear_arith);
    assert((px * cy - py * cx) * by == (px * cy) * by - (py * cx) * by) by (nonlinear_arith);
    assert((bx * py - by * px) * cy == (bx * py) * cy - (by * px) * cy) by (nonlinear_arith);
    assert((bx * cy) * py == (bx * py) * cy) by (nonlinear_arith);
    assert((by * cx) * py == (py * cx) * by) by (nonlinear_arith);
    assert((px * cy) * by == (by * px) * cy) by (nonlinear_arith);
}

/// A triangle that lies wholly beside the image has an empty bounding box:
/// on the axis on which it lies beside it, the lower corner is greater than
/// the upper.
pub proof fn lemma_boundary_box_beside_image(a: int, b: int, c: int, size: int)
    requires
        size >= 0,
        max(a, max(b, c)) < 0 || min(a, min(b, c)) >= size,
    ensures
        box_lower(a, b, c) > box_upper(a, b, c, size),
{
}

/// The weights of a point give back its position: scaled by the common
/// denominator, each coordinate of the point is the weighted sum of the
/// vertex coordinates.
pub proof fn lemma_weighted_position(a: (int, int), b: (int, int), c: (int, int), p: (int, int))
    ensures
        weight_scale(a, b, c) * p.0 == weight_w(a, b, c, p) * a.0 + weight_u(a, b, c, p) * b.0
            + weight_v(a, b, c, p) * c.0,
        weight_scale(a, b, c) * p.1 == weight_w(a, b, c, p) * a.1 + weight_u(a, b, c, p) * b.1
            + weight_v(a, b, c, p) * c.1,
{
    let d = determinant(a, b, c);
    let u = determinant(a, p, c);
    let v = determinant(a, b, p);
    lemma_cramer(b.0 - a.0, b.1 - a.1, c.0 - a.0, c.1 - a.1, p.0 - a.0, p.1 - a.1);
    assert(d * (p.0 - a.0) == u * (b.0 - a.0) + v * (c.0 - a.0));
    assert(d * (p.1 - a.1) == u * (b.1 - a.1) + v * (c.1 - a.1));
    lemma_weighted_sum(d, u, v, a.0, b.0, c.0, p.0);
    lemma_weighted_sum(d, u, v, a.1, b.1, c.1, p.1);
    lemma_weighted_sum(-d, -u, -v, a.0, b.0, c.0, p.0);
    lemma_weighted_sum(-d, -u, -v, a.1, b.1, c.1, p.1);
    assert((-d) * (p.0 - a.0) == -(d * (p.0 - a.0))) by (nonlinear_arith);
    assert((-u) * (b.0 - a.0) == -(u * (b.0 - a.0))) by (nonlinear_arith);
    assert((-v) * (c.0 - a.0) == -(v * (c.0 - a.0))) by (nonlinear_arith);
    assert((-d) * (p.1 - a.1) == -(d * (p.1 - a.1))) by (nonlinear_arith);
    assert((-u) * (b.1 - a.1) == -(u * (b.1 - a.1))) by (nonlinear_arith);
    assert((-v) * (c.1 - a.1) == -(v * (c.1 - a.1))) by (nonlinear_arith);
}

/// A sum of weighted offsets from `a`, written as a weighted sum of
/// positions.
pub proof fn lemma_weighted_sum(d: int, u: int, v: int, a: int, b: int, c: int, p: int)
    ensures
        d * (p - a) == u * (b - a) + v * (c - a) ==> d * p == (d - u - v) * a + u * b + v * c,
{
    assert(d * (p - a) == d * p - d * a) by (nonlinear_arith);
    assert(u * (b - a) == u * b - u * a) by (nonlinear_arith);
    assert(v * (c - a) == v * c - v * a) by (nonlinear_arith);
    assert((d - u - v) * a == d * a - u * a - v * a) by (nonlinear_arith);
}

/// A weighted mean lies between the least and the greatest of the values:
/// with weights that are not negative and add up to `scale`, which is
/// positive, `scale * mean == w * a + u * b + v * c` puts `mean` between
/// them.
pub proof fn lemma_weighted_mean_bounds(
    scale: int,
    w: int,
    u: int,
    v: int,
    a: int,
    b: int,
    c: int,
    mean: int,
)
    requires
        scale > 0,
        w >= 0,
        u >= 0,
        v >= 0,
        w + u + v == scale,
        scale * mean == w * a + u * b + v * c,
    ensures
        min(a, min(b, c)) <= mean <= max(a, max(b, c)),
{
    let lo = min(a, min(b, c));
    let hi = max(a, max(b, c));
    assert(w * lo <= w * a <= w * hi) by (nonlinear_arith)
        requires
            w >= 0,
            lo <= a <= hi,
    ;
    assert(u * lo <= u * b <= u * hi) by (nonlinear_arith)
        requires
            u >= 0,
            lo <= b <= hi,
    ;
    assert(v * lo <= v * c <= v * hi) by (nonlinear_arith)
        requires
            v >= 0,
            lo <= c <= hi,
    ;
    assert(scale * lo == w * lo + u * lo + v * lo && scale * hi == w * hi + u * hi + v * hi)
        by (nonlinear_arith)
        requires
            w + u + v == scale,
    ;
    assert(lo <= mean <= hi) by (nonlinear_arith)
        requires
            scale > 0,
            scale * lo <= scale * mean <= scale * hi,
    ;
}

/// Bounding-box containment: a pixel of the image that lies in the triangle
/// lies in the triangle's bounding box.
pub proof fn lemma_contained_in_boundary_box(
    a: (int, int),
    b: (int, int),
    c: (int, int),
    width: int,
    height: int,
    p: (int, int),
)
    requires
        contains(a, b, c, p),
        0 <= p.0 < width,
        0 <= p.1 < height,
    ensures
        in_boundary_box(a, b, c, width, height, p),
{
    lemma_partition_of_unity(a, b, c, p);
    lemma_weighted_position(a, b, c, p);
    lemma_weighted_mean_bounds(
        weight_scale(a, b, c),
        weight_w(a, b, c, p),
        weight_u(a, b, c, p),
        weight_v(a, b, c, p),
        a.0,
        b.0,
        c.0,
        p.0,
    );
    lemma_weighted_mean_bounds(
        weight_scale(a, b, c),
        weight_w(a, b, c, p),
        weight_u(a, b, c, p),
        weight_v(a, b, c, p),
        a.1,
        b.1,
        c.1,
        p.1,
    );
}

/// The bounding box of a triangle, clamped to an image of `width` by
/// `height` pixels: its lower and its upper corner.
///
/// Each axis is clamped by itself. Where the triangle lies beside the
/// image, the lower corner is greater than the upper on some axis, and the
/// box is empty.
pub fn boundary_box_setup(points: &[Vector2Int; 3], width: u32, height: u32) -> (corners: (
    Vector2Int,
    Vector2Int,
))
    ensures
        corners.0.x == box_lower(points[0].x as int, points[1].x as int, points[2].x as int),
        corners.0.y == box_lower(points[0].y as int, points[1].y as int, points[2].y as int),
        corners.1.x == box_upper(
            points[0].x as int,
            points[1].x as int,
            points[2].x as int,
            width as int,
        ),
        corners.1.y == box_upper(
            points[0].y as int,
            points[1].y as int,
            points[2].y as int,
            height as int,
        ),
{
    let mut boundary_box_min: (i64, i64) = (i32::MAX as i64, i32::MAX as i64);
    let mut boundary_box_max: (i64, i64) = (i32::MIN as i64, i32::MIN as i64);
    let clamp: (i64, i64) = (width as i64 - one() as i64, height as i64 - one() as i64);
    let floor: i64 = zero() as i64;
    let ghost xs = (points[0].x as int, points[1].x as int, points[2].x as int);
    let ghost ys = (points[0].y as int, points[1].y as int, points[2].y as int);
    let mut i: usize = 0;
    while i < 3
        invariant
            i <= 3,
            floor == 0,
            clamp.0 == width - 1,
            clamp.1 == height - 1,
            xs == (points[0].x as int, points[1].x as int, points[2].x as int),
            ys == (points[0].y as int, points[1].y as int, points[2].y as int),
            i == 0 ==> boundary_box_min.0 == i32::MAX && boundary_box_min.1 == i32::MAX,
            i == 0 ==> boundary_box_max.0 == i32::MIN && boundary_box_max.1 == i32::MIN,
            i > 0 ==> boundary_box_min.0 == max(0, least_of_first(xs, i as int)),
            i > 0 ==> boundary_box_min.1 == max(0, least_of_first(ys, i as int)),
            i > 0 ==> boundary_box_max.0 == min(width - 1, greatest_of_first(xs, i as int)),
            i > 0 ==> boundary_box_max.1 == min(height - 1, greatest_of_first(ys, i as int)),
        decreases 3 - i,
    {
        let point = points[i];
        boundary_box_min.0 = larger(floor, smaller(boundary_box_min.0, point.x as i64));
        boundary_box_min.1 = larger(floor, smaller(boundary_box_min.1, point.y as i64));
        boundary_box_max.0 = smaller(clamp.0, larger(boundary_box_max.0, point.x as i64));
        boundary_box_max.1 = smaller(clamp.1, larger(boundary_box_max.1, point.y as i64));
        i += 1;
    }
    (
        Vector2::new(boundary_box_min.0 as i32, boundary_box_min.1 as i32),
        Vector2::new(boundary_box_max.0 as i32, boundary_box_max.1 as i32),
    )
}

/// The least of the first `n` of three values, `n` being 1, 2 or 3.
pub open spec fn least_of_first(values: (int, int, int), n: int) -> int {
    if n <= 1 {
        values.0
    } else if n == 2 {
        min(values.0, values.1)
    } else {
        min(values.0, min(values.1, values.2))
    }
}

/// The greatest of the first `n` of three values, `n` being 1, 2 or 3.
pub open spec fn greatest_of_first(values: (int, int, int), n: int) -> int {
    if n <= 1 {
        values.0
    } else if n == 2 {
        max(values.0, values.1)
    } else {
        max(values.0, max(values.1, values.2))
    }
}

/// The lesser of two numbers.
fn smaller(a: i64, b: i64) -> (least: i64)
    ensures
        least == min(a as int, b as int),
{
    if a < b {
        a
    } else {
        b
    }
}

/// The greater of two numbers.
fn larger(a: i64, b: i64) -> (greatest: i64)
    ensures
        greatest == max(a as int, b as int),
{
    if a > b {
        a
    } else {
        b
    }
}

} // verus!
