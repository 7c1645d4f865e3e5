//! Interpolation with barycentric weights: the depth of a pixel and its
//! position in a texture, from what the three vertices of its triangle
//! carry.
//!
//! Depths are kept in fixed point, `DEPTH_UNIT` steps to one unit of vertex
//! depth, and an interpolated depth is rounded down to a step.

use crate::barycentric::{
    contains, lemma_partition_of_unity, weight_scale, weight_u, weight_v, weight_w,
    PointBarycentricCoords, MAX_WEIGHT_SCALE,
};
use vstd::arithmetic::div_mod::{
    lemma_div_is_ordered, lemma_div_multiples_vanish, lemma_fundamental_div_mod,
    lemma_fundamental_div_mod_converse,
};
use vstd::math::{max, min};
use vstd::prelude::*;

verus! {

/// Steps of the depth buffer's scale in one unit of vertex depth.
pub const DEPTH_UNIT: i64 = 0x4000_0000;

/// The depth below every depth that a triangle can have: what a depth
/// buffer holds where nothing has been drawn.
pub const DEPTH_NEG_INFINITY: i64 = i64::MIN;

/// The quotient of `n` by `d` with its fraction dropped: rounded towards
/// zero.
pub open spec fn truncated_quotient(n: int, d: int) -> int {
    if n >= 0 {
        n / d
    } else {
        -((-n) / d)
    }
}

/// The depth at `p` in the triangle `a`, `b`, `c` whose vertices lie at the
/// depths `depths`: the weighted mean of the three, in steps of the depth
/// buffer's scale and rounded down.
pub open spec fn depth_at(
    a: (int, int),
    b: (int, int),
    c: (int, int),
    depths: (int, int, int),
    p: (int, int),
) -> int {
    (DEPTH_UNIT as int * (weight_w(a, b, c, p) * depths.0 + weight_u(a, b, c, p) * depths.1
        + weight_v(a, b, c, p) * depths.2)) / weight_scale(a, b, c)
}

/// One coordinate of the texture position at `p`: the sum of the three
/// vertex coordinates `t`, each multiplied by its weight and then rounded
/// towards zero.
pub open spec fn texel_at(
    a: (int, int),
    b: (int, int),
    c: (int, int),
    t: (int, int, int),
    p: (int, int),
) -> int {
    truncated_quotient(weight_w(a, b, c, p) * t.0, weight_scale(a, b, c)) + truncated_quotient(
        weight_u(a, b, c, p) * t.1,
        weight_scale(a, b, c),
    ) + truncated_quotient(weight_v(a, b, c, p) * t.2, weight_scale(a, b, c))
}

/// The quotient of `n` by a positive `d`, rounded down.
pub fn floor_div(n: i128, d: i128) -> (q: i128)
    requires
        d > 0,
        n > i128::MIN,
    ensures
        q == n as int / d as int,
{
    let q = n / d;
    let r = n % d;
    proof {
        if n < 0 {
            lemma_fundamental_div_mod(-n, d as int);
            let t = (-n) / (d as int);
            let s = (-n) % (d as int);
            assert(d * t == t * d) by (nonlinear_arith);
            if s > 0 {
                assert(n == (-t - 1) * d + (d - s)) by (nonlinear_arith)
                    requires
                        -n == t * d + s,
                ;
                lemma_fundamental_div_mod_converse(n as int, d as int, -t - 1, d - s);
            } else {
                assert(n == (-t) * d + 0) by (nonlinear_arith)
                    requires
                        -n == t * d + s,
                        s == 0,
                ;
                lemma_fundamental_div_mod_converse(n as int, d as int, -t, 0);
            }
        }
    }
    if r < 0 {
        q - 1
    } else {
        q
    }
}

/// A weight times a 32-bit value stays within the weight times 2^31.
proof fn lemma_weighted_value(weight: int, value: int)
    requires
        0 <= weight <= MAX_WEIGHT_SCALE,
        i32::MIN <= value <= i32::MAX,
    ensures
        -0x1_0000_0000_0000_0000_0000_0000 <= weight * value <= 0x1_0000_0000_0000_0000_0000_0000,
        -weight * 0x8000_0000 <= weight * value <= weight * 0x7fff_ffff,
{
    assert(-weight * 0x8000_0000 <= weight * value <= weight * 0x7fff_ffff) by (nonlinear_arith)
        requires
            0 <= weight,
            -0x8000_0000 <= value <= 0x7fff_ffff,
    ;
}

/// A truncated quotient lies between zero and the true quotient.
proof fn lemma_truncated_quotient(n: int, d: int)
    requires
        d > 0,
    ensures
        n >= 0 ==> 0 <= d * truncated_quotient(n, d) <= n,
        n <= 0 ==> n <= d * truncated_quotient(n, d) <= 0,
{
    if n >= 0 {
        lemma_fundamental_div_mod(n, d);
        assert(0 <= d * (n / d)) by (nonlinear_arith)
            requires
                d > 0,
                n == d * (n / d) + n % d,
                0 <= n % d < d,
                n >= 0,
        ;
    } else {
        lemma_fundamental_div_mod(-n, d);
        let t = (-n) / d;
        assert(0 <= d * t) by (nonlinear_arith)
            requires
                d > 0,
                -n == d * t + (-n) % d,
                0 <= (-n) % d < d,
                -n >= 0,
        ;
        assert(d * (-t) == -(d * t)) by (nonlinear_arith);
    }
}

/// A truncated quotient lies between two integers that the true quotient
/// lies between.
pub proof fn lemma_truncated_quotient_between(n: int, d: int, lo: int, hi: int)
    requires
        d > 0,
        d * lo <= n <= d * hi,
    ensures
        lo <= truncated_quotient(n, d) <= hi,
{
    if n >= 0 {
        lemma_fundamental_div_mod(n, d);
        let q = n / d;
        assert(lo <= q <= hi) by (nonlinear_arith)
            requires
                d > 0,
                d * lo <= n <= d * hi,
                n == d * q + n % d,
                0 <= n % d < d,
        ;
    } else {
        lemma_fundamental_div_mod(-n, d);
        let t = (-n) / d;
        assert(lo <= -t <= hi) by (nonlinear_arith)
            requires
                d > 0,
                d * lo <= n <= d * hi,
                -n == d * t + (-n) % d,
                0 <= (-n) % d < d,
        ;
    }
}

impl PointBarycentricCoords {
    /// The weighted mean of three depths, in steps of the depth buffer's
    /// scale and rounded down.
    pub open spec fn spec_depth(self, z0: int, z1: int, z2: int) -> int {
        (DEPTH_UNIT as int * (self.w * z0 + self.u * z1 + self.v * z2)) / (self.det as int)
    }

    /// One texture coordinate: the sum of three vertex coordinates, each
    /// multiplied by its weight and then rounded towards zero.
    pub open spec fn spec_texel(self, t0: int, t1: int, t2: int) -> int {
        truncated_quotient(self.w * t0, self.det as int) + truncated_quotient(
            self.u * t1,
            self.det as int,
        ) + truncated_quotient(self.v * t2, self.det as int)
    }

    /// Interpolates the depths `z0`, `z1`, `z2` of the first, second and
    /// third vertex.
    pub fn depth(&self, z0: i32, z1: i32, z2: i32) -> (z: i64)
        requires
            self.wf(),
        ensures
            z == self.spec_depth(z0 as int, z1 as int, z2 as int),
            DEPTH_UNIT * min(z0 as int, min(z1 as int, z2 as int)) <= z <= DEPTH_UNIT * max(
                z0 as int,
                max(z1 as int, z2 as int),
            ),
            z > DEPTH_NEG_INFINITY,
    {
        let ghost lo = min(z0 as int, min(z1 as int, z2 as int));
        let ghost hi = max(z0 as int, max(z1 as int, z2 as int));
        let ghost total = self.w * z0 + self.u * z1 + self.v * z2;
        proof {
            lemma_weighted_value(self.w as int, z0 as int);
            lemma_weighted_value(self.u as int, z1 as int);
            lemma_weighted_value(self.v as int, z2 as int);
            lemma_weighted_total_bounds(
                self.det as int,
                self.w as int,
                self.u as int,
                self.v as int,
                z0 as int,
                z1 as int,
                z2 as int,
            );
            assert(self.det * lo >= -0x1_0000_0000_0000_0000_0000_0000 && self.det * hi
                <= 0x1_0000_0000_0000_0000_0000_0000) by (nonlinear_arith)
                requires
                    0 < self.det <= 0x2_0000_0000_0000_0000,
                    -0x8000_0000 <= lo,
                    hi <= 0x7fff_ffff,
            ;
            assert(-0x1_0000_0000_0000_0000_0000_0000 <= total <= 0x1_0000_0000_0000_0000_0000_0000);
            assert(DEPTH_UNIT == 0x4000_0000);
        }
        let sum: i128 = self.w * z0 as i128 + self.u * z1 as i128 + self.v * z2 as i128;
        assert(sum == total);
        assert(sum * DEPTH_UNIT == sum * 0x4000_0000);
        let scaled: i128 = sum * DEPTH_UNIT as i128;
        let z = floor_div(scaled, self.det);
        proof {
            assert(scaled == DEPTH_UNIT as int * total);
            lemma_mean_depth_bounds(
                self.det as int,
                self.w as int,
                self.u as int,
                self.v as int,
                z0 as int,
                z1 as int,
                z2 as int,
            );
        }
        z as i64
    }

    /// Interpolates one texture coordinate from those of the first, second
    /// and third vertex.
    pub fn texel(&self, t0: i32, t1: i32, t2: i32) -> (t: i32)
        requires
            self.wf(),
        ensures
            t == self.spec_texel(t0 as int, t1 as int, t2 as int),
    {
        proof {
            let d = self.det as int;
            lemma_weighted_value(self.w as int, t0 as int);
            lemma_weighted_value(self.u as int, t1 as int);
            lemma_weighted_value(self.v as int, t2 as int);
            lemma_truncated_quotient(self.w * t0, d);
            lemma_truncated_quotient(self.u * t1, d);
            lemma_truncated_quotient(self.v * t2, d);
            let q0 = truncated_quotient(self.w * t0, d);
            let q1 = truncated_quotient(self.u * t1, d);
            let q2 = truncated_quotient(self.v * t2, d);
            assert(-self.w * 0x8000_0000 <= d * q0 <= self.w * 0x7fff_ffff);
            assert(-self.u * 0x8000_0000 <= d * q1 <= self.u * 0x7fff_ffff);
            assert(-self.v * 0x8000_0000 <= d * q2 <= self.v * 0x7fff_ffff);
            assert(d * (q0 + q1 + q2) == d * q0 + d * q1 + d * q2) by (nonlinear_arith);
            assert(-0x8000_0000 <= q0 + q1 + q2 <= 0x7fff_ffff && -0x8000_0000 <= q0 + q1
                <= 0x7fff_ffff && -0x8000_0000 <= q0 <= 0x7fff_ffff && -0x8000_0000 <= q1
                <= 0x7fff_ffff && -0x8000_0000 <= q2 <= 0x7fff_ffff) by (nonlinear_arith)
                requires
                    d > 0,
                    self.w >= 0,
                    self.u >= 0,
                    self.v >= 0,
                    self.w + self.u + self.v == d,
                    -self.w * 0x8000_0000 <= d * q0 <= self.w * 0x7fff_ffff,
                    -self.u * 0x8000_0000 <= d * q1 <= self.u * 0x7fff_ffff,
                    -self.v * 0x8000_0000 <= d * q2 <= self.v * 0x7fff_ffff,
            ;
        }
        let from_first: i128 = (self.w * t0 as i128) / self.det;
        let from_second: i128 = (self.u * t1 as i128) / self.det;
        let from_third: i128 = (self.v * t2 as i128) / self.det;
        (from_first + from_second + from_third) as i32
    }
}

/// An interpolated depth lies between the least and the greatest of the
/// three vertex depths, in steps of the depth buffer's scale.
pub proof fn lemma_mean_depth_bounds(
    scale: int,
    w: int,
    u: int,
    v: int,
    z0: int,
    z1: int,
    z2: int,
)
    requires
        scale > 0,
        w >= 0,
        u >= 0,
        v >= 0,
        w + u + v == scale,
    ensures
        DEPTH_UNIT * min(z0, min(z1, z2)) <= (DEPTH_UNIT as int * (w * z0 + u * z1 + v * z2))
            / scale <= DEPTH_UNIT * max(z0, max(z1, z2)),
{
    let lo = min(z0, min(z1, z2));
    let hi = max(z0, max(z1, z2));
    let total = w * z0 + u * z1 + v * z2;
    let scaled = DEPTH_UNIT as int * total;
    lemma_weighted_total_bounds(scale, w, u, v, z0, z1, z2);
    assert(scale * (0x4000_0000 * lo) <= scaled && scaled <= scale * (0x4000_0000 * hi)) by (nonlinear_arith)
        requires
            scaled == 0x4000_0000 * total,
            scale * lo <= total <= scale * hi,
    ;
    lemma_div_is_ordered(scale * (0x4000_0000 * lo), scaled, scale);
    lemma_div_is_ordered(scaled, scale * (0x4000_0000 * hi), scale);
    lemma_div_multiples_vanish(0x4000_0000 * lo, scale);
    lemma_div_multiples_vanish(0x4000_0000 * hi, scale);
}

/// The depth of a triangle at a pixel inside it lies between the least and
/// the greatest of the depths of its vertices.
pub proof fn lemma_depth_at_bounds(
    a: (int, int),
    b: (int, int),
    c: (int, int),
    depths: (int, int, int),
    p: (int, int),
)
    requires
        contains(a, b, c, p),
    ensures
        DEPTH_UNIT * min(depths.0, min(depths.1, depths.2)) <= depth_at(a, b, c, depths, p)
            <= DEPTH_UNIT * max(depths.0, max(depths.1, depths.2)),
{
    lemma_partition_of_unity(a, b, c, p);
    lemma_mean_depth_bounds(
        weight_scale(a, b, c),
        weight_w(a, b, c, p),
        weight_u(a, b, c, p),
        weight_v(a, b, c, p),
        depths.0,
        depths.1,
        depths.2,
    );
}

/// The weighted sum of three values lies between the least and the
/// greatest of them, each times the sum of the weights.
pub proof fn lemma_weighted_total_bounds(
    scale: int,
    w: int,
    u: int,
    v: int,
    a: int,
    b: int,
    c: int,
)
    requires
        w >= 0,
        u >= 0,
        v >= 0,
        w + u + v == scale,
    ensures
        scale * min(a, min(b, c)) <= w * a + u * b + v * c <= scale * max(a, max(b, c)),
{
    let lo = min(a, min(b, c));
    let hi = max(a, max(b, c));
    assert(w * lo <= w * a <= w * hi) by (nonlinear_arith)
        requires
            w >= 0,
            lo <= a <= hi,
    ;
    assert(u * lo <= u * b <= u * hi) by (nonlinear_arith)
        requires
            u >= 0,
            lo <= b <= hi,
    ;
    assert(v * lo <= v * c <= v * hi) by (nonlinear_arith)
        requires
            v >= 0,
            lo <= c <= hi,
    ;
    assert(scale * lo == w * lo + u * lo + v * lo && scale * hi == w * hi + u * hi + v * hi)
        by (nonlinear_arith)
        requires
            w + u + v == scale,
    ;
}

} // verus!
