//! The arithmetic of Bresenham's line algorithm.
//!
//! A segment is traced along its major axis, the axis on which it is
//! longer. While the major coordinate moves `i` steps away from the start,
//! the minor coordinate moves `minor_steps(major, minor, i)` steps: the
//! multiple of one step that is nearest to the ideal line, the nearer to
//! the start where two are equally near.

use vstd::arithmetic::div_mod::{lemma_fundamental_div_mod, lemma_fundamental_div_mod_converse};
use vstd::prelude::*;

verus! {

/// The absolute value of `v`.
pub open spec fn abs(v: int) -> int {
    if v < 0 {
        -v
    } else {
        v
    }
}

/// The sign of `v`: -1, 0 or 1.
pub open spec fn signum(v: int) -> int {
    if v < 0 {
        -1
    } else if v > 0 {
        1int
    } else {
        0
    }
}

/// Steps taken along the minor axis when `i` steps have been taken along
/// the major axis, on a segment that spans `major` steps on the one and
/// `minor` on the other: `minor * i / major` rounded to the nearest integer,
/// a half rounded down.
pub open spec fn minor_steps(major: int, minor: int, i: int) -> int {
    if major == 0 {
        0
    } else {
        (2 * minor * i + major - 1) / (2 * major)
    }
}

/// The error term that the algorithm carries: twice the distance, in units
/// of `1 / major`, by which the ideal line lies beyond `k` minor steps after
/// `i` major steps.
pub open spec fn error_term(major: int, minor: int, i: int, k: int) -> int {
    2 * minor * i - 2 * major * k
}

/// `minor_steps` is the one step count whose error term lies in
/// `(-major, major]`.
pub proof fn lemma_minor_steps_unique(major: int, minor: int, i: int, k: int)
    requires
        major > 0,
    ensures
        k == minor_steps(major, minor, i) <==> -major < error_term(major, minor, i, k) <= major,
{
    let n = 2 * minor * i + major - 1;
    let d = 2 * major;
    lemma_fundamental_div_mod(n, d);
    if -major < error_term(major, minor, i, k) <= major {
        assert(0 <= n - k * d < d) by (nonlinear_arith)
            requires
                -major < 2 * minor * i - 2 * major * k <= major,
                n == 2 * minor * i + major - 1,
                d == 2 * major,
        ;
        lemma_fundamental_div_mod_converse(n, d, k, n - k * d);
    }
    if k == minor_steps(major, minor, i) {
        assert(-major < 2 * minor * i - 2 * major * k <= major) by (nonlinear_arith)
            requires
                n == d * k + n % d,
                0 <= n % d < d,
                n == 2 * minor * i + major - 1,
                d == 2 * major,
        ;
    }
}

/// No minor step is taken before the first major step.
pub proof fn lemma_minor_steps_start(major: int, minor: int)
    requires
        0 <= major,
    ensures
        minor_steps(major, minor, 0) == 0,
{
    if major > 0 {
        assert(error_term(major, minor, 0, 0) == 0) by (nonlinear_arith);
        lemma_minor_steps_unique(major, minor, 0, 0);
    }
}

/// At the last major step every minor step has been taken.
pub proof fn lemma_minor_steps_end(major: int, minor: int)
    requires
        0 <= minor <= major,
    ensures
        minor_steps(major, minor, major) == minor,
{
    if major > 0 {
        assert(error_term(major, minor, major, minor) == 0) by (nonlinear_arith);
        lemma_minor_steps_unique(major, minor, major, minor);
    }
}

/// One major step brings at most one minor step, and never one back.
pub proof fn lemma_minor_steps_next(major: int, minor: int, i: int)
    requires
        0 <= minor <= major,
    ensures
        minor_steps(major, minor, i) <= minor_steps(major, minor, i + 1) <= minor_steps(
            major,
            minor,
            i,
        ) + 1,
{
    if major > 0 {
        let k = minor_steps(major, minor, i);
        lemma_minor_steps_unique(major, minor, i, k);
        let e = error_term(major, minor, i, k) + 2 * minor;
        assert(error_term(major, minor, i + 1, k) == e) by (nonlinear_arith)
            requires
                e == 2 * minor * i - 2 * major * k + 2 * minor,
        ;
        assert(error_term(major, minor, i + 1, k + 1) == e - 2 * major) by (nonlinear_arith)
            requires
                e == 2 * minor * i - 2 * major * k + 2 * minor,
        ;
        if e > major {
            lemma_minor_steps_unique(major, minor, i + 1, k + 1);
        } else {
            lemma_minor_steps_unique(major, minor, i + 1, k);
        }
    }
}

/// The minor steps never decrease along the segment.
pub proof fn lemma_minor_steps_monotonic(major: int, minor: int, i: int, j: int)
    requires
        0 <= minor <= major,
        i <= j,
    ensures
        minor_steps(major, minor, i) <= minor_steps(major, minor, j),
    decreases j - i,
{
    if i < j {
        lemma_minor_steps_monotonic(major, minor, i, j - 1);
        lemma_minor_steps_next(major, minor, j - 1);
    }
}

/// Along the segment the minor steps stay between none and all.
pub proof fn lemma_minor_steps_bounds(major: int, minor: int, i: int)
    requires
        0 <= minor <= major,
        0 <= i <= major,
    ensures
        0 <= minor_steps(major, minor, i) <= minor,
{
    lemma_minor_steps_start(major, minor);
    lemma_minor_steps_end(major, minor);
    lemma_minor_steps_monotonic(major, minor, 0, i);
    lemma_minor_steps_monotonic(major, minor, i, major);
}

} // verus!
