//! Drawing line segments into an image.

use crate::bresenham::{
    error_term, lemma_minor_steps_bounds, lemma_minor_steps_start, lemma_minor_steps_unique,
    minor_steps, signum,
};
use crate::line::Line;
use crate::point::Point;
use crate::tgaimage::{TGAColor, TGAImage};
use vstd::prelude::*;

verus! {

/// The unsigned value that stands for a signed coordinate when it is handed
/// to an image: the coordinate itself, or for a negative one its two's
/// complement, which lies beyond every image of less than 2^31 pixels a
/// side.
pub open spec fn spec_unsigned(v: int) -> int {
    if v < 0 {
        v + 0x1_0000_0000
    } else {
        v
    }
}

/// The position at which an image sees a signed position.
pub open spec fn screen_point(p: (int, int)) -> (int, int) {
    (spec_unsigned(p.0), spec_unsigned(p.1))
}

/// The positions at which an image sees a set of signed positions.
pub open spec fn on_screen(pixels: Set<(int, int)>) -> Set<(int, int)> {
    Set::new(
        |p: (int, int)| exists|q: (int, int)| #[trigger] pixels.contains(q) && p == screen_point(q),
    )
}

/// The screen positions of a set with one more position are those of the
/// set with one more screen position.
pub proof fn lemma_on_screen_insert(pixels: Set<(int, int)>, q: (int, int))
    ensures
        on_screen(pixels.insert(q)) == on_screen(pixels).insert(screen_point(q)),
{
    assert forall|p: (int, int)|
        on_screen(pixels.insert(q)).contains(p) <==> on_screen(pixels).insert(
            screen_point(q),
        ).contains(p) by {
        if on_screen(pixels.insert(q)).contains(p) {
            let r = choose|r: (int, int)| #[trigger]
                pixels.insert(q).contains(r) && p == screen_point(r);
            if r != q {
                assert(pixels.contains(r));
            }
        }
        if on_screen(pixels).contains(p) {
            let r = choose|r: (int, int)| #[trigger] pixels.contains(r) && p == screen_point(r);
            assert(pixels.insert(q).contains(r));
        }
        if p == screen_point(q) {
            assert(pixels.insert(q).contains(q));
        }
    }
    assert(on_screen(pixels.insert(q)) =~= on_screen(pixels).insert(screen_point(q)));
}

/// The screen positions of a union are the union of the screen positions.
pub proof fn lemma_on_screen_union(first: Set<(int, int)>, second: Set<(int, int)>)
    ensures
        on_screen(first.union(second)) == on_screen(first).union(on_screen(second)),
{
    assert forall|p: (int, int)|
        on_screen(first.union(second)).contains(p) <==> on_screen(first).union(
            on_screen(second),
        ).contains(p) by {
        if on_screen(first.union(second)).contains(p) {
            let r = choose|r: (int, int)| #[trigger]
                first.union(second).contains(r) && p == screen_point(r);
            if first.contains(r) {
                assert(on_screen(first).contains(p));
            } else {
                assert(second.contains(r));
                assert(on_screen(second).contains(p));
            }
        }
        if on_screen(first).contains(p) {
            let r = choose|r: (int, int)| #[trigger] first.contains(r) && p == screen_point(r);
            assert(first.union(second).contains(r));
        }
        if on_screen(second).contains(p) {
            let r = choose|r: (int, int)| #[trigger] second.contains(r) && p == screen_point(r);
            assert(first.union(second).contains(r));
        }
    }
    assert(on_screen(first.union(second)) =~= on_screen(first).union(on_screen(second)));
}

/// No positions have no screen positions.
pub proof fn lemma_on_screen_empty()
    ensures
        on_screen(Set::<(int, int)>::empty()) == Set::<(int, int)>::empty(),
{
    assert(on_screen(Set::<(int, int)>::empty()) =~= Set::<(int, int)>::empty());
}

/// Converts a signed coordinate to the unsigned one that an image takes.
#[verifier::when_used_as_spec(spec_unsigned_i32)]
pub fn unsigned(v: i32) -> (u: u32)
    ensures
        u == spec_unsigned(v as int),
{
    if v >= 0 {
        v as u32
    } else {
        (v as i64 + 0x1_0000_0000) as u32
    }
}

/// `spec_unsigned` on the machine types.
pub open spec fn spec_unsigned_i32(v: i32) -> u32 {
    spec_unsigned(v as int) as u32
}

/// The pixels that `line` draws for a segment between `(x0, y0)` and
/// `(x1, y1)`: those of the segment traced with its major coordinate
/// growing.
pub open spec fn line_pixels(x0: i32, y0: i32, x1: i32, y1: i32) -> Set<(int, int)> {
    (Line { start: Point { x: x0, y: y0 }, end: Point { x: x1, y: y1 } }).ascending().pixels()
}

/// The screen positions of the first `n` pixels of a segment.
pub open spec fn screen_prefix(line: Line, n: int) -> Set<(int, int)> {
    Set::new(
        |p: (int, int)|
            exists|j: int| 0 <= j < n && p == screen_point(#[trigger] line.spec_point(j)),
    )
}

/// One more pixel of the segment adds its screen position to the prefix.
proof fn lemma_screen_prefix_step(line: Line, n: int)
    requires
        0 <= n,
    ensures
        screen_prefix(line, n + 1) == screen_prefix(line, n).insert(
            screen_point(line.spec_point(n)),
        ),
{
    let next = screen_point(line.spec_point(n));
    assert forall|p: (int, int)|
        screen_prefix(line, n + 1).contains(p) <==> screen_prefix(line, n).insert(next).contains(
            p,
        ) by {
        if screen_prefix(line, n + 1).contains(p) {
            let j = choose|j: int| 0 <= j < n + 1 && p == screen_point(#[trigger] line.spec_point(j));
            if j < n {
                assert(screen_prefix(line, n).contains(p));
            }
        }
        if screen_prefix(line, n).contains(p) {
            let j = choose|j: int| 0 <= j < n && p == screen_point(#[trigger] line.spec_point(j));
            assert(0 <= j < n + 1 && p == screen_point(line.spec_point(j)));
        }
        if p == next {
            assert(0 <= n < n + 1 && p == screen_point(line.spec_point(n)));
        }
    }
    assert(screen_prefix(line, n + 1) =~= screen_prefix(line, n).insert(next));
}

/// The prefix of all pixels of a segment holds the screen positions of the
/// segment.
proof fn lemma_screen_prefix_all(line: Line)
    ensures
        screen_prefix(line, line.major_len() + 1) == on_screen(line.pixels()),
{
    let all = screen_prefix(line, line.major_len() + 1);
    assert forall|p: (int, int)| all.contains(p) <==> on_screen(line.pixels()).contains(p) by {
        if all.contains(p) {
            let j = choose|j: int|
                0 <= j < line.major_len() + 1 && p == screen_point(#[trigger] line.spec_point(j));
            let q = line.spec_point(j);
            assert(line.covers(q));
            assert(line.pixels().contains(q) && p == screen_point(q));
        }
        if on_screen(line.pixels()).contains(p) {
            let q = choose|q: (int, int)| #[trigger]
                line.pixels().contains(q) && p == screen_point(q);
            let j = choose|j: int| 0 <= j <= line.major_len() && q == #[trigger] line.spec_point(j);
            assert(0 <= j < line.major_len() + 1 && p == screen_point(line.spec_point(j)));
        }
    }
    assert(all =~= on_screen(line.pixels()));
}

/// Line symmetry: a segment drawn from either of its ends covers the same
/// pixels.
pub proof fn lemma_line_symmetric(x0: i32, y0: i32, x1: i32, y1: i32)
    ensures
        line_pixels(x0, y0, x1, y1) == line_pixels(x1, y1, x0, y0),
{
    let given = Line { start: Point { x: x0, y: y0 }, end: Point { x: x1, y: y1 } };
    assert(given.ascending() == given.reversed().ascending());
}

/// End point inclusion: both end points of a segment are among its pixels.
pub proof fn lemma_line_end_points(x0: i32, y0: i32, x1: i32, y1: i32)
    ensures
        line_pixels(x0, y0, x1, y1).contains((x0 as int, y0 as int)),
        line_pixels(x0, y0, x1, y1).contains((x1 as int, y1 as int)),
        on_screen(line_pixels(x0, y0, x1, y1)).contains(screen_point((x0 as int, y0 as int))),
        on_screen(line_pixels(x0, y0, x1, y1)).contains(screen_point((x1 as int, y1 as int))),
{
    let given = Line { start: Point { x: x0, y: y0 }, end: Point { x: x1, y: y1 } };
    given.ascending().lemma_end_points();
    assert(line_pixels(x0, y0, x1, y1).contains((x0 as int, y0 as int)));
    assert(line_pixels(x0, y0, x1, y1).contains((x1 as int, y1 as int)));
}

/// Draws the segment between `(x0, y0)` and `(x1, y1)` in `color`.
///
/// The pixels are those of Bresenham's algorithm, traced with the major
/// coordinate growing, so that both orders of the end points draw the same
/// pixels. Each pixel is handed to the image, which ignores those that lie
/// outside it.
pub fn line(x0: i32, y0: i32, x1: i32, y1: i32, color: &TGAColor, image: &mut TGAImage)
    requires
        old(image)@.wf(),
    ensures
        final(image)@ == old(image)@.paint(on_screen(line_pixels(x0, y0, x1, y1)), *color),
        final(image)@.wf(),
{
    let ghost before = image@;
    let ghost given = Line { start: Point { x: x0, y: y0 }, end: Point { x: x1, y: y1 } };
    let ghost traced = given.ascending();
    let ghost major = traced.major_len();
    let ghost minor = traced.minor_len();
    let mut x0: i64 = x0 as i64;
    let mut y0: i64 = y0 as i64;
    let mut x1: i64 = x1 as i64;
    let mut y1: i64 = y1 as i64;
    let width: i64 = if x0 < x1 {
        x1 - x0
    } else {
        x0 - x1
    };
    let height: i64 = if y0 < y1 {
        y1 - y0
    } else {
        y0 - y1
    };
    let steep = if width < height {
        core::mem::swap(&mut x0, &mut y0);
        core::mem::swap(&mut x1, &mut y1);
        true
    } else {
        false
    };
    if x0 > x1 {
        core::mem::swap(&mut x0, &mut x1);
        core::mem::swap(&mut y0, &mut y1);
    }
    let dx = x1 - x0;
    let dy = y1 - y0;
    let derror2 = if dy < 0 {
        -dy
    } else {
        dy
    } * 2;
    let mut error2: i64 = 0;
    let mut y = y0;
    let y_step: i64 = if dy > 0 {
        1
    } else {
        -1
    };
    let mut x = x0;
    proof {
        traced.lemma_lengths();
        traced.lemma_end_points();
        lemma_minor_steps_start(major, minor);
        assert(error_term(major, minor, 0, 0) == 0) by (nonlinear_arith);
        assert(screen_prefix(traced, 0) =~= Set::empty());
        before.lemma_paint_nothing(*color);
    }
    while x <= x1
        invariant
            traced == given.ascending(),
            major == traced.major_len(),
            minor == traced.minor_len(),
            0 <= minor <= major <= u32::MAX,
            steep == traced.is_steep(),
            dx == major,
            derror2 == 2 * minor,
            x1 == x0 + major,
            i32::MIN <= x0 <= x1 <= i32::MAX,
            x0 <= x <= x1 + 1,
            y_step == if steep {
                signum(traced.dx())
            } else {
                signum(traced.dy())
            } || minor == 0,
            y_step == 1 || y_step == -1,
            major > 0 ==> 1 == if steep {
                signum(traced.dy())
            } else {
                signum(traced.dx())
            },
            x <= x1 ==> (if steep {
                (y as int, x as int)
            } else {
                (x as int, y as int)
            }) == traced.spec_point(x - x0),
            x <= x1 ==> error2 == error_term(major, minor, x - x0, minor_steps(major, minor, x - x0)),
            before.wf(),
            image@ == before.paint(screen_prefix(traced, x - x0), *color),
            image@.wf(),
        decreases x1 + 1 - x,
    {
        let ghost i = x - x0;
        let ghost k = minor_steps(major, minor, i);
        proof {
            lemma_minor_steps_bounds(major, minor, i);
            traced.lemma_position_bounds(i, k);
            before.lemma_paint_insert(
                screen_prefix(traced, i),
                screen_point(traced.spec_point(i)).0,
                screen_point(traced.spec_point(i)).1,
                *color,
            );
            lemma_screen_prefix_step(traced, i);
        }
        if steep {
            image.set(unsigned(y as i32), unsigned(x as i32), color);
        } else {
            image.set(unsigned(x as i32), unsigned(y as i32), color);
        }
        proof {
            if major > 0 {
                lemma_minor_steps_unique(major, minor, i, k);
            } else {
                assert(error_term(major, minor, i, k) == 0) by (nonlinear_arith)
                    requires
                        major == 0,
                        minor == 0,
                ;
            }
        }
        error2 += derror2;
        proof {
            assert(error_term(major, minor, i + 1, k) == error_term(major, minor, i, k) + 2 * minor)
                by (nonlinear_arith);
            assert(error_term(major, minor, i + 1, k + 1) == error_term(major, minor, i, k) + 2
                * minor - 2 * major) by (nonlinear_arith);
            traced.lemma_position_step(i, k);
            traced.lemma_position_step(i + 1, k);
            if i < major {
                lemma_minor_steps_bounds(major, minor, i + 1);
                if error2 > dx {
                    lemma_minor_steps_unique(major, minor, i + 1, k + 1);
                } else {
                    lemma_minor_steps_unique(major, minor, i + 1, k);
                }
            }
        }
        if error2 > dx {
            y += y_step;
            error2 -= dx * 2;
        }
        x += 1;
    }
    proof {
        lemma_screen_prefix_all(traced);
    }
}

} // verus!
