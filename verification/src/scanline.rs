//! Filling triangles by walking their edges: a triangle with one level side
//! is filled row by row, between the pixels of the two edges that leave its
//! apex, and any other triangle is cut into two such triangles.

use crate::barycentric::{determinant, is_degenerate, position};
use crate::geometry::{Vector2, Vector2Int};
use crate::interpolate::{lemma_truncated_quotient_between, truncated_quotient};
use crate::line::Line;
use crate::point::Point;
use crate::raster::{
    lemma_on_screen_empty, lemma_on_screen_insert, lemma_on_screen_union, on_screen, screen_point,
    unsigned,
};
use crate::tgaimage::{TGAColor, TGAImage};
use vstd::math::{max, min};
use vstd::prelude::*;

verus! {

/// The segment from one vertex to another.
pub open spec fn edge(from: Vector2Int, to: Vector2Int) -> Line {
    Line { start: Point { x: from.x, y: from.y }, end: Point { x: to.x, y: to.y } }
}

/// Whether one of the two edges that leave `apex` has a pixel at `(x, y)`.
pub open spec fn on_edges(
    apex: Vector2Int,
    left: Vector2Int,
    right: Vector2Int,
    x: int,
    y: int,
) -> bool {
    edge(apex, left).covers((x, y)) || edge(apex, right).covers((x, y))
}

/// Whether the fill of a triangle walked from `apex` covers `p`: the row of
/// `p` lies between the apex and `left`, and `p` lies in that row between
/// two pixels of the edges, or on one.
pub open spec fn flat_triangle_covers(
    apex: Vector2Int,
    left: Vector2Int,
    right: Vector2Int,
    p: (int, int),
) -> bool {
    &&& min(apex.y as int, left.y as int) <= p.1 <= max(apex.y as int, left.y as int)
    &&& exists|l: int, r: int|
        #![trigger on_edges(apex, left, right, l, p.1), on_edges(apex, left, right, r, p.1)]
        on_edges(apex, left, right, l, p.1) && on_edges(apex, left, right, r, p.1) && l <= p.0 <= r
}

/// The pixels that the fill of a triangle walked from `apex` covers.
pub open spec fn flat_triangle_pixels(apex: Vector2Int, left: Vector2Int, right: Vector2Int) -> Set<
    (int, int),
> {
    Set::new(|p: (int, int)| flat_triangle_covers(apex, left, right, p))
}

/// The three vertices in the order in which `triangle_vertices_sort` leaves
/// them: three exchanges, of the first with the second, of the first with
/// the third and of the second with the third, each made where the former
/// lies in a higher row.
pub open spec fn sorted_by_row(v1: Vector2Int, v2: Vector2Int, v3: Vector2Int) -> (
    Vector2Int,
    Vector2Int,
    Vector2Int,
) {
    let (a1, a2) = if v1.y > v2.y {
        (v2, v1)
    } else {
        (v1, v2)
    };
    let (b1, b3) = if a1.y > v3.y {
        (v3, a1)
    } else {
        (a1, v3)
    };
    let (c2, c3) = if a2.y > b3.y {
        (b3, a2)
    } else {
        (a2, b3)
    };
    (b1, c2, c3)
}

/// The column at which the long side of a triangle crosses the row of the
/// middle vertex: the long side's column at that row, by linear
/// interpolation between `low` and `high`, rounded towards zero.
pub open spec fn split_column(low: Vector2Int, middle: Vector2Int, high: Vector2Int) -> int {
    truncated_quotient(
        low.x * (high.y - low.y) + (middle.y - low.y) * (high.x - low.x),
        high.y - low.y,
    )
}

/// The pixels that `triangle` draws: none for a triangle without area, and
/// else those of the one or two triangles with a level side that the
/// sorted vertices give.
pub open spec fn triangle_edge_pixels(v1: Vector2Int, v2: Vector2Int, v3: Vector2Int) -> Set<
    (int, int),
> {
    let (low, middle, high) = sorted_by_row(v1, v2, v3);
    if determinant(position(&v1), position(&v2), position(&v3)) == 0 {
        Set::empty()
    } else if middle.y == high.y {
        flat_triangle_pixels(low, middle, high)
    } else if low.y == middle.y {
        flat_triangle_pixels(high, low, middle)
    } else {
        let cut = Vector2 { x: split_column(low, middle, high) as i32, y: middle.y };
        flat_triangle_pixels(low, middle, cut).union(flat_triangle_pixels(high, middle, cut))
    }
}

/// Widens the extent `lowest..=highest` to hold the pixels that `slope` has
/// in row `y`.
///
/// The segment is walked from its start to the end of its first run of
/// pixels in that row, which is its only one.
fn row_extent(slope: &Line, y: i32, lowest: i32, highest: i32) -> (extent: (i32, i32))
    ensures
        extent.0 <= lowest,
        highest <= extent.1,
        forall|x: int| #[trigger] slope.covers((x, y as int)) ==> extent.0 <= x <= extent.1,
        extent.0 == lowest || slope.covers((extent.0 as int, y as int)),
        extent.1 == highest || slope.covers((extent.1 as int, y as int)),
{
    let mut min_p = lowest;
    let mut max_p = highest;
    let mut points = slope.points();
    let mut in_run = false;
    let mut done = false;
    let ghost last = slope.major_len();
    while !done
        invariant
            last == slope.major_len(),
            points@.len() <= last + 1,
            points@ == slope.spec_points().skip(last + 1 - points@.len()),
            min_p <= lowest,
            highest <= max_p,
            forall|j: int|
                0 <= j < last + 1 - points@.len() && (#[trigger] slope.spec_point(j)).1 == y
                    ==> min_p <= slope.spec_point(j).0 <= max_p,
            min_p == lowest || slope.covers((min_p as int, y as int)),
            max_p == highest || slope.covers((max_p as int, y as int)),
            in_run && !done ==> points@.len() <= last && slope.spec_point(last - points@.len()).1
                == y,
            done ==> forall|j: int|
                last + 1 - points@.len() <= j <= last ==> (#[trigger] slope.spec_point(j)).1 != y,
        decreases
                points@.len() + if done {
                    0int
                } else {
                    1int
                },
    {
        let ghost k = last + 1 - points@.len();
        match points.next() {
            None => {
                done = true;
            },
            Some(p) => {
                assert(slope.spec_points()[k] == slope.spec_point(k));
                assert((p.x as int, p.y as int) == slope.spec_point(k));
                if p.y == y {
                    in_run = true;
                    if p.x < min_p {
                        min_p = p.x;
                    }
                    if p.x > max_p {
                        max_p = p.x;
                    }
                    assert(slope.covers((p.x as int, y as int)));
                } else if in_run {
                    done = true;
                    assert forall|j: int| k + 1 <= j <= last implies (#[trigger] slope.spec_point(
                        j,
                    )).1 != y by {
                        if slope.spec_point(j).1 == y {
                            slope.lemma_row_is_a_run(k - 1, k, j);
                        }
                    }
                }
            },
        }
    }
    assert forall|x: int| #[trigger] slope.covers((x, y as int)) implies min_p <= x <= max_p by {
        let i = choose|i: int|
            0 <= i <= slope.major_len() && (x, y as int) == #[trigger] slope.spec_point(i);
        assert(slope.spec_point(i).1 == y);
    }
    (min_p, max_p)
}

/// Sorts the three vertices by their rows, the lowest first.
pub fn triangle_vertices_sort(v1: &mut Vector2Int, v2: &mut Vector2Int, v3: &mut Vector2Int)
    ensures
        (*final(v1), *final(v2), *final(v3)) == sorted_by_row(*old(v1), *old(v2), *old(v3)),
        final(v1).y <= final(v2).y <= final(v3).y,
{
    if v1.get_y() > v2.get_y() {
        v1.swap(v2);
    }
    if v1.get_y() > v3.get_y() {
        v1.swap(v3);
    }
    if v2.get_y() > v3.get_y() {
        v2.swap(v3);
    }
}

/// The pixels of `pixels` in the rows before `y`.
pub open spec fn rows_before(pixels: Set<(int, int)>, y: int) -> Set<(int, int)> {
    Set::new(|p: (int, int)| pixels.contains(p) && p.1 < y)
}

/// The pixels of `pixels` in the rows before `y`, and in row `y` in the
/// columns before `x`.
pub open spec fn rows_part(pixels: Set<(int, int)>, y: int, x: int) -> Set<(int, int)> {
    Set::new(|p: (int, int)| pixels.contains(p) && (p.1 < y || (p.1 == y && p.0 < x)))
}

/// Fills a triangle that has a level side opposite `v1`, row by row from
/// the rows of `v1` and `v2`: in each row, from the leftmost to the
/// rightmost pixel that the edges from `v1` to `v2` and from `v1` to `v3`
/// have there.
pub fn fill_flat_triangle(
    v1: Vector2Int,
    v2: Vector2Int,
    v3: Vector2Int,
    color: &TGAColor,
    image: &mut TGAImage,
)
    requires
        old(image)@.wf(),
    ensures
        final(image)@ == old(image)@.paint(on_screen(flat_triangle_pixels(v1, v2, v3)), *color),
        final(image)@.wf(),
{
    let ghost before = image@;
    let ghost pixels = flat_triangle_pixels(v1, v2, v3);
    let slope1 = Line::new(Point::new(v1.get_x(), v1.get_y()), Point::new(v2.get_x(), v2.get_y()));
    let slope2 = Line::new(Point::new(v1.get_x(), v1.get_y()), Point::new(v3.get_x(), v3.get_y()));
    let (first_row, last_row) = if v1.get_y() < v2.get_y() {
        (v1.get_y(), v2.get_y())
    } else {
        (v2.get_y(), v1.get_y())
    };
    let mut y: i64 = first_row as i64;
    proof {
        assert(rows_before(pixels, y as int) =~= Set::<(int, int)>::empty());
        lemma_on_screen_empty();
        before.lemma_paint_nothing(*color);
    }
    while y <= last_row as i64
        invariant
            before.wf(),
            image@.wf(),
            pixels == flat_triangle_pixels(v1, v2, v3),
            slope1 == edge(v1, v2),
            slope2 == edge(v1, v3),
            first_row == min(v1.y as int, v2.y as int),
            last_row == max(v1.y as int, v2.y as int),
            first_row <= y <= last_row + 1,
            image@ == before.paint(on_screen(rows_before(pixels, y as int)), *color),
        decreases last_row + 1 - y,
    {
        let extent = row_extent(&slope1, y as i32, i32::MAX, i32::MIN);
        let (min_p, max_p) = row_extent(&slope2, y as i32, extent.0, extent.1);
        proof {
            assert forall|x: int| #[trigger]
                on_edges(v1, v2, v3, x, y as int) implies min_p <= x <= max_p by {
                if slope1.covers((x, y as int)) {
                } else {
                    assert(slope2.covers((x, y as int)));
                }
            }
            if min_p <= max_p {
                assert(on_edges(v1, v2, v3, max_p as int, y as int)) by {
                    if !(slope2.covers((max_p as int, y as int)) || slope1.covers(
                        (max_p as int, y as int),
                    )) {
                        assert(max_p == i32::MIN);
                        assert(min_p == i32::MIN);
                        assert(slope2.covers((min_p as int, y as int)) || slope1.covers(
                            (min_p as int, y as int),
                        ));
                    }
                }
                assert(on_edges(v1, v2, v3, min_p as int, y as int)) by {
                    if !(slope2.covers((min_p as int, y as int)) || slope1.covers(
                        (min_p as int, y as int),
                    )) {
                        assert(min_p == i32::MAX);
                        assert(max_p == i32::MAX);
                    }
                }
            }
            assert(rows_before(pixels, y as int) =~= rows_part(pixels, y as int, min_p as int));
        }
        let mut x: i64 = min_p as i64;
        while x <= max_p as i64
            invariant
                before.wf(),
                image@.wf(),
                pixels == flat_triangle_pixels(v1, v2, v3),
                first_row == min(v1.y as int, v2.y as int),
                last_row == max(v1.y as int, v2.y as int),
                first_row <= y <= last_row,
                min_p <= x,
                x <= max_p + 1 || x == min_p,
                min_p <= max_p ==> on_edges(v1, v2, v3, min_p as int, y as int) && on_edges(
                    v1,
                    v2,
                    v3,
                    max_p as int,
                    y as int,
                ),
                image@ == before.paint(on_screen(rows_part(pixels, y as int, x as int)), *color),
            decreases max_p + 1 - x,
        {
            proof {
                let p = (x as int, y as int);
                assert(on_edges(v1, v2, v3, min_p as int, p.1) && on_edges(
                    v1,
                    v2,
                    v3,
                    max_p as int,
                    p.1,
                ) && min_p <= p.0 <= max_p);
                assert(flat_triangle_covers(v1, v2, v3, p));
                assert(pixels.contains(p));
                assert(rows_part(pixels, y as int, x + 1) =~= rows_part(
                    pixels,
                    y as int,
                    x as int,
                ).insert((x as int, y as int)));
                lemma_on_screen_insert(
                    rows_part(pixels, y as int, x as int),
                    (x as int, y as int),
                );
                before.lemma_paint_insert(
                    on_screen(rows_part(pixels, y as int, x as int)),
                    screen_point((x as int, y as int)).0,
                    screen_point((x as int, y as int)).1,
                    *color,
                );
            }
            image.set(unsigned(x as i32), unsigned(y as i32), color);
            x += 1;
        }
        proof {
            assert forall|p: (int, int)| pixels.contains(p) && p.1 == y implies p.0 < x by {
                let (l, r) = choose|l: int, r: int|
                    #![trigger on_edges(v1, v2, v3, l, p.1), on_edges(v1, v2, v3, r, p.1)]
                    on_edges(v1, v2, v3, l, p.1) && on_edges(v1, v2, v3, r, p.1) && l <= p.0 <= r;
                assert(min_p <= l <= max_p);
                assert(min_p <= r <= max_p);
            }
            assert(rows_part(pixels, y as int, x as int) =~= rows_before(pixels, y + 1));
        }
        y += 1;
    }
    proof {
        assert(rows_before(pixels, y as int) =~= pixels);
    }
}

/// Fills the triangle `v1`, `v2`, `v3` with one color by walking its
/// edges.
///
/// The vertices are sorted by their rows. A triangle with a level side is
/// filled as it is, from the opposite vertex. Any other is cut along the
/// row of its middle vertex, at the column where that row crosses the long
/// side, and both parts are filled. A triangle without area draws nothing.
pub fn triangle(
    v1: Vector2Int,
    v2: Vector2Int,
    v3: Vector2Int,
    color: &TGAColor,
    image: &mut TGAImage,
)
    requires
        old(image)@.wf(),
    ensures
        final(image)@ == old(image)@.paint(on_screen(triangle_edge_pixels(v1, v2, v3)), *color),
        final(image)@.wf(),
        determinant(position(&v1), position(&v2), position(&v3)) == 0 ==> final(image)@ == old(
            image,
        )@,
{
    let ghost before = image@;
    if is_degenerate(&v1, &v2, &v3) {
        proof {
            lemma_on_screen_empty();
            before.lemma_paint_nothing(*color);
        }
        return ;
    }
    let mut v1 = v1;
    let mut v2 = v2;
    let mut v3 = v3;
    triangle_vertices_sort(&mut v1, &mut v2, &mut v3);
    if v2.get_y() == v3.get_y() {
        fill_flat_triangle(v1, v2, v3, color, image);
    } else if v1.get_y() == v2.get_y() {
        fill_flat_triangle(v3, v1, v2, color, image);
    } else {
        let rise: i128 = v3.get_y() as i128 - v1.get_y() as i128;
        let part: i128 = v2.get_y() as i128 - v1.get_y() as i128;
        let run: i128 = v3.get_x() as i128 - v1.get_x() as i128;
        proof {
            let lo = min(v1.x as int, v3.x as int);
            let hi = max(v1.x as int, v3.x as int);
            assert(-0x1_0000_0000_0000_0000 <= v1.x * rise <= 0x1_0000_0000_0000_0000)
                by (nonlinear_arith)
                requires
                    -0x8000_0000 <= v1.x <= 0x7fff_ffff,
                    0 < rise <= 0xffff_ffff,
            ;
            assert(-0x1_0000_0000_0000_0000 <= part * run <= 0x1_0000_0000_0000_0000
                && rise * lo <= v1.x * rise + part * run <= rise * hi) by (nonlinear_arith)
                requires
                    0 < part < rise,
                    rise <= 0xffff_ffff,
                    -0xffff_ffff <= run <= 0xffff_ffff,
                    lo == if run < 0 {
                        v1.x + run
                    } else {
                        v1.x as int
                    },
                    hi == if run < 0 {
                        v1.x as int
                    } else {
                        v1.x + run
                    },
            ;
            lemma_truncated_quotient_between(v1.x * rise + part * run, rise as int, lo, hi);
        }
        let v4 = Vector2::new(((v1.get_x() as i128 * rise + part * run) / rise) as i32, v2.get_y());
        fill_flat_triangle(v1, v2, v4, color, image);
        fill_flat_triangle(v3, v2, v4, color, image);
        proof {
            before.lemma_paint_union(
                on_screen(flat_triangle_pixels(v1, v2, v4)),
                on_screen(flat_triangle_pixels(v3, v2, v4)),
                *color,
            );
            lemma_on_screen_union(
                flat_triangle_pixels(v1, v2, v4),
                flat_triangle_pixels(v3, v2, v4),
            );
        }
    }
}

} // verus!
