//! Filling triangles by scanning their bounding box: every pixel of the
//! box is asked whether it lies in the triangle.

use crate::barycentric::{
    barycentric, boundary_box_setup, box_lower, box_upper, contains, determinant,
    lemma_contained_in_boundary_box, position,
};
use crate::geometry::{Vector2, Vector2Int, Vector3Int};
use crate::interpolate::{depth_at, lemma_depth_at_bounds, texel_at, DEPTH_NEG_INFINITY};
use crate::raster::{spec_unsigned, unsigned};
use crate::tgaimage::{ImageView, Intensity, TGAColor, TGAImage};
use vstd::arithmetic::div_mod::{lemma_fundamental_div_mod, lemma_fundamental_div_mod_converse};
use vstd::math::max;
use vstd::prelude::*;

verus! {

/// A triangle in screen space: three vertices, each with its depth.
#[derive(Copy, Clone, Debug)]
pub struct TriangleDef(pub Vector3Int, pub Vector3Int, pub Vector3Int);

/// The positions in a texture that belong to the three vertices of a
/// triangle.
#[derive(Copy, Clone, Debug)]
pub struct TextureDef(pub Vector2Int, pub Vector2Int, pub Vector2Int);

/// The grid positions that lie in the triangle `a`, `b`, `c`, on its sides
/// and in its corners: none if it has no area.
pub open spec fn triangle_pixels(a: (int, int), b: (int, int), c: (int, int)) -> Set<(int, int)> {
    Set::new(|p: (int, int)| contains(a, b, c, p))
}

/// Whether a scan of the box from `lo` to `hi`, column by column and each
/// column from its low end, has passed `p` when it stands at `(x, y)`.
pub open spec fn scanned(lo: (int, int), hi: (int, int), x: int, y: int, p: (int, int)) -> bool {
    &&& lo.0 <= p.0 <= hi.0
    &&& lo.1 <= p.1 <= hi.1
    &&& (p.0 < x || (p.0 == x && p.1 < y))
}

/// The pixels of `accepted` that the scan has passed.
pub open spec fn scanned_pixels(
    accepted: Set<(int, int)>,
    lo: (int, int),
    hi: (int, int),
    x: int,
    y: int,
) -> Set<(int, int)> {
    Set::new(|p: (int, int)| accepted.contains(p) && scanned(lo, hi, x, y, p))
}

/// One step of the scan passes one pixel.
pub proof fn lemma_scan_step(
    accepted: Set<(int, int)>,
    lo: (int, int),
    hi: (int, int),
    x: int,
    y: int,
)
    requires
        lo.0 <= x <= hi.0,
        lo.1 <= y <= hi.1,
    ensures
        scanned_pixels(accepted, lo, hi, x, y + 1) == if accepted.contains((x, y)) {
            scanned_pixels(accepted, lo, hi, x, y).insert((x, y))
        } else {
            scanned_pixels(accepted, lo, hi, x, y)
        },
{
    if accepted.contains((x, y)) {
        assert(scanned_pixels(accepted, lo, hi, x, y + 1) =~= scanned_pixels(
            accepted,
            lo,
            hi,
            x,
            y,
        ).insert((x, y)));
    } else {
        assert(scanned_pixels(accepted, lo, hi, x, y + 1) =~= scanned_pixels(
            accepted,
            lo,
            hi,
            x,
            y,
        ));
    }
}

/// The end of one column is the start of the next.
pub proof fn lemma_scan_next_column(
    accepted: Set<(int, int)>,
    lo: (int, int),
    hi: (int, int),
    x: int,
    y: int,
)
    requires
        y > hi.1,
    ensures
        scanned_pixels(accepted, lo, hi, x, y) == scanned_pixels(accepted, lo, hi, x + 1, lo.1),
{
    assert(scanned_pixels(accepted, lo, hi, x, y) =~= scanned_pixels(
        accepted,
        lo,
        hi,
        x + 1,
        lo.1,
    ));
}

/// Before its first step a scan has passed nothing, and after its last
/// column it has passed the whole box.
pub proof fn lemma_scan_ends(accepted: Set<(int, int)>, lo: (int, int), hi: (int, int), x: int)
    ensures
        scanned_pixels(accepted, lo, hi, lo.0, lo.1) == Set::<(int, int)>::empty(),
        x > hi.0 ==> scanned_pixels(accepted, lo, hi, x, lo.1) == Set::new(
            |p: (int, int)| accepted.contains(p) && lo.0 <= p.0 <= hi.0 && lo.1 <= p.1 <= hi.1,
        ),
{
    assert(scanned_pixels(accepted, lo, hi, lo.0, lo.1) =~= Set::<(int, int)>::empty());
    if x > hi.0 {
        assert(scanned_pixels(accepted, lo, hi, x, lo.1) =~= Set::new(
            |p: (int, int)| accepted.contains(p) && lo.0 <= p.0 <= hi.0 && lo.1 <= p.1 <= hi.1,
        ));
    }
}

/// Degenerate triangles: three points on one line contain no pixel.
pub proof fn lemma_degenerate_triangle_is_empty(a: (int, int), b: (int, int), c: (int, int))
    requires
        determinant(a, b, c) == 0,
    ensures
        triangle_pixels(a, b, c) == Set::<(int, int)>::empty(),
{
    assert(triangle_pixels(a, b, c) =~= Set::<(int, int)>::empty());
}

/// Fills the triangle `v1`, `v2`, `v3` with one color.
///
/// Every pixel of the image that lies in the triangle, its sides and
/// corners included, takes the color, and no other pixel changes. A
/// triangle without area paints nothing.
pub fn triangle_barycentric(
    v1: Vector2Int,
    v2: Vector2Int,
    v3: Vector2Int,
    color: &TGAColor,
    image: &mut TGAImage,
)
    requires
        old(image)@.wf(),
    ensures
        final(image)@ == old(image)@.paint(
            triangle_pixels(position(&v1), position(&v2), position(&v3)),
            *color,
        ),
        final(image)@.wf(),
        determinant(position(&v1), position(&v2), position(&v3)) == 0 ==> final(image)@ == old(
            image,
        )@,
{
    let ghost before = image@;
    let ghost a = position(&v1);
    let ghost b = position(&v2);
    let ghost c = position(&v3);
    let ghost inside = triangle_pixels(a, b, c);
    let points = [v1, v2, v3];
    let (boundary_box_min, boundary_box_max) = boundary_box_setup(
        &points,
        image.get_width(),
        image.get_height(),
    );
    let ghost lo = (boundary_box_min.x as int, boundary_box_min.y as int);
    let ghost hi = (boundary_box_max.x as int, boundary_box_max.y as int);
    let mut x: i64 = boundary_box_min.get_x() as i64;
    proof {
        lemma_scan_ends(inside, lo, hi, x as int);
        before.lemma_paint_nothing(*color);
    }
    while x <= boundary_box_max.get_x() as i64
        invariant
            before.wf(),
            image@.wf(),
            inside == triangle_pixels(a, b, c),
            a == position(&points[0]),
            b == position(&points[1]),
            c == position(&points[2]),
            lo == (boundary_box_min.x as int, boundary_box_min.y as int),
            hi == (boundary_box_max.x as int, boundary_box_max.y as int),
            0 <= lo.0,
            0 <= lo.1,
            hi.0 < before.width,
            hi.1 < before.height,
            lo.0 <= x,
            x <= hi.0 + 1 || x == lo.0,
            image@ == before.paint(scanned_pixels(inside, lo, hi, x as int, lo.1), *color),
        decreases hi.0 + 1 - x,
    {
        let mut y: i64 = boundary_box_min.get_y() as i64;
        while y <= boundary_box_max.get_y() as i64
            invariant
                before.wf(),
                image@.wf(),
                inside == triangle_pixels(a, b, c),
                a == position(&points[0]),
                b == position(&points[1]),
                c == position(&points[2]),
                lo == (boundary_box_min.x as int, boundary_box_min.y as int),
                hi == (boundary_box_max.x as int, boundary_box_max.y as int),
                0 <= lo.0,
                0 <= lo.1,
                hi.0 < before.width,
                hi.1 < before.height,
                lo.0 <= x <= hi.0,
                lo.1 <= y,
                y <= hi.1 + 1 || y == lo.1,
                image@ == before.paint(scanned_pixels(inside, lo, hi, x as int, y as int), *color),
            decreases hi.1 + 1 - y,
        {
            proof {
                lemma_scan_step(inside, lo, hi, x as int, y as int);
                before.lemma_paint_insert(
                    scanned_pixels(inside, lo, hi, x as int, y as int),
                    x as int,
                    y as int,
                    *color,
                );
            }
            if let Some(_) = barycentric(&points, Vector2::new(x as i32, y as i32)) {
                image.set(x as u32, y as u32, color);
            }
            y += 1;
        }
        proof {
            lemma_scan_next_column(inside, lo, hi, x as int, y as int);
        }
        x += 1;
    }
    proof {
        lemma_scan_ends(inside, lo, hi, x as int);
        let within = Set::new(
            |p: (int, int)| inside.contains(p) && lo.0 <= p.0 <= hi.0 && lo.1 <= p.1 <= hi.1,
        );
        assert forall|px: int, py: int| before.in_bounds(px, py) implies (inside.contains((px, py))
            <==> within.contains((px, py))) by {
            if inside.contains((px, py)) {
                lemma_contained_in_boundary_box(
                    a,
                    b,
                    c,
                    before.width as int,
                    before.height as int,
                    (px, py),
                );
            }
        }
        before.lemma_paint_inside(inside, within, *color);
        if determinant(a, b, c) == 0 {
            lemma_degenerate_triangle_is_empty(a, b, c);
        }
    }
}

/// Index of the depth buffer's cell for the pixel `p` of an image `width`
/// pixels wide.
pub open spec fn cell_index(width: int, p: (int, int)) -> int {
    p.0 + p.1 * width
}

/// The pixel that cell `i` of the depth buffer belongs to.
pub open spec fn cell_position(width: int, i: int) -> (int, int) {
    (i % width, i / width)
}

/// A pixel inside the image and the cell of the depth buffer that belongs
/// to it determine each other.
pub proof fn lemma_cell_of_pixel(width: int, height: int, p: (int, int))
    requires
        0 <= p.0 < width,
        0 <= p.1 < height,
    ensures
        0 <= cell_index(width, p) < width * height,
        cell_position(width, cell_index(width, p)) == p,
{
    assert(0 <= p.1 * width && p.0 + p.1 * width < width * height) by (nonlinear_arith)
        requires
            0 <= p.0 < width,
            0 <= p.1 < height,
    ;
    lemma_fundamental_div_mod_converse(p.0 + p.1 * width, width, p.1, p.0);
}

/// A cell of the depth buffer belongs to a pixel inside the image.
pub proof fn lemma_pixel_of_cell(width: int, height: int, i: int)
    requires
        0 <= i < width * height,
        0 <= width,
        0 <= height,
    ensures
        0 <= cell_position(width, i).0 < width,
        0 <= cell_position(width, i).1 < height,
        cell_index(width, cell_position(width, i)) == i,
{
    assert(width > 0) by (nonlinear_arith)
        requires
            0 <= i < width * height,
            0 <= width,
    ;
    lemma_fundamental_div_mod(i, width);
    assert(width * (i / width) == (i / width) * width) by (nonlinear_arith);
    assert(0 <= i / width < height) by (nonlinear_arith)
        requires
            i == width * (i / width) + i % width,
            0 <= i % width < width,
            0 <= i < width * height,
    ;
}

impl TriangleDef {
    /// The screen position of the first vertex.
    pub open spec fn a(self) -> (int, int) {
        (self.0.x as int, self.0.y as int)
    }

    /// The screen position of the second vertex.
    pub open spec fn b(self) -> (int, int) {
        (self.1.x as int, self.1.y as int)
    }

    /// The screen position of the third vertex.
    pub open spec fn c(self) -> (int, int) {
        (self.2.x as int, self.2.y as int)
    }

    /// The depths of the three vertices.
    pub open spec fn depths(self) -> (int, int, int) {
        (self.0.z as int, self.1.z as int, self.2.z as int)
    }

    /// Whether the pixel `p` lies in the triangle.
    pub open spec fn covers(self, p: (int, int)) -> bool {
        contains(self.a(), self.b(), self.c(), p)
    }

    /// The depth of the triangle at the pixel `p`.
    pub open spec fn depth(self, p: (int, int)) -> int {
        depth_at(self.a(), self.b(), self.c(), self.depths(), p)
    }

    /// Whether the triangle shows at the pixel `p` of an image whose depth
    /// buffer holds `stored`: the pixel lies in the image and in the
    /// triangle, and the triangle's depth there is greater than the stored
    /// one. An equal depth does not show.
    pub open spec fn shows(self, image: ImageView, stored: Seq<i64>, p: (int, int)) -> bool {
        &&& image.in_bounds(p.0, p.1)
        &&& self.covers(p)
        &&& self.depth(p) > stored[cell_index(image.width as int, p)]
    }

    /// The pixels at which the triangle shows.
    pub open spec fn shown_pixels(self, image: ImageView, stored: Seq<i64>) -> Set<(int, int)> {
        Set::new(|p: (int, int)| self.shows(image, stored, p))
    }

    /// The depth buffer after the triangle has been drawn: the triangle's
    /// depth where it shows, and the stored depth elsewhere.
    pub open spec fn depths_after(self, image: ImageView, stored: Seq<i64>) -> Seq<i64> {
        Seq::new(
            stored.len(),
            |i: int|
                if self.shows(image, stored, cell_position(image.width as int, i)) {
                    self.depth(cell_position(image.width as int, i)) as i64
                } else {
                    stored[i]
                },
        )
    }

    /// The depth buffer while the scan stands at `(x, y)`: as it will be
    /// where the scan has passed, and as it was elsewhere.
    pub open spec fn depths_scanned(
        self,
        image: ImageView,
        stored: Seq<i64>,
        lo: (int, int),
        hi: (int, int),
        x: int,
        y: int,
    ) -> Seq<i64> {
        Seq::new(
            stored.len(),
            |i: int|
                if scanned(lo, hi, x, y, cell_position(image.width as int, i)) {
                    self.depths_after(image, stored)[i]
                } else {
                    stored[i]
                },
        )
    }

    /// One step of the scan settles one cell of the depth buffer.
    pub proof fn lemma_depths_step(
        self,
        image: ImageView,
        stored: Seq<i64>,
        lo: (int, int),
        hi: (int, int),
        x: int,
        y: int,
    )
        requires
            stored.len() == image.width * image.height,
            image.in_bounds(x, y),
            lo.0 <= x <= hi.0,
            lo.1 <= y <= hi.1,
        ensures
            0 <= cell_index(image.width as int, (x, y)) < stored.len(),
            self.depths_scanned(image, stored, lo, hi, x, y)[cell_index(image.width as int, (x, y))]
                == stored[cell_index(image.width as int, (x, y))],
            self.depths_scanned(image, stored, lo, hi, x, y + 1) == if self.shows(
                image,
                stored,
                (x, y),
            ) {
                self.depths_scanned(image, stored, lo, hi, x, y).update(
                    cell_index(image.width as int, (x, y)),
                    self.depth((x, y)) as i64,
                )
            } else {
                self.depths_scanned(image, stored, lo, hi, x, y)
            },
    {
        let w = image.width as int;
        let h = image.height as int;
        let at = cell_index(w, (x, y));
        lemma_cell_of_pixel(w, h, (x, y));
        let now = self.depths_scanned(image, stored, lo, hi, x, y);
        let next = self.depths_scanned(image, stored, lo, hi, x, y + 1);
        let expected = if self.shows(image, stored, (x, y)) {
            now.update(at, self.depth((x, y)) as i64)
        } else {
            now
        };
        assert forall|i: int| 0 <= i < stored.len() implies next[i] == expected[i] by {
            lemma_pixel_of_cell(w, h, i);
            if i != at {
                assert(cell_position(w, i) != (x, y));
            }
        }
        assert(next =~= expected);
    }

    /// The end of one column is the start of the next.
    pub proof fn lemma_depths_next_column(
        self,
        image: ImageView,
        stored: Seq<i64>,
        lo: (int, int),
        hi: (int, int),
        x: int,
        y: int,
    )
        requires
            y > hi.1,
        ensures
            self.depths_scanned(image, stored, lo, hi, x, y) == self.depths_scanned(
                image,
                stored,
                lo,
                hi,
                x + 1,
                lo.1,
            ),
    {
        assert(self.depths_scanned(image, stored, lo, hi, x, y) =~= self.depths_scanned(
            image,
            stored,
            lo,
            hi,
            x + 1,
            lo.1,
        ));
    }

    /// Before its first step the scan has left the depth buffer as it was,
    /// and after its last column over the triangle's bounding box the depth
    /// buffer is as the triangle leaves it.
    pub proof fn lemma_depths_ends(self, image: ImageView, stored: Seq<i64>, x: int)
        requires
            stored.len() == image.width * image.height,
        ensures
            self.depths_scanned(
                image,
                stored,
                self.box_lower(),
                self.box_upper(image),
                self.box_lower().0,
                self.box_lower().1,
            ) == stored,
            x > self.box_upper(image).0 ==> self.depths_scanned(
                image,
                stored,
                self.box_lower(),
                self.box_upper(image),
                x,
                self.box_lower().1,
            ) == self.depths_after(image, stored),
    {
        let lo = self.box_lower();
        let hi = self.box_upper(image);
        let w = image.width as int;
        let h = image.height as int;
        assert(self.depths_scanned(image, stored, lo, hi, lo.0, lo.1) =~= stored);
        if x > hi.0 {
            assert forall|i: int| 0 <= i < stored.len() implies self.depths_scanned(
                image,
                stored,
                lo,
                hi,
                x,
                lo.1,
            )[i] == self.depths_after(image, stored)[i] by {
                let p = cell_position(w, i);
                if self.shows(image, stored, p) {
                    lemma_contained_in_boundary_box(self.a(), self.b(), self.c(), w, h, p);
                }
            }
            assert(self.depths_scanned(image, stored, lo, hi, x, lo.1) =~= self.depths_after(
                image,
                stored,
            ));
        }
    }

    /// Lower corner of the triangle's bounding box.
    pub open spec fn box_lower(self) -> (int, int) {
        (
            box_lower(self.a().0, self.b().0, self.c().0),
            box_lower(self.a().1, self.b().1, self.c().1),
        )
    }

    /// Upper corner of the triangle's bounding box in `image`.
    pub open spec fn box_upper(self, image: ImageView) -> (int, int) {
        (
            box_upper(self.a().0, self.b().0, self.c().0, image.width as int),
            box_upper(self.a().1, self.b().1, self.c().1, image.height as int),
        )
    }

    /// The first triangle at a pixel always shows: where the depth buffer
    /// holds `DEPTH_NEG_INFINITY`, a triangle shows at every pixel of the
    /// image that it covers.
    pub proof fn lemma_first_shows(self, image: ImageView, stored: Seq<i64>, p: (int, int))
        requires
            image.in_bounds(p.0, p.1),
            self.covers(p),
            stored[cell_index(image.width as int, p)] == DEPTH_NEG_INFINITY,
        ensures
            self.shows(image, stored, p),
            self.depth(p) == self.depth(p) as i64,
    {
        lemma_depth_at_bounds(self.a(), self.b(), self.c(), self.depths(), p);
    }

    /// At a pixel of the image that the triangle covers, the depth buffer
    /// ends with the greater of the stored depth and the triangle's depth.
    /// Every other cell stays as it was.
    pub proof fn lemma_depth_is_maximum(self, image: ImageView, stored: Seq<i64>, p: (int, int))
        requires
            stored.len() == image.width * image.height,
            image.in_bounds(p.0, p.1),
        ensures
            self.covers(p) ==> self.depths_after(image, stored)[cell_index(image.width as int, p)]
                == max(stored[cell_index(image.width as int, p)] as int, self.depth(p)),
            !self.covers(p) ==> self.depths_after(image, stored)[cell_index(image.width as int, p)]
                == stored[cell_index(image.width as int, p)],
    {
        lemma_cell_of_pixel(image.width as int, image.height as int, p);
        if self.covers(p) {
            lemma_depth_at_bounds(self.a(), self.b(), self.c(), self.depths(), p);
        }
    }

    /// Degenerate triangles: a triangle whose vertices lie on one line
    /// shows nowhere, and leaves the depth buffer as it was.
    pub proof fn lemma_degenerate_shows_nothing(self, image: ImageView, stored: Seq<i64>)
        requires
            determinant(self.a(), self.b(), self.c()) == 0,
        ensures
            self.shown_pixels(image, stored) == Set::<(int, int)>::empty(),
            self.depths_after(image, stored) == stored,
    {
        assert(self.shown_pixels(image, stored) =~= Set::<(int, int)>::empty());
        assert(self.depths_after(image, stored) =~= stored);
    }

    /// A scan of the bounding box passes every pixel at which the triangle
    /// shows.
    pub proof fn lemma_shown_in_box(self, image: ImageView, stored: Seq<i64>, x: int)
        requires
            x > self.box_upper(image).0,
        ensures
            scanned_pixels(
                self.shown_pixels(image, stored),
                self.box_lower(),
                self.box_upper(image),
                x,
                self.box_lower().1,
            ) == self.shown_pixels(image, stored),
    {
        let shown = self.shown_pixels(image, stored);
        let lo = self.box_lower();
        let hi = self.box_upper(image);
        assert forall|p: (int, int)| shown.contains(p) implies scanned(lo, hi, x, lo.1, p) by {
            lemma_contained_in_boundary_box(
                self.a(),
                self.b(),
                self.c(),
                image.width as int,
                image.height as int,
                p,
            );
        }
        assert(scanned_pixels(shown, lo, hi, x, lo.1) =~= shown);
    }
}

impl TextureDef {
    /// The texture columns of the three vertices.
    pub open spec fn xs(self) -> (int, int, int) {
        (self.0.x as int, self.1.x as int, self.2.x as int)
    }

    /// The texture rows of the three vertices.
    pub open spec fn ys(self) -> (int, int, int) {
        (self.0.y as int, self.1.y as int, self.2.y as int)
    }
}

impl TriangleDef {
    /// The position in the texture that belongs to the pixel `p`.
    pub open spec fn texel(self, texture_def: TextureDef, p: (int, int)) -> (int, int) {
        (
            texel_at(self.a(), self.b(), self.c(), texture_def.xs(), p),
            texel_at(self.a(), self.b(), self.c(), texture_def.ys(), p),
        )
    }

    /// The color of the pixel `p`: what the texture holds at the position
    /// that belongs to it, dimmed by `intensity`. A position outside the
    /// texture reads as the default color.
    pub open spec fn textured_color(
        self,
        texture_def: TextureDef,
        texture: ImageView,
        intensity: Intensity,
        p: (int, int),
    ) -> TGAColor {
        texture.get(
            spec_unsigned(self.texel(texture_def, p).0),
            spec_unsigned(self.texel(texture_def, p).1),
        ).scaled(intensity)
    }

    /// The colors of all pixels.
    pub open spec fn texture_colors(
        self,
        texture_def: TextureDef,
        texture: ImageView,
        intensity: Intensity,
    ) -> spec_fn((int, int)) -> TGAColor {
        |p: (int, int)| self.textured_color(texture_def, texture, intensity, p)
    }
}

/// Depth monotonicity: where two triangles are drawn one after the other
/// over a pixel at which nothing was drawn before, the depth buffer ends
/// with the greater of their two depths there, and the pixel ends in the
/// second triangle's color exactly when its depth is greater than the
/// first's. The two colors must differ in the bytes that the image keeps,
/// or the pixel could not tell them apart.
pub proof fn lemma_depth_monotonicity(
    first: TriangleDef,
    first_color: TGAColor,
    second: TriangleDef,
    second_color: TGAColor,
    image: ImageView,
    stored: Seq<i64>,
    p: (int, int),
)
    requires
        image.wf(),
        stored.len() == image.width * image.height,
        image.in_bounds(p.0, p.1),
        first.covers(p),
        second.covers(p),
        stored[cell_index(image.width as int, p)] == DEPTH_NEG_INFINITY,
        first_color.bytes(image.bpp() as int) != second_color.bytes(image.bpp() as int),
    ensures
        ({
            let after_first = image.paint(first.shown_pixels(image, stored), first_color);
            let stored_first = first.depths_after(image, stored);
            let after_second = after_first.paint(
                second.shown_pixels(after_first, stored_first),
                second_color,
            );
            let stored_second = second.depths_after(after_first, stored_first);
            &&& stored_second[cell_index(image.width as int, p)] == max(
                first.depth(p),
                second.depth(p),
            )
            &&& after_second.pixel(p.0, p.1) == second_color.bytes(image.bpp() as int)
                <==> second.depth(p) > first.depth(p)
        }),
{
    let at = cell_index(image.width as int, p);
    let after_first = image.paint(first.shown_pixels(image, stored), first_color);
    let stored_first = first.depths_after(image, stored);
    let after_second = after_first.paint(
        second.shown_pixels(after_first, stored_first),
        second_color,
    );
    lemma_cell_of_pixel(image.width as int, image.height as int, p);
    first.lemma_first_shows(image, stored, p);
    lemma_depth_at_bounds(second.a(), second.b(), second.c(), second.depths(), p);
    assert(stored_first[at] == first.depth(p));
    image.lemma_paint_pixel(first.shown_pixels(image, stored), first_color, p.0, p.1);
    assert(after_first.wf());
    after_first.lemma_paint_pixel(
        second.shown_pixels(after_first, stored_first),
        second_color,
        p.0,
        p.1,
    );
}

/// Fills a triangle from a texture, behind a depth buffer.
///
/// The depth test is that of `triangle_barycentric_zbuf`. A pixel that
/// passes it takes the color that `texture` holds at the position
/// interpolated from `texture_def`, dimmed by `intensity`.
pub fn triangle_barycentric_zbuf_with_texture(
    triangle_def: TriangleDef,
    texture_def: TextureDef,
    zbuf: &mut [i64],
    image: &mut TGAImage,
    texture: &TGAImage,
    intensity: Intensity,
)
    requires
        old(image)@.wf(),
        old(zbuf)@.len() == old(image)@.width * old(image)@.height,
        texture@.wf(),
    ensures
        final(image)@ == old(image)@.paint_with(
            triangle_def.shown_pixels(old(image)@, old(zbuf)@),
            triangle_def.texture_colors(texture_def, texture@, intensity),
        ),
        final(zbuf)@ == triangle_def.depths_after(old(image)@, old(zbuf)@),
        final(image)@.wf(),
        determinant(triangle_def.a(), triangle_def.b(), triangle_def.c()) == 0 ==> final(image)@
            == old(image)@ && final(zbuf)@ == old(zbuf)@,
{
    let ghost before = image@;
    let ghost stored = zbuf@;
    let ghost triangle = triangle_def;
    let ghost shown = triangle.shown_pixels(before, stored);
    let ghost colors = triangle.texture_colors(texture_def, texture@, intensity);
    let points_2d = [
        Vector2::new(triangle_def.0.get_x(), triangle_def.0.get_y()),
        Vector2::new(triangle_def.1.get_x(), triangle_def.1.get_y()),
        Vector2::new(triangle_def.2.get_x(), triangle_def.2.get_y()),
    ];
    let points = [triangle_def.0, triangle_def.1, triangle_def.2];
    let width = image.get_width();
    let cells = zbuf.len();
    let (boundary_box_min, boundary_box_max) = boundary_box_setup(
        &points_2d,
        width,
        image.get_height(),
    );
    let ghost lo = triangle.box_lower();
    let ghost hi = triangle.box_upper(before);
    let mut x: i64 = boundary_box_min.get_x() as i64;
    proof {
        lemma_scan_ends(shown, lo, hi, x as int);
        before.lemma_paint_with_nothing(colors);
        triangle.lemma_depths_ends(before, stored, x as int);
    }
    while x <= boundary_box_max.get_x() as i64
        invariant
            before.wf(),
            image@.wf(),
            texture@.wf(),
            width == before.width,
            stored.len() == before.width * before.height,
            stored.len() == cells,
            triangle == triangle_def,
            points[0] == triangle_def.0 && points[1] == triangle_def.1 && points[2]
                == triangle_def.2,
            shown == triangle.shown_pixels(before, stored),
            colors == triangle.texture_colors(texture_def, texture@, intensity),
            lo == triangle.box_lower(),
            hi == triangle.box_upper(before),
            lo == (boundary_box_min.x as int, boundary_box_min.y as int),
            hi == (boundary_box_max.x as int, boundary_box_max.y as int),
            lo.0 <= x,
            x <= hi.0 + 1 || x == lo.0,
            image@ == before.paint_with(scanned_pixels(shown, lo, hi, x as int, lo.1), colors),
            zbuf@ == triangle.depths_scanned(before, stored, lo, hi, x as int, lo.1),
        decreases hi.0 + 1 - x,
    {
        let mut y: i64 = boundary_box_min.get_y() as i64;
        while y <= boundary_box_max.get_y() as i64
            invariant
                before.wf(),
                image@.wf(),
                texture@.wf(),
                width == before.width,
                stored.len() == before.width * before.height,
                stored.len() == cells,
                triangle == triangle_def,
                points[0] == triangle_def.0 && points[1] == triangle_def.1 && points[2]
                    == triangle_def.2,
                shown == triangle.shown_pixels(before, stored),
                colors == triangle.texture_colors(texture_def, texture@, intensity),
                lo == triangle.box_lower(),
                hi == triangle.box_upper(before),
                lo == (boundary_box_min.x as int, boundary_box_min.y as int),
                hi == (boundary_box_max.x as int, boundary_box_max.y as int),
                lo.0 <= x <= hi.0,
                lo.1 <= y,
                y <= hi.1 + 1 || y == lo.1,
                image@ == before.paint_with(
                    scanned_pixels(shown, lo, hi, x as int, y as int),
                    colors,
                ),
                zbuf@ == triangle.depths_scanned(before, stored, lo, hi, x as int, y as int),
            decreases hi.1 + 1 - y,
        {
            proof {
                lemma_scan_step(shown, lo, hi, x as int, y as int);
                before.lemma_paint_with_insert(
                    scanned_pixels(shown, lo, hi, x as int, y as int),
                    colors,
                    x as int,
                    y as int,
                );
                triangle.lemma_depths_step(before, stored, lo, hi, x as int, y as int);
                assert(zbuf@.len() == stored.len());
                assert(0 <= y * width <= cell_index(width as int, (x as int, y as int)))
                    by (nonlinear_arith)
                    requires
                        0 <= x,
                        0 <= y,
                        0 <= width,
                        cell_index(width as int, (x as int, y as int)) == x + y * width,
                ;
            }
            if let Some(bc_screen) = barycentric(&points, Vector2::new(x as i32, y as i32)) {
                let z = bc_screen.depth(points[0].get_z(), points[1].get_z(), points[2].get_z());
                let index = x as usize + y as usize * width as usize;
                if zbuf[index] < z {
                    zbuf[index] = z;
                    let uv_p = Vector2::new(
                        bc_screen.texel(
                            texture_def.0.get_x(),
                            texture_def.1.get_x(),
                            texture_def.2.get_x(),
                        ),
                        bc_screen.texel(
                            texture_def.0.get_y(),
                            texture_def.1.get_y(),
                            texture_def.2.get_y(),
                        ),
                    );
                    let color = texture.get(unsigned(uv_p.get_x()), unsigned(uv_p.get_y()));
                    image.set(x as u32, y as u32, &(color * intensity));
                }
            }
            y += 1;
        }
        proof {
            lemma_scan_next_column(shown, lo, hi, x as int, y as int);
            triangle.lemma_depths_next_column(before, stored, lo, hi, x as int, y as int);
        }
        x += 1;
    }
    proof {
        triangle.lemma_shown_in_box(before, stored, x as int);
        triangle.lemma_depths_ends(before, stored, x as int);
        if determinant(triangle.a(), triangle.b(), triangle.c()) == 0 {
            triangle.lemma_degenerate_shows_nothing(before, stored);
            before.lemma_paint_with_nothing(colors);
        }
    }
}

/// Fills the triangle `v1`, `v2`, `v3` with one color, behind a depth
/// buffer.
///
/// At every pixel of the image that lies in the triangle, the triangle's
/// depth is interpolated from the depths of its vertices and held against
/// the depth buffer. Where it is greater, the pixel takes the color and the
/// depth buffer the depth. Where it is equal or less, both stay as they
/// are.
pub fn triangle_barycentric_zbuf(
    v1: Vector3Int,
    v2: Vector3Int,
    v3: Vector3Int,
    zbuf: &mut [i64],
    color: &TGAColor,
    image: &mut TGAImage,
)
    requires
        old(image)@.wf(),
        old(zbuf)@.len() == old(image)@.width * old(image)@.height,
    ensures
        final(image)@ == old(image)@.paint(
            TriangleDef(v1, v2, v3).shown_pixels(old(image)@, old(zbuf)@),
            *color,
        ),
        final(zbuf)@ == TriangleDef(v1, v2, v3).depths_after(old(image)@, old(zbuf)@),
        final(image)@.wf(),
        determinant(position(&v1), position(&v2), position(&v3)) == 0 ==> final(image)@ == old(
            image,
        )@ && final(zbuf)@ == old(zbuf)@,
{
    let ghost before = image@;
    let ghost stored = zbuf@;
    let ghost triangle = TriangleDef(v1, v2, v3);
    let ghost shown = triangle.shown_pixels(before, stored);
    let points_2d = [
        Vector2::new(v1.get_x(), v1.get_y()),
        Vector2::new(v2.get_x(), v2.get_y()),
        Vector2::new(v3.get_x(), v3.get_y()),
    ];
    let points = [v1, v2, v3];
    let width = image.get_width();
    let cells = zbuf.len();
    let (boundary_box_min, boundary_box_max) = boundary_box_setup(
        &points_2d,
        width,
        image.get_height(),
    );
    let ghost lo = triangle.box_lower();
    let ghost hi = triangle.box_upper(before);
    let mut x: i64 = boundary_box_min.get_x() as i64;
    proof {
        lemma_scan_ends(shown, lo, hi, x as int);
        before.lemma_paint_nothing(*color);
        triangle.lemma_depths_ends(before, stored, x as int);
    }
    while x <= boundary_box_max.get_x() as i64
        invariant
            before.wf(),
            image@.wf(),
            width == before.width,
            stored.len() == before.width * before.height,
            stored.len() == cells,
            triangle == TriangleDef(v1, v2, v3),
            points[0] == v1 && points[1] == v2 && points[2] == v3,
            shown == triangle.shown_pixels(before, stored),
            lo == triangle.box_lower(),
            hi == triangle.box_upper(before),
            lo == (boundary_box_min.x as int, boundary_box_min.y as int),
            hi == (boundary_box_max.x as int, boundary_box_max.y as int),
            lo.0 <= x,
            x <= hi.0 + 1 || x == lo.0,
            image@ == before.paint(scanned_pixels(shown, lo, hi, x as int, lo.1), *color),
            zbuf@ == triangle.depths_scanned(before, stored, lo, hi, x as int, lo.1),
        decreases hi.0 + 1 - x,
    {
        let mut y: i64 = boundary_box_min.get_y() as i64;
        while y <= boundary_box_max.get_y() as i64
            invariant
                before.wf(),
                image@.wf(),
                width == before.width,
                stored.len() == before.width * before.height,
            stored.len() == cells,
                triangle == TriangleDef(v1, v2, v3),
                points[0] == v1 && points[1] == v2 && points[2] == v3,
                shown == triangle.shown_pixels(before, stored),
                lo == triangle.box_lower(),
                hi == triangle.box_upper(before),
                lo == (boundary_box_min.x as int, boundary_box_min.y as int),
                hi == (boundary_box_max.x as int, boundary_box_max.y as int),
                lo.0 <= x <= hi.0,
                lo.1 <= y,
                y <= hi.1 + 1 || y == lo.1,
                image@ == before.paint(scanned_pixels(shown, lo, hi, x as int, y as int), *color),
                zbuf@ == triangle.depths_scanned(before, stored, lo, hi, x as int, y as int),
            decreases hi.1 + 1 - y,
        {
            proof {
                lemma_scan_step(shown, lo, hi, x as int, y as int);
                before.lemma_paint_insert(
                    scanned_pixels(shown, lo, hi, x as int, y as int),
                    x as int,
                    y as int,
                    *color,
                );
                triangle.lemma_depths_step(before, stored, lo, hi, x as int, y as int);
                assert(zbuf@.len() == stored.len());
                assert(0 <= y * width <= cell_index(width as int, (x as int, y as int)))
                    by (nonlinear_arith)
                    requires
                        0 <= x,
                        0 <= y,
                        0 <= width,
                        cell_index(width as int, (x as int, y as int)) == x + y * width,
                ;
            }
            if let Some(bc_screen) = barycentric(&points, Vector2::new(x as i32, y as i32)) {
                let z = bc_screen.depth(points[0].get_z(), points[1].get_z(), points[2].get_z());
                let index = x as usize + y as usize * width as usize;
                if zbuf[index] < z {
                    zbuf[index] = z;
                    image.set(x as u32, y as u32, color);
                }
            }
            y += 1;
        }
        proof {
            lemma_scan_next_column(shown, lo, hi, x as int, y as int);
            triangle.lemma_depths_next_column(before, stored, lo, hi, x as int, y as int);
        }
        x += 1;
    }
    proof {
        triangle.lemma_shown_in_box(before, stored, x as int);
        triangle.lemma_depths_ends(before, stored, x as int);
        if determinant(triangle.a(), triangle.b(), triangle.c()) == 0 {
            triangle.lemma_degenerate_shows_nothing(before, stored);
            before.lemma_paint_nothing(*color);
        }
    }
}

} // verus!
