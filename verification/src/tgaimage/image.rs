//! The image buffer: a rectangle of pixels stored row by row, each pixel
//! taking as many bytes as the image's format says.

use super::color::{TGAColor, TGAImageFormat};
use vstd::arithmetic::div_mod::{lemma_fundamental_div_mod, lemma_fundamental_div_mod_converse};
use vstd::prelude::*;

verus! {

/// What an image holds: its dimensions, its pixel format and its bytes.
pub struct ImageView {
    pub width: nat,
    pub height: nat,
    pub format: TGAImageFormat,
    pub data: Seq<u8>,
}

impl ImageView {
    /// Bytes per pixel.
    pub open spec fn bpp(self) -> nat {
        self.format.spec_bytes() as nat
    }

    /// The buffer holds exactly `width * height` pixels.
    pub open spec fn wf(self) -> bool {
        self.data.len() == self.width * self.height * self.bpp()
    }

    /// Whether `(x, y)` is the position of a pixel of the image.
    pub open spec fn in_bounds(self, x: int, y: int) -> bool {
        0 <= x < self.width && 0 <= y < self.height
    }

    /// Index of the first byte of the pixel at `(x, y)`.
    pub open spec fn offset(self, x: int, y: int) -> int {
        (x + y * self.width) * self.bpp()
    }

    /// The stored bytes of the pixel at `(x, y)`.
    pub open spec fn pixel(self, x: int, y: int) -> Seq<u8> {
        self.data.subrange(self.offset(x, y), self.offset(x, y) + self.bpp())
    }

    /// Column of the pixel that byte `i` of the buffer belongs to.
    pub open spec fn byte_x(self, i: int) -> int {
        (i / self.bpp() as int) % (self.width as int)
    }

    /// Row of the pixel that byte `i` of the buffer belongs to.
    pub open spec fn byte_y(self, i: int) -> int {
        (i / self.bpp() as int) / (self.width as int)
    }

    /// The image with every pixel of `pixels` overwritten by `color`, and
    /// every other pixel as it was.
    pub open spec fn paint(self, pixels: Set<(int, int)>, color: TGAColor) -> ImageView {
        ImageView {
            data: Seq::new(
                self.data.len(),
                |i: int|
                    if pixels.contains((self.byte_x(i), self.byte_y(i))) {
                        color.bgra[i % self.bpp() as int]
                    } else {
                        self.data[i]
                    },
            ),
            ..self
        }
    }

    /// The image with every pixel of `pixels` overwritten by the color that
    /// `colors` gives for its position, and every other pixel as it was.
    pub open spec fn paint_with(
        self,
        pixels: Set<(int, int)>,
        colors: spec_fn((int, int)) -> TGAColor,
    ) -> ImageView {
        ImageView {
            data: Seq::new(
                self.data.len(),
                |i: int|
                    if pixels.contains((self.byte_x(i), self.byte_y(i))) {
                        colors((self.byte_x(i), self.byte_y(i))).bgra[i % self.bpp() as int]
                    } else {
                        self.data[i]
                    },
            ),
            ..self
        }
    }

    /// The image after a write to `(x, y)`: a position outside the image
    /// changes nothing.
    pub open spec fn set(self, x: int, y: int, color: TGAColor) -> ImageView {
        if self.in_bounds(x, y) {
            self.paint(set![(x, y)], color)
        } else {
            self
        }
    }

    /// The color read at `(x, y)`: the pixel's bytes followed by zeros, or
    /// the default color for a position outside the image.
    pub open spec fn get(self, x: int, y: int) -> TGAColor {
        if self.data.len() == 0 || !self.in_bounds(x, y) {
            TGAColor { bgra: [0u8, 0u8, 0u8, 0u8], bytespp: 0 }
        } else {
            TGAColor {
                bgra: [
                    self.channel_byte(x, y, 0),
                    self.channel_byte(x, y, 1),
                    self.channel_byte(x, y, 2),
                    self.channel_byte(x, y, 3),
                ],
                bytespp: self.format.spec_bytes(),
            }
        }
    }

    /// Byte `k` of the pixel at `(x, y)`, or zero where the format stores
    /// fewer bytes.
    pub open spec fn channel_byte(self, x: int, y: int, k: int) -> u8 {
        if k < self.bpp() {
            self.data[self.offset(x, y) + k]
        } else {
            0
        }
    }

    /// The image in which every pixel holds what `source` names for it: the
    /// pixel at `p` has the bytes that the pixel at `source(p)` had.
    pub open spec fn rearranged(self, source: spec_fn((int, int)) -> (int, int)) -> ImageView {
        ImageView {
            data: Seq::new(
                self.data.len(),
                |i: int|
                    self.data[self.offset(
                        source((self.byte_x(i), self.byte_y(i))).0,
                        source((self.byte_x(i), self.byte_y(i))).1,
                    ) + i % self.bpp() as int],
            ),
            ..self
        }
    }

    /// The image with the pixels at `p` and `q` exchanged.
    pub open spec fn swapped(self, p: (int, int), q: (int, int)) -> ImageView {
        self.rearranged(
            |at: (int, int)|
                if at == p {
                    q
                } else if at == q {
                    p
                } else {
                    at
                },
        )
    }

    /// Where the pixel at `at` comes from while the columns are being
    /// mirrored, pair by pair from the outside and each pair from row 0,
    /// and the exchange stands at the pair of column `x` in row `y`.
    pub open spec fn column_source(self, x: int, y: int, at: (int, int)) -> (int, int) {
        let outer = if at.0 < self.width - 1 - at.0 {
            at.0
        } else {
            self.width - 1 - at.0
        };
        if outer < x || (outer == x && at.1 < y) {
            (self.width - 1 - at.0, at.1)
        } else {
            at
        }
    }

    /// The image while its columns are being mirrored.
    pub open spec fn columns_mirrored_to(self, x: int, y: int) -> ImageView {
        self.rearranged(|at: (int, int)| self.column_source(x, y, at))
    }

    /// The image mirrored left to right: the pixel at `(x, y)` has the
    /// bytes that the pixel at `(width - 1 - x, y)` had.
    pub open spec fn flipped_horizontally(self) -> ImageView {
        self.rearranged(|at: (int, int)| (self.width - 1 - at.0, at.1))
    }

    /// Where the pixel at `at` comes from while the rows are being
    /// mirrored, pair by pair from the outside and each pair from column
    /// 0, and the exchange stands at the pair of row `y` in column `x`.
    pub open spec fn row_source(self, y: int, x: int, at: (int, int)) -> (int, int) {
        let outer = if at.1 < self.height - 1 - at.1 {
            at.1
        } else {
            self.height - 1 - at.1
        };
        if outer < y || (outer == y && at.0 < x) {
            (at.0, self.height - 1 - at.1)
        } else {
            at
        }
    }

    /// The image while its rows are being mirrored.
    pub open spec fn rows_mirrored_to(self, y: int, x: int) -> ImageView {
        self.rearranged(|at: (int, int)| self.row_source(y, x, at))
    }

    /// The image mirrored top to bottom: the pixel at `(x, y)` has the
    /// bytes that the pixel at `(x, height - 1 - y)` had.
    pub open spec fn flipped_vertically(self) -> ImageView {
        self.rearranged(|at: (int, int)| (at.0, self.height - 1 - at.1))
    }

    /// Reading a pixel of a rearranged image gives the bytes of the pixel
    /// that it comes from.
    pub proof fn lemma_rearranged_pixel(
        self,
        source: spec_fn((int, int)) -> (int, int),
        x: int,
        y: int,
    )
        requires
            self.wf(),
            self.in_bounds(x, y),
            self.in_bounds(source((x, y)).0, source((x, y)).1),
        ensures
            self.rearranged(source).pixel(x, y) == self.pixel(source((x, y)).0, source((x, y)).1),
    {
        let after = self.rearranged(source);
        let from = source((x, y));
        if self.bpp() > 0 {
            self.lemma_pixel_bytes(x, y);
            self.lemma_pixel_bytes(from.0, from.1);
            let off = self.offset(x, y);
            assert forall|k: int| 0 <= k < self.bpp() implies after.pixel(x, y)[k] == self.pixel(
                from.0,
                from.1,
            )[k] by {
                lemma_byte_position(self.width as int, self.bpp() as int, x, y, off + k);
            }
        }
        assert(after.pixel(x, y) =~= self.pixel(from.0, from.1));
    }

    /// Reading a pixel of a mirrored image gives the bytes of the pixel
    /// across.
    pub proof fn lemma_flipped_pixel(self, x: int, y: int)
        requires
            self.wf(),
            self.in_bounds(x, y),
        ensures
            self.flipped_horizontally().pixel(x, y) == self.pixel(self.width - 1 - x, y),
            self.flipped_vertically().pixel(x, y) == self.pixel(x, self.height - 1 - y),
    {
        self.lemma_rearranged_pixel(|at: (int, int)| (self.width - 1 - at.0, at.1), x, y);
        self.lemma_rearranged_pixel(|at: (int, int)| (at.0, self.height - 1 - at.1), x, y);
    }

    /// A step of the mirroring of columns exchanges one pair of pixels.
    pub proof fn lemma_columns_step(self, x: int, y: int)
        requires
            self.wf(),
            0 <= x,
            2 * x + 1 < self.width,
            0 <= y < self.height,
        ensures
            self.columns_mirrored_to(x, y + 1).data == self.columns_mirrored_to(x, y).swapped(
                (x, y),
                (self.width - 1 - x, y),
            ).data,
    {
        let now = self.columns_mirrored_to(x, y);
        let next = self.columns_mirrored_to(x, y + 1);
        let p = (x, y);
        let q = (self.width - 1 - x, y);
        let exchanged = now.swapped(p, q);
        assert forall|i: int| 0 <= i < self.data.len() implies next.data[i] == exchanged.data[i] by {
            self.lemma_byte_in_bounds(i);
            let at = (self.byte_x(i), self.byte_y(i));
            self.lemma_pixel_bytes(at.0, at.1);
            let from = if at == p {
                q
            } else if at == q {
                p
            } else {
                at
            };
            self.lemma_pixel_bytes(from.0, from.1);
            let j = now.offset(from.0, from.1) + i % self.bpp() as int;
            lemma_byte_position(self.width as int, self.bpp() as int, from.0, from.1, j);
            assert(now.byte_x(j) == from.0 && now.byte_y(j) == from.1);
            assert(j % self.bpp() as int == i % self.bpp() as int);
        }
        assert(next.data =~= exchanged.data);
    }

    /// A step of the mirroring of rows exchanges one pair of pixels.
    pub proof fn lemma_rows_step(self, y: int, x: int)
        requires
            self.wf(),
            0 <= y,
            2 * y + 1 < self.height,
            0 <= x < self.width,
        ensures
            self.rows_mirrored_to(y, x + 1).data == self.rows_mirrored_to(y, x).swapped(
                (x, y),
                (x, self.height - 1 - y),
            ).data,
    {
        let now = self.rows_mirrored_to(y, x);
        let next = self.rows_mirrored_to(y, x + 1);
        let p = (x, y);
        let q = (x, self.height - 1 - y);
        let exchanged = now.swapped(p, q);
        assert forall|i: int| 0 <= i < self.data.len() implies next.data[i] == exchanged.data[i] by {
            self.lemma_byte_in_bounds(i);
            let at = (self.byte_x(i), self.byte_y(i));
            self.lemma_pixel_bytes(at.0, at.1);
            let from = if at == p {
                q
            } else if at == q {
                p
            } else {
                at
            };
            self.lemma_pixel_bytes(from.0, from.1);
            let j = now.offset(from.0, from.1) + i % self.bpp() as int;
            lemma_byte_position(self.width as int, self.bpp() as int, from.0, from.1, j);
            assert(now.byte_x(j) == from.0 && now.byte_y(j) == from.1);
            assert(j % self.bpp() as int == i % self.bpp() as int);
        }
        assert(next.data =~= exchanged.data);
    }

    /// Mirroring twice gives the image back.
    pub proof fn lemma_flip_twice(self)
        requires
            self.wf(),
        ensures
            self.flipped_horizontally().flipped_horizontally() == self,
            self.flipped_vertically().flipped_vertically() == self,
    {
        let h = self.flipped_horizontally();
        let v = self.flipped_vertically();
        assert forall|i: int| 0 <= i < self.data.len() implies h.flipped_horizontally().data[i]
            == self.data[i] && v.flipped_vertically().data[i] == self.data[i] by {
            self.lemma_byte_in_bounds(i);
            let at = (self.byte_x(i), self.byte_y(i));
            self.lemma_pixel_bytes(at.0, at.1);
            let across = (self.width - 1 - at.0, at.1);
            self.lemma_pixel_bytes(across.0, across.1);
            let j = self.offset(across.0, across.1) + i % self.bpp() as int;
            lemma_byte_position(self.width as int, self.bpp() as int, across.0, across.1, j);
            assert(j % self.bpp() as int == i % self.bpp() as int);
            let below = (at.0, self.height - 1 - at.1);
            self.lemma_pixel_bytes(below.0, below.1);
            let k = self.offset(below.0, below.1) + i % self.bpp() as int;
            lemma_byte_position(self.width as int, self.bpp() as int, below.0, below.1, k);
            assert(k % self.bpp() as int == i % self.bpp() as int);
        }
        assert(h.flipped_horizontally().data =~= self.data);
        assert(v.flipped_vertically().data =~= self.data);
    }

    /// The bytes of a pixel inside the image lie inside the buffer, and a
    /// byte of the buffer belongs to that pixel exactly when it lies among
    /// them.
    pub proof fn lemma_pixel_bytes(self, x: int, y: int)
        requires
            self.wf(),
            self.in_bounds(x, y),
            self.bpp() > 0,
        ensures
            0 <= self.offset(x, y),
            self.offset(x, y) + self.bpp() <= self.data.len(),
            forall|i: int|
                0 <= i < self.data.len() ==> ((self.offset(x, y) <= i < self.offset(x, y)
                    + self.bpp()) <==> (#[trigger] self.byte_x(i) == x && self.byte_y(i) == y)),
            forall|i: int|
                0 <= i < self.data.len() && #[trigger] self.byte_x(i) == x && self.byte_y(i) == y
                    ==> i % self.bpp() as int == i - self.offset(x, y),
    {
        let w = self.width as int;
        let h = self.height as int;
        let b = self.bpp() as int;
        assert(0 <= (x + y * w) * b && (x + y * w) * b + b <= w * h * b) by (nonlinear_arith)
            requires
                0 <= x < w,
                0 <= y < h,
                b > 0,
        ;
        assert forall|i: int| 0 <= i < self.data.len() implies ((self.offset(x, y) <= i
            < self.offset(x, y) + self.bpp()) <==> (#[trigger] self.byte_x(i) == x && self.byte_y(i)
            == y)) && (self.byte_x(i) == x && self.byte_y(i) == y ==> i % b == i - self.offset(
            x,
            y,
        )) by {
            lemma_byte_position(w, b, x, y, i);
        }
    }

    /// Every byte of a well-formed image belongs to a pixel inside it.
    pub proof fn lemma_byte_in_bounds(self, i: int)
        requires
            self.wf(),
            0 <= i < self.data.len(),
        ensures
            self.bpp() > 0,
            self.in_bounds(self.byte_x(i), self.byte_y(i)),
            self.offset(self.byte_x(i), self.byte_y(i)) <= i < self.offset(
                self.byte_x(i),
                self.byte_y(i),
            ) + self.bpp(),
    {
        let w = self.width as int;
        let h = self.height as int;
        let b = self.bpp() as int;
        assert(w > 0 && h > 0 && b > 0) by (nonlinear_arith)
            requires
                w >= 0,
                h >= 0,
                b >= 0,
                w * h * b > 0,
        ;
        let k = i / b;
        lemma_fundamental_div_mod(i, b);
        lemma_fundamental_div_mod(k, w);
        assert(0 <= k < w * h) by (nonlinear_arith)
            requires
                i == b * k + i % b,
                0 <= i % b < b,
                0 <= i < w * h * b,
                b > 0,
        ;
        assert(0 <= k / w < h) by (nonlinear_arith)
            requires
                k == w * (k / w) + k % w,
                0 <= k % w < w,
                0 <= k < w * h,
                w > 0,
        ;
        lemma_byte_position(w, b, k % w, k / w, i);
    }

    /// Reading a pixel of a painted image gives the color's bytes where the
    /// pixel was painted, and the old bytes elsewhere.
    pub proof fn lemma_paint_pixel(self, pixels: Set<(int, int)>, color: TGAColor, x: int, y: int)
        requires
            self.wf(),
            self.in_bounds(x, y),
        ensures
            self.paint(pixels, color).pixel(x, y) == if pixels.contains((x, y)) {
                color.bytes(self.bpp() as int)
            } else {
                self.pixel(x, y)
            },
    {
        let after = self.paint(pixels, color);
        let expected = if pixels.contains((x, y)) {
            color.bytes(self.bpp() as int)
        } else {
            self.pixel(x, y)
        };
        if self.bpp() > 0 {
            self.lemma_pixel_bytes(x, y);
            let off = self.offset(x, y);
            assert forall|k: int| 0 <= k < self.bpp() implies after.pixel(x, y)[k] == expected[k] by {
                lemma_byte_position(self.width as int, self.bpp() as int, x, y, off + k);
            }
        }
        assert(after.pixel(x, y) =~= expected);
    }

    /// Painting no pixels leaves the image as it was.
    pub proof fn lemma_paint_nothing(self, color: TGAColor)
        ensures
            self.paint(Set::empty(), color) == self,
    {
        assert(self.paint(Set::empty(), color).data =~= self.data);
    }

    /// Painting first one set of pixels and then another, in one color, is
    /// painting their union.
    pub proof fn lemma_paint_union(
        self,
        first: Set<(int, int)>,
        second: Set<(int, int)>,
        color: TGAColor,
    )
        ensures
            self.paint(first, color).paint(second, color) == self.paint(first.union(second), color),
    {
        assert(self.paint(first, color).paint(second, color).data =~= self.paint(
            first.union(second),
            color,
        ).data);
    }

    /// A write to one more pixel, in the color of those painted before,
    /// paints the set with that pixel added.
    pub proof fn lemma_paint_insert(self, pixels: Set<(int, int)>, x: int, y: int, color: TGAColor)
        requires
            self.wf(),
        ensures
            self.paint(pixels, color).set(x, y, color) == self.paint(pixels.insert((x, y)), color),
    {
        let painted = self.paint(pixels, color);
        if painted.in_bounds(x, y) {
            self.lemma_paint_union(pixels, set![(x, y)], color);
            assert(pixels.union(set![(x, y)]) =~= pixels.insert((x, y)));
        } else {
            self.lemma_paint_inside(pixels.insert((x, y)), pixels, color);
        }
    }

    /// A write to one more pixel, in the color that belongs to its position,
    /// paints the set with that pixel added.
    pub proof fn lemma_paint_with_insert(
        self,
        pixels: Set<(int, int)>,
        colors: spec_fn((int, int)) -> TGAColor,
        x: int,
        y: int,
    )
        requires
            self.wf(),
        ensures
            self.paint_with(pixels, colors).set(x, y, colors((x, y))) == self.paint_with(
                pixels.insert((x, y)),
                colors,
            ),
    {
        let painted = self.paint_with(pixels, colors);
        let after = self.paint_with(pixels.insert((x, y)), colors);
        assert forall|i: int| 0 <= i < self.data.len() implies painted.set(x, y, colors((x, y))).data[i]
            == after.data[i] by {
            self.lemma_byte_in_bounds(i);
        }
        assert(painted.set(x, y, colors((x, y))).data =~= after.data);
    }

    /// Painting no pixels leaves the image as it was, whatever the colors.
    pub proof fn lemma_paint_with_nothing(self, colors: spec_fn((int, int)) -> TGAColor)
        ensures
            self.paint_with(Set::empty(), colors) == self,
    {
        assert(self.paint_with(Set::empty(), colors).data =~= self.data);
    }

    /// Only the pixels inside the image count: painting a set, or the part
    /// of it that lies inside a well-formed image, is the same.
    pub proof fn lemma_paint_inside(
        self,
        pixels: Set<(int, int)>,
        inside: Set<(int, int)>,
        color: TGAColor,
    )
        requires
            self.wf(),
            forall|x: int, y: int|
                self.in_bounds(x, y) ==> (pixels.contains((x, y)) <==> inside.contains((x, y))),
        ensures
            self.paint(pixels, color) == self.paint(inside, color),
    {
        assert forall|i: int| 0 <= i < self.data.len() implies self.paint(pixels, color).data[i]
            == self.paint(inside, color).data[i] by {
            self.lemma_byte_in_bounds(i);
        }
        assert(self.paint(pixels, color).data =~= self.paint(inside, color).data);
    }
}

/// Where byte `i` lies in a buffer of rows of `w` pixels of `b` bytes: it is
/// one of the bytes of the pixel at `(x, y)` exactly when dividing its index
/// gives back `x` and `y`.
pub proof fn lemma_byte_position(w: int, b: int, x: int, y: int, i: int)
    requires
        b > 0,
        0 <= x < w,
        0 <= y,
        0 <= i,
    ensures
        ((x + y * w) * b <= i < (x + y * w) * b + b) <==> ((i / b) % w == x && (i / b) / w == y),
        (i / b) % w == x && (i / b) / w == y ==> i % b == i - (x + y * w) * b,
{
    let k = i / b;
    let off = (x + y * w) * b;
    lemma_fundamental_div_mod(i, b);
    lemma_fundamental_div_mod(k, w);
    if off <= i < off + b {
        assert(i == (x + y * w) * b + (i - off));
        lemma_fundamental_div_mod_converse(i, b, x + y * w, i - off);
        assert(k == y * w + x);
        assert(k == y * w + x ==> k == w * y + x) by (nonlinear_arith);
        lemma_fundamental_div_mod_converse(k, w, y, x);
    }
    if k % w == x && k / w == y {
        assert(k == x + y * w) by (nonlinear_arith)
            requires
                k == w * (k / w) + k % w,
                k % w == x,
                k / w == y,
        ;
        assert(off == b * k) by (nonlinear_arith)
            requires
                off == (x + y * w) * b,
                k == x + y * w,
        ;
    }
}

/// An image: `width * height` pixels stored row by row.
pub struct TGAImage {
    data: Vec<u8>,
    /// Width of an image
    width: u32,
    /// Height of an image
    height: u32,
    /// TGA image color format
    bytespp: TGAImageFormat,
}

impl View for TGAImage {
    type V = ImageView;

    closed spec fn view(&self) -> ImageView {
        ImageView {
            width: self.width as nat,
            height: self.height as nat,
            format: self.bytespp,
            data: self.data@,
        }
    }
}

impl TGAImage {
    /// An image of the given size with every byte zero.
    pub fn new(width: u32, height: u32, bytespp: TGAImageFormat) -> (image: TGAImage)
        requires
            width * height * bytespp.spec_bytes() <= usize::MAX,
        ensures
            image@.width == width,
            image@.height == height,
            image@.format == bytespp,
            image@.data == Seq::new((width * height * bytespp.spec_bytes()) as nat, |i: int| 0u8),
            image@.wf(),
    {
        let bpp = bytespp.bytes();
        let size: usize = if bpp == 0 {
            assert(width * height * bpp == 0) by (nonlinear_arith)
                requires
                    bpp == 0,
            ;
            0
        } else {
            assert(0 <= width * height <= width * height * bpp) by (nonlinear_arith)
                requires
                    0 <= width,
                    0 <= height,
                    bpp >= 1,
            ;
            width as usize * height as usize * bpp as usize
        };
        let data = vec![0u8; size];
        assert(data@ =~= Seq::new(size as nat, |i: int| 0u8));
        TGAImage { data, width, height, bytespp }
    }

    /// An image made of its parts: the bytes of `width * height` pixels,
    /// row by row, in the given format. With any other number of bytes the
    /// image is not well-formed.
    pub fn from_parts(data: Vec<u8>, width: u32, height: u32, bytespp: TGAImageFormat) -> (image:
        TGAImage)
        ensures
            image@ == (ImageView {
                width: width as nat,
                height: height as nat,
                format: bytespp,
                data: data@,
            }),
    {
        TGAImage { data, width, height, bytespp }
    }

    /// Whether the buffer holds exactly the pixels that the dimensions and
    /// the format ask for, as it does until a caller resizes it.
    pub fn is_well_formed(&self) -> (wf: bool)
        ensures
            wf == self@.wf(),
    {
        let bpp = self.bytespp.bytes();
        assert(0 <= self.width * self.height <= 0xffff_ffff * 0xffff_ffff && 0 <= self.width
            * self.height * bpp <= 0xffff_ffff * 0xffff_ffff * 4) by (nonlinear_arith)
            requires
                0 <= self.width <= 0xffff_ffff,
                0 <= self.height <= 0xffff_ffff,
                0 <= bpp <= 4,
        ;
        self.data.len() as u128 == self.width as u128 * self.height as u128 * bpp as u128
    }

    /// Sets every byte of the buffer to zero.
    pub fn clear(&mut self)
        ensures
            final(self)@ == (ImageView {
                data: Seq::new(old(self)@.data.len(), |i: int| 0u8),
                ..old(self)@
            }),
    {
        let n = self.data.len();
        let mut i: usize = 0;
        while i < n
            invariant
                i <= n,
                n == self.data.len(),
                self.width == old(self).width,
                self.height == old(self).height,
                self.bytespp == old(self).bytespp,
                n == old(self).data.len(),
                forall|j: int| 0 <= j < i ==> self.data[j] == 0,
            decreases n - i,
        {
            self.data[i] = 0;
            i += 1;
        }
        assert(self.data@ =~= Seq::new(old(self)@.data.len(), |i: int| 0u8));
    }

    /// The raw bytes, open to any change: a caller that changes their number
    /// leaves an image that is no longer well-formed.
    pub fn buffer(&mut self) -> (data: &mut Vec<u8>)
        ensures
            data@ == old(self)@.data,
            final(self)@ == (ImageView { data: final(data)@, ..old(self)@ }),
    {
        &mut self.data
    }

    /// The raw bytes, for reading.
    pub fn raw_data(&self) -> (data: &Vec<u8>)
        ensures
            data@ == self@.data,
    {
        &self.data
    }

    pub fn get_bytespp(&self) -> (format: TGAImageFormat)
        ensures
            format == self@.format,
    {
        self.bytespp
    }

    pub fn get_width(&self) -> (width: u32)
        ensures
            width == self@.width,
    {
        self.width
    }

    pub fn get_height(&self) -> (height: u32)
        ensures
            height == self@.height,
    {
        self.height
    }

    /// Writes the color's leading bytes to the pixel at `(x, y)`; a position
    /// outside the image is ignored.
    pub fn set(&mut self, x: u32, y: u32, color: &TGAColor)
        requires
            old(self)@.wf(),
        ensures
            final(self)@ == old(self)@.set(x as int, y as int, *color),
            final(self)@.wf(),
    {
        let ghost before = self@;
        if self.data.len() != 0 && x < self.width && y < self.height {
            let bpp = self.bytespp.bytes() as usize;
            proof {
                before.lemma_byte_in_bounds(0);
                before.lemma_pixel_bytes(x as int, y as int);
                assert(0 <= y * self.width && x + y * self.width <= (x + y * self.width) * bpp)
                    by (nonlinear_arith)
                    requires
                        0 <= x,
                        0 <= y,
                        0 <= self.width,
                        bpp >= 1,
                ;
            }
            let offset = (x as usize + y as usize * self.width as usize) * bpp;
            let mut i: usize = 0;
            while i < bpp
                invariant
                    i <= bpp,
                    bpp <= 4,
                    offset + bpp <= before.data.len(),
                    self.data.len() == before.data.len(),
                    self.width == before.width,
                    self.height == before.height,
                    self.bytespp == before.format,
                    forall|j: int|
                        0 <= j < self.data.len() ==> self.data[j] == if offset <= j < offset + i {
                            color.bgra[j - offset]
                        } else {
                            before.data[j]
                        },
                decreases bpp - i,
            {
                self.data[offset + i] = color.bgra[i];
                i += 1;
            }
            assert(self@.data =~= before.set(x as int, y as int, *color).data);
        } else {
            proof {
                if before.in_bounds(x as int, y as int) {
                    assert(before.set(x as int, y as int, *color).data =~= before.data);
                }
            }
        }
    }

    /// Reads the pixel at `(x, y)`; a position outside the image reads as
    /// the default color.
    pub fn get(&self, x: u32, y: u32) -> (color: TGAColor)
        requires
            self@.wf(),
        ensures
            color == self@.get(x as int, y as int),
    {
        if self.data.is_empty() || x >= self.width || y >= self.height {
            let color = TGAColor::default();
            assert(color.bgra =~= self@.get(x as int, y as int).bgra);
            return color;
        }
        let bpp = self.bytespp.bytes();
        proof {
            self@.lemma_byte_in_bounds(0);
            self@.lemma_pixel_bytes(x as int, y as int);
            assert(0 <= y * self.width && x + y * self.width <= (x + y * self.width) * bpp)
                by (nonlinear_arith)
                requires
                    0 <= x,
                    0 <= y,
                    0 <= self.width,
                    bpp >= 1,
            ;
            assert(self@.offset(x as int, y as int) == (x + y * self.width) * bpp);
            assert(self@.offset(x as int, y as int) + bpp <= self.data.len());
        }
        let offset = (x as usize + y as usize * self.width as usize) * bpp as usize;
        let bytes = vstd::slice::slice_subrange(self.data.as_slice(), offset, offset + bpp as usize);
        proof {
            broadcast use vstd::std_specs::slice::axiom_spec_slice_iter;

        }
        let color = TGAColor::new_from_iter(bytes.iter(), bpp);
        assert(color.bgra =~= self@.get(x as int, y as int).bgra);
        color
    }
}

impl TGAImage {
    /// Exchanges the pixels at `(x1, y1)` and `(x2, y2)`, which lie inside
    /// the image.
    fn swap_pixels(&mut self, x1: u32, y1: u32, x2: u32, y2: u32)
        requires
            old(self)@.wf(),
            old(self)@.in_bounds(x1 as int, y1 as int),
            old(self)@.in_bounds(x2 as int, y2 as int),
        ensures
            final(self)@ == old(self)@.swapped((x1 as int, y1 as int), (x2 as int, y2 as int)),
            final(self)@.wf(),
    {
        let ghost before = self@;
        let ghost p = (x1 as int, y1 as int);
        let ghost q = (x2 as int, y2 as int);
        let c1 = self.get(x1, y1);
        let c2 = self.get(x2, y2);
        self.set(x1, y1, &c2);
        self.set(x2, y2, &c1);
        proof {
            let after = before.swapped(p, q);
            assert forall|i: int| 0 <= i < before.data.len() implies self@.data[i]
                == after.data[i] by {
                before.lemma_byte_in_bounds(i);
                before.lemma_pixel_bytes(p.0, p.1);
                before.lemma_pixel_bytes(q.0, q.1);
                before.lemma_pixel_bytes(before.byte_x(i), before.byte_y(i));
            }
            assert(self@.data =~= after.data);
        }
    }

    /// Mirrors the image left to right.
    pub fn flip_horizontally(&mut self)
        requires
            old(self)@.wf(),
        ensures
            final(self)@ == old(self)@.flipped_horizontally(),
            final(self)@.wf(),
    {
        let ghost before = self@;
        if self.data.len() == 0 {
            proof {
                assert(before.flipped_horizontally().data =~= before.data);
            }
            return ;
        }
        let half = self.width / 2;
        proof {
            before.lemma_mirroring_ends();
        }
        let mut i: u32 = 0;
        while i < half
            invariant
                before.wf(),
                self@.wf(),
                half == before.width / 2,
                i <= half,
                self.width == before.width,
                self.height == before.height,
                self@ == before.columns_mirrored_to(i as int, 0),
            decreases half - i,
        {
            let mut j: u32 = 0;
            while j < self.height
                invariant
                    before.wf(),
                    self@.wf(),
                    half == before.width / 2,
                    i < half,
                    j <= before.height,
                    self.width == before.width,
                    self.height == before.height,
                    self@ == before.columns_mirrored_to(i as int, j as int),
                decreases before.height - j,
            {
                proof {
                    before.lemma_columns_step(i as int, j as int);
                }
                self.swap_pixels(i, j, self.width - i - 1, j);
                j += 1;
            }
            proof {
                before.lemma_mirroring_next(i as int);
            }
            i += 1;
        }
    }

    /// Mirrors the image top to bottom.
    pub fn flip_vertically(&mut self)
        requires
            old(self)@.wf(),
        ensures
            final(self)@ == old(self)@.flipped_vertically(),
            final(self)@.wf(),
    {
        let ghost before = self@;
        if self.data.len() == 0 {
            proof {
                assert(before.flipped_vertically().data =~= before.data);
            }
            return ;
        }
        let half = self.height / 2;
        proof {
            before.lemma_mirroring_ends();
        }
        let mut i: u32 = 0;
        while i < half
            invariant
                before.wf(),
                self@.wf(),
                half == before.height / 2,
                i <= half,
                self.width == before.width,
                self.height == before.height,
                self@ == before.rows_mirrored_to(i as int, 0),
            decreases half - i,
        {
            let mut j: u32 = 0;
            while j < self.width
                invariant
                    before.wf(),
                    self@.wf(),
                    half == before.height / 2,
                    i < half,
                    j <= before.width,
                    self.width == before.width,
                    self.height == before.height,
                    self@ == before.rows_mirrored_to(i as int, j as int),
                decreases before.width - j,
            {
                proof {
                    before.lemma_rows_step(i as int, j as int);
                }
                self.swap_pixels(j, i, j, self.height - i - 1);
                j += 1;
            }
            proof {
                before.lemma_mirroring_next(i as int);
            }
            i += 1;
        }
    }
}

impl ImageView {
    /// Before the first exchange a mirroring has left the image as it was,
    /// and after the last it has mirrored it.
    pub proof fn lemma_mirroring_ends(self)
        requires
            self.wf(),
        ensures
            self.columns_mirrored_to(0, 0) == self,
            self.rows_mirrored_to(0, 0) == self,
            self.columns_mirrored_to(self.width as int / 2, 0) == self.flipped_horizontally(),
            self.rows_mirrored_to(self.height as int / 2, 0) == self.flipped_vertically(),
    {
        assert forall|i: int| 0 <= i < self.data.len() implies self.columns_mirrored_to(0, 0).data[i]
            == self.data[i] && self.rows_mirrored_to(0, 0).data[i] == self.data[i]
            && self.columns_mirrored_to(self.width as int / 2, 0).data[i]
            == self.flipped_horizontally().data[i] && self.rows_mirrored_to(
            self.height as int / 2,
            0,
        ).data[i] == self.flipped_vertically().data[i] by {
            self.lemma_byte_in_bounds(i);
            self.lemma_pixel_bytes(self.byte_x(i), self.byte_y(i));
        }
        assert(self.columns_mirrored_to(0, 0).data =~= self.data);
        assert(self.rows_mirrored_to(0, 0).data =~= self.data);
        assert(self.columns_mirrored_to(self.width as int / 2, 0).data
            =~= self.flipped_horizontally().data);
        assert(self.rows_mirrored_to(self.height as int / 2, 0).data
            =~= self.flipped_vertically().data);
    }

    /// The end of one pair of columns, or rows, is the start of the next.
    pub proof fn lemma_mirroring_next(self, i: int)
        requires
            self.wf(),
        ensures
            self.columns_mirrored_to(i, self.height as int) == self.columns_mirrored_to(i + 1, 0),
            self.rows_mirrored_to(i, self.width as int) == self.rows_mirrored_to(i + 1, 0),
    {
        assert forall|k: int| 0 <= k < self.data.len() implies self.columns_mirrored_to(
            i,
            self.height as int,
        ).data[k] == self.columns_mirrored_to(i + 1, 0).data[k] && self.rows_mirrored_to(
            i,
            self.width as int,
        ).data[k] == self.rows_mirrored_to(i + 1, 0).data[k] by {
            self.lemma_byte_in_bounds(k);
        }
        assert(self.columns_mirrored_to(i, self.height as int).data =~= self.columns_mirrored_to(
            i + 1,
            0,
        ).data);
        assert(self.rows_mirrored_to(i, self.width as int).data =~= self.rows_mirrored_to(
            i + 1,
            0,
        ).data);
    }
}

} // verus!
