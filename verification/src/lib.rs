//! A software rasterizer: line segments and triangles, given in screen
//! coordinates, are turned into the pixels of an image, with a depth buffer
//! and a texture where they are wanted.
//!
//! All arithmetic is on integers and exact. Barycentric weights are ratios
//! with a common denominator, depths are kept in fixed point, and a
//! brightness is a ratio of two integers.
//!
//! - `point`, `geometry`: positions and vectors.
//! - `tgaimage`: colors, the image buffer, and the TGA file format.
//! - `bresenham`, `line`: the pixels of a line segment.
//! - `raster`: drawing a segment into an image.
//! - `barycentric`, `interpolate`: the weights of a point in a triangle,
//!   the bounding box of a triangle, and what is interpolated with the
//!   weights.
//! - `triangle`: filling a triangle by scanning its bounding box, plainly,
//!   behind a depth buffer, or from a texture.
//! - `scanline`: filling a triangle by walking its edges.
//! - `model`: the faces of a mesh as an OBJ file lists them.

pub mod barycentric;
pub mod bresenham;
pub mod geometry;
pub mod interpolate;
pub mod line;
pub mod model;
pub mod numeric;
pub mod point;
pub mod raster;
pub mod scanline;
pub mod tgaimage;
pub mod triangle;

pub use crate::barycentric::{barycentric, PointBarycentricCoords};
pub use crate::raster::line;
pub use crate::scanline::triangle;
pub use crate::triangle::{
    triangle_barycentric, triangle_barycentric_zbuf, triangle_barycentric_zbuf_with_texture,
    TextureDef, TriangleDef,
};
