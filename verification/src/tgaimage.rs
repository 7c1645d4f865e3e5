//! Pixel storage: colors, pixel formats and the image buffer that the
//! rasterizer draws into.

pub mod codec;
pub mod color;
pub mod image;

pub use self::codec::TGAError;
pub use self::color::{
    ColorChannel, Intensity, TGAColor, TGAHeader, TGAImageFormat, TGAImageType,
};
pub use self::image::{ImageView, TGAImage};
