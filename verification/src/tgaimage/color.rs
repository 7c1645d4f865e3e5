//! Colors, color channels and pixel formats.

use core::ops::{Index, IndexMut, Mul};
use vstd::prelude::*;
use vstd::std_specs::iter::IteratorSpec;

verus! {

/// The fixed 18-byte header at the start of a TGA file.
#[derive(Copy, Clone, Debug, PartialEq, Eq, Structural)]
pub struct TGAHeader {
    pub idlength: u8,
    pub colormaptype: u8,
    pub datatypecode: u8,
    pub colormaporigin: u16,
    pub colormaplength: u16,
    pub colormapdepth: u8,
    pub x_origin: u16,
    pub y_origin: u16,
    pub width: u16,
    pub height: u16,
    pub bitsperpixel: u8,
    pub imagedescriptor: u8,
}

impl Default for TGAHeader {
    fn default() -> (h: TGAHeader)
        ensures
            h == (TGAHeader {
                idlength: 0,
                colormaptype: 0,
                datatypecode: 0,
                colormaporigin: 0,
                colormaplength: 0,
                colormapdepth: 0,
                x_origin: 0,
                y_origin: 0,
                width: 0,
                height: 0,
                bitsperpixel: 0,
                imagedescriptor: 0,
            }),
    {
        TGAHeader {
            idlength: 0,
            colormaptype: 0,
            datatypecode: 0,
            colormaporigin: 0,
            colormaplength: 0,
            colormapdepth: 0,
            x_origin: 0,
            y_origin: 0,
            width: 0,
            height: 0,
            bitsperpixel: 0,
            imagedescriptor: 0,
        }
    }
}

/// A named color channel. Colors are stored blue first, so the channel and
/// its position in the stored bytes differ: see [`ColorChannel::offset`].
#[derive(Copy, Clone, Debug, PartialEq, Eq, Structural)]
pub enum ColorChannel {
    /// Red channel
    R,
    /// Green channel
    G,
    /// Blue channel
    B,
    /// Alpha channel
    A,
}

impl ColorChannel {
    /// Position of the channel in the stored blue-green-red-alpha bytes.
    pub open spec fn spec_offset(self) -> usize {
        match self {
            ColorChannel::B => 0,
            ColorChannel::G => 1,
            ColorChannel::R => 2,
            ColorChannel::A => 3,
        }
    }

    /// Position of the channel in the stored blue-green-red-alpha bytes.
    #[verifier::when_used_as_spec(spec_offset)]
    pub fn offset(self) -> (i: usize)
        ensures
            i == self.spec_offset(),
            i < 4,
    {
        match self {
            ColorChannel::B => 0,
            ColorChannel::G => 1,
            ColorChannel::R => 2,
            ColorChannel::A => 3,
        }
    }
}

/// The kind of image data that a TGA file announces in its header.
#[derive(Copy, Clone, Debug, PartialEq, Eq, Structural)]
pub enum TGAImageType {
    Unknown,
    UncompressedColor,
    UncompressedTrueColor,
    UncompressedBW,
    RLEColor,
    RLETrueColor,
    RLEBW,
}

impl TGAImageType {
    /// The image type that a header's data type code stands for.
    pub open spec fn spec_from_u8(value: u8) -> Option<TGAImageType> {
        if value == 0 {
            Some(TGAImageType::Unknown)
        } else if value == 1 {
            Some(TGAImageType::UncompressedColor)
        } else if value == 2 {
            Some(TGAImageType::UncompressedTrueColor)
        } else if value == 3 {
            Some(TGAImageType::UncompressedBW)
        } else if value == 9 {
            Some(TGAImageType::RLEColor)
        } else if value == 10 {
            Some(TGAImageType::RLETrueColor)
        } else if value == 11 {
            Some(TGAImageType::RLEBW)
        } else {
            None
        }
    }

    /// The data type code that stands for the image type in a header.
    pub open spec fn spec_code(self) -> u8 {
        match self {
            TGAImageType::Unknown => 0,
            TGAImageType::UncompressedColor => 1,
            TGAImageType::UncompressedTrueColor => 2,
            TGAImageType::UncompressedBW => 3,
            TGAImageType::RLEColor => 9,
            TGAImageType::RLETrueColor => 10,
            TGAImageType::RLEBW => 11,
        }
    }

    /// Decodes a header's data type code; `None` for a code that names no
    /// image type.
    pub fn from_u8(value: u8) -> (t: Option<TGAImageType>)
        ensures
            t == Self::spec_from_u8(value),
            t matches Some(kind) ==> kind.spec_code() == value,
            t is None <==> !(value <= 3 || 9 <= value <= 11),
    {
        match value {
            0 => Some(TGAImageType::Unknown),
            1 => Some(TGAImageType::UncompressedColor),
            2 => Some(TGAImageType::UncompressedTrueColor),
            3 => Some(TGAImageType::UncompressedBW),
            9 => Some(TGAImageType::RLEColor),
            10 => Some(TGAImageType::RLETrueColor),
            11 => Some(TGAImageType::RLEBW),
            _ => None,
        }
    }

    /// The data type code that stands for the image type in a header.
    #[verifier::when_used_as_spec(spec_code)]
    pub fn code(self) -> (c: u8)
        ensures
            c == self.spec_code(),
            Self::spec_from_u8(c) == Some(self),
    {
        match self {
            TGAImageType::Unknown => 0,
            TGAImageType::UncompressedColor => 1,
            TGAImageType::UncompressedTrueColor => 2,
            TGAImageType::UncompressedBW => 3,
            TGAImageType::RLEColor => 9,
            TGAImageType::RLETrueColor => 10,
            TGAImageType::RLEBW => 11,
        }
    }
}

/// Pixel format of an image: how many bytes one pixel takes, and thereby
/// which channels it stores.
#[derive(Copy, Clone, Debug, PartialEq, Eq, Structural)]
pub enum TGAImageFormat {
    Unknown,
    Grayscale,
    RGB,
    RGBA,
}

impl TGAImageFormat {
    /// Bytes per pixel: 0 for an unknown format, 1 for grayscale, 3 for RGB
    /// and 4 for RGBA.
    pub open spec fn spec_bytes(self) -> u8 {
        match self {
            TGAImageFormat::Unknown => 0,
            TGAImageFormat::Grayscale => 1,
            TGAImageFormat::RGB => 3,
            TGAImageFormat::RGBA => 4,
        }
    }

    /// Bytes per pixel: 0 for an unknown format, 1 for grayscale, 3 for RGB
    /// and 4 for RGBA.
    #[verifier::when_used_as_spec(spec_bytes)]
    pub fn bytes(self) -> (n: u8)
        ensures
            n == self.spec_bytes(),
            n <= 4,
    {
        match self {
            TGAImageFormat::Unknown => 0,
            TGAImageFormat::Grayscale => 1,
            TGAImageFormat::RGB => 3,
            TGAImageFormat::RGBA => 4,
        }
    }
}

impl TryFrom<u8> for TGAImageFormat {
    type Error = &'static str;

    /// The format with `value` bytes per pixel, or an error for a count that
    /// no format has.
    fn try_from(value: u8) -> (r: Result<TGAImageFormat, &'static str>)
        ensures
            r is Ok <==> (value == 0 || value == 1 || value == 3 || value == 4),
            r matches Ok(format) ==> format.spec_bytes() == value,
            r matches Err(msg) ==> msg@ == "Invalid TGA Image format number"@,
    {
        match value {
            0 => Ok(TGAImageFormat::Unknown),
            1 => Ok(TGAImageFormat::Grayscale),
            3 => Ok(TGAImageFormat::RGB),
            4 => Ok(TGAImageFormat::RGBA),
            _ => Err("Invalid TGA Image format number"),
        }
    }
}

impl vstd::std_specs::convert::TryFromSpecImpl<u8> for TGAImageFormat {
    open spec fn obeys_try_from_spec() -> bool {
        true
    }

    open spec fn try_from_spec(value: u8) -> Result<TGAImageFormat, &'static str> {
        if value == 0 {
            Ok(TGAImageFormat::Unknown)
        } else if value == 1 {
            Ok(TGAImageFormat::Grayscale)
        } else if value == 3 {
            Ok(TGAImageFormat::RGB)
        } else if value == 4 {
            Ok(TGAImageFormat::RGBA)
        } else {
            Err("Invalid TGA Image format number")
        }
    }
}

impl Default for TGAImageFormat {
    fn default() -> (f: TGAImageFormat)
        ensures
            f == TGAImageFormat::Unknown,
    {
        TGAImageFormat::Unknown
    }
}

/// A brightness factor between 0 and 1, held as the ratio of two integers.
///
/// A ratio that is one or more counts as one, and so does a ratio whose
/// denominator is zero.
#[derive(Copy, Clone, Debug, PartialEq, Eq, Structural)]
pub struct Intensity {
    pub numerator: u32,
    pub denominator: u32,
}

impl Intensity {
    pub fn new(numerator: u32, denominator: u32) -> (i: Intensity)
        ensures
            i.numerator == numerator,
            i.denominator == denominator,
    {
        Intensity { numerator, denominator }
    }

    /// Whether the factor is one, after clamping.
    pub open spec fn is_full(self) -> bool {
        self.denominator == 0 || self.numerator >= self.denominator
    }

    /// A channel value multiplied by the clamped factor, rounded down.
    pub open spec fn spec_scale(self, value: u8) -> u8 {
        if self.is_full() {
            value
        } else {
            ((value as int * self.numerator as int) / (self.denominator as int)) as u8
        }
    }

    /// A channel value multiplied by the clamped factor, rounded down.
    #[verifier::when_used_as_spec(spec_scale)]
    pub fn scale(self, value: u8) -> (scaled: u8)
        ensures
            scaled == self.spec_scale(value),
            scaled <= value,
            !self.is_full() ==> scaled as int == (value as int * self.numerator as int) / (
            self.denominator as int),
    {
        if self.denominator == 0 || self.numerator >= self.denominator {
            value
        } else {
            assert(value as int * self.numerator as int <= 255 * 0xffff_ffff) by (nonlinear_arith)
                requires
                    0 <= value <= 255,
                    0 <= self.numerator <= 0xffff_ffff,
            ;
            let product: u64 = value as u64 * self.numerator as u64;
            let quotient: u64 = product / self.denominator as u64;
            assert(quotient <= value) by (nonlinear_arith)
                requires
                    quotient == (value as int * self.numerator as int) / (self.denominator as int),
                    0 <= self.numerator < self.denominator,
                    0 <= value,
            ;
            quotient as u8
        }
    }
}

/// A color: four 8-bit channels stored blue, green, red, alpha, and the
/// number of leading bytes that are meaningful (1 for grayscale, 3 for RGB,
/// 4 for RGBA).
#[derive(Copy, Clone, Debug)]
pub struct TGAColor {
    /// BGRA array
    pub bgra: [u8; 4],
    /// Bytes per pixel value
    pub bytespp: u8,
}

impl Default for TGAColor {
    /// The color with every channel zero and no meaningful bytes.
    fn default() -> (c: TGAColor)
        ensures
            c.bgra@ == seq![0u8, 0u8, 0u8, 0u8],
            c.bytespp == 0,
    {
        TGAColor { bgra: [0, 0, 0, 0], bytespp: 0 }
    }
}

impl TGAColor {
    /// The first `n` stored bytes: what a pixel of `n` bytes keeps of the
    /// color.
    pub open spec fn bytes(self, n: int) -> Seq<u8> {
        self.bgra@.subrange(0, n)
    }

    /// The color with every channel multiplied by the clamped factor and
    /// rounded down.
    pub open spec fn scaled(self, factor: Intensity) -> TGAColor {
        TGAColor {
            bgra: [
                factor.spec_scale(self.bgra[0]),
                factor.spec_scale(self.bgra[1]),
                factor.spec_scale(self.bgra[2]),
                factor.spec_scale(self.bgra[3]),
            ],
            bytespp: self.bytespp,
        }
    }

    /// The value of one named channel.
    pub open spec fn channel(self, channel: ColorChannel) -> u8 {
        self.bgra[channel.spec_offset() as int]
    }

    pub fn new_rgba(r: u8, g: u8, b: u8, a: u8) -> (c: TGAColor)
        ensures
            c.bgra@ == seq![b, g, r, a],
            c.bytespp == 4,
    {
        TGAColor { bgra: [b, g, r, a], bytespp: 4 }
    }

    pub fn new_rgb(r: u8, g: u8, b: u8) -> (c: TGAColor)
        ensures
            c.bgra@ == seq![b, g, r, 255u8],
            c.bytespp == 4,
    {
        Self::new_rgba(r, g, b, 255)
    }

    /// Builds a color from `bytespp` stored bytes, blue first; the channels
    /// that the bytes do not reach are zero.
    pub fn new_from_iter<'a, I>(values: I, bytespp: u8) -> (c: TGAColor) where
        I: Iterator<Item = &'a u8> + Clone,

        requires
            bytespp <= 4,
            values.obeys_prophetic_iter_laws(),
            values.remaining().len() == bytespp,
        ensures
            c.bytespp == bytespp,
            forall|i: int| 0 <= i < bytespp ==> c.bgra[i] == *values.remaining()[i],
            forall|i: int| bytespp <= i < 4 ==> c.bgra[i] == 0,
    {
        let mut it = values;
        let mut bgra: [u8; 4] = [0, 0, 0, 0];
        let mut i: usize = 0;
        while i < bytespp as usize
            invariant
                bytespp <= 4,
                i <= bytespp,
                it.obeys_prophetic_iter_laws(),
                it.remaining() == values.remaining().skip(i as int),
                values.remaining().len() == bytespp,
                forall|j: int| 0 <= j < i ==> bgra[j] == *values.remaining()[j],
                forall|j: int| i <= j < 4 ==> bgra[j] == 0,
            decreases bytespp - i,
        {
            match it.next() {
                Some(v) => {
                    bgra[i] = *v;
                },
                None => {},
            }
            i += 1;
        }
        TGAColor { bgra, bytespp }
    }
}

impl Index<ColorChannel> for TGAColor {
    type Output = u8;

    fn index(&self, index: ColorChannel) -> (value: &u8)
        ensures
            *value == self.channel(index),
    {
        &self.bgra[index.offset()]
    }
}

impl vstd::std_specs::core::IndexSpecImpl<ColorChannel> for TGAColor {
    open spec fn index_req(&self, index: &ColorChannel) -> bool {
        true
    }
}

impl IndexMut<ColorChannel> for TGAColor {
    fn index_mut(&mut self, index: ColorChannel) -> (value: &mut u8)
        ensures
            *value == old(self).channel(index),
            final(self).bgra@ == old(self).bgra@.update(index.spec_offset() as int, *final(value)),
            final(self).bytespp == old(self).bytespp,
    {
        &mut self.bgra[index.offset()]
    }
}

impl Mul<Intensity> for TGAColor {
    type Output = TGAColor;

    /// Scales every channel by the clamped factor.
    fn mul(self, rhs: Intensity) -> (scaled: TGAColor)
        ensures
            scaled == self.scaled(rhs),
    {
        TGAColor {
            bgra: [
                rhs.scale(self.bgra[0]),
                rhs.scale(self.bgra[1]),
                rhs.scale(self.bgra[2]),
                rhs.scale(self.bgra[3]),
            ],
            bytespp: self.bytespp,
        }
    }
}

impl vstd::std_specs::ops::MulSpecImpl<Intensity> for TGAColor {
    open spec fn obeys_mul_spec() -> bool {
        true
    }

    open spec fn mul_req(self, rhs: Intensity) -> bool {
        true
    }

    open spec fn mul_spec(self, rhs: Intensity) -> TGAColor {
        self.scaled(rhs)
    }
}

} // verus!
