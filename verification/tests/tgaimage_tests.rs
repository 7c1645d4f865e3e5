use tinyrenderer::tgaimage::{
    ColorChannel, Intensity, TGAColor, TGAHeader, TGAImage, TGAImageFormat, TGAImageType,
};

fn index_to_rgba_color_channel(index: usize) -> Result<ColorChannel, &'static str> {
    match index {
        0 => Ok(ColorChannel::R),
        1 => Ok(ColorChannel::G),
        2 => Ok(ColorChannel::B),
        3 => Ok(ColorChannel::A),
        _ => Err("Unknown color channel"),
    }
}

fn index_to_bgra_color_channel(index: usize) -> Result<ColorChannel, &'static str> {
    match index {
        0 => Ok(ColorChannel::B),
        1 => Ok(ColorChannel::G),
        2 => Ok(ColorChannel::R),
        3 => Ok(ColorChannel::A),
        _ => Err("Unknown color channel"),
    }
}

#[test]
fn tgacolor_default() {
    let default = TGAColor::default();

    for e in &default.bgra {
        assert_eq!(*e, 0);
    }

    assert_eq!(default.bytespp, 0);
}

#[test]
fn tgacolor_rgb() {
    let tgacolor = TGAColor::new_rgb(1, 1, 1);

    for e in tgacolor.bgra.iter().take(3) {
        assert_eq!(*e, 1);
    }

    assert_eq!(tgacolor.bgra[3], 255);
    assert_eq!(tgacolor.bytespp, 4);

    let tgacolor = TGAColor::new_rgb(255, 255, 255);

    for e in tgacolor.bgra.iter().take(3) {
        assert_eq!(*e, 255);
    }

    assert_eq!(tgacolor.bgra[3], 255);
    assert_eq!(tgacolor.bytespp, 4);
}

#[test]
fn tgacolor_rgba() {
    let tgacolor = TGAColor::new_rgba(1, 2, 3, 4);

    for index in 0..tgacolor.bgra.len() {
        let color_index = index_to_rgba_color_channel(index).unwrap();
        assert_eq!(tgacolor[color_index], index as u8 + 1);
    }

    assert_eq!(tgacolor.bytespp, 4);
}

#[test]
fn tgacolor_iter() {
    let bgra1 = [1u8];
    let bgra2 = [1u8, 2];
    let bgra3 = [1u8, 2, 3];
    let bgra4 = [1u8, 2, 3, 4];
    let expect_channels = |arr: &[u8]| {
        let tgacolor = TGAColor::new_from_iter(arr.iter(), arr.len() as u8);

        for index in 0..arr.len() {
            let color_index = index_to_bgra_color_channel(index).unwrap();
            let val = tgacolor[color_index];

            assert_eq!(val, index as u8 + 1);
        }

        assert_eq!(tgacolor.bytespp, arr.len() as u8);
    };

    expect_channels(&bgra1);
    expect_channels(&bgra2);
    expect_channels(&bgra3);
    expect_channels(&bgra4);
}

#[test]
fn tgacolor_iter_leaves_missing_channels_zero() {
    let tgacolor = TGAColor::new_from_iter([9u8, 8].iter(), 2);

    assert_eq!(tgacolor.bgra, [9, 8, 0, 0]);
    assert_eq!(tgacolor.bytespp, 2);
}

#[test]
fn tgacolor_index_access() {
    let tgacolor = TGAColor::new_rgba(128, 128, 128, 128);

    for i in 0..4 {
        let color_index = index_to_rgba_color_channel(i).unwrap();
        assert_eq!(tgacolor[color_index], 128);
    }

    let mut tgacolor = TGAColor::new_rgba(128, 128, 128, 128);

    for i in 0..4 {
        let color_index = index_to_rgba_color_channel(i).unwrap();

        tgacolor[color_index] += 1;
        assert_eq!(tgacolor[color_index], 129);
    }
}

#[test]
fn tgacolor_channels_are_stored_blue_first() {
    let tgacolor = TGAColor::new_rgba(10, 20, 30, 40);

    assert_eq!(tgacolor.bgra, [30, 20, 10, 40]);
    assert_eq!(tgacolor[ColorChannel::R], 10);
    assert_eq!(tgacolor[ColorChannel::G], 20);
    assert_eq!(tgacolor[ColorChannel::B], 30);
    assert_eq!(tgacolor[ColorChannel::A], 40);
    assert_eq!(ColorChannel::B.offset(), 0);
    assert_eq!(ColorChannel::G.offset(), 1);
    assert_eq!(ColorChannel::R.offset(), 2);
    assert_eq!(ColorChannel::A.offset(), 3);
}

#[test]
fn tgacolor_intensity() {
    let tgacolor = TGAColor::new_rgba(128, 128, 128, 128);
    let expected = 128.0 * 0.5;
    let new_tgacolor: TGAColor = tgacolor * Intensity::new(1, 2);

    for i in 0..4 {
        let color_index = index_to_rgba_color_channel(i).unwrap();

        assert_eq!(new_tgacolor[color_index], expected as u8);
    }
}

#[test]
fn intensity_is_clamped_and_rounds_down() {
    let tgacolor = TGAColor::new_rgba(255, 100, 3, 1);

    // a factor of one or more leaves the color as it is
    assert_eq!((tgacolor * Intensity::new(1, 1)).bgra, tgacolor.bgra);
    assert_eq!((tgacolor * Intensity::new(7, 2)).bgra, tgacolor.bgra);
    // so does a ratio without a value
    assert_eq!((tgacolor * Intensity::new(0, 0)).bgra, tgacolor.bgra);
    assert_eq!((tgacolor * Intensity::new(5, 0)).bgra, tgacolor.bgra);
    // zero blacks it out
    assert_eq!((tgacolor * Intensity::new(0, 9)).bgra, [0, 0, 0, 0]);
    // 255 / 3 = 85, 100 / 3 = 33.3, 3 / 3 = 1, 1 / 3 = 0.3; stored blue first
    assert_eq!((tgacolor * Intensity::new(1, 3)).bgra, [1, 33, 85, 0]);
    // 2 * 255 / 3 = 170, 200 / 3 = 66.7, 6 / 3 = 2, 2 / 3 = 0.7
    assert_eq!((tgacolor * Intensity::new(2, 3)).bgra, [2, 66, 170, 0]);
    assert_eq!((tgacolor * Intensity::new(2, 3)).bytespp, 4);
    assert_eq!(Intensity::new(4_000_000_000, 4_000_000_001).scale(255), 254);
}

#[test]
fn tgaimage_getters() {
    let image = TGAImage::new(100, 100, TGAImageFormat::Grayscale);

    assert_eq!(image.get_width(), 100);
    assert_eq!(image.get_height(), 100);
    assert_eq!(image.get_bytespp(), TGAImageFormat::Grayscale);
}

#[test]
fn tgaimage_buffer() {
    let width = 100;
    let height = 100;
    let format = TGAImageFormat::Grayscale;
    let mut image = TGAImage::new(width, height, format);

    assert_eq!(
        image.buffer().len(),
        (width * height * format.bytes() as u32) as usize
    );

    let format = TGAImageFormat::RGBA;
    let mut image = TGAImage::new(100, 100, format);

    assert_eq!(
        image.buffer().len(),
        (width * height * format.bytes() as u32) as usize
    );
}

#[test]
fn tgaimage_clear() {
    let width = 100;
    let height = 100;
    let format = TGAImageFormat::Grayscale;
    let mut image = TGAImage::new(width, height, format);

    image.buffer().iter_mut().for_each(|e| *e = 255);
    image.buffer().iter().for_each(|e| assert_eq!(*e, 255));
    image.clear();
    image.buffer().iter().for_each(|e| assert_eq!(*e, 0));
}

#[test]
fn tgaimage_new_is_black() {
    let mut image = TGAImage::new(3, 2, TGAImageFormat::RGB);

    assert_eq!(image.buffer().len(), 18);
    image.buffer().iter().for_each(|e| assert_eq!(*e, 0));

    let mut empty = TGAImage::new(3, 2, TGAImageFormat::Unknown);
    assert_eq!(empty.buffer().len(), 0);
    let mut flat = TGAImage::new(0, 5, TGAImageFormat::RGBA);
    assert_eq!(flat.buffer().len(), 0);
}

#[test]
fn tgaimage_set_writes_the_bytes_of_the_format() {
    let color = TGAColor::new_rgba(1, 2, 3, 4);
    let mut image = TGAImage::new(3, 2, TGAImageFormat::RGB);

    image.set(1, 1, &color);
    // row 1, column 1 of three columns of three bytes: bytes 12, 13, 14
    let expected: Vec<u8> = vec![0, 0, 0, 0, 0, 0, 0, 0, 0, 0, 0, 0, 3, 2, 1, 0, 0, 0];
    assert_eq!(*image.buffer(), expected);

    let mut gray = TGAImage::new(2, 2, TGAImageFormat::Grayscale);
    gray.set(1, 0, &color);
    assert_eq!(*gray.buffer(), vec![0u8, 3, 0, 0]);

    let mut rgba = TGAImage::new(1, 2, TGAImageFormat::RGBA);
    rgba.set(0, 1, &color);
    assert_eq!(*rgba.buffer(), vec![0u8, 0, 0, 0, 3, 2, 1, 4]);
}

#[test]
fn tgaimage_set_outside_is_ignored() {
    let color = TGAColor::new_rgba(1, 2, 3, 4);
    let mut image = TGAImage::new(3, 2, TGAImageFormat::RGB);

    image.set(3, 0, &color);
    image.set(0, 2, &color);
    image.set(u32::MAX, u32::MAX, &color);
    image.buffer().iter().for_each(|e| assert_eq!(*e, 0));

    let mut unknown = TGAImage::new(3, 2, TGAImageFormat::Unknown);
    unknown.set(0, 0, &color);
    assert_eq!(unknown.buffer().len(), 0);
}

#[test]
fn tgaimage_get_reads_what_set_wrote() {
    let color = TGAColor::new_rgba(1, 2, 3, 4);
    let mut image = TGAImage::new(3, 2, TGAImageFormat::RGB);

    image.set(2, 1, &color);
    let read = image.get(2, 1);
    assert_eq!(read.bgra, [3, 2, 1, 0]);
    assert_eq!(read.bytespp, 3);
    assert_eq!(read[ColorChannel::R], 1);

    let untouched = image.get(0, 0);
    assert_eq!(untouched.bgra, [0, 0, 0, 0]);
    assert_eq!(untouched.bytespp, 3);
}

#[test]
fn tgaimage_get_outside_is_the_default_color() {
    let color = TGAColor::new_rgba(1, 2, 3, 4);
    let mut image = TGAImage::new(3, 2, TGAImageFormat::RGB);
    image.set(2, 1, &color);

    for (x, y) in [(3u32, 0u32), (0, 2), (u32::MAX, 0)] {
        let read = image.get(x, y);
        assert_eq!(read.bgra, [0, 0, 0, 0]);
        assert_eq!(read.bytespp, 0);
    }

    let unknown = TGAImage::new(3, 2, TGAImageFormat::Unknown);
    assert_eq!(unknown.get(0, 0).bytespp, 0);
}

#[test]
fn tgaimage_format_bytes() {
    assert_eq!(TGAImageFormat::Unknown.bytes(), 0);
    assert_eq!(TGAImageFormat::Grayscale.bytes(), 1);
    assert_eq!(TGAImageFormat::RGB.bytes(), 3);
    assert_eq!(TGAImageFormat::RGBA.bytes(), 4);
    assert_eq!(TGAImageFormat::default(), TGAImageFormat::Unknown);
}

#[test]
fn tgaimage_format_from_byte_count() {
    assert_eq!(TGAImageFormat::try_from(0u8), Ok(TGAImageFormat::Unknown));
    assert_eq!(TGAImageFormat::try_from(1u8), Ok(TGAImageFormat::Grayscale));
    assert_eq!(TGAImageFormat::try_from(3u8), Ok(TGAImageFormat::RGB));
    assert_eq!(TGAImageFormat::try_from(4u8), Ok(TGAImageFormat::RGBA));
    assert_eq!(
        TGAImageFormat::try_from(2u8),
        Err("Invalid TGA Image format number")
    );
    assert_eq!(
        TGAImageFormat::try_from(5u8),
        Err("Invalid TGA Image format number")
    );
    assert_eq!(
        TGAImageFormat::try_from(255u8),
        Err("Invalid TGA Image format number")
    );
}

#[test]
fn tgaimage_type_codes() {
    assert_eq!(TGAImageType::from_u8(0), Some(TGAImageType::Unknown));
    assert_eq!(TGAImageType::from_u8(1), Some(TGAImageType::UncompressedColor));
    assert_eq!(TGAImageType::from_u8(2), Some(TGAImageType::UncompressedTrueColor));
    assert_eq!(TGAImageType::from_u8(3), Some(TGAImageType::UncompressedBW));
    assert_eq!(TGAImageType::from_u8(9), Some(TGAImageType::RLEColor));
    assert_eq!(TGAImageType::from_u8(10), Some(TGAImageType::RLETrueColor));
    assert_eq!(TGAImageType::from_u8(11), Some(TGAImageType::RLEBW));
    for code in [4u8, 5, 8, 12, 255] {
        assert_eq!(TGAImageType::from_u8(code), None);
    }
    for code in [0u8, 1, 2, 3, 9, 10, 11] {
        assert_eq!(TGAImageType::from_u8(code).unwrap().code(), code);
    }
}

#[test]
fn tgaheader_default_is_zero() {
    let header = TGAHeader::default();

    assert_eq!(header.idlength, 0);
    assert_eq!(header.datatypecode, 0);
    assert_eq!(header.width, 0);
    assert_eq!(header.height, 0);
    assert_eq!(header.bitsperpixel, 0);
    assert_eq!(header.imagedescriptor, 0);
}

fn numbered(width: u32, height: u32, format: TGAImageFormat) -> TGAImage {
    let mut image = TGAImage::new(width, height, format);
    let mut next = 1u8;
    image.buffer().iter_mut().for_each(|e| {
        *e = next;
        next += 1;
    });
    image
}

#[test]
fn tgaimage_flip_horizontally_mirrors_the_columns() {
    let mut image = numbered(3, 2, TGAImageFormat::RGB);

    image.flip_horizontally();
    let expected: Vec<u8> = vec![7, 8, 9, 4, 5, 6, 1, 2, 3, 16, 17, 18, 13, 14, 15, 10, 11, 12];
    assert_eq!(*image.buffer(), expected);

    image.flip_horizontally();
    let back: Vec<u8> = (1..=18).collect();
    assert_eq!(*image.buffer(), back);

    let mut even = numbered(4, 1, TGAImageFormat::Grayscale);
    even.flip_horizontally();
    assert_eq!(*even.buffer(), vec![4u8, 3, 2, 1]);
}

#[test]
fn tgaimage_flip_vertically_mirrors_the_rows() {
    let mut image = numbered(2, 3, TGAImageFormat::RGB);

    image.flip_vertically();
    let expected: Vec<u8> = vec![13, 14, 15, 16, 17, 18, 7, 8, 9, 10, 11, 12, 1, 2, 3, 4, 5, 6];
    assert_eq!(*image.buffer(), expected);

    image.flip_vertically();
    let back: Vec<u8> = (1..=18).collect();
    assert_eq!(*image.buffer(), back);

    let mut rgba = numbered(1, 2, TGAImageFormat::RGBA);
    rgba.flip_vertically();
    assert_eq!(*rgba.buffer(), vec![5u8, 6, 7, 8, 1, 2, 3, 4]);
}

#[test]
fn tgaimage_flips_leave_an_empty_image_alone() {
    let mut image = TGAImage::new(0, 7, TGAImageFormat::RGB);
    image.flip_horizontally();
    image.flip_vertically();
    assert_eq!(image.buffer().len(), 0);

    let mut unknown = TGAImage::new(3, 3, TGAImageFormat::Unknown);
    unknown.flip_horizontally();
    unknown.flip_vertically();
    assert_eq!(unknown.buffer().len(), 0);
}
