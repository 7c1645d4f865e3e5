use tinyrenderer::tgaimage::codec::load_rle_data;
use tinyrenderer::tgaimage::{TGAError, TGAHeader, TGAImage, TGAImageFormat};

fn gray(width: u32, height: u32, pixels: &[u8]) -> TGAImage {
    let mut image = TGAImage::new(width, height, TGAImageFormat::Grayscale);
    image
        .buffer()
        .iter_mut()
        .zip(pixels.iter())
        .for_each(|(to, from)| *to = *from);
    image
}

fn packets_of(image: &TGAImage) -> Vec<u8> {
    let mut out = vec![];
    image.unload_rle_data(&mut out);
    out
}

const FOOTER: [u8; 26] = [
    0, 0, 0, 0, 0, 0, 0, 0, b'T', b'R', b'U', b'E', b'V', b'I', b'S', b'I', b'O', b'N', b'-',
    b'X', b'F', b'I', b'L', b'E', b'.', 0,
];

#[test]
fn header_is_written_low_byte_first() {
    let mut header = TGAHeader::default();
    header.idlength = 1;
    header.colormaptype = 2;
    header.datatypecode = 10;
    header.colormaporigin = 0x0403;
    header.colormaplength = 0x0605;
    header.colormapdepth = 7;
    header.x_origin = 0x0908;
    header.y_origin = 0x0b0a;
    header.width = 0x1234;
    header.height = 0xfffe;
    header.bitsperpixel = 24;
    header.imagedescriptor = 0x20;

    let bytes = header.to_bytes();
    assert_eq!(
        bytes,
        [1, 2, 10, 3, 4, 5, 6, 7, 8, 9, 10, 11, 0x34, 0x12, 0xfe, 0xff, 24, 0x20]
    );
    assert_eq!(TGAHeader::from_bytes(&bytes), Some(header));
    assert_eq!(TGAHeader::from_bytes(&bytes[..17]), None);
    assert_eq!(TGAHeader::from_bytes(&[]), None);

    let mut longer = bytes.to_vec();
    longer.push(99);
    assert_eq!(TGAHeader::from_bytes(&longer), Some(header));
}

#[test]
fn rle_data_is_unpacked_packet_by_packet() {
    // a run of two, then two plain pixels, of one byte each
    let mut data = vec![0u8; 4];
    assert_eq!(
        load_rle_data(&[0x81, 7, 0x01, 1, 2], &mut data, &(2, 2, 1)),
        Ok(())
    );
    assert_eq!(data, vec![7, 7, 1, 2]);

    // pixels of three bytes; what follows the last packet is not read
    let mut data = vec![0u8; 12];
    assert_eq!(
        load_rle_data(
            &[0x00, 1, 2, 3, 0x82, 9, 8, 7, 0xff, 0xff],
            &mut data,
            &(1, 4, 3)
        ),
        Ok(())
    );
    assert_eq!(data, vec![1, 2, 3, 9, 8, 7, 9, 8, 7, 9, 8, 7]);

    // the longest packets: 128 pixels each
    let mut data = vec![0u8; 256];
    let mut input = vec![0xffu8, 5, 0x7f];
    input.extend((0..128).map(|i| i as u8));
    assert_eq!(load_rle_data(&input, &mut data, &(16, 16, 1)), Ok(()));
    assert!(data[..128].iter().all(|b| *b == 5));
    assert!(data[128..].iter().enumerate().all(|(i, b)| *b == i as u8));

    // no pixels, no packets
    let mut data = vec![];
    assert_eq!(load_rle_data(&[], &mut data, &(0, 9, 3)), Ok(()));
}

#[test]
fn rle_data_that_ends_early_is_refused() {
    let mut data = vec![0u8; 4];
    assert_eq!(
        load_rle_data(&[], &mut data, &(2, 2, 1)),
        Err(TGAError::UnexpectedEof)
    );
    assert_eq!(
        load_rle_data(&[0x81, 7], &mut data, &(2, 2, 1)),
        Err(TGAError::UnexpectedEof)
    );
    assert_eq!(
        load_rle_data(&[0x81], &mut data, &(2, 2, 1)),
        Err(TGAError::UnexpectedEof)
    );
    assert_eq!(
        load_rle_data(&[0x03, 1, 2, 3], &mut data, &(2, 2, 1)),
        Err(TGAError::UnexpectedEof)
    );
}

#[test]
fn rle_packet_that_overruns_the_image_is_refused() {
    let mut data = vec![0u8; 4];
    assert_eq!(
        load_rle_data(&[0x84, 7], &mut data, &(2, 2, 1)),
        Err(TGAError::PacketOverrun)
    );
    assert_eq!(
        load_rle_data(&[0x04, 1, 2, 3, 4, 5], &mut data, &(2, 2, 1)),
        Err(TGAError::PacketOverrun)
    );
    assert_eq!(
        load_rle_data(&[0x82, 7, 0x81, 1], &mut data, &(2, 2, 1)),
        Err(TGAError::PacketOverrun)
    );
}

#[test]
fn rle_data_is_packed_into_runs_and_plain_packets() {
    assert_eq!(
        packets_of(&gray(7, 1, &[5, 5, 5, 1, 2, 3, 3])),
        vec![0x82, 5, 0x01, 1, 2, 0x81, 3]
    );
    assert_eq!(packets_of(&gray(1, 1, &[9])), vec![0x00, 9]);
    assert_eq!(packets_of(&gray(2, 1, &[9, 9])), vec![0x81, 9]);
    assert_eq!(packets_of(&gray(2, 1, &[9, 8])), vec![0x01, 9, 8]);
    assert_eq!(packets_of(&gray(3, 1, &[9, 8, 8])), vec![0x00, 9, 0x81, 8]);
    assert_eq!(packets_of(&gray(0, 4, &[])), Vec::<u8>::new());

    let mut rgb = TGAImage::new(2, 2, TGAImageFormat::RGB);
    rgb.buffer()
        .iter_mut()
        .zip([1u8, 2, 3, 1, 2, 3, 1, 2, 3, 1, 2, 4])
        .for_each(|(to, from)| *to = from);
    assert_eq!(packets_of(&rgb), vec![0x82, 1, 2, 3, 0x00, 1, 2, 4]);
}

#[test]
fn rle_packets_hold_at_most_128_pixels() {
    let run = packets_of(&gray(130, 1, &[4; 130]));
    assert_eq!(run, vec![0xff, 4, 0x81, 4]);

    let pixels: Vec<u8> = (0..130).map(|i| i as u8).collect();
    let plain = packets_of(&gray(130, 1, &pixels));
    assert_eq!(plain.len(), 132);
    assert_eq!(plain[0], 0x7f);
    assert_eq!(plain[1..129], pixels[..128]);
    assert_eq!(plain[129..], [0x01, 128, 129]);
}

#[test]
fn rle_data_survives_the_round_trip() {
    let mut seed = 12345u32;
    for size in [1u16, 2, 3, 17, 128, 129, 300] {
        for bpp in [1u8, 3, 4] {
            let format = TGAImageFormat::try_from(bpp).unwrap();
            let mut image = TGAImage::new(size as u32, 3, format);
            image.buffer().iter_mut().for_each(|b| {
                seed = seed.wrapping_mul(1103515245).wrapping_add(12345);
                // few values, so that runs arise
                *b = ((seed >> 16) % 3) as u8;
            });
            let packed = packets_of(&image);
            let mut unpacked = vec![0u8; image.buffer().len()];
            assert_eq!(load_rle_data(&packed, &mut unpacked, &(3, size, bpp)), Ok(()));
            assert_eq!(unpacked, *image.buffer());
        }
    }
}

#[test]
fn tga_file_has_header_data_and_footer() {
    let image = gray(3, 2, &[1, 2, 3, 4, 4, 4]);

    let plain = image.to_tga_bytes(true, false).unwrap();
    let mut expected = vec![0u8, 0, 3, 0, 0, 0, 0, 0, 0, 0, 0, 0, 3, 0, 2, 0, 8, 0];
    expected.extend([1, 2, 3, 4, 4, 4]);
    expected.extend(FOOTER);
    assert_eq!(plain, expected);

    let packed = image.to_tga_bytes(false, true).unwrap();
    let mut expected = vec![0u8, 0, 11, 0, 0, 0, 0, 0, 0, 0, 0, 0, 3, 0, 2, 0, 8, 0x20];
    expected.extend([0x02, 1, 2, 3, 0x82, 4]);
    expected.extend(FOOTER);
    assert_eq!(packed, expected);

    let rgb = TGAImage::new(1, 1, TGAImageFormat::RGB);
    assert_eq!(rgb.to_tga_bytes(true, false).unwrap()[2], 2);
    assert_eq!(rgb.to_tga_bytes(true, true).unwrap()[2], 10);
    assert_eq!(rgb.to_tga_bytes(true, true).unwrap()[16], 24);
    let rgba = TGAImage::new(1, 1, TGAImageFormat::RGBA);
    assert_eq!(rgba.to_tga_bytes(true, true).unwrap()[16], 32);
}

#[test]
fn tga_file_survives_the_round_trip() {
    let pixels: Vec<u8> = (1..=24).collect();
    for format in [TGAImageFormat::Grayscale, TGAImageFormat::RGB, TGAImageFormat::RGBA] {
        let mut image = TGAImage::new(2, 3, format);
        image
            .buffer()
            .iter_mut()
            .zip(pixels.iter())
            .for_each(|(to, from)| *to = *from);
        for rle in [false, true] {
            let file = image.to_tga_bytes(true, rle).unwrap();
            let mut read = TGAImage::from_tga_bytes(&file).unwrap();
            assert_eq!(read.get_width(), 2);
            assert_eq!(read.get_height(), 3);
            assert_eq!(read.get_bytespp(), format);
            assert_eq!(*read.buffer(), *image.buffer());

            // written from the top, the image is read mirrored
            let file = image.to_tga_bytes(false, rle).unwrap();
            let mut read = TGAImage::from_tga_bytes(&file).unwrap();
            assert_ne!(*read.buffer(), *image.buffer());
            read.flip_vertically();
            assert_eq!(*read.buffer(), *image.buffer());
        }
    }
}

#[test]
fn tga_file_is_mirrored_as_its_descriptor_says() {
    let mut file = vec![0u8, 0, 3, 0, 0, 0, 0, 0, 0, 0, 0, 0, 2, 0, 2, 0, 8, 0];
    file.extend([1, 2, 3, 4]);

    assert_eq!(*TGAImage::from_tga_bytes(&file).unwrap().buffer(), vec![1, 2, 3, 4]);
    file[17] = 0x20;
    assert_eq!(*TGAImage::from_tga_bytes(&file).unwrap().buffer(), vec![3, 4, 1, 2]);
    file[17] = 0x10;
    assert_eq!(*TGAImage::from_tga_bytes(&file).unwrap().buffer(), vec![2, 1, 4, 3]);
    file[17] = 0x30;
    assert_eq!(*TGAImage::from_tga_bytes(&file).unwrap().buffer(), vec![4, 3, 2, 1]);
    file[17] = 0x0f;
    assert_eq!(*TGAImage::from_tga_bytes(&file).unwrap().buffer(), vec![1, 2, 3, 4]);
}

#[test]
fn tga_file_with_a_bad_header_is_refused() {
    let good = vec![0u8, 0, 3, 0, 0, 0, 0, 0, 0, 0, 0, 0, 2, 0, 2, 0, 8, 0, 1, 2, 3, 4];
    assert!(TGAImage::from_tga_bytes(&good).is_ok());

    let error_of = |file: &[u8]| TGAImage::from_tga_bytes(file).err();

    assert_eq!(error_of(&good[..17]), Some(TGAError::UnexpectedEof));
    assert_eq!(error_of(&good[..21]), Some(TGAError::UnexpectedEof));
    assert_eq!(error_of(&[]), Some(TGAError::UnexpectedEof));

    let mut no_width = good.clone();
    no_width[12] = 0;
    assert_eq!(error_of(&no_width), Some(TGAError::InvalidHeader));
    let mut no_height = good.clone();
    no_height[14] = 0;
    assert_eq!(error_of(&no_height), Some(TGAError::InvalidHeader));
    for bits in [0u8, 7, 16, 40, 255] {
        let mut bad_pixels = good.clone();
        bad_pixels[16] = bits;
        assert_eq!(error_of(&bad_pixels), Some(TGAError::InvalidHeader));
    }

    for code in [0u8, 1, 9, 4, 12, 200] {
        let mut unknown = good.clone();
        unknown[2] = code;
        assert_eq!(error_of(&unknown), Some(TGAError::UnknownFormat(code)));
    }

    let mut packed = good.clone();
    packed[2] = 11;
    packed.truncate(18);
    packed.extend([0x85, 1]);
    assert_eq!(error_of(&packed), Some(TGAError::PacketOverrun));
    packed.truncate(18);
    packed.extend([0x83]);
    assert_eq!(error_of(&packed), Some(TGAError::UnexpectedEof));
}

#[test]
fn image_too_large_for_a_tga_file_is_refused() {
    let wide = TGAImage::new(65536, 1, TGAImageFormat::Grayscale);
    assert_eq!(wide.to_tga_bytes(true, true), Err(TGAError::TooLarge));
    let tall = TGAImage::new(1, 65536, TGAImageFormat::Grayscale);
    assert_eq!(tall.to_tga_bytes(true, false), Err(TGAError::TooLarge));
    let fits = TGAImage::new(65535, 1, TGAImageFormat::Grayscale);
    assert!(fits.to_tga_bytes(true, true).is_ok());
}
