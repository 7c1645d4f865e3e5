use tinyrenderer::barycentric::{boundary_box_setup, is_degenerate};
use tinyrenderer::geometry::{Vector2Int, Vector3Int};
use tinyrenderer::interpolate::{floor_div, DEPTH_NEG_INFINITY, DEPTH_UNIT};
use tinyrenderer::tgaimage::{ColorChannel, Intensity, TGAColor, TGAImage, TGAImageFormat};
use tinyrenderer::{
    barycentric, triangle, triangle_barycentric, triangle_barycentric_zbuf,
    triangle_barycentric_zbuf_with_texture, PointBarycentricCoords, TextureDef, TriangleDef,
};

fn weights(bc: &PointBarycentricCoords) -> (f32, f32, f32) {
    (
        bc.u as f32 / bc.det as f32,
        bc.v as f32 / bc.det as f32,
        bc.w as f32 / bc.det as f32,
    )
}

/// The positions of the pixels of `image` whose red channel is `red`.
fn pixels_in(image: &TGAImage, red: u8) -> Vec<(u32, u32)> {
    let mut found = vec![];
    for y in 0..image.get_height() {
        for x in 0..image.get_width() {
            if image.get(x, y)[ColorChannel::R] == red {
                found.push((x, y));
            }
        }
    }
    found
}

#[test]
fn test_barycentric() {
    let v1 = Vector3Int::new(0, 0, 0);
    let v2 = Vector3Int::new(0, 2, 0);
    let v3 = Vector3Int::new(2, 0, 0);
    let p1 = Vector3Int::new(1, 0, 0);
    let p2 = Vector3Int::new(0, 1, 0);
    let p3 = Vector3Int::new(0, 0, 0);
    let p4 = Vector3Int::new(0, 2, 0);
    let p5 = Vector3Int::new(2, 0, 0);

    if let Some(bc) = barycentric(&[v1, v2, v3], p1) {
        let (u, v, w) = weights(&bc);
        assert_eq!(w == 0.5 && u == 0., v == 0.5);
    } else {
        panic!("Invalid barycentric calculation");
    }

    if let Some(bc) = barycentric(&[v1, v2, v3], p2) {
        let (u, v, w) = weights(&bc);
        assert_eq!(w == 0.5 && u == 0.5, v == 0.);
    } else {
        panic!("Invalid barycentric calculation");
    }

    if let Some(bc) = barycentric(&[v1, v2, v3], p3) {
        let (u, v, w) = weights(&bc);
        assert_eq!(w == 1. && u == 0., v == 0.);
    } else {
        panic!("Invalid barycentric calculation");
    }

    if let Some(bc) = barycentric(&[v1, v2, v3], p4) {
        let (u, v, w) = weights(&bc);
        assert_eq!(w == 0. && u == 1., v == 0.);
    } else {
        panic!("Invalid barycentric calculation");
    }

    if let Some(bc) = barycentric(&[v1, v2, v3], p5) {
        let (u, v, w) = weights(&bc);
        assert_eq!(w == 0. && u == 0., v == 1.);
    } else {
        panic!("Invalid barycentric calculation");
    }
}

#[test]
fn barycentric_round_trip() {
    let triangle = [
        Vector2Int::new(0, 0),
        Vector2Int::new(0, 2),
        Vector2Int::new(2, 0),
    ];

    let on_edge = barycentric(&triangle, Vector2Int::new(1, 0)).unwrap();
    assert_eq!(weights(&on_edge), (0.0, 0.5, 0.5));
    assert_eq!(
        on_edge,
        PointBarycentricCoords { u: 0, v: 2, w: 2, det: 4 }
    );

    let corner = barycentric(&triangle, Vector2Int::new(0, 0)).unwrap();
    assert_eq!(weights(&corner), (0.0, 0.0, 1.0));

    assert_eq!(barycentric(&triangle, Vector2Int::new(2, 2)), None);
    assert_eq!(barycentric(&triangle, Vector2Int::new(-1, 0)), None);
    assert_eq!(barycentric(&triangle, Vector2Int::new(0, 3)), None);
}

#[test]
fn barycentric_weights_add_up_to_one() {
    let triangle = [
        Vector2Int::new(3, 1),
        Vector2Int::new(17, 4),
        Vector2Int::new(8, 19),
    ];
    let mut inside = 0;

    for x in 0..20 {
        for y in 0..20 {
            if let Some(bc) = barycentric(&triangle, Vector2Int::new(x, y)) {
                inside += 1;
                assert_eq!(bc.u + bc.v + bc.w, bc.det);
                assert_eq!(bc.det, 237);
                assert!(bc.u >= 0 && bc.v >= 0 && bc.w >= 0);
                let (u, v, w) = weights(&bc);
                assert!((u + v + w - 1.0).abs() < 1e-5);
                // the weights give the point back
                assert_eq!(bc.w * 3 + bc.u * 17 + bc.v * 8, bc.det * x as i128);
                assert_eq!(bc.w * 1 + bc.u * 4 + bc.v * 19, bc.det * y as i128);
            }
        }
    }
    assert!(inside > 100);
}

#[test]
fn barycentric_is_exact_at_the_vertices() {
    // both orientations
    for triangle in [
        [Vector2Int::new(3, 1), Vector2Int::new(17, 4), Vector2Int::new(8, 19)],
        [Vector2Int::new(3, 1), Vector2Int::new(8, 19), Vector2Int::new(17, 4)],
    ] {
        let first = barycentric(&triangle, triangle[0]).unwrap();
        assert_eq!((first.w, first.u, first.v), (first.det, 0, 0));
        let second = barycentric(&triangle, triangle[1]).unwrap();
        assert_eq!((second.w, second.u, second.v), (0, second.det, 0));
        let third = barycentric(&triangle, triangle[2]).unwrap();
        assert_eq!((third.w, third.u, third.v), (0, 0, third.det));
        assert!(first.det > 0);
    }
}

#[test]
fn barycentric_rejects_every_point_of_a_degenerate_triangle() {
    let on_a_line = [
        Vector2Int::new(0, 0),
        Vector2Int::new(2, 2),
        Vector2Int::new(5, 5),
    ];
    let one_point = [Vector2Int::new(4, 4), Vector2Int::new(4, 4), Vector2Int::new(4, 4)];

    for x in -1..7 {
        for y in -1..7 {
            assert_eq!(barycentric(&on_a_line, Vector2Int::new(x, y)), None);
            assert_eq!(barycentric(&one_point, Vector2Int::new(x, y)), None);
        }
    }
    assert!(is_degenerate(&on_a_line[0], &on_a_line[1], &on_a_line[2]));
    assert!(!is_degenerate(
        &Vector2Int::new(0, 0),
        &Vector2Int::new(2, 2),
        &Vector2Int::new(5, 6)
    ));
}

#[test]
fn barycentric_takes_the_whole_range_of_coordinates() {
    let triangle = [
        Vector2Int::new(i32::MIN, i32::MIN),
        Vector2Int::new(i32::MAX, i32::MIN),
        Vector2Int::new(i32::MIN, i32::MAX),
    ];
    let bc = barycentric(&triangle, Vector2Int::new(0, -1)).unwrap();

    assert_eq!(bc.det, 4294967295i128 * 4294967295i128);
    assert_eq!(bc.u + bc.v + bc.w, bc.det);
    assert_eq!(barycentric(&triangle, Vector2Int::new(1, 1)), None);
}

#[test]
fn boundary_box_is_clamped_to_the_image() {
    let points = [
        Vector2Int::new(-5, 3),
        Vector2Int::new(40, 120),
        Vector2Int::new(7, 50),
    ];
    let (lower, upper) = boundary_box_setup(&points, 100, 100);

    assert_eq!((lower.get_x(), lower.get_y()), (0, 3));
    assert_eq!((upper.get_x(), upper.get_y()), (40, 99));

    let (lower, upper) = boundary_box_setup(&points, 1000, 1000);
    assert_eq!((lower.get_x(), lower.get_y()), (0, 3));
    assert_eq!((upper.get_x(), upper.get_y()), (40, 120));
}

#[test]
fn boundary_box_of_a_triangle_beside_the_image_is_empty() {
    let left = [
        Vector2Int::new(-50, 3),
        Vector2Int::new(-4, 12),
        Vector2Int::new(-7, 5),
    ];
    let (lower, upper) = boundary_box_setup(&left, 100, 100);
    assert_eq!((lower.get_x(), upper.get_x()), (0, -4));
    assert!(lower.get_x() > upper.get_x());

    let right = [
        Vector2Int::new(150, 3),
        Vector2Int::new(104, 12),
        Vector2Int::new(107, 5),
    ];
    let (lower, upper) = boundary_box_setup(&right, 100, 100);
    assert_eq!((lower.get_x(), upper.get_x()), (104, 99));

    let (lower, upper) = boundary_box_setup(&right, 0, 0);
    assert_eq!((upper.get_x(), upper.get_y()), (-1, -1));
    assert_eq!((lower.get_x(), lower.get_y()), (104, 3));
}

#[test]
fn boundary_box_takes_the_whole_range_of_sizes() {
    let points = [
        Vector2Int::new(i32::MIN, i32::MAX),
        Vector2Int::new(i32::MAX, i32::MIN),
        Vector2Int::new(0, 0),
    ];
    let (lower, upper) = boundary_box_setup(&points, u32::MAX, u32::MAX);

    assert_eq!((lower.get_x(), lower.get_y()), (0, 0));
    assert_eq!((upper.get_x(), upper.get_y()), (i32::MAX, i32::MAX));
}

#[test]
fn barycentric_fill_paints_the_pixels_inside() {
    let red = TGAColor::new_rgb(255, 0, 0);
    let mut image = TGAImage::new(8, 8, TGAImageFormat::RGB);

    triangle_barycentric(
        Vector2Int::new(0, 0),
        Vector2Int::new(4, 0),
        Vector2Int::new(0, 4),
        &red,
        &mut image,
    );

    let painted = pixels_in(&image, 255);
    assert_eq!(painted.len(), 15);
    for y in 0..8u32 {
        for x in 0..8u32 {
            assert_eq!(painted.contains(&(x, y)), x + y <= 4);
        }
    }
}

#[test]
fn barycentric_fill_stays_in_the_bounding_box() {
    let red = TGAColor::new_rgb(255, 0, 0);
    let points = [
        Vector2Int::new(-3, 2),
        Vector2Int::new(12, 5),
        Vector2Int::new(6, 14),
    ];
    let mut image = TGAImage::new(10, 10, TGAImageFormat::RGB);

    triangle_barycentric(points[0], points[1], points[2], &red, &mut image);

    let (lower, upper) = boundary_box_setup(&points, 10, 10);
    let painted = pixels_in(&image, 255);
    assert!(!painted.is_empty());
    for (x, y) in painted {
        assert!(lower.get_x() <= x as i32 && x as i32 <= upper.get_x());
        assert!(lower.get_y() <= y as i32 && y as i32 <= upper.get_y());
        assert!(barycentric(&points, Vector2Int::new(x as i32, y as i32)).is_some());
    }
}

#[test]
fn degenerate_triangles_paint_nothing() {
    let red = TGAColor::new_rgb(255, 0, 0);
    let mut image = TGAImage::new(8, 8, TGAImageFormat::RGB);
    let mut zbuf = vec![DEPTH_NEG_INFINITY; 64];
    let texture = TGAImage::new(2, 2, TGAImageFormat::RGB);

    triangle_barycentric(
        Vector2Int::new(1, 1),
        Vector2Int::new(3, 3),
        Vector2Int::new(6, 6),
        &red,
        &mut image,
    );
    triangle(
        Vector2Int::new(1, 1),
        Vector2Int::new(3, 3),
        Vector2Int::new(6, 6),
        &red,
        &mut image,
    );
    triangle(
        Vector2Int::new(2, 5),
        Vector2Int::new(2, 5),
        Vector2Int::new(2, 5),
        &red,
        &mut image,
    );
    triangle_barycentric_zbuf(
        Vector3Int::new(1, 1, 5),
        Vector3Int::new(3, 3, 5),
        Vector3Int::new(6, 6, 5),
        &mut zbuf,
        &red,
        &mut image,
    );
    triangle_barycentric_zbuf_with_texture(
        TriangleDef(
            Vector3Int::new(1, 4, 5),
            Vector3Int::new(3, 4, 5),
            Vector3Int::new(6, 4, 5),
        ),
        TextureDef(
            Vector2Int::new(0, 0),
            Vector2Int::new(1, 0),
            Vector2Int::new(0, 1),
        ),
        &mut zbuf,
        &mut image,
        &texture,
        Intensity::new(1, 1),
    );

    image.buffer().iter().for_each(|e| assert_eq!(*e, 0));
    zbuf.iter().for_each(|z| assert_eq!(*z, DEPTH_NEG_INFINITY));
}

#[test]
fn flat_fill_and_barycentric_fill_agree_on_a_right_triangle() {
    let red = TGAColor::new_rgb(255, 0, 0);
    let mut walked = TGAImage::new(8, 8, TGAImageFormat::RGB);
    let mut scanned = TGAImage::new(8, 8, TGAImageFormat::RGB);

    triangle(
        Vector2Int::new(0, 0),
        Vector2Int::new(4, 0),
        Vector2Int::new(0, 4),
        &red,
        &mut walked,
    );
    triangle_barycentric(
        Vector2Int::new(0, 0),
        Vector2Int::new(4, 0),
        Vector2Int::new(0, 4),
        &red,
        &mut scanned,
    );

    assert_eq!(pixels_in(&walked, 255).len(), 15);
    assert_eq!(pixels_in(&scanned, 255).len(), 15);
    assert_eq!(pixels_in(&walked, 255), pixels_in(&scanned, 255));
}

#[test]
fn edge_walking_fills_a_triangle_with_a_level_side() {
    let red = TGAColor::new_rgb(255, 0, 0);
    let mut image = TGAImage::new(8, 8, TGAImageFormat::RGB);

    // level side at the top, apex below
    triangle(
        Vector2Int::new(1, 5),
        Vector2Int::new(5, 5),
        Vector2Int::new(3, 1),
        &red,
        &mut image,
    );

    // the edges from the apex are steep: each has one pixel in every row
    let expected: Vec<(u32, u32)> = vec![
        (3, 1),
        (3, 2),
        (2, 3),
        (3, 3),
        (4, 3),
        (2, 4),
        (3, 4),
        (4, 4),
        (1, 5),
        (2, 5),
        (3, 5),
        (4, 5),
        (5, 5),
    ];
    assert_eq!(pixels_in(&image, 255), expected);
}

#[test]
fn edge_walking_cuts_a_general_triangle_at_the_middle_row() {
    let red = TGAColor::new_rgb(255, 0, 0);
    let mut image = TGAImage::new(10, 10, TGAImageFormat::RGB);

    // sorted by rows: (0, 0), (6, 3), (2, 6); the long side crosses row 3
    // at column 0 + 3 * 2 / 6 = 1
    triangle(
        Vector2Int::new(6, 3),
        Vector2Int::new(2, 6),
        Vector2Int::new(0, 0),
        &red,
        &mut image,
    );

    let painted = pixels_in(&image, 255);
    let row = |y: u32| -> Vec<u32> {
        painted.iter().filter(|p| p.1 == y).map(|p| p.0).collect()
    };
    assert_eq!(row(0), vec![0, 1]);
    assert_eq!(row(1), vec![0, 1, 2, 3]);
    assert_eq!(row(2), vec![1, 2, 3, 4, 5]);
    assert_eq!(row(3), vec![1, 2, 3, 4, 5, 6]);
    assert_eq!(row(4), vec![1, 2, 3, 4, 5]);
    assert_eq!(row(5), vec![2, 3, 4]);
    assert_eq!(row(6), vec![2]);
    assert_eq!(row(7), Vec::<u32>::new());
    // every vertex is painted
    assert!(painted.contains(&(6, 3)) && painted.contains(&(2, 6)) && painted.contains(&(0, 0)));
}

#[test]
fn edge_walking_ignores_what_lies_outside_the_image() {
    let red = TGAColor::new_rgb(255, 0, 0);
    let mut image = TGAImage::new(4, 4, TGAImageFormat::RGB);

    triangle(
        Vector2Int::new(-4, -4),
        Vector2Int::new(8, -4),
        Vector2Int::new(-4, 8),
        &red,
        &mut image,
    );

    // of the sixteen pixels, those with x + y <= 4
    let painted = pixels_in(&image, 255);
    assert_eq!(painted.len(), 13);
    for y in 0..4u32 {
        for x in 0..4u32 {
            assert_eq!(painted.contains(&(x, y)), x + y <= 4);
        }
    }
}

#[test]
fn depth_is_interpolated_in_fixed_point() {
    let bc = PointBarycentricCoords { u: 1, v: 1, w: 1, det: 3 };

    assert_eq!(DEPTH_UNIT, 1 << 30);
    assert_eq!(DEPTH_NEG_INFINITY, i64::MIN);
    assert_eq!(bc.depth(3, 3, 3), 3 << 30);
    assert_eq!(bc.depth(0, 0, 1), 357913941); // 2^30 / 3, rounded down
    assert_eq!(bc.depth(0, 0, -1), -357913942); // -2^30 / 3, rounded down
    assert_eq!(bc.depth(1, 2, 3), 2 << 30);
    assert_eq!(bc.depth(i32::MAX, i32::MAX, i32::MAX), i32::MAX as i64 * (1 << 30));
    assert_eq!(bc.depth(i32::MIN, i32::MIN, i32::MIN), i32::MIN as i64 * (1 << 30));
    assert_eq!(floor_div(7, 2), 3);
    assert_eq!(floor_div(-7, 2), -4);
    assert_eq!(floor_div(-8, 2), -4);
    assert_eq!(floor_div(0, 5), 0);
}

#[test]
fn texture_position_is_interpolated_term_by_term() {
    let bc = PointBarycentricCoords { u: 1, v: 1, w: 1, det: 3 };

    // each term is rounded towards zero before the sum: 3 + 3 + 3
    assert_eq!(bc.texel(10, 10, 10), 9);
    assert_eq!(bc.texel(-10, -10, -10), -9);
    assert_eq!(bc.texel(3, 6, 9), 6);
    assert_eq!(bc.texel(i32::MAX, i32::MAX, i32::MAX), 3 * (i32::MAX / 3));
    assert_eq!(bc.texel(i32::MIN, i32::MIN, i32::MIN), 3 * (i32::MIN / 3));

    let corner = PointBarycentricCoords { u: 0, v: 5, w: 0, det: 5 };
    assert_eq!(corner.texel(1, 2, 77), 77);
}

#[test]
fn depth_test_accepts_only_what_is_strictly_greater() {
    let red = TGAColor::new_rgb(255, 0, 0);
    let green = TGAColor::new_rgb(7, 255, 0);
    let blue = TGAColor::new_rgb(9, 0, 255);
    let mut image = TGAImage::new(8, 8, TGAImageFormat::RGB);
    let mut zbuf = vec![DEPTH_NEG_INFINITY; 64];
    let at = |z: i32| {
        (
            Vector3Int::new(0, 0, z),
            Vector3Int::new(4, 0, z),
            Vector3Int::new(0, 4, z),
        )
    };

    let (a, b, c) = at(10);
    triangle_barycentric_zbuf(a, b, c, &mut zbuf, &red, &mut image);
    assert_eq!(pixels_in(&image, 255).len(), 15);
    assert_eq!(zbuf[0], 10 * DEPTH_UNIT);
    assert_eq!(zbuf[4], 10 * DEPTH_UNIT);
    assert_eq!(zbuf[5], DEPTH_NEG_INFINITY);

    // an equal depth loses
    let (a, b, c) = at(10);
    triangle_barycentric_zbuf(a, b, c, &mut zbuf, &green, &mut image);
    assert_eq!(pixels_in(&image, 255).len(), 15);
    assert_eq!(pixels_in(&image, 7).len(), 0);

    // a smaller depth loses
    let (a, b, c) = at(9);
    triangle_barycentric_zbuf(a, b, c, &mut zbuf, &green, &mut image);
    assert_eq!(pixels_in(&image, 255).len(), 15);
    assert_eq!(zbuf[0], 10 * DEPTH_UNIT);

    // a greater depth wins
    let (a, b, c) = at(11);
    triangle_barycentric_zbuf(a, b, c, &mut zbuf, &blue, &mut image);
    assert_eq!(pixels_in(&image, 255).len(), 0);
    assert_eq!(pixels_in(&image, 9).len(), 15);
    assert_eq!(zbuf[0], 11 * DEPTH_UNIT);
}

#[test]
fn depth_buffer_keeps_the_greater_of_two_depths() {
    let red = TGAColor::new_rgb(255, 0, 0);
    let blue = TGAColor::new_rgb(9, 0, 255);
    let mut image = TGAImage::new(8, 8, TGAImageFormat::RGB);
    let mut zbuf = vec![DEPTH_NEG_INFINITY; 64];

    // the first triangle rises along x, the second falls: they cross
    // between columns 2 and 3
    let first = [
        Vector3Int::new(0, 0, 0),
        Vector3Int::new(6, 0, 12),
        Vector3Int::new(0, 6, 0),
    ];
    let second = [
        Vector3Int::new(0, 0, 10),
        Vector3Int::new(6, 0, -2),
        Vector3Int::new(0, 6, 10),
    ];
    triangle_barycentric_zbuf(first[0], first[1], first[2], &mut zbuf, &red, &mut image);
    triangle_barycentric_zbuf(second[0], second[1], second[2], &mut zbuf, &blue, &mut image);

    for y in 0..8i32 {
        for x in 0..8i32 {
            let cell = zbuf[(x + y * 8) as usize];
            let pixel = image.get(x as u32, y as u32)[ColorChannel::R];
            if x + y <= 6 {
                let z_first = 2 * x as i64 * DEPTH_UNIT;
                let z_second = (10 - 2 * x as i64) * DEPTH_UNIT;
                assert_eq!(cell, z_first.max(z_second));
                assert_eq!(pixel == 9, z_second > z_first);
                assert_eq!(pixel == 255, z_second <= z_first);
            } else {
                assert_eq!(cell, DEPTH_NEG_INFINITY);
                assert_eq!(pixel, 0);
            }
        }
    }
}

#[test]
fn depth_varies_across_a_triangle() {
    let red = TGAColor::new_rgb(255, 0, 0);
    let mut image = TGAImage::new(4, 4, TGAImageFormat::Grayscale);
    let mut zbuf = vec![DEPTH_NEG_INFINITY; 16];

    triangle_barycentric_zbuf(
        Vector3Int::new(0, 0, 0),
        Vector3Int::new(3, 0, 1),
        Vector3Int::new(0, 3, 2),
        &mut zbuf,
        &red,
        &mut image,
    );

    // z = (x + 2 y) / 3 units
    assert_eq!(zbuf[0], 0);
    assert_eq!(zbuf[1], 357913941);
    assert_eq!(zbuf[2], 715827882);
    assert_eq!(zbuf[3], 1073741824);
    assert_eq!(zbuf[4], 715827882);
    assert_eq!(zbuf[5], 1073741824);
    assert_eq!(zbuf[12], 2147483648);
    assert_eq!(zbuf[15], DEPTH_NEG_INFINITY);
    // a grayscale image keeps the blue byte
    assert_eq!(*image.buffer(), vec![0u8, 0, 0, 0, 0, 0, 0, 0, 0, 0, 0, 0, 0, 0, 0, 0]);
}

#[test]
fn textured_fill_samples_and_dims_the_texture() {
    let mut texture = TGAImage::new(4, 4, TGAImageFormat::RGB);
    for y in 0..4u32 {
        for x in 0..4u32 {
            texture.set(x, y, &TGAColor::new_rgb(10 * (x as u8 + 1), 50 * (y as u8 + 1), 200));
        }
    }
    let mut image = TGAImage::new(4, 4, TGAImageFormat::RGB);
    let mut zbuf = vec![DEPTH_NEG_INFINITY; 16];

    // the texture is laid over the triangle pixel for pixel
    triangle_barycentric_zbuf_with_texture(
        TriangleDef(
            Vector3Int::new(0, 0, 1),
            Vector3Int::new(3, 0, 1),
            Vector3Int::new(0, 3, 1),
        ),
        TextureDef(
            Vector2Int::new(0, 0),
            Vector2Int::new(3, 0),
            Vector2Int::new(0, 3),
        ),
        &mut zbuf,
        &mut image,
        &texture,
        Intensity::new(1, 2),
    );

    for y in 0..4u32 {
        for x in 0..4u32 {
            let pixel = image.get(x, y);
            if x + y <= 3 {
                assert_eq!(pixel[ColorChannel::R], 5 * (x as u8 + 1));
                assert_eq!(pixel[ColorChannel::G], 25 * (y as u8 + 1));
                assert_eq!(pixel[ColorChannel::B], 100);
                assert_eq!(zbuf[(x + 4 * y) as usize], DEPTH_UNIT);
            } else {
                assert_eq!(pixel.bgra, [0, 0, 0, 0]);
                assert_eq!(zbuf[(x + 4 * y) as usize], DEPTH_NEG_INFINITY);
            }
        }
    }
}

#[test]
fn textured_fill_reads_the_default_color_outside_the_texture() {
    let mut texture = TGAImage::new(2, 2, TGAImageFormat::RGB);
    for y in 0..2u32 {
        for x in 0..2u32 {
            texture.set(x, y, &TGAColor::new_rgb(200, 200, 200));
        }
    }
    let white = TGAColor::new_rgb(255, 255, 255);
    let mut image = TGAImage::new(3, 3, TGAImageFormat::RGB);
    for y in 0..3u32 {
        for x in 0..3u32 {
            image.set(x, y, &white);
        }
    }
    let mut zbuf = vec![DEPTH_NEG_INFINITY; 9];

    // every vertex points to the left of the texture or below it
    triangle_barycentric_zbuf_with_texture(
        TriangleDef(
            Vector3Int::new(0, 0, 1),
            Vector3Int::new(2, 0, 1),
            Vector3Int::new(0, 2, 1),
        ),
        TextureDef(
            Vector2Int::new(-5, 0),
            Vector2Int::new(-5, 0),
            Vector2Int::new(-5, 9),
        ),
        &mut zbuf,
        &mut image,
        &texture,
        Intensity::new(1, 1),
    );

    assert_eq!(image.get(0, 0).bgra, [0, 0, 0, 0]);
    assert_eq!(image.get(1, 1).bgra, [0, 0, 0, 0]);
    assert_eq!(image.get(2, 2)[ColorChannel::R], 255);
    assert_eq!(pixels_in(&image, 0).len(), 6);
}

#[test]
fn triangle_beside_the_image_paints_nothing() {
    let red = TGAColor::new_rgb(255, 0, 0);
    let mut image = TGAImage::new(8, 8, TGAImageFormat::RGB);
    let mut zbuf = vec![DEPTH_NEG_INFINITY; 64];

    triangle_barycentric(
        Vector2Int::new(-20, 1),
        Vector2Int::new(-3, 5),
        Vector2Int::new(-9, 30),
        &red,
        &mut image,
    );
    triangle_barycentric(
        Vector2Int::new(8, 0),
        Vector2Int::new(30, 5),
        Vector2Int::new(9, 7),
        &red,
        &mut image,
    );
    triangle_barycentric_zbuf(
        Vector3Int::new(0, 8, 1),
        Vector3Int::new(7, 8, 1),
        Vector3Int::new(3, 90, 1),
        &mut zbuf,
        &red,
        &mut image,
    );
    triangle(
        Vector2Int::new(0, -8),
        Vector2Int::new(7, -1),
        Vector2Int::new(3, -90),
        &red,
        &mut image,
    );

    image.buffer().iter().for_each(|e| assert_eq!(*e, 0));
    zbuf.iter().for_each(|z| assert_eq!(*z, DEPTH_NEG_INFINITY));
}
