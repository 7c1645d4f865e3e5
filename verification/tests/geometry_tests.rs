use tinyrenderer::geometry::{Vector2, Vector2Int, Vector3, Vector3Int, XYAxis};
use tinyrenderer::point::Point;
use tinyrenderer::scanline::triangle_vertices_sort;

#[test]
fn point_arithmetic() {
    let p = Point::new(3, -4);
    let q = Point::new(-10, 6);

    assert_eq!(p + q, Point::new(-7, 2));
    assert_eq!(p - q, Point::new(13, -10));
    assert_eq!(p.abs(), Point::new(3, 4));
    assert_eq!(q.abs(), Point::new(10, 6));
    assert_eq!(Point::default(), Point::new(0, 0));

    let mut r = p;
    r.add_assign(q);
    assert_eq!(r, Point::new(-7, 2));
    r.sub_assign(q);
    assert_eq!(r, p);
    r.swap_xy();
    assert_eq!(r, Point::new(-4, 3));
}

#[test]
fn vector2_accessors() {
    let mut v = Vector2Int::new(3, 7);
    assert_eq!((v.get_x(), v.get_y()), (3, 7));

    *v.get_x_as_mut() = 10;
    *v.get_y_as_mut() += 1;
    assert_eq!((v.get_x(), v.get_y()), (10, 8));

    v.swap_xy();
    assert_eq!((v.get_x(), v.get_y()), (8, 10));

    let mut w = Vector2::new(1, 2);
    v.swap(&mut w);
    assert_eq!((v.get_x(), v.get_y()), (1, 2));
    assert_eq!((w.get_x(), w.get_y()), (8, 10));

    let zero = Vector2Int::default();
    assert_eq!((zero.get_x(), zero.get_y()), (0, 0));
    assert_eq!(XYAxis::get_x(&w), 8);
    assert_eq!(XYAxis::get_y(&w), 10);
}

#[test]
fn vector2_arithmetic() {
    let v = Vector2Int::new(3, -7);
    let w = Vector2Int::new(5, 2);

    let sum = v + w;
    assert_eq!((sum.x, sum.y), (8, -5));
    let difference = v - w;
    assert_eq!((difference.x, difference.y), (-2, -9));
    assert_eq!(v * w, 15 - 14);
    let scaled = v * 3;
    assert_eq!((scaled.x, scaled.y), (9, -21));
    // the operands are left as they were
    assert_eq!((v.x, v.y, w.x, w.y), (3, -7, 5, 2));
}

#[test]
fn vector3_accessors() {
    let mut v = Vector3Int::new(1, 2, 3);
    assert_eq!((v.get_x(), v.get_y(), v.get_z()), (1, 2, 3));

    *v.get_x_as_mut() = 10;
    *v.get_y_as_mut() = 20;
    *v.get_z_as_mut() = 30;
    assert_eq!((v.get_x(), v.get_y(), v.get_z()), (10, 20, 30));

    let zero = Vector3Int::default();
    assert_eq!((zero.get_x(), zero.get_y(), zero.get_z()), (0, 0, 0));
    assert_eq!(XYAxis::get_x(&v), 10);
    assert_eq!(XYAxis::get_y(&v), 20);
}

#[test]
fn vector3_arithmetic() {
    let v = Vector3Int::new(1, 2, 3);
    let w = Vector3Int::new(-4, 5, 6);

    let sum = v + w;
    assert_eq!((sum.x, sum.y, sum.z), (-3, 7, 9));
    let difference = v - w;
    assert_eq!((difference.x, difference.y, difference.z), (5, -3, -3));
    assert_eq!(v * w, -4 + 10 + 18);
    let scaled = v * -2;
    assert_eq!((scaled.x, scaled.y, scaled.z), (-2, -4, -6));
    assert_eq!(v.get_sum_of_squared(), 14);

    let mut m = v;
    m.mul_assign(5);
    assert_eq!((m.x, m.y, m.z), (5, 10, 15));
}

#[test]
fn vector3_cross_product() {
    let x = Vector3::new(1, 0, 0);
    let y = Vector3::new(0, 1, 0);

    let z = x ^ y;
    assert_eq!((z.x, z.y, z.z), (0, 0, 1));
    let back = y ^ x;
    assert_eq!((back.x, back.y, back.z), (0, 0, -1));

    let v = Vector3Int::new(1, 2, 3);
    let w = Vector3Int::new(-4, 5, 6);
    let cross = v ^ w;
    assert_eq!((cross.x, cross.y, cross.z), (-3, -18, 13));
    // at right angles to both
    assert_eq!(cross * v, 0);
    assert_eq!(cross * w, 0);
    let own = v ^ v;
    assert_eq!((own.x, own.y, own.z), (0, 0, 0));
}

#[test]
fn vertices_are_sorted_by_rows() {
    let rows = |a: i32, b: i32, c: i32| -> ((i32, i32), (i32, i32), (i32, i32)) {
        let mut v1 = Vector2Int::new(1, a);
        let mut v2 = Vector2Int::new(2, b);
        let mut v3 = Vector2Int::new(3, c);
        triangle_vertices_sort(&mut v1, &mut v2, &mut v3);
        ((v1.x, v1.y), (v2.x, v2.y), (v3.x, v3.y))
    };

    assert_eq!(rows(0, 1, 2), ((1, 0), (2, 1), (3, 2)));
    assert_eq!(rows(0, 2, 1), ((1, 0), (3, 1), (2, 2)));
    assert_eq!(rows(1, 0, 2), ((2, 0), (1, 1), (3, 2)));
    assert_eq!(rows(1, 2, 0), ((3, 0), (1, 1), (2, 2)));
    assert_eq!(rows(2, 0, 1), ((2, 0), (3, 1), (1, 2)));
    assert_eq!(rows(2, 1, 0), ((3, 0), (2, 1), (1, 2)));
    // equal rows stay in their order
    assert_eq!(rows(5, 5, 5), ((1, 5), (2, 5), (3, 5)));
    assert_eq!(rows(5, 5, 0), ((3, 0), (2, 5), (1, 5)));
    assert_eq!(rows(0, 5, 5), ((1, 0), (2, 5), (3, 5)));
}
