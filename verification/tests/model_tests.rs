use tinyrenderer::model::{process_face, ModelFace};

fn face(verts: [u32; 3], uv: [u32; 3], norm: [u32; 3]) -> Option<ModelFace> {
    Some(ModelFace {
        verts_index: verts,
        uv_index: uv,
        norm_index: norm,
    })
}

#[test]
fn face_line_gives_indices_counted_from_zero() {
    assert_eq!(
        process_face(b" 24/1/24 25/2/25 26/3/26"),
        face([23, 24, 25], [0, 1, 2], [23, 24, 25])
    );
    assert_eq!(
        process_face(b"1193/1240/1193\t1180/1227/1180   1179/1226/1179\r\n"),
        face([1192, 1179, 1178], [1239, 1226, 1225], [1192, 1179, 1178])
    );
    assert_eq!(
        process_face(b"1/1/1 1/1/1 1/1/1"),
        face([0, 0, 0], [0, 0, 0], [0, 0, 0])
    );
    assert_eq!(
        process_face(b"+7/+8/+9 4294967295/2/3 10/20/30"),
        face([6, 4294967294, 9], [7, 1, 19], [8, 2, 29])
    );
    // leading zeros are digits like any other
    assert_eq!(
        process_face(b"007/08/9 1/1/1 1/1/1"),
        face([6, 0, 0], [7, 0, 0], [8, 0, 0])
    );
}

#[test]
fn face_line_of_fewer_words_leaves_corners_at_zero() {
    assert_eq!(process_face(b""), face([0, 0, 0], [0, 0, 0], [0, 0, 0]));
    assert_eq!(process_face(b"  \t "), face([0, 0, 0], [0, 0, 0], [0, 0, 0]));
    assert_eq!(process_face(b"5/6/7"), face([4, 0, 0], [5, 0, 0], [6, 0, 0]));
    assert_eq!(
        process_face(b"5/6/7 8/9/10 "),
        face([4, 7, 0], [5, 8, 0], [6, 9, 0])
    );
}

#[test]
fn face_line_ignores_what_follows_a_third_slash() {
    assert_eq!(
        process_face(b"5/6/7/8 1/1/1/x 2/2/2/"),
        face([4, 0, 1], [5, 0, 1], [6, 0, 1])
    );
}

#[test]
fn face_line_of_more_than_three_words_is_refused() {
    assert_eq!(process_face(b"1/1/1 2/2/2 3/3/3 4/4/4"), None);
    assert_eq!(process_face(b"1/1/1 2/2/2 3/3/3 x"), None);
}

#[test]
fn face_line_with_a_bad_word_is_refused() {
    for line in [
        &b"5/6"[..],
        b"5",
        b"5//7",
        b"/6/7",
        b"5/6/",
        b"a/6/7",
        b"5/6/7x",
        b"5/-6/7",
        b"5/+/7",
        b"5/6 /7",
        b"5.0/6/7",
        // the file counts from 1
        b"0/1/1",
        b"1/0/1",
        b"1/1/0",
        // more than 32 bits hold
        b"4294967296/1/1",
        b"1/99999999999999999999/1",
        b"1/1/1 2/2",
        b"1/1/1 2/2/2 3/3",
    ] {
        assert_eq!(process_face(line), None);
    }
}

#[test]
fn face_default_is_all_zero() {
    assert_eq!(
        Some(ModelFace::default()),
        face([0, 0, 0], [0, 0, 0], [0, 0, 0])
    );
}
