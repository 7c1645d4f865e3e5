//! The faces of a mesh as a Wavefront OBJ file lists them: for each corner
//! of a triangle, the numbers of a vertex, of a texture position and of a
//! normal.

use vstd::prelude::*;

verus! {

/// One face of a mesh: for each of its three corners, the index of its
/// vertex, of its texture position and of its normal, counted from 0.
#[derive(Copy, Clone, Debug, PartialEq, Eq)]
pub struct ModelFace {
    pub verts_index: [u32; 3],
    pub uv_index: [u32; 3],
    pub norm_index: [u32; 3],
}

impl Default for ModelFace {
    fn default() -> (face: ModelFace)
        ensures
            face.verts_index@ == seq![0u32, 0u32, 0u32],
            face.uv_index@ == seq![0u32, 0u32, 0u32],
            face.norm_index@ == seq![0u32, 0u32, 0u32],
    {
        ModelFace { verts_index: [0, 0, 0], uv_index: [0, 0, 0], norm_index: [0, 0, 0] }
    }
}

/// Whether a byte is white space: a blank, a tab, a line feed, a vertical
/// tab, a form feed or a carriage return.
pub open spec fn is_space(byte: u8) -> bool {
    byte == 32 || (9 <= byte <= 13)
}

/// Whether a byte is a decimal digit.
pub open spec fn is_digit(byte: u8) -> bool {
    48 <= byte <= 57
}

/// The first position from `from` on that holds no white space, or the end
/// of `text`.
pub open spec fn after_spaces(text: Seq<u8>, from: int) -> int
    decreases text.len() - from,
{
    if 0 <= from < text.len() && is_space(text[from]) {
        after_spaces(text, from + 1)
    } else {
        from
    }
}

/// The first position from `from` on that holds white space, or the end of
/// `text`: the end of the word that starts at `from`.
pub open spec fn word_end(text: Seq<u8>, from: int) -> int
    decreases text.len() - from,
{
    if 0 <= from < text.len() && !is_space(text[from]) {
        word_end(text, from + 1)
    } else {
        from
    }
}

/// The first position from `from` on and before `to` that holds a slash,
/// or `to`: the end of the field that starts at `from`.
pub open spec fn field_end(text: Seq<u8>, from: int, to: int) -> int
    decreases to - from,
{
    if 0 <= from < to && from < text.len() && text[from] != 47 {
        field_end(text, from + 1, to)
    } else {
        from
    }
}

/// The number that decimal digits stand for.
pub open spec fn decimal_value(digits: Seq<u8>) -> nat
    decreases digits.len(),
{
    if digits.len() == 0 {
        0
    } else {
        (decimal_value(digits.drop_last()) * 10 + (digits.last() - 48)) as nat
    }
}

/// Whether every byte is a decimal digit.
pub open spec fn all_digits(digits: Seq<u8>) -> bool {
    forall|i: int| 0 <= i < digits.len() ==> is_digit(#[trigger] digits[i])
}

/// The number that `text` stands for: one or more decimal digits, after a
/// plus sign or none, that stay within 32 bits.
pub open spec fn number(text: Seq<u8>) -> Option<u32> {
    let digits = if text.len() > 0 && text[0] == 43 {
        text.skip(1)
    } else {
        text
    };
    if digits.len() > 0 && all_digits(digits) && decimal_value(digits) <= u32::MAX {
        Some(decimal_value(digits) as u32)
    } else {
        None
    }
}

/// The three indices that the word from `from` to `to` names: three
/// numbers, each followed by a slash or by the end of the word, and each
/// at least 1, as the file counts from 1. What follows a third slash is
/// not looked at.
pub open spec fn corner(text: Seq<u8>, from: int, to: int) -> Option<(u32, u32, u32)> {
    let first_end = field_end(text, from, to);
    let second_end = field_end(text, first_end + 1, to);
    let third_end = field_end(text, second_end + 1, to);
    if first_end < to && second_end < to {
        match (
            number(text.subrange(from, first_end)),
            number(text.subrange(first_end + 1, second_end)),
            number(text.subrange(second_end + 1, third_end)),
        ) {
            (Some(vertex), Some(uv), Some(normal)) => if vertex >= 1 && uv >= 1 && normal >= 1 {
                Some(((vertex - 1) as u32, (uv - 1) as u32, (normal - 1) as u32))
            } else {
                None
            },
            _ => None,
        }
    } else {
        None
    }
}

/// Word `n` of `text`, counted from 0, as the position of its first byte
/// and of the byte after its last. Beyond the last word both are the end
/// of the text.
pub open spec fn nth_word(text: Seq<u8>, n: nat) -> (int, int)
    decreases n,
{
    let start = if n == 0 {
        after_spaces(text, 0)
    } else {
        after_spaces(text, nth_word(text, (n - 1) as nat).1)
    };
    (start, word_end(text, start))
}

/// The corner that word `n` names, all zero where the text has no such
/// word, or `None` where the word names none.
pub open spec fn nth_corner(text: Seq<u8>, n: nat) -> Option<(u32, u32, u32)> {
    let (start, end) = nth_word(text, n);
    if start >= text.len() {
        Some((0u32, 0u32, 0u32))
    } else {
        corner(text, start, end)
    }
}

/// The face that a line of words names, or `None` where it names none: it
/// holds at most three words, and each names a corner.
pub open spec fn face(text: Seq<u8>) -> Option<ModelFace> {
    match (nth_corner(text, 0), nth_corner(text, 1), nth_corner(text, 2)) {
        (Some(a), Some(b), Some(c)) => if nth_word(text, 3).0 >= text.len() {
            Some(
                ModelFace {
                    verts_index: [a.0, b.0, c.0],
                    uv_index: [a.1, b.1, c.1],
                    norm_index: [a.2, b.2, c.2],
                },
            )
        } else {
            None
        },
        _ => None,
    }
}

/// The first position from `from` on that holds no white space.
fn skip_spaces(text: &[u8], from: usize) -> (to: usize)
    requires
        from <= text@.len(),
    ensures
        to == after_spaces(text@, from as int),
        from <= to <= text@.len(),
{
    let size = text.len();
    let mut i = from;
    while i < size && (text[i] == 32 || (9 <= text[i] && text[i] <= 13))
        invariant
            size == text@.len(),
            from <= i <= size,
            after_spaces(text@, from as int) == after_spaces(text@, i as int),
        decreases size - i,
    {
        i += 1;
    }
    i
}

/// The end of the word that starts at `from`.
fn find_word_end(text: &[u8], from: usize) -> (to: usize)
    requires
        from <= text@.len(),
    ensures
        to == word_end(text@, from as int),
        from <= to <= text@.len(),
{
    let size = text.len();
    let mut i = from;
    while i < size && !(text[i] == 32 || (9 <= text[i] && text[i] <= 13))
        invariant
            size == text@.len(),
            from <= i <= size,
            word_end(text@, from as int) == word_end(text@, i as int),
        decreases size - i,
    {
        i += 1;
    }
    i
}

/// The end of the field that starts at `from` in the word that ends at
/// `to`.
fn find_field_end(text: &[u8], from: usize, to: usize) -> (end: usize)
    requires
        from <= to <= text@.len(),
    ensures
        end == field_end(text@, from as int, to as int),
        from <= end <= to,
{
    let mut i = from;
    while i < to && text[i] != 47
        invariant
            from <= i <= to,
            to <= text@.len(),
            field_end(text@, from as int, to as int) == field_end(text@, i as int, to as int),
        decreases to - i,
    {
        i += 1;
    }
    i
}

/// More digits never stand for a smaller number.
pub proof fn lemma_decimal_value_grows(digits: Seq<u8>, shorter: int)
    requires
        0 <= shorter <= digits.len(),
        all_digits(digits),
    ensures
        decimal_value(digits.subrange(0, shorter)) <= decimal_value(digits),
    decreases digits.len() - shorter,
{
    if shorter < digits.len() {
        let longer = digits.subrange(0, shorter + 1);
        assert(longer.drop_last() =~= digits.subrange(0, shorter));
        assert(is_digit(digits[shorter]));
        assert(longer.last() == digits[shorter]);
        lemma_decimal_value_grows(digits, shorter + 1);
    } else {
        assert(digits.subrange(0, shorter) =~= digits);
    }
}

/// Reads the number that the bytes from `from` to `to` stand for.
fn parse_number(text: &[u8], from: usize, to: usize) -> (value: Option<u32>)
    requires
        from <= to <= text@.len(),
    ensures
        value == number(text@.subrange(from as int, to as int)),
{
    let ghost field = text@.subrange(from as int, to as int);
    let start = if from < to && text[from] == 43 {
        from + 1
    } else {
        from
    };
    let ghost digits = text@.subrange(start as int, to as int);
    proof {
        if start == from {
            assert(digits =~= field);
        } else {
            assert(digits =~= field.skip(1));
        }
    }
    if start == to {
        return None;
    }
    let mut value: u32 = 0;
    let mut i = start;
    proof {
        assert(digits.subrange(0, 0) =~= Seq::<u8>::empty());
    }
    while i < to
        invariant
            start <= i <= to,
            to <= text@.len(),
            field == text@.subrange(from as int, to as int),
            digits == text@.subrange(start as int, to as int),
            digits == if field.len() > 0 && field[0] == 43 {
                field.skip(1)
            } else {
                field
            },
            all_digits(digits.subrange(0, i - start)),
            value == decimal_value(digits.subrange(0, i - start)),
        decreases to - i,
    {
        let byte = text[i];
        let ghost so_far = digits.subrange(0, i - start);
        let ghost longer = digits.subrange(0, i - start + 1);
        proof {
            assert(longer.drop_last() =~= so_far);
            assert(longer.last() == byte);
        }
        if byte < 48 || byte > 57 {
            assert(!is_digit(digits[i - start]));
            return None;
        }
        let digit = (byte - 48) as u32;
        if value > (u32::MAX - digit) / 10 {
            proof {
                assert(decimal_value(longer) > u32::MAX);
                if all_digits(digits) {
                    lemma_decimal_value_grows(digits, i - start + 1);
                }
            }
            return None;
        }
        value = value * 10 + digit;
        proof {
            assert forall|k: int| 0 <= k < longer.len() implies is_digit(#[trigger] longer[k]) by {
                if k < so_far.len() {
                    assert(longer[k] == so_far[k]);
                }
            }
        }
        i += 1;
    }
    proof {
        assert(digits.subrange(0, to - start) =~= digits);
    }
    Some(value)
}

/// Reads the corner that the word from `from` to `to` names.
fn parse_corner(text: &[u8], from: usize, to: usize) -> (indices: Option<(u32, u32, u32)>)
    requires
        from <= to <= text@.len(),
    ensures
        indices == corner(text@, from as int, to as int),
{
    let first_end = find_field_end(text, from, to);
    if first_end >= to {
        return None;
    }
    let second_end = find_field_end(text, first_end + 1, to);
    if second_end >= to {
        return None;
    }
    let third_end = find_field_end(text, second_end + 1, to);
    let vertex = match parse_number(text, from, first_end) {
        Some(vertex) => vertex,
        None => {
            return None;
        },
    };
    let uv = match parse_number(text, first_end + 1, second_end) {
        Some(uv) => uv,
        None => {
            return None;
        },
    };
    let normal = match parse_number(text, second_end + 1, third_end) {
        Some(normal) => normal,
        None => {
            return None;
        },
    };
    if vertex >= 1 && uv >= 1 && normal >= 1 {
        Some((vertex - 1, uv - 1, normal - 1))
    } else {
        None
    }
}

/// Reads the face that the words of a line name: what follows the `f` at
/// the start of a face line of a Wavefront OBJ file.
///
/// A line of fewer than three words leaves the missing corners at index 0.
/// `None` is returned for a line of more than three words, and for one with
/// a word that is not three numbers of at least 1 with slashes between
/// them.
pub fn process_face(words: &[u8]) -> (parsed: Option<ModelFace>)
    ensures
        parsed == face(words@),
{
    let size = words.len();
    let mut model_face = ModelFace::default();
    let mut position: usize = 0;
    let mut i: usize = 0;
    while i < 3
        invariant
            i <= 3,
            size == words@.len(),
            position <= size,
            position == if i == 0 {
                0
            } else {
                nth_word(words@, (i - 1) as nat).1
            },
            forall|k: int|
                0 <= k < i ==> #[trigger] nth_corner(words@, k as nat) == Some(
                    (model_face.verts_index[k], model_face.uv_index[k], model_face.norm_index[k]),
                ),
            forall|k: int| i <= k < 3 ==> #[trigger] model_face.verts_index[k] == 0,
            forall|k: int| i <= k < 3 ==> #[trigger] model_face.uv_index[k] == 0,
            forall|k: int| i <= k < 3 ==> #[trigger] model_face.norm_index[k] == 0,
        decreases 3 - i,
    {
        let start = skip_spaces(words, position);
        let end = find_word_end(words, start);
        assert((start as int, end as int) == nth_word(words@, i as nat));
        if start < size {
            match parse_corner(words, start, end) {
                Some(indices) => {
                    model_face.verts_index[i] = indices.0;
                    model_face.uv_index[i] = indices.1;
                    model_face.norm_index[i] = indices.2;
                },
                None => {
                    return None;
                },
            }
        }
        position = end;
        i += 1;
    }
    let start = skip_spaces(words, position);
    assert(start == nth_word(words@, 3).0);
    if start < size {
        return None;
    }
    proof {
        let a = nth_corner(words@, 0)->0;
        let b = nth_corner(words@, 1)->0;
        let c = nth_corner(words@, 2)->0;
        assert(model_face.verts_index[0] == a.0);
        assert(model_face.verts_index[1] == b.0);
        assert(model_face.verts_index[2] == c.0);
        assert(model_face.verts_index =~= [a.0, b.0, c.0]);
        assert(model_face.uv_index =~= [a.1, b.1, c.1]);
        assert(model_face.norm_index =~= [a.2, b.2, c.2]);
    }
    Some(model_face)
}

} // verus!
