//! Helpers that shape barcode field data and geometry for the drawing
//! backends.

use vstd::prelude::*;
use crate::text::{chars_of, slice_range, string_of};

verus! {

/// The data of a `^BC` field after its code-set invocation (`>9` = A,
/// `>:` = B, `>;` = C) and the subset to force; B without an invocation.
pub open spec fn spec_code128_code_set(d: Seq<char>) -> (Seq<char>, Seq<char>) {
    if d.len() >= 2 && d[0] == '>' && d[1] == '9' {
        (d.subrange(2, d.len() as int), "A"@)
    } else if d.len() >= 2 && d[0] == '>' && d[1] == ':' {
        (d.subrange(2, d.len() as int), "B"@)
    } else if d.len() >= 2 && d[0] == '>' && d[1] == ';' {
        (d.subrange(2, d.len() as int), "C"@)
    } else {
        (d, "B"@)
    }
}

/// Splits a `^BC` payload's code-set prefix from its data.
pub fn code128_code_set(data: &str) -> (r: (String, String))
    ensures
        (r.0@, r.1@) == spec_code128_code_set(data@),
{
    let d = chars_of(data);
    if d.len() >= 2 && d[0] == '>' {
        let set = if d[1] == '9' {
            "A"
        } else if d[1] == ':' {
            "B"
        } else if d[1] == ';' {
            "C"
        } else {
            ""
        };
        if d[1] == '9' || d[1] == ':' || d[1] == ';' {
            return (string_of(slice_range(&d, 2, d.len())), set.to_owned());
        }
    }
    (data.to_owned(), "B".to_owned())
}

pub open spec fn is_qr_level(c: char) -> bool {
    c == 'H' || c == 'Q' || c == 'M' || c == 'L'
}

/// The error-correction level and data of a `^BQ` field: `<level><mode>,`
/// (level H/Q/M/L, mode A/M) or `<level>,` prefixes select the level;
/// otherwise `default_ec` and the whole data.
pub open spec fn spec_qr_field_data(d: Seq<char>, default_ec: char) -> (char, Seq<char>) {
    if d.len() >= 3 && is_qr_level(d[0]) && (d[1] == 'A' || d[1] == 'M') && d[2] == ',' {
        (d[0], d.subrange(3, d.len() as int))
    } else if d.len() >= 2 && is_qr_level(d[0]) && d[1] == ',' {
        (d[0], d.subrange(2, d.len() as int))
    } else {
        (default_ec, d)
    }
}

/// Splits a `^BQ` payload into its error-correction level and data.
pub fn qr_field_data(data: &str, default_ec: char) -> (r: (char, String))
    ensures
        (r.0, r.1@) == spec_qr_field_data(data@, default_ec),
{
    let d = chars_of(data);
    let lvl = d.len() >= 1 && (d[0] == 'H' || d[0] == 'Q' || d[0] == 'M' || d[0] == 'L');
    if lvl && d.len() >= 3 && (d[1] == 'A' || d[1] == 'M') && d[2] == ',' {
        return (d[0], string_of(slice_range(&d, 3, d.len())));
    }
    if lvl && d.len() >= 2 && d[1] == ',' {
        return (d[0], string_of(slice_range(&d, 2, d.len())));
    }
    (default_ec, data.to_owned())
}

/// Data columns of a `^B7` field: the given count when in 1..=30, else
/// exactly 1.
pub open spec fn pdf417_columns(columns: Option<u32>) -> (usize, usize) {
    match columns {
        Some(c) => if 1 <= c <= 30 {
            (c as usize, c as usize)
        } else {
            (1, 1)
        },
        None => (1, 1),
    }
}

/// Rows of a `^B7` field: the given count when in 3..=90, else 3 to 90.
pub open spec fn pdf417_rows(rows: Option<u32>) -> (usize, usize) {
    match rows {
        Some(n) => if 3 <= n <= 90 {
            (n as usize, n as usize)
        } else {
            (3, 90)
        },
        None => (3, 90),
    }
}

/// The PDF417 size constraint of a `^B7` field: minimum and maximum data
/// columns, minimum and maximum rows.
pub fn pdf417_dimensions(columns: Option<u32>, rows: Option<u32>) -> (r: (usize, usize, usize, usize))
    ensures
        r == (pdf417_columns(columns).0, pdf417_columns(columns).1, pdf417_rows(rows).0, pdf417_rows(
            rows,
        ).1),
{
    let (min_c, max_c) = match columns {
        Some(c) => if 1 <= c && c <= 30 {
            (c as usize, c as usize)
        } else {
            (1, 1)
        },
        None => (1, 1),
    };
    let (min_r, max_r) = match rows {
        Some(n) => if 3 <= n && n <= 90 {
            (n as usize, n as usize)
        } else {
            (3, 90)
        },
        None => (3, 90),
    };
    (min_c, max_c, min_r, max_r)
}

} // verus!

verus! {

/// Vertical oversampling of encoded PDF417 matrices.
pub const PDF417_ROW_SCALE: usize = 4;

/// Every fourth row of an oversampled PDF417 matrix; the matrix itself when
/// it has fewer than four rows.
pub open spec fn spec_pdf417_descale(m: Seq<Seq<bool>>) -> Seq<Seq<bool>> {
    let rows = m.len() / 4;
    if rows == 0 {
        m
    } else {
        Seq::new(rows, |r: int| m[4 * r])
    }
}

fn copy_row(v: &Vec<bool>) -> (r: Vec<bool>)
    ensures
        r@ == v@,
{
    let mut r: Vec<bool> = Vec::new();
    crate::text::append_all(&mut r, v.as_slice());
    r
}

/// Collapses an oversampled PDF417 matrix (rows of modules) to one row per
/// codeword row.
pub fn pdf417_descale(matrix: &Vec<Vec<bool>>) -> (out: Vec<Vec<bool>>)
    ensures
        out@.len() == spec_pdf417_descale(matrix@.map_values(|row: Vec<bool>| row@)).len(),
        forall|i: int| 0 <= i < out@.len() ==> #[trigger] out@[i]@ == spec_pdf417_descale(
            matrix@.map_values(|row: Vec<bool>| row@),
        )[i],
{
    let h = matrix.len();
    let rows = h / PDF417_ROW_SCALE;
    let mut out: Vec<Vec<bool>> = Vec::new();
    if rows == 0 {
        let mut i: usize = 0;
        while i < h
            invariant
                i <= h,
                h == matrix@.len(),
                out@.len() == i,
                forall|k: int| 0 <= k < i ==> #[trigger] out@[k]@ == matrix@[k]@,
            decreases h - i,
        {
            out.push(copy_row(&matrix[i]));
            i = i + 1;
        }
        return out;
    }
    let mut r: usize = 0;
    while r < rows
        invariant
            r <= rows,
            rows == h / 4,
            h == matrix@.len(),
            out@.len() == r,
            forall|k: int| 0 <= k < r ==> #[trigger] out@[k]@ == matrix@[4 * k]@,
        decreases rows - r,
    {
        out.push(copy_row(&matrix[r * PDF417_ROW_SCALE]));
        r = r + 1;
    }
    out
}

/// The interpretation-line font of 1-D barcodes: font A magnified by the
/// module width (at least 1), as font letter, character height and width,
/// and the gap in dots below the bars.
pub fn interpretation_metrics(module_width: u32) -> (r: (char, u32, u32, u32))
    requires
        9 * module_width <= u32::MAX,
    ensures
        ({
            let mag: u32 = if module_width > 1 {
                module_width
            } else {
                1
            };
            r == ('A', (9 * mag) as u32, (5 * mag) as u32, 6u32)
        }),
{
    let mag: u32 = if module_width > 1 {
        module_width
    } else {
        1
    };
    ('A', 9 * mag, 5 * mag, 6)
}

} // verus!
