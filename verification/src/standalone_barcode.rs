//! Barcodes on their own, outside a label: an encoded symbol as SVG or PNG.

use vstd::prelude::*;
use crate::forge::barcode::{encode_symbol, generation_error, generation_error_message, encoded_matrix, format_name, spec_format_name, EncodeOptions, EncodeOptionsOf, EncodeOptionsView, SymbolFormat};
use crate::error::ZplError;
use crate::text::{append_all, chars_of, decimal_chars, decimal_digits, str_eq, string_of};

verus! {

/// The symbologies a standalone barcode can be drawn in.
#[derive(Debug, Clone, Copy, PartialEq, Eq, Structural)]
pub enum BarcodeKind {
    Code128,
    Code39,
    Ean13,
    Interleaved2of5,
    Pdf417,
    Aztec,
    DataMatrix,
    Qr,
}

/// The symbology a kind name selects.
pub open spec fn spec_module_type(kind: Seq<char>) -> Option<BarcodeKind> {
    if kind == "CODE_128"@ {
        Some(BarcodeKind::Code128)
    } else if kind == "CODE_39"@ {
        Some(BarcodeKind::Code39)
    } else if kind == "EAN_13"@ {
        Some(BarcodeKind::Ean13)
    } else if kind == "INTERLEAVED_2_OF_5"@ {
        Some(BarcodeKind::Interleaved2of5)
    } else if kind == "PDF417"@ {
        Some(BarcodeKind::Pdf417)
    } else if kind == "AZTEC"@ {
        Some(BarcodeKind::Aztec)
    } else if kind == "DATAMATRIX"@ {
        Some(BarcodeKind::DataMatrix)
    } else if kind == "QR"@ {
        Some(BarcodeKind::Qr)
    } else {
        None
    }
}

/// The symbology a kind name selects.
pub fn module_type(kind: &str) -> (r: Option<BarcodeKind>)
    ensures
        r == spec_module_type(kind@),
{
    if str_eq(kind, "CODE_128") {
        Some(BarcodeKind::Code128)
    } else if str_eq(kind, "CODE_39") {
        Some(BarcodeKind::Code39)
    } else if str_eq(kind, "EAN_13") {
        Some(BarcodeKind::Ean13)
    } else if str_eq(kind, "INTERLEAVED_2_OF_5") {
        Some(BarcodeKind::Interleaved2of5)
    } else if str_eq(kind, "PDF417") {
        Some(BarcodeKind::Pdf417)
    } else if str_eq(kind, "AZTEC") {
        Some(BarcodeKind::Aztec)
    } else if str_eq(kind, "DATAMATRIX") {
        Some(BarcodeKind::DataMatrix)
    } else if str_eq(kind, "QR") {
        Some(BarcodeKind::Qr)
    } else {
        None
    }
}

/// The symbology the barcode library writes a standalone kind in.
pub open spec fn standalone_format(k: BarcodeKind) -> SymbolFormat {
    match k {
        BarcodeKind::Code128 => SymbolFormat::Code128,
        BarcodeKind::Code39 => SymbolFormat::Code39,
        BarcodeKind::Ean13 => SymbolFormat::Ean13,
        BarcodeKind::Interleaved2of5 => SymbolFormat::Itf,
        BarcodeKind::Pdf417 => SymbolFormat::Pdf417,
        BarcodeKind::Aztec => SymbolFormat::Aztec,
        BarcodeKind::DataMatrix => SymbolFormat::DataMatrix,
        BarcodeKind::Qr => SymbolFormat::Qr,
    }
}

fn format_of(k: BarcodeKind) -> (f: SymbolFormat)
    ensures
        f == standalone_format(k),
{
    match k {
        BarcodeKind::Code128 => SymbolFormat::Code128,
        BarcodeKind::Code39 => SymbolFormat::Code39,
        BarcodeKind::Ean13 => SymbolFormat::Ean13,
        BarcodeKind::Interleaved2of5 => SymbolFormat::Itf,
        BarcodeKind::Pdf417 => SymbolFormat::Pdf417,
        BarcodeKind::Aztec => SymbolFormat::Aztec,
        BarcodeKind::DataMatrix => SymbolFormat::DataMatrix,
        BarcodeKind::Qr => SymbolFormat::Qr,
    }
}

/// The encoder options of a standalone barcode: only the quiet zone.
pub open spec fn quiet_zone_options(quiet_zone: u32) -> EncodeOptionsView {
    EncodeOptionsOf {
        margin: Some(decimal_digits(quiet_zone as nat)),
        force_code_set: None,
        error_correction: None,
        force_square: false,
        pdf417_compaction: None,
        pdf417_dimensions: None,
    }
}

/// What the barcode writer encodes the data of a standalone barcode into.
pub open spec fn standalone_matrix(data: Seq<char>, kind: BarcodeKind, quiet_zone: u32) -> Option<(u32, u32, Seq<Seq<bool>>)> {
    encoded_matrix(data, spec_format_name(standalone_format(kind)), quiet_zone_options(quiet_zone))
}

/// Encodes the data of a standalone barcode with its quiet zone.
fn encode_standalone(data: &str, kind: BarcodeKind, quiet_zone: u32) -> (r: Result<(u32, u32, Vec<Vec<bool>>), String>)
    requires
        quiet_zone <= 64,
        data@.len() <= 4096,
    ensures
        match r {
            Ok(m) => standalone_matrix(data@, kind, quiet_zone) == Some((m.0, m.1, m.2@.map_values(|row: Vec<bool>| row@)))
                && m.2@.len() == m.1 && forall|y: int| 0 <= y < m.2@.len() ==> #[trigger] m.2@[y]@.len() == m.0,
            Err(_) => standalone_matrix(data@, kind, quiet_zone) is None,
        },
{
    let options = EncodeOptions {
        margin: Some(string_of(decimal_chars(quiet_zone as u64).as_slice())),
        force_code_set: None,
        error_correction: None,
        force_square: false,
        pdf417_compaction: None,
        pdf417_dimensions: None,
    };
    proof {
        assert(options@ == quiet_zone_options(quiet_zone));
        crate::text::lemma_decimal_digits_short(quiet_zone as nat);
    }
    encode_symbol(data, format_name(format_of(kind)), options)
}

/// Largest accepted data, in bytes.
pub const MAX_DATA_BYTES: usize = 4096;

/// Largest SVG output, in bytes.
pub const MAX_SVG_BYTES: usize = 8388608;

pub open spec fn input_invalid() -> Seq<char> {
    "BARCODE_INPUT_INVALID"@
}

pub open spec fn output_limit() -> Seq<char> {
    "BARCODE_OUTPUT_LIMIT"@
}

/// A module size of 1 to 32 dots and a quiet zone of at most 64 modules.
pub open spec fn layout_ok(module_size: u32, quiet_zone: u32) -> bool {
    1 <= module_size <= 32 && quiet_zone <= 64
}

/// Checks the module size and quiet zone.
pub fn validate_layout(module_size: u32, quiet_zone: u32) -> (r: Result<(), ZplError>)
    ensures
        r is Ok <==> layout_ok(module_size, quiet_zone),
        r matches Err(e) ==> e matches ZplError::BackendError(m) && m@ == input_invalid(),
{
    if !(1 <= module_size && module_size <= 32) || quiet_zone > 64 {
        return Err(ZplError::BackendError("BARCODE_INPUT_INVALID".to_owned()));
    }
    Ok(())
}

/// `modules * module_size`, or the output-limit error when it overflows.
pub fn checked_dimension(modules: u32, module_size: u32) -> (r: Result<u32, ZplError>)
    ensures
        match r {
            Ok(v) => modules * module_size <= u32::MAX && v == modules * module_size,
            Err(e) => modules * module_size > u32::MAX && (e matches ZplError::BackendError(m) && m@
                == output_limit()),
        },
{
    match modules.checked_mul(module_size) {
        Some(v) => Ok(v),
        None => Err(ZplError::BackendError("BARCODE_OUTPUT_LIMIT".to_owned())),
    }
}

} // verus!

verus! {

/// The first position at or after `j` whose module is light, or the end.
pub open spec fn dark_end(row: Seq<bool>, j: int) -> int
    decreases row.len() - j,
{
    if j < 0 || j >= row.len() || !row[j] {
        j
    } else {
        dark_end(row, j + 1)
    }
}

pub proof fn lemma_dark_end_bounds(row: Seq<bool>, j: int)
    requires
        0 <= j <= row.len(),
    ensures
        j <= dark_end(row, j) <= row.len(),
        forall|k: int| j <= k < dark_end(row, j) ==> #[trigger] row[k],
    decreases row.len() - j,
{
    if j < row.len() && row[j] {
        lemma_dark_end_bounds(row, j + 1);
    }
}

/// The SVG path of the dark runs of row `y` from module `x` on: one
/// rectangle per run, `M{x} {y}h{width}v{size}H{x}z` in dots.
pub open spec fn row_path(row: Seq<bool>, x: int, y: nat, ms: nat) -> Seq<char>
    decreases row.len() - x,
{
    if x < 0 || x >= row.len() {
        Seq::empty()
    } else if !row[x] {
        row_path(row, x + 1, y, ms)
    } else {
        let e = dark_end(row, x);
        if e <= x || e > row.len() {
            Seq::empty()
        } else {
            "M"@ + decimal_digits((x * ms) as nat) + " "@ + decimal_digits(y * ms) + "h"@
                + decimal_digits(((e - x) * ms) as nat) + "v"@ + decimal_digits(ms) + "H"@
                + decimal_digits((x * ms) as nat) + "z"@ + row_path(row, e, y, ms)
        }
    }
}

/// The SVG path of the first `rows` rows of `m`.
pub open spec fn svg_path(m: Seq<Seq<bool>>, rows: nat, ms: nat) -> Seq<char>
    decreases rows,
{
    if rows == 0 || rows > m.len() {
        Seq::empty()
    } else {
        svg_path(m, (rows - 1) as nat, ms) + row_path(m[rows - 1], 0, (rows - 1) as nat, ms)
    }
}

/// The SVG path of the rectangle at (`x`, `y`), `w` wide and `h` high:
/// move to the corner, across, down, back, close.
pub open spec fn rect_path(x: nat, y: nat, w: nat, h: nat) -> Seq<char> {
    "M"@ + decimal_digits(x) + " "@ + decimal_digits(y) + "h"@ + decimal_digits(w) + "v"@
        + decimal_digits(h) + "H"@ + decimal_digits(x) + "z"@
}

/// The SVG path of module runs `(row, first module, length)`: each run as
/// the rectangle of its modules, every module a square of `ms` dots, so a
/// run covers dots `[x*ms, (x+k)*ms)` across and `[y*ms, (y+1)*ms)` down.
pub open spec fn runs_path(runs: Seq<(int, int, int)>, ms: nat) -> Seq<char>
    decreases runs.len(),
{
    if runs.len() == 0 {
        Seq::empty()
    } else {
        let r = runs[0];
        rect_path((r.1 * ms) as nat, (r.0 * ms) as nat, (r.2 * ms) as nat, ms) + runs_path(
            runs.drop_first(),
            ms,
        )
    }
}

/// The maximal runs of dark modules of row `y` from module `x` on.
pub open spec fn row_runs(row: Seq<bool>, x: int, y: int) -> Seq<(int, int, int)>
    decreases row.len() - x,
{
    if x < 0 || x >= row.len() {
        Seq::empty()
    } else if !row[x] {
        row_runs(row, x + 1, y)
    } else {
        let e = dark_end(row, x);
        if e <= x || e > row.len() {
            Seq::empty()
        } else {
            seq![(y, x, e - x)] + row_runs(row, e, y)
        }
    }
}

/// The maximal runs of dark modules of the first `rows` rows, row by row.
pub open spec fn matrix_runs(m: Seq<Seq<bool>>, rows: nat) -> Seq<(int, int, int)>
    decreases rows,
{
    if rows == 0 || rows > m.len() {
        Seq::empty()
    } else {
        matrix_runs(m, (rows - 1) as nat) + row_runs(m[rows - 1], 0, rows - 1)
    }
}

/// Run `r` covers module (`x`, `y`).
pub open spec fn run_covers(r: (int, int, int), x: int, y: int) -> bool {
    r.0 == y && r.1 <= x < r.1 + r.2
}

pub proof fn lemma_runs_path_concat(a: Seq<(int, int, int)>, b: Seq<(int, int, int)>, ms: nat)
    ensures
        runs_path(a + b, ms) == runs_path(a, ms) + runs_path(b, ms),
    decreases a.len(),
{
    if a.len() == 0 {
        assert(a + b =~= b);
        assert(runs_path(a, ms) + runs_path(b, ms) =~= runs_path(b, ms));
    } else {
        lemma_runs_path_concat(a.drop_first(), b, ms);
        assert((a + b).drop_first() =~= a.drop_first() + b);
        assert((a + b)[0] == a[0]);
    }
}

pub proof fn lemma_row_path_is_runs(row: Seq<bool>, x: int, y: nat, ms: nat)
    ensures
        row_path(row, x, y, ms) == runs_path(row_runs(row, x, y as int), ms),
    decreases row.len() - x,
{
    if 0 <= x < row.len() {
        if !row[x] {
            lemma_row_path_is_runs(row, x + 1, y, ms);
        } else {
            let e = dark_end(row, x);
            lemma_dark_end_bounds(row, x);
            if e > x && e <= row.len() {
                lemma_row_path_is_runs(row, e, y, ms);
                let rr = row_runs(row, x, y as int);
                assert(rr[0] == (y as int, x, e - x));
                assert(rr.drop_first() =~= row_runs(row, e, y as int));
                assert(((e - x) * ms) as nat == ((e - x) * ms) as nat);
            }
        }
    }
}

/// The runs of a row are dark, ordered, disjoint and cover every dark
/// module from `x` on.
pub proof fn lemma_row_runs_cover(row: Seq<bool>, x: int, y: int)
    requires
        0 <= x,
    ensures
        forall|i: int|
            0 <= i < row_runs(row, x, y).len() ==> {
                let r = #[trigger] row_runs(row, x, y)[i];
                &&& r.0 == y
                &&& x <= r.1
                &&& r.2 >= 1
                &&& r.1 + r.2 <= row.len()
                &&& forall|j: int| r.1 <= j < r.1 + r.2 ==> #[trigger] row[j]
            },
        forall|i: int, i2: int|
            0 <= i < i2 < row_runs(row, x, y).len() ==> #[trigger] row_runs(row, x, y)[i].1
                + row_runs(row, x, y)[i].2 <= #[trigger] row_runs(row, x, y)[i2].1,
        forall|j: int|
            x <= j < row.len() && #[trigger] row[j] ==> exists|i: int|
                0 <= i < row_runs(row, x, y).len() && run_covers(
                    #[trigger] row_runs(row, x, y)[i],
                    j,
                    y,
                ),
    decreases row.len() - x,
{
    if x < row.len() {
        if !row[x] {
            lemma_row_runs_cover(row, x + 1, y);
            let rr = row_runs(row, x, y);
            assert forall|j: int| x <= j < row.len() && #[trigger] row[j] implies exists|i: int|
                0 <= i < rr.len() && run_covers(#[trigger] rr[i], j, y) by {
                assert(j != x);
            }
        } else {
            let e = dark_end(row, x);
            lemma_dark_end_bounds(row, x);
            assert(e > x) by {
                assert(dark_end(row, x) == dark_end(row, x + 1));
                lemma_dark_end_bounds(row, x + 1);
            }
            lemma_row_runs_cover(row, e, y);
            let rest = row_runs(row, e, y);
            let rr = row_runs(row, x, y);
            assert(rr == seq![(y, x, e - x)] + rest);
            assert forall|i: int| 0 <= i < rr.len() implies {
                let r = #[trigger] rr[i];
                &&& r.0 == y
                &&& x <= r.1
                &&& r.2 >= 1
                &&& r.1 + r.2 <= row.len()
                &&& forall|j: int| r.1 <= j < r.1 + r.2 ==> #[trigger] row[j]
            } by {
                if i > 0 {
                    assert(rr[i] == rest[i - 1]);
                }
            }
            assert forall|i: int, i2: int| 0 <= i < i2 < rr.len() implies #[trigger] rr[i].1 + rr[i].2
                <= #[trigger] rr[i2].1 by {
                assert(rr[i2] == rest[i2 - 1]);
                if i > 0 {
                    assert(rr[i] == rest[i - 1]);
                }
            }
            assert forall|j: int| x <= j < row.len() && #[trigger] row[j] implies exists|i: int|
                0 <= i < rr.len() && run_covers(#[trigger] rr[i], j, y) by {
                if j < e {
                    assert(run_covers(rr[0], j, y));
                } else {
                    let i = choose|i: int| 0 <= i < rest.len() && run_covers(#[trigger] rest[i], j, y);
                    assert(rr[i + 1] == rest[i]);
                }
            }
        }
    }
}

/// Standalone SVG: the path draws the encoded matrix exactly. It is the
/// path of a list of runs of modules (`runs_path`: module (x, y) as the
/// square `[x*ms, (x+1)*ms) x [y*ms, (y+1)*ms)` of dots) such that every run
/// lies in one row and holds only dark modules, no two runs overlap, and
/// every dark module lies in a run: the dark modules, and only they, are
/// drawn, each at its place.
pub proof fn law_svg_path_draws_dark_modules(m: Seq<Seq<bool>>, rows: nat, ms: nat)
    requires
        rows <= m.len(),
    ensures
        svg_path(m, rows, ms) == runs_path(matrix_runs(m, rows), ms),
        forall|i: int|
            0 <= i < matrix_runs(m, rows).len() ==> {
                let r = #[trigger] matrix_runs(m, rows)[i];
                &&& 0 <= r.0 < rows
                &&& 0 <= r.1
                &&& r.2 >= 1
                &&& r.1 + r.2 <= m[r.0].len()
                &&& forall|j: int| r.1 <= j < r.1 + r.2 ==> #[trigger] m[r.0][j]
            },
        forall|i: int, i2: int|
            0 <= i < i2 < matrix_runs(m, rows).len() ==> (#[trigger] matrix_runs(m, rows)[i]).0
                < (#[trigger] matrix_runs(m, rows)[i2]).0 || (matrix_runs(m, rows)[i].0 == matrix_runs(
                m,
                rows,
            )[i2].0 && matrix_runs(m, rows)[i].1 + matrix_runs(m, rows)[i].2 <= matrix_runs(
                m,
                rows,
            )[i2].1),
        forall|x: int, y: int|
            0 <= y < rows && 0 <= x < m[y].len() && #[trigger] m[y][x] ==> exists|i: int|
                0 <= i < matrix_runs(m, rows).len() && run_covers(
                    #[trigger] matrix_runs(m, rows)[i],
                    x,
                    y,
                ),
    decreases rows,
{
    if rows > 0 {
        let k = (rows - 1) as nat;
        law_svg_path_draws_dark_modules(m, k, ms);
        let a = matrix_runs(m, k);
        let y = k as int;
        let b = row_runs(m[y], 0, y);
        let all = matrix_runs(m, rows);
        assert(all == a + b);
        lemma_row_path_is_runs(m[y], 0, k, ms);
        lemma_runs_path_concat(a, b, ms);
        lemma_row_runs_cover(m[y], 0, y);
        assert forall|i: int| 0 <= i < all.len() implies {
            let r = #[trigger] all[i];
            &&& 0 <= r.0 < rows
            &&& 0 <= r.1
            &&& r.2 >= 1
            &&& r.1 + r.2 <= m[r.0].len()
            &&& forall|j: int| r.1 <= j < r.1 + r.2 ==> #[trigger] m[r.0][j]
        } by {
            if i < a.len() {
                assert(all[i] == a[i]);
            } else {
                assert(all[i] == b[i - a.len()]);
            }
        }
        assert forall|i: int, i2: int| 0 <= i < i2 < all.len() implies (#[trigger] all[i]).0 < (
        #[trigger] all[i2]).0 || (all[i].0 == all[i2].0 && all[i].1 + all[i].2 <= all[i2].1) by {
            if i2 < a.len() {
                assert(all[i] == a[i] && all[i2] == a[i2]);
            } else if i < a.len() {
                assert(all[i] == a[i] && all[i2] == b[i2 - a.len()]);
                assert(a[i].0 < rows - 1);
            } else {
                assert(all[i] == b[i - a.len()] && all[i2] == b[i2 - a.len()]);
            }
        }
        assert forall|x: int, yy: int|
            0 <= yy < rows && 0 <= x < m[yy].len() && #[trigger] m[yy][x] implies exists|i: int|
            0 <= i < all.len() && run_covers(#[trigger] all[i], x, yy) by {
            if yy < k {
                let i = choose|i: int| 0 <= i < a.len() && run_covers(#[trigger] a[i], x, yy);
                assert(all[i] == a[i]);
            } else {
                let i = choose|i: int| 0 <= i < b.len() && run_covers(#[trigger] b[i], x, yy);
                assert(all[i + a.len()] == b[i]);
            }
        }
    } else {
        assert(matrix_runs(m, 0) =~= Seq::<(int, int, int)>::empty());
    }
}

/// The SVG document of a `w` by `h` dot symbol with path `path` on white.
pub open spec fn svg_document(w: nat, h: nat, path: Seq<char>) -> Seq<char> {
    "<svg xmlns=\"http://www.w3.org/2000/svg\" width=\""@ + decimal_digits(w) + "\" height=\""@
        + decimal_digits(h) + "\" viewBox=\"0 0 "@ + decimal_digits(w) + " "@ + decimal_digits(h)
        + "\" shape-rendering=\"crispEdges\"><rect width=\"100%\" height=\"100%\" fill=\"white\"/><path d=\""@
        + path + "\" fill=\"black\"/></svg>"@
}

/// The data is acceptable: not empty, at most 4096 bytes, and of a known
/// symbology.
pub open spec fn input_ok(kind: Seq<char>, data: Seq<char>) -> bool {
    data.len() > 0 && crate::text::utf8_len(data) <= 4096 && spec_module_type(kind) is Some
}

fn push_num(v: &mut Vec<char>, n: u64)
    ensures
        final(v)@ == old(v)@ + decimal_digits(n as nat),
{
    let d = decimal_chars(n);
    append_all(v, d.as_slice());
}

fn push_text(v: &mut Vec<char>, s: &str)
    ensures
        final(v)@ == old(v)@ + s@,
{
    crate::text::push_str(v, s);
}

/// Appends the path of one row.
fn push_row_path(path: &mut Vec<char>, row: &Vec<bool>, w: u32, y: u32, ms: u32)
    requires
        row@.len() == w,
        w * ms <= u32::MAX,
        y * ms <= u32::MAX,
    ensures
        final(path)@ == old(path)@ + row_path(row@, 0, y as nat, ms as nat),
{
    let ghost p0 = path@;
    let mut x: u32 = 0;
    while x < w
        invariant
            x <= w,
            row@.len() == w,
            w * ms <= u32::MAX,
            y * ms <= u32::MAX,
            p0 + row_path(row@, 0, y as nat, ms as nat) == path@ + row_path(row@, x as int, y as nat, ms as nat),
        decreases w - x,
    {
        if !row[x as usize] {
            x = x + 1;
        } else {
            let start = x;
            proof {
                lemma_dark_end_bounds(row@, start as int);
            }
            while x < w && row[x as usize]
                invariant
                    start <= x <= w,
                    row@.len() == w,
                    dark_end(row@, start as int) == dark_end(row@, x as int),
                decreases w - x,
            {
                x = x + 1;
            }
            proof {
                assert(start * ms <= w * ms) by (nonlinear_arith)
                    requires
                        start <= w,
                ;
                assert((x - start) * ms <= w * ms) by (nonlinear_arith)
                    requires
                        x - start <= w,
                ;
                assert(ms <= w * ms || w == 0) by (nonlinear_arith)
                    requires
                        w >= 1 || w == 0,
                ;
            }
            let ghost before = path@;
            push_text(path, "M");
            push_num(path, (start * ms) as u64);
            push_text(path, " ");
            push_num(path, (y * ms) as u64);
            push_text(path, "h");
            push_num(path, ((x - start) * ms) as u64);
            push_text(path, "v");
            push_num(path, ms as u64);
            push_text(path, "H");
            push_num(path, (start * ms) as u64);
            push_text(path, "z");
            proof {
                let seg = "M"@ + decimal_digits((start * ms) as nat) + " "@ + decimal_digits((y * ms) as nat)
                    + "h"@ + decimal_digits(((x - start) * ms) as nat) + "v"@ + decimal_digits(ms as nat)
                    + "H"@ + decimal_digits((start * ms) as nat) + "z"@;
                assert(path@ =~= before + seg);
                assert(row_path(row@, start as int, y as nat, ms as nat) == seg + row_path(
                    row@,
                    x as int,
                    y as nat,
                    ms as nat,
                ));
                assert(before + (seg + row_path(row@, x as int, y as nat, ms as nat)) =~= path@
                    + row_path(row@, x as int, y as nat, ms as nat));
            }
        }
    }
    proof {
        assert(path@ + row_path(row@, x as int, y as nat, ms as nat) =~= path@);
    }
}

/// Draws a barcode as an SVG document: each dark run of modules as a
/// rectangle of `module_size` dots, on a white background.
///
/// Fails with `BARCODE_INPUT_INVALID` for a module size outside 1..=32, a
/// quiet zone above 64, empty data, data above 4096 bytes or an unknown
/// symbology; with the encoder's error when it refuses the data; and with
/// `BARCODE_OUTPUT_LIMIT` when the symbol or the document is too large.
pub fn render_svg(kind: &str, data: &str, module_size: u32, quiet_zone: u32) -> (r: Result<String, ZplError>)
    ensures
        !layout_ok(module_size, quiet_zone) ==> (r matches Err(ZplError::BackendError(m)) && m@
            == input_invalid()),
        layout_ok(module_size, quiet_zone) && !input_ok(kind@, data@) ==> (r matches Err(
            ZplError::BackendError(m),
        ) && m@ == input_invalid()),
        layout_ok(module_size, quiet_zone) && input_ok(kind@, data@) ==> match standalone_matrix(data@, spec_module_type(kind@)->0, quiet_zone) {
            None => r matches Err(ZplError::BackendError(m)) && generation_error(m@),
            Some(mx) => if mx.0 * module_size > u32::MAX || mx.1 * module_size > u32::MAX {
                r matches Err(ZplError::BackendError(m)) && m@ == output_limit()
            } else {
                let doc = svg_document(
                    (mx.0 * module_size) as nat,
                    (mx.1 * module_size) as nat,
                    svg_path(mx.2, mx.1 as nat, module_size as nat),
                );
                if doc.len() > MAX_SVG_BYTES {
                    r matches Err(ZplError::BackendError(m)) && m@ == output_limit()
                } else {
                    r matches Ok(s) && s@ == doc
                }
            },
        },
{
    match validate_layout(module_size, quiet_zone) {
        Ok(()) => {},
        Err(e) => {
            return Err(e);
        },
    }
    let dc = chars_of(data);
    let small = crate::text::utf8_len_below(dc.as_slice(), 4097);
    let k = module_type(kind);
    if dc.len() == 0 || small.is_none() || k.is_none() {
        return Err(ZplError::BackendError("BARCODE_INPUT_INVALID".to_owned()));
    }
    let kind_v = match k {
        Some(v) => v,
        None => BarcodeKind::Qr,
    };
    proof {
        crate::text::lemma_utf8_len_at_least(data@);
    }
    let (w, h, m) = match encode_standalone(data, kind_v, quiet_zone) {
        Ok(t) => t,
        Err(e) => {
            return Err(ZplError::BackendError(generation_error_message(e.as_str())));
        },
    };
    matrix_svg(w, h, &m, module_size)
}

/// The SVG document of an encoded symbol of `w` by `h` modules: each dark
/// run of a row as a rectangle of `module_size` dots, on white; fails with
/// `BARCODE_OUTPUT_LIMIT` when a side or the document is too large.
pub fn matrix_svg(w: u32, h: u32, m: &Vec<Vec<bool>>, module_size: u32) -> (r: Result<String, ZplError>)
    requires
        m@.len() == h,
        forall|y: int| 0 <= y < m@.len() ==> #[trigger] m@[y]@.len() == w,
    ensures
        if w * module_size > u32::MAX || h * module_size > u32::MAX {
            r matches Err(ZplError::BackendError(e)) && e@ == output_limit()
        } else {
            let doc = svg_document(
                (w * module_size) as nat,
                (h * module_size) as nat,
                svg_path(m@.map_values(|row: Vec<bool>| row@), h as nat, module_size as nat),
            );
            if doc.len() > MAX_SVG_BYTES {
                r matches Err(ZplError::BackendError(e)) && e@ == output_limit()
            } else {
                r matches Ok(s) && s@ == doc
            }
        },
{
    let width = match checked_dimension(w, module_size) {
        Ok(v) => v,
        Err(e) => {
            return Err(e);
        },
    };
    let height = match checked_dimension(h, module_size) {
        Ok(v) => v,
        Err(e) => {
            return Err(e);
        },
    };
    let ghost mv = m@.map_values(|row: Vec<bool>| row@);
    let mut path: Vec<char> = Vec::new();
    let mut y: u32 = 0;
    while y < h
        invariant
            y <= h,
            m@.len() == h,
            forall|yy: int| 0 <= yy < m@.len() ==> #[trigger] m@[yy]@.len() == w,
            mv == m@.map_values(|row: Vec<bool>| row@),
            w * module_size <= u32::MAX,
            h * module_size <= u32::MAX,
            path@ == svg_path(mv, y as nat, module_size as nat),
        decreases h - y,
    {
        proof {
            assert(y * module_size <= h * module_size) by (nonlinear_arith)
                requires
                    y <= h,
            ;
        }
        push_row_path(&mut path, &m[y as usize], w, y, module_size);
        proof {
            assert(mv[y as int] == m@[y as int]@);
        }
        y = y + 1;
    }
    let mut doc: Vec<char> = Vec::new();
    push_text(&mut doc, "<svg xmlns=\"http://www.w3.org/2000/svg\" width=\"");
    push_num(&mut doc, width as u64);
    push_text(&mut doc, "\" height=\"");
    push_num(&mut doc, height as u64);
    push_text(&mut doc, "\" viewBox=\"0 0 ");
    push_num(&mut doc, width as u64);
    push_text(&mut doc, " ");
    push_num(&mut doc, height as u64);
    push_text(
        &mut doc,
        "\" shape-rendering=\"crispEdges\"><rect width=\"100%\" height=\"100%\" fill=\"white\"/><path d=\"",
    );
    append_all(&mut doc, path.as_slice());
    push_text(&mut doc, "\" fill=\"black\"/></svg>");
    proof {
        assert(doc@ =~= svg_document(width as nat, height as nat, svg_path(mv, h as nat, module_size as nat)));
    }
    if doc.len() > MAX_SVG_BYTES {
        return Err(ZplError::BackendError("BARCODE_OUTPUT_LIMIT".to_owned()));
    }
    Ok(string_of(doc.as_slice()))
}

} // verus!

verus! {

/// Largest PNG output, in pixels.
pub const MAX_PIXELS: u64 = 16000000;

/// The grey level of pixel (`px`, `py`) of a symbol drawn with modules of
/// `ms` dots: black for a dark module, white otherwise.
pub open spec fn luma_pixel(m: Seq<Seq<bool>>, ms: nat, px: int, py: int) -> u8 {
    if m[py / (ms as int)][px / (ms as int)] {
        0
    } else {
        255
    }
}

/// The first `rows` pixel rows, `width` pixels each, one after another.
pub open spec fn luma_raster(m: Seq<Seq<bool>>, width: nat, rows: nat, ms: nat) -> Seq<u8>
    decreases rows,
{
    if rows == 0 {
        Seq::empty()
    } else {
        luma_raster(m, width, (rows - 1) as nat, ms) + Seq::new(
            width,
            |px: int| luma_pixel(m, ms, px, rows - 1),
        )
    }
}

pub proof fn lemma_luma_raster_len(m: Seq<Seq<bool>>, width: nat, rows: nat, ms: nat)
    ensures
        luma_raster(m, width, rows, ms).len() == rows * width,
    decreases rows,
{
    if rows > 0 {
        let r1 = (rows - 1) as nat;
        lemma_luma_raster_len(m, width, r1, ms);
        assert(r1 * width + width == (r1 + 1) * width) by (nonlinear_arith);
        assert(r1 + 1 == rows);
        let row = Seq::new(width, |px: int| luma_pixel(m, ms, px, rows - 1));
        assert(row.len() == width);
        assert(luma_raster(m, width, rows, ms) == luma_raster(m, width, r1, ms) + row);
    } else {
        assert(rows * width == 0) by (nonlinear_arith)
            requires
                rows == 0,
        ;
    }
}

/// What the image encoder writes for a `width` by `height` 8-bit grey image
/// with `pixels` row by row; `None` when it fails.
pub uninterp spec fn png_luma8(width: u32, height: u32, pixels: Seq<u8>) -> Option<Seq<u8>>;

/// Encodes a grey image as PNG with `image::DynamicImage::write_to`
/// (`ImageFormat::Png`), from an `ImageBuffer` made by `from_raw`. The
/// contract claims that the bytes depend on the size and the pixels alone;
/// the text of an encoder error is not stated.
#[verifier::external_body]
fn encode_png(width: u32, height: u32, pixels: Vec<u8>) -> (r: Result<Vec<u8>, String>)
    requires
        pixels@.len() == width * height,
    ensures
        match r {
            Ok(b) => png_luma8(width, height, pixels@) == Some(b@),
            Err(_) => png_luma8(width, height, pixels@) is None,
        },
{
    let buffer = image::GrayImage::from_raw(width, height, pixels).ok_or(String::from("PNG Encoding Error"))?;
    let mut out = std::io::Cursor::new(Vec::new());
    let written = image::DynamicImage::ImageLuma8(buffer).write_to(&mut out, image::ImageFormat::Png);
    written.map_err(|e| format!("PNG Encoding Error: {e}"))?;
    Ok(out.into_inner())
}

/// Draws a barcode as a PNG image: each dark module as a black square of
/// `module_size` pixels, on white.
///
/// Fails as `render_svg` does on the input, and with `BARCODE_OUTPUT_LIMIT`
/// when the image would exceed 16,000,000 pixels.
pub fn render_png(kind: &str, data: &str, module_size: u32, quiet_zone: u32) -> (r: Result<Vec<u8>, ZplError>)
    ensures
        !layout_ok(module_size, quiet_zone) ==> (r matches Err(ZplError::BackendError(m)) && m@
            == input_invalid()),
        layout_ok(module_size, quiet_zone) && !input_ok(kind@, data@) ==> (r matches Err(
            ZplError::BackendError(m),
        ) && m@ == input_invalid()),
        layout_ok(module_size, quiet_zone) && input_ok(kind@, data@) ==> match standalone_matrix(data@, spec_module_type(kind@)->0, quiet_zone) {
            None => r matches Err(ZplError::BackendError(m)) && generation_error(m@),
            Some(mx) => if mx.0 * module_size > u32::MAX || mx.1 * module_size > u32::MAX
                || (mx.0 * module_size) * (mx.1 * module_size) > MAX_PIXELS {
                r matches Err(ZplError::BackendError(m)) && m@ == output_limit()
            } else {
                match png_luma8(
                    (mx.0 * module_size) as u32,
                    (mx.1 * module_size) as u32,
                    luma_raster(mx.2, (mx.0 * module_size) as nat, (mx.1 * module_size) as nat, module_size as nat),
                ) {
                    Some(bytes) => r matches Ok(v) && v@ == bytes,
                    None => r matches Err(ZplError::BackendError(_)),
                }
            },
        },
{
    match validate_layout(module_size, quiet_zone) {
        Ok(()) => {},
        Err(e) => {
            return Err(e);
        },
    }
    let dc = chars_of(data);
    let small = crate::text::utf8_len_below(dc.as_slice(), 4097);
    let k = module_type(kind);
    if dc.len() == 0 || small.is_none() || k.is_none() {
        return Err(ZplError::BackendError("BARCODE_INPUT_INVALID".to_owned()));
    }
    let kind_v = match k {
        Some(v) => v,
        None => BarcodeKind::Qr,
    };
    proof {
        crate::text::lemma_utf8_len_at_least(data@);
    }
    let (w, h, m) = match encode_standalone(data, kind_v, quiet_zone) {
        Ok(t) => t,
        Err(e) => {
            return Err(ZplError::BackendError(generation_error_message(e.as_str())));
        },
    };
    matrix_png(w, h, &m, module_size)
}

/// The PNG image of an encoded symbol of `w` by `h` modules: each dark
/// module as a black square of `module_size` pixels, on white; fails with
/// `BARCODE_OUTPUT_LIMIT` when a side or the image is too large, and with
/// the image encoder's error.
pub fn matrix_png(w: u32, h: u32, m: &Vec<Vec<bool>>, module_size: u32) -> (r: Result<Vec<u8>, ZplError>)
    requires
        1 <= module_size,
        m@.len() == h,
        forall|y: int| 0 <= y < m@.len() ==> #[trigger] m@[y]@.len() == w,
    ensures
        if w * module_size > u32::MAX || h * module_size > u32::MAX || (w * module_size) * (h
            * module_size) > MAX_PIXELS {
            r matches Err(ZplError::BackendError(e)) && e@ == output_limit()
        } else {
            match png_luma8(
                (w * module_size) as u32,
                (h * module_size) as u32,
                luma_raster(
                    m@.map_values(|row: Vec<bool>| row@),
                    (w * module_size) as nat,
                    (h * module_size) as nat,
                    module_size as nat,
                ),
            ) {
                Some(bytes) => r matches Ok(v) && v@ == bytes,
                None => r matches Err(ZplError::BackendError(_)),
            }
        },
{
    let width = match checked_dimension(w, module_size) {
        Ok(v) => v,
        Err(e) => {
            return Err(e);
        },
    };
    let height = match checked_dimension(h, module_size) {
        Ok(v) => v,
        Err(e) => {
            return Err(e);
        },
    };
    proof {
        assert((width as u64) * (height as u64) <= u64::MAX) by (nonlinear_arith)
            requires
                width <= u32::MAX,
                height <= u32::MAX,
        ;
    }
    if (width as u64) * (height as u64) > MAX_PIXELS {
        return Err(ZplError::BackendError("BARCODE_OUTPUT_LIMIT".to_owned()));
    }
    let ghost mv = m@.map_values(|row: Vec<bool>| row@);
    let ghost msn = module_size as nat;
    let mut pixels: Vec<u8> = Vec::new();
    let mut py: u32 = 0;
    while py < height
        invariant
            py <= height,
            1 <= module_size,
            height == h * module_size,
            width == w * module_size,
            (width as u64) * (height as u64) <= MAX_PIXELS,
            m@.len() == h,
            forall|yy: int| 0 <= yy < m@.len() ==> #[trigger] m@[yy]@.len() == w,
            mv == m@.map_values(|row: Vec<bool>| row@),
            msn == module_size,
            pixels@ == luma_raster(mv, width as nat, py as nat, msn),
        decreases height - py,
    {
        let my: u32 = py / module_size;
        proof {
            assert(my < h) by (nonlinear_arith)
                requires
                    py < h * module_size,
                    my == py / module_size,
                    module_size >= 1,
            ;
            lemma_luma_raster_len(mv, width as nat, py as nat, msn);
        }
        let row = &m[my as usize];
        let ghost before = pixels@;
        let mut px: u32 = 0;
        while px < width
            invariant
                px <= width,
                1 <= module_size,
                width == w * module_size,
                row@.len() == w,
                mv[my as int] == row@,
                my == py / module_size,
                msn == module_size,
                pixels@ == before + Seq::new(px as nat, |x: int| luma_pixel(mv, msn, x, py as int)),
            decreases width - px,
        {
            let mx: u32 = px / module_size;
            proof {
                assert(mx < w) by (nonlinear_arith)
                    requires
                        px < w * module_size,
                        mx == px / module_size,
                        module_size >= 1,
                ;
            }
            let v: u8 = if row[mx as usize] {
                0
            } else {
                255
            };
            pixels.push(v);
            proof {
                assert(luma_pixel(mv, msn, px as int, py as int) == v);
                assert(pixels@ =~= before + Seq::new((px + 1) as nat, |x: int| luma_pixel(mv, msn, x, py as int)));
            }
            px = px + 1;
        }
        proof {
            assert(mv[my as int] == m@[my as int]@);
        }
        py = py + 1;
    }
    proof {
        lemma_luma_raster_len(mv, width as nat, height as nat, msn);
    }
    match encode_png(width, height, pixels) {
        Ok(b) => Ok(b),
        Err(e) => Err(ZplError::BackendError(e)),
    }
}

} // verus!
