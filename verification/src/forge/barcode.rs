//! Encoding the symbologies the barcode library writes: the symbology by
//! its name, the encoder options, and the rows of modules that come back.

use vstd::prelude::*;
use rxing::datamatrix::encoder::SymbolShapeHint;
use rxing::pdf417::encoder::Dimensions;
use rxing::{EncodeHints, MultiFormatWriter, Writer};
use crate::ast::commons::Barcode1DKind;
use crate::error::ZplError;
use crate::text::{chars_of, is_digit, push_str, string_of};
use crate::ast::parser::char_decimal;

verus! {

/// The symbologies the barcode library encodes.
#[derive(Debug, Clone, Copy, PartialEq, Eq, Structural)]
pub enum SymbolFormat {
    Code128,
    Code39,
    Code93,
    Codabar,
    Ean13,
    Ean8,
    UpcA,
    UpcE,
    Itf,
    Pdf417,
    Aztec,
    DataMatrix,
    Qr,
}

/// The name the barcode library knows a symbology by.
pub open spec fn spec_format_name(f: SymbolFormat) -> Seq<char> {
    match f {
        SymbolFormat::Code128 => "code_128"@,
        SymbolFormat::Code39 => "code_39"@,
        SymbolFormat::Code93 => "code_93"@,
        SymbolFormat::Codabar => "codabar"@,
        SymbolFormat::Ean13 => "ean_13"@,
        SymbolFormat::Ean8 => "ean_8"@,
        SymbolFormat::UpcA => "upc_a"@,
        SymbolFormat::UpcE => "upc_e"@,
        SymbolFormat::Itf => "itf"@,
        SymbolFormat::Pdf417 => "pdf_417"@,
        SymbolFormat::Aztec => "aztec"@,
        SymbolFormat::DataMatrix => "data_matrix"@,
        SymbolFormat::Qr => "qr_code"@,
    }
}

/// The name the barcode library knows a symbology by.
pub fn format_name(f: SymbolFormat) -> (s: &'static str)
    ensures
        s@ == spec_format_name(f),
{
    match f {
        SymbolFormat::Code128 => "code_128",
        SymbolFormat::Code39 => "code_39",
        SymbolFormat::Code93 => "code_93",
        SymbolFormat::Codabar => "codabar",
        SymbolFormat::Ean13 => "ean_13",
        SymbolFormat::Ean8 => "ean_8",
        SymbolFormat::UpcA => "upc_a",
        SymbolFormat::UpcE => "upc_e",
        SymbolFormat::Itf => "itf",
        SymbolFormat::Pdf417 => "pdf_417",
        SymbolFormat::Aztec => "aztec",
        SymbolFormat::DataMatrix => "data_matrix",
        SymbolFormat::Qr => "qr_code",
    }
}

/// The symbology the barcode library draws a generic 1-D field in (Code
/// 128 for the kinds it has no writer for).
pub fn barcode_1d_format(kind: Barcode1DKind) -> (f: SymbolFormat)
    ensures
        f == match kind {
            Barcode1DKind::Ean13 => SymbolFormat::Ean13,
            Barcode1DKind::Ean8 => SymbolFormat::Ean8,
            Barcode1DKind::UpcA => SymbolFormat::UpcA,
            Barcode1DKind::UpcE => SymbolFormat::UpcE,
            Barcode1DKind::Interleaved2of5 => SymbolFormat::Itf,
            Barcode1DKind::Code93 => SymbolFormat::Code93,
            Barcode1DKind::Codabar => SymbolFormat::Codabar,
            _ => SymbolFormat::Code128,
        },
{
    match kind {
        Barcode1DKind::Ean13 => SymbolFormat::Ean13,
        Barcode1DKind::Ean8 => SymbolFormat::Ean8,
        Barcode1DKind::UpcA => SymbolFormat::UpcA,
        Barcode1DKind::UpcE => SymbolFormat::UpcE,
        Barcode1DKind::Interleaved2of5 => SymbolFormat::Itf,
        Barcode1DKind::Code93 => SymbolFormat::Code93,
        Barcode1DKind::Codabar => SymbolFormat::Codabar,
        _ => SymbolFormat::Code128,
    }
}

/// The symbologies the writer draws with two element widths only (Code 39,
/// Interleaved 2 of 5, Codabar): their wide elements follow the `^BY`
/// ratio rather than the writer's fixed one.
pub fn is_two_width(f: SymbolFormat) -> (b: bool)
    ensures
        b == (f == SymbolFormat::Code39 || f == SymbolFormat::Itf || f == SymbolFormat::Codabar),
{
    match f {
        SymbolFormat::Code39 | SymbolFormat::Itf | SymbolFormat::Codabar => true,
        _ => false,
    }
}

/// Encoder options: the quiet zone in modules, a forced Code 128 subset,
/// the error-correction level, square Data Matrix symbols, the PDF417
/// compaction and its column and row bounds.
pub struct EncodeOptionsOf<S> {
    pub margin: Option<S>,
    pub force_code_set: Option<S>,
    pub error_correction: Option<S>,
    pub force_square: bool,
    pub pdf417_compaction: Option<S>,
    pub pdf417_dimensions: Option<(usize, usize, usize, usize)>,
}

pub type EncodeOptions = EncodeOptionsOf<String>;

pub type EncodeOptionsView = EncodeOptionsOf<Seq<char>>;

pub open spec fn opt_view(o: Option<String>) -> Option<Seq<char>> {
    match o {
        Some(s) => Some(s@),
        None => None,
    }
}

impl View for EncodeOptionsOf<String> {
    type V = EncodeOptionsView;

    open spec fn view(&self) -> EncodeOptionsView {
        EncodeOptionsOf {
            margin: opt_view(self.margin),
            force_code_set: opt_view(self.force_code_set),
            error_correction: opt_view(self.error_correction),
            force_square: self.force_square,
            pdf417_compaction: opt_view(self.pdf417_compaction),
            pdf417_dimensions: self.pdf417_dimensions,
        }
    }
}

/// What the barcode writer encodes `data` into, in the symbology named
/// `format` with the options: the width and height in modules and the rows;
/// `None` when it refuses the data.
pub uninterp spec fn encoded_matrix(data: Seq<char>, format: Seq<char>, options: EncodeOptionsView) -> Option<
    (u32, u32, Seq<Seq<bool>>),
>;

/// `s` is a run of one to `max` ASCII digits.
pub open spec fn is_short_decimal(s: Seq<char>, max: nat) -> bool {
    &&& 1 <= s.len() <= max
    &&& forall|i: int| 0 <= i < s.len() ==> is_digit(#[trigger] s[i])
}

/// The symbology name may denote Aztec: the writer's names for it
/// (`aztec`, `aztec code`, `aztec_code`, in any letter case) all hold a `z`.
pub open spec fn may_name_aztec(format: Seq<char>) -> bool {
    exists|i: int| 0 <= i < format.len() && (#[trigger] format[i] == 'z' || format[i] == 'Z')
}

/// The writer's input stays where it neither overflows nor divides by zero:
/// a margin of at most four decimal digits (the one-dimensional writers
/// unwrap the parsed margin and the two-dimensional ones double it); PDF417
/// size constraints within the symbology's ranges, 1 to 30 columns and 3 to
/// 90 rows (a zero column count divides by zero); and for Aztec at most
/// 65536 characters, far more than a symbol holds, and an error-correction
/// percentage from 0 to 100 in decimal digits (the writer multiplies the
/// percentage by the bit count in `u32`).
pub open spec fn writer_input_ok(data: Seq<char>, format: Seq<char>, o: EncodeOptionsView) -> bool {
    &&& (o.margin matches Some(m) ==> is_short_decimal(m, 4))
    &&& (o.pdf417_dimensions matches Some(d) ==> 1 <= d.0 <= d.1 <= 30 && 3 <= d.2 <= d.3 <= 90)
    &&& (may_name_aztec(format) ==> data.len() <= 65536 && (o.error_correction matches Some(e)
        ==> is_short_decimal(e, 3) && char_decimal(e) <= 100))
}

/// The value of a run of one to `max` ASCII digits, or `None` when `s` is
/// not such a run.
fn short_decimal(s: &str, max: usize) -> (r: Option<u32>)
    requires
        max <= 4,
    ensures
        r is Some <==> is_short_decimal(s@, max as nat),
        r matches Some(v) ==> v == char_decimal(s@),
{
    let c = chars_of(s);
    if c.len() == 0 || c.len() > max {
        return None;
    }
    let mut v: u32 = 0;
    let mut i: usize = 0;
    proof {
        assert(c@.take(0) =~= Seq::<char>::empty());
    }
    while i < c.len()
        invariant
            i <= c@.len(),
            c@.len() <= 4,
            c@ == s@,
            v == char_decimal(c@.take(i as int)),
            v < 10000,
            i == 0 ==> v == 0,
            i <= 1 ==> v < 10,
            i <= 2 ==> v < 100,
            i <= 3 ==> v < 1000,
            forall|k: int| 0 <= k < i ==> is_digit(#[trigger] c@[k]),
        decreases c@.len() - i,
    {
        let ch = c[i];
        if !('0' <= ch && ch <= '9') {
            return None;
        }
        proof {
            assert(c@.take(i + 1).drop_last() =~= c@.take(i as int));
            assert(c@.take(i + 1).last() == ch);
        }
        v = v * 10 + ((ch as u32) - 48);
        i = i + 1;
    }
    proof {
        assert(c@.take(i as int) =~= c@);
    }
    Some(v)
}

/// Whether the writer's input is within `writer_input_ok`.
fn writer_input_check(data: &str, format: &str, o: &EncodeOptions) -> (b: bool)
    ensures
        b == writer_input_ok(data@, format@, o@),
{
    match &o.margin {
        Some(m) => {
            if short_decimal(m.as_str(), 4).is_none() {
                return false;
            }
        },
        None => {},
    }
    match o.pdf417_dimensions {
        Some(d) => {
            if !(1 <= d.0 && d.0 <= d.1 && d.1 <= 30 && 3 <= d.2 && d.2 <= d.3 && d.3 <= 90) {
                return false;
            }
        },
        None => {},
    }
    let name = chars_of(format);
    let mut aztec = false;
    let mut i: usize = 0;
    while i < name.len()
        invariant
            i <= name@.len(),
            name@ == format@,
            aztec <==> exists|k: int| 0 <= k < i && (#[trigger] name@[k] == 'z' || name@[k] == 'Z'),
        decreases name@.len() - i,
    {
        if name[i] == 'z' || name[i] == 'Z' {
            aztec = true;
        }
        i = i + 1;
    }
    if !aztec {
        return true;
    }
    if chars_of(data).len() > 65536 {
        return false;
    }
    match &o.error_correction {
        Some(e) => match short_decimal(e.as_str(), 3) {
            Some(v) => v <= 100,
            None => false,
        },
        None => true,
    }
}

/// Encodes with `rxing::MultiFormatWriter::encode_with_hints` (no requested
/// size), the symbology given by its name (`BarcodeFormat::from`) and the
/// options as `EncodeHints`, and reads the bit matrix row by row. The input
/// is kept within `writer_input_ok`, outside of which the writer can panic.
/// The contract claims that the result depends on the data, the name and the
/// options alone, and that the rows have the matrix's width; the text of an
/// encoder error is not stated.
#[verifier::external_body]
pub(crate) fn encode_symbol(data: &str, format: &str, o: EncodeOptions) -> (r: Result<(u32, u32, Vec<Vec<bool>>), String>)
    requires
        writer_input_ok(data@, format@, o@),
    ensures
        match r {
            Ok(m) => encoded_matrix(data@, format@, o@) == Some((m.0, m.1, m.2@.map_values(|row: Vec<bool>| row@)))
                && m.2@.len() == m.1 && forall|y: int| 0 <= y < m.2@.len() ==> #[trigger] m.2@[y]@.len() == m.0,
            Err(_) => encoded_matrix(data@, format@, o@) is None,
        },
{
    let hints = EncodeHints {
        Margin: o.margin,
        ForceCodeSet: o.force_code_set,
        ErrorCorrection: o.error_correction,
        DataMatrixShape: o.force_square.then_some(SymbolShapeHint::FORCE_SQUARE),
        Pdf417Compaction: o.pdf417_compaction,
        Pdf417Dimensions: o.pdf417_dimensions.map(|(a, b, c, d)| Dimensions::new(a, b, c, d)),
        ..Default::default()
    };
    let m = MultiFormatWriter.encode_with_hints(data, &format.into(), 0, 0, &hints).map_err(|e| e.to_string())?;
    Ok((m.width(), m.height(), (0..m.height()).map(|y| (0..m.width()).map(|x| m.get(x, y)).collect()).collect()))
}

/// The options with a quiet zone of 0 modules when they give none: a field
/// origin addresses the first bar, not the start of the quiet zone.
pub open spec fn with_default_margin(o: EncodeOptionsView) -> EncodeOptionsView {
    EncodeOptionsOf {
        margin: match o.margin {
            Some(m) => Some(m),
            None => Some("0"@),
        },
        ..o
    }
}

/// The options without a forced Code 128 subset.
pub open spec fn without_code_set(o: EncodeOptionsView) -> EncodeOptionsView {
    EncodeOptionsOf { force_code_set: None, ..o }
}

pub open spec fn generation_error(e: Seq<char>) -> bool {
    exists|t: Seq<char>| e == "Barcode Generation Error: "@ + t
}

/// The rows of a matrix, as sequences.
pub open spec fn rows_view(rows: Seq<Vec<bool>>) -> Seq<Seq<bool>> {
    rows.map_values(|row: Vec<bool>| row@)
}

/// What `encode_barcode` gives for a matrix the writer encoded.
pub open spec fn matrix_result(r: Result<(u32, u32, Vec<Vec<bool>>), ZplError>, m: (u32, u32, Seq<Seq<bool>>)) -> bool {
    r matches Ok(v) && (v.0, v.1, rows_view(v.2@)) == m
}

pub open spec fn generation_failure(r: Result<(u32, u32, Vec<Vec<bool>>), ZplError>) -> bool {
    r matches Err(ZplError::BackendError(e)) && generation_error(e@)
}

fn copy_text(o: &Option<String>) -> (r: Option<String>)
    ensures
        opt_view(r) == opt_view(*o),
{
    match o {
        Some(s) => Some(string_of(crate::text::chars_of(s.as_str()).as_slice())),
        None => None,
    }
}

/// The message of an encoder error.
pub(crate) fn generation_error_message(e: &str) -> (m: String)
    ensures
        m@ == "Barcode Generation Error: "@ + e@,
        generation_error(m@),
{
    let mut v: Vec<char> = Vec::new();
    push_str(&mut v, "Barcode Generation Error: ");
    push_str(&mut v, e);
    string_of(v.as_slice())
}

fn generation_failed(e: String) -> (r: Result<(u32, u32, Vec<Vec<bool>>), ZplError>)
    ensures
        generation_failure(r),
{
    Err(ZplError::BackendError(generation_error_message(e.as_str())))
}

/// Encodes `data` in a symbology, with no quiet zone unless the options
/// give one. When a forced Code 128 subset cannot represent the data, the
/// writer is asked again without it. Fails with a `Barcode Generation
/// Error` when the writer refuses the data, and without asking it when the
/// input is outside `writer_input_ok`.
pub fn encode_barcode(format: SymbolFormat, data: &str, options: &EncodeOptions) -> (r: Result<(u32, u32, Vec<Vec<bool>>), ZplError>)
    ensures
        !writer_input_ok(data@, spec_format_name(format), with_default_margin(options@))
            ==> generation_failure(r),
        writer_input_ok(data@, spec_format_name(format), with_default_margin(options@)) ==> ({
            let eff = with_default_margin(options@);
            let name = spec_format_name(format);
            match encoded_matrix(data@, name, eff) {
                Some(m) => matrix_result(r, m),
                None => if eff.force_code_set is Some {
                    match encoded_matrix(data@, name, without_code_set(eff)) {
                        Some(m) => matrix_result(r, m),
                        None => generation_failure(r),
                    }
                } else {
                    generation_failure(r)
                },
            }
        }),
        r matches Ok(v) ==> v.2@.len() == v.1 && forall|y: int| 0 <= y < v.2@.len() ==> #[trigger] v.2@[y]@.len() == v.0,
{
    let margin = match &options.margin {
        Some(m) => Some(string_of(crate::text::chars_of(m.as_str()).as_slice())),
        None => Some("0".to_owned()),
    };
    let eff = EncodeOptions {
        margin,
        force_code_set: copy_text(&options.force_code_set),
        error_correction: copy_text(&options.error_correction),
        force_square: options.force_square,
        pdf417_compaction: copy_text(&options.pdf417_compaction),
        pdf417_dimensions: options.pdf417_dimensions,
    };
    proof {
        reveal_strlit("0");
        assert(eff@ == with_default_margin(options@));
    }
    let name = format_name(format);
    if !writer_input_check(data, name, &eff) {
        return generation_failed("writer options out of range".to_owned());
    }
    let forced = eff.force_code_set.is_some();
    let relaxed = EncodeOptions {
        margin: copy_text(&eff.margin),
        force_code_set: None,
        error_correction: copy_text(&eff.error_correction),
        force_square: eff.force_square,
        pdf417_compaction: copy_text(&eff.pdf417_compaction),
        pdf417_dimensions: eff.pdf417_dimensions,
    };
    proof {
        assert(relaxed@ == without_code_set(eff@));
    }
    match encode_symbol(data, name, eff) {
        Ok(m) => Ok(m),
        Err(e) => {
            if !forced {
                return generation_failed(e);
            }
            match encode_symbol(data, name, relaxed) {
                Ok(m) => Ok(m),
                Err(e2) => generation_failed(e2),
            }
        },
    }
}

} // verus!
