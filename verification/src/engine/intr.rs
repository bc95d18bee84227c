//! The instruction builder: a state machine over the commands of a label
//! that emits one drawing instruction per field.

use vstd::prelude::*;
use crate::ast::cmd::{Command, CommandOf, CommandView};
use crate::ast::commons::{justification_letter, Barcode1DKind, Justification};
use crate::error::ZplError;
use crate::text::{hex_upper_digit, hex_value, is_hex_digit, is_hex_digit_char, string_of};
use crate::tools::{spec_zpl_decode, zpl_decode};
use super::common::{InstructionView, TextBlock, ZplInstruction, ZplInstructionOf};
use super::state::{
    initial_state, StateView, ZplInstructionAttributesOf, ZplInstructionFontOf,
    ZplInstructionMetrics, ZplInstructionParamsOf, ZplInstructionPosition, ZplInstructionState,
    ZplInstructionStateOf, ZplInstructionType, ZplInstructionTypeset,
};

verus! {

// ---------------------------------------------------------------------------
// Hexadecimal escapes
// ---------------------------------------------------------------------------

/// `d[i..]` with every escape `<indicator>XX` (two hexadecimal digits)
/// replaced by the character of code XX; an indicator not followed by two
/// hexadecimal digits stays, with the one digit it may be followed by.
pub open spec fn unescape_from(d: Seq<char>, ind: char, i: int) -> Seq<char>
    decreases d.len() - i,
{
    if i < 0 || i >= d.len() {
        Seq::empty()
    } else if d[i] != ind {
        seq![d[i]] + unescape_from(d, ind, i + 1)
    } else if i + 1 < d.len() && is_hex_digit(d[i + 1]) {
        if i + 2 < d.len() && is_hex_digit(d[i + 2]) {
            seq![((hex_value(d[i + 1]) * 16 + hex_value(d[i + 2])) as u32) as char] + unescape_from(
                d,
                ind,
                i + 3,
            )
        } else {
            seq![ind, d[i + 1]] + unescape_from(d, ind, i + 2)
        }
    } else {
        seq![ind] + unescape_from(d, ind, i + 1)
    }
}

pub open spec fn spec_unescape_hex(d: Seq<char>, ind: char) -> Seq<char> {
    unescape_from(d, ind, 0)
}

/// `s` with every character written as its escape: the indicator and the
/// two upper-case hexadecimal digits of its code (`format!("{:02X}")`).
pub open spec fn escape_hex(s: Seq<char>, ind: char) -> Seq<char>
    decreases s.len(),
{
    if s.len() == 0 {
        Seq::empty()
    } else {
        seq![ind, hex_upper_digit(((s[0] as u32) / 16) as nat), hex_upper_digit(((s[0] as u32) % 16) as nat)]
            + escape_hex(s.drop_first(), ind)
    }
}

proof fn lemma_hex_digit_round_trip(x: nat)
    requires
        x < 16,
    ensures
        is_hex_digit(hex_upper_digit(x)),
        hex_value(hex_upper_digit(x)) == x,
{
}

/// Unescaping past a prefix does not look at the prefix.
proof fn lemma_unescape_shift(p: Seq<char>, r: Seq<char>, ind: char, j: int)
    requires
        0 <= j <= r.len(),
    ensures
        unescape_from(p + r, ind, p.len() + j) == unescape_from(r, ind, j),
    decreases r.len() - j,
{
    let d = p + r;
    let i = p.len() + j;
    if j < r.len() {
        assert(d[i] == r[j]);
        if j + 1 < r.len() {
            assert(d[i + 1] == r[j + 1]);
        }
        if j + 2 < r.len() {
            assert(d[i + 2] == r[j + 2]);
        }
        lemma_unescape_shift(p, r, ind, j + 1);
        if j + 2 <= r.len() {
            lemma_unescape_shift(p, r, ind, j + 2);
        }
        if j + 3 <= r.len() {
            lemma_unescape_shift(p, r, ind, j + 3);
        }
    }
}

/// Hexadecimal escapes: unescaping the escapes of text whose characters
/// all have codes up to 0xFF gives the text back.
pub proof fn law_unescape_hex_round_trip(s: Seq<char>, ind: char)
    requires
        forall|i: int| 0 <= i < s.len() ==> (#[trigger] s[i] as u32) <= 0xFF,
    ensures
        spec_unescape_hex(escape_hex(s, ind), ind) == s,
    decreases s.len(),
{
    if s.len() > 0 {
        let c = s[0];
        let rest = s.drop_first();
        assert forall|i: int| 0 <= i < rest.len() implies (#[trigger] rest[i] as u32) <= 0xFF by {
            assert(rest[i] == s[i + 1]);
        }
        law_unescape_hex_round_trip(rest, ind);
        let cu = c as u32;
        assert(cu <= 0xFF);
        let hi = (cu / 16) as nat;
        let lo = (cu % 16) as nat;
        assert(hi < 16);
        assert(hi * 16 + lo == cu);
        lemma_hex_digit_round_trip(hi);
        lemma_hex_digit_round_trip(lo);
        let head = seq![ind, hex_upper_digit(hi), hex_upper_digit(lo)];
        let e = head + escape_hex(rest, ind);
        assert(e == escape_hex(s, ind));
        assert(e[0] == ind && e[1] == hex_upper_digit(hi) && e[2] == hex_upper_digit(lo));
        lemma_unescape_shift(head, escape_hex(rest, ind), ind, 0);
        assert(((hi * 16 + lo) as u32) == cu);
        vstd::utf8::char_u32_cast(c, cu);
        assert((cu as char) == c);
        assert(unescape_from(e, ind, 0) =~= seq![c] + unescape_from(e, ind, 3));
        assert(seq![c] + rest =~= s);
    } else {
        assert(escape_hex(s, ind) =~= Seq::<char>::empty());
        assert(spec_unescape_hex(Seq::<char>::empty(), ind) =~= Seq::<char>::empty());
    }
}

/// Hexadecimal escapes: data without the indicator is left as it is.
pub proof fn law_unescape_hex_without_indicator(d: Seq<char>, ind: char)
    requires
        forall|i: int| 0 <= i < d.len() ==> #[trigger] d[i] != ind,
    ensures
        spec_unescape_hex(d, ind) == d,
{
    lemma_unescape_plain(d, ind, 0);
    assert(d.subrange(0, d.len() as int) =~= d);
}

proof fn lemma_unescape_plain(d: Seq<char>, ind: char, i: int)
    requires
        0 <= i <= d.len(),
        forall|k: int| 0 <= k < d.len() ==> #[trigger] d[k] != ind,
    ensures
        unescape_from(d, ind, i) == d.subrange(i, d.len() as int),
    decreases d.len() - i,
{
    if i < d.len() {
        lemma_unescape_plain(d, ind, i + 1);
        assert(seq![d[i]] + d.subrange(i + 1, d.len() as int) =~= d.subrange(i, d.len() as int));
    } else {
        assert(d.subrange(i, d.len() as int) =~= Seq::<char>::empty());
    }
}

fn hex_digit_value(c: char) -> (v: u32)
    requires
        is_hex_digit(c),
    ensures
        v == hex_value(c),
        v < 16,
{
    if '0' <= c && c <= '9' {
        (c as u32) - 48
    } else if 'a' <= c && c <= 'f' {
        (c as u32) - 87
    } else {
        (c as u32) - 55
    }
}

/// Decodes the hexadecimal escapes `<indicator>XX` of field data.
pub fn unescape_hex(data: &str, indicator: char) -> (r: String)
    ensures
        r@ == spec_unescape_hex(data@, indicator),
{
    let d = crate::text::chars_of(data);
    let mut out: Vec<char> = Vec::new();
    let mut i: usize = 0;
    while i < d.len()
        invariant
            i <= d@.len(),
            d@ == data@,
            spec_unescape_hex(d@, indicator) == out@ + unescape_from(d@, indicator, i as int),
        decreases d@.len() - i,
    {
        let ch = d[i];
        if ch != indicator {
            out.push(ch);
            proof {
                assert(out@.drop_last() + (seq![ch] + unescape_from(d@, indicator, i + 1)) =~= out@
                    + unescape_from(d@, indicator, i + 1));
            }
            i = i + 1;
        } else if i + 1 < d.len() && is_hex_digit_char(d[i + 1]) {
            if i + 2 < d.len() && is_hex_digit_char(d[i + 2]) {
                let v = hex_digit_value(d[i + 1]) * 16 + hex_digit_value(d[i + 2]);
                let c = (v as u8) as char;
                proof {
                    assert(c == ((hex_value(d@[i + 1]) * 16 + hex_value(d@[i + 2])) as u32) as char);
                }
                out.push(c);
                proof {
                    assert(out@.drop_last() + (seq![c] + unescape_from(d@, indicator, i + 3)) =~= out@
                        + unescape_from(d@, indicator, i + 3));
                }
                i = i + 3;
            } else {
                let c1 = d[i + 1];
                out.push(indicator);
                out.push(c1);
                proof {
                    assert(out@.drop_last().drop_last() + (seq![indicator, c1] + unescape_from(
                        d@,
                        indicator,
                        i + 2,
                    )) =~= out@ + unescape_from(d@, indicator, i + 2));
                }
                i = i + 2;
            }
        } else {
            out.push(indicator);
            proof {
                assert(out@.drop_last() + (seq![indicator] + unescape_from(d@, indicator, i + 1))
                    =~= out@ + unescape_from(d@, indicator, i + 1));
            }
            i = i + 1;
        }
    }
    proof {
        assert(out@ + unescape_from(d@, indicator, i as int) =~= out@);
    }
    string_of(out.as_slice())
}

// ---------------------------------------------------------------------------
// The builder's state machine
// ---------------------------------------------------------------------------

/// Where the builder stands: its state, whether a format has started, the
/// instructions so far, whether it stopped reading (at graphic data it
/// cannot decode), and the error that ended it, if any.
pub struct BuildRun {
    pub state: StateView,
    pub seen: bool,
    pub out: Seq<InstructionView>,
    pub stopped: bool,
    pub error: Option<BuildFault>,
}

/// Why a build fails.
pub enum BuildFault {
    /// A command asks for what the engine cannot build (`InstructionError`).
    Unsupported(Seq<char>),
    /// Graphic data expands beyond the size limit (`SecurityLimitExceeded`).
    TooLarge(Seq<char>),
}

pub open spec fn graphic_limit_error() -> Seq<char> {
    "GRAPHIC_FIELD_LIMIT: graphic data expands beyond the size limit"@
}

pub open spec fn sat_mul8(b: u32) -> u32 {
    if b * 8 > u32::MAX {
        u32::MAX
    } else {
        (b * 8) as u32
    }
}

/// The state after a decoded `^GF`: its size from the bytes per row and
/// the total byte count, its bitmap, and the graphic-field type.
pub open spec fn graphic_field_state(
    st: StateView,
    bytes_per_row: Option<u32>,
    graphic_field_count: Option<u32>,
    bytes: Seq<u8>,
) -> StateView {
    let m = match bytes_per_row {
        Some(b) => ZplInstructionMetrics {
            width: sat_mul8(b),
            height: match graphic_field_count {
                Some(t) => if b > 0 {
                    t / b
                } else {
                    st.metrics.height
                },
                None => st.metrics.height,
            },
            ..st.metrics
        },
        None => st.metrics,
    };
    ZplInstructionStateOf {
        metrics: m,
        graphic_data: Some(bytes),
        instruction_type: Some(ZplInstructionType::GraphicField),
        ..st
    }
}

pub open spec fn sat_sub(a: u32, b: u32) -> u32 {
    if a >= b {
        (a - b) as u32
    } else {
        0
    }
}

/// The field position: the `^FT` baseline moved up by the font height (30
/// when unset), or the `^FO` origin.
pub open spec fn field_xy(st: StateView) -> (u32, u32) {
    if st.is_typeset {
        (
            st.typeset.x,
            sat_sub(
                st.typeset.y,
                match st.font.height {
                    Some(h) => h,
                    None => 30,
                },
            ),
        )
    } else {
        (st.position.x, st.position.y)
    }
}

/// The module width: the `^BY` width, or 2 when unset.
pub open spec fn module_width_of(st: StateView) -> u32 {
    if st.barcode_metrics.thickness > 0 {
        st.barcode_metrics.thickness
    } else {
        2
    }
}

/// The wide-to-narrow ratio: the `^BY` ratio, or 3 when unset.
pub open spec fn ratio_of(st: StateView) -> Seq<char> {
    match st.params.ratio {
        Some(r) => r,
        None => "3"@,
    }
}

/// A barcode height: the command's, else the `^BY` height, else `dflt`.
pub open spec fn bar_height(st: StateView, h: Option<u32>, dflt: u32) -> u32 {
    match h {
        Some(v) => v,
        None => if st.barcode_metrics.height > 0 {
            st.barcode_metrics.height
        } else {
            dflt
        },
    }
}

pub open spec fn or_char(o: Option<char>, d: char) -> char {
    match o {
        Some(c) => c,
        None => d,
    }
}

pub open spec fn or_u32(o: Option<u32>, d: u32) -> u32 {
    match o {
        Some(c) => c,
        None => d,
    }
}

/// The text instruction of a field.
pub open spec fn text_instruction(st: StateView, data: Seq<char>) -> InstructionView {
    let (x, y) = field_xy(st);
    ZplInstructionOf::Text {
        x,
        y,
        font: st.font.font_name,
        height: st.font.height,
        width: st.font.width,
        orientation: or_char(st.font.orientation, 'N'),
        text: data,
        reverse_print: st.reverse,
        color: st.font.color,
        block: st.field_block,
        condition: st.condition,
    }
}

/// The instruction a field separator emits in state `st`, if any.
#[verifier::opaque]
pub open spec fn emitted(st: StateView) -> Option<InstructionView> {
    let (x, y) = field_xy(st);
    let data = match st.value {
        Some(v) => v,
        None => Seq::empty(),
    };
    let reverse_print = st.reverse;
    let condition = st.condition;
    let a = st.attributes;
    let m = st.metrics;
    match st.instruction_type {
        Some(t) => match t {
            ZplInstructionType::GraphicBox => Some(
                ZplInstructionOf::GraphicBox {
                    x,
                    y,
                    width: m.width,
                    height: m.height,
                    thickness: m.thickness,
                    color: or_char(a.line_color, 'B'),
                    custom_color: a.custom_line_color,
                    rounding: st.params.rounding,
                    reverse_print,
                    condition,
                },
            ),
            ZplInstructionType::GraphicCircle => Some(
                ZplInstructionOf::GraphicCircle {
                    x,
                    y,
                    radius: m.width / 2,
                    thickness: m.thickness,
                    color: or_char(a.line_color, 'B'),
                    custom_color: a.custom_line_color,
                    reverse_print,
                    condition,
                },
            ),
            ZplInstructionType::GraphicEllipse => Some(
                ZplInstructionOf::GraphicEllipse {
                    x,
                    y,
                    width: m.width,
                    height: m.height,
                    thickness: m.thickness,
                    color: or_char(a.line_color, 'B'),
                    custom_color: a.custom_line_color,
                    reverse_print,
                    condition,
                },
            ),
            ZplInstructionType::GraphicField => match st.graphic_data {
                Some(g) => Some(
                    ZplInstructionOf::GraphicField {
                        x,
                        y,
                        width: m.width,
                        height: m.height,
                        data: g,
                        reverse_print,
                        condition,
                    },
                ),
                None => None,
            },
            ZplInstructionType::CustomImage => Some(
                ZplInstructionOf::CustomImage {
                    x,
                    y,
                    width: m.width,
                    height: m.height,
                    data,
                    condition,
                },
            ),
            ZplInstructionType::Code128 => Some(
                ZplInstructionOf::Code128 {
                    x,
                    y,
                    orientation: or_char(a.orientation, 'N'),
                    height: m.height,
                    module_width: module_width_of(st),
                    interpretation_line: or_char(a.interpretation_line, 'Y'),
                    interpretation_line_above: or_char(a.interpretation_above, 'N'),
                    check_digit: or_char(a.check_digit, 'N'),
                    mode: or_char(a.mode, 'N'),
                    data,
                    reverse_print,
                    condition,
                },
            ),
            ZplInstructionType::Code39 => Some(
                ZplInstructionOf::Code39 {
                    x,
                    y,
                    orientation: or_char(a.orientation, 'N'),
                    check_digit: or_char(a.check_digit, 'N'),
                    height: m.height,
                    module_width: module_width_of(st),
                    ratio: ratio_of(st),
                    interpretation_line: or_char(a.interpretation_line, 'Y'),
                    interpretation_line_above: or_char(a.interpretation_above, 'N'),
                    data,
                    reverse_print,
                    condition,
                },
            ),
            ZplInstructionType::Barcode1D(kind) => Some(
                ZplInstructionOf::Barcode1D {
                    kind,
                    x,
                    y,
                    orientation: or_char(a.orientation, 'N'),
                    height: m.height,
                    module_width: module_width_of(st),
                    ratio: ratio_of(st),
                    check_digit: or_char(a.check_digit, 'B'),
                    interpretation_line: or_char(a.interpretation_line, 'Y'),
                    interpretation_line_above: or_char(a.interpretation_above, 'N'),
                    data,
                    reverse_print,
                    condition,
                },
            ),
            ZplInstructionType::GraphicDiagonal => Some(
                ZplInstructionOf::GraphicDiagonal {
                    x,
                    y,
                    width: m.width,
                    height: m.height,
                    thickness: m.thickness,
                    color: or_char(a.line_color, 'B'),
                    custom_color: a.custom_line_color,
                    diagonal_orientation: or_char(a.mode, 'R'),
                    reverse_print,
                    condition,
                },
            ),
            ZplInstructionType::DataMatrix => Some(
                ZplInstructionOf::DataMatrix {
                    x,
                    y,
                    orientation: or_char(a.orientation, 'N'),
                    module_size: m.thickness,
                    data,
                    reverse_print,
                    condition,
                },
            ),
            ZplInstructionType::MaxiCode => Some(
                ZplInstructionOf::MaxiCode {
                    x,
                    y,
                    mode: st.params.model,
                    data,
                    reverse_print,
                    condition,
                },
            ),
            ZplInstructionType::Pdf417 => Some(
                ZplInstructionOf::Pdf417 {
                    x,
                    y,
                    orientation: or_char(a.orientation, 'N'),
                    row_height: m.height,
                    module_width: module_width_of(st),
                    security_level: st.params.model,
                    data,
                    reverse_print,
                    condition,
                },
            ),
            ZplInstructionType::QRCode => Some(
                ZplInstructionOf::QRCode {
                    x,
                    y,
                    orientation: or_char(a.orientation, 'N'),
                    model: st.params.model,
                    magnification: m.thickness,
                    error_correction: or_char(a.error_correction, 'M'),
                    mask: st.params.mask,
                    data,
                    reverse_print,
                    condition,
                },
            ),
            ZplInstructionType::MicroPdf417 => Some(
                ZplInstructionOf::MicroPdf417 {
                    x,
                    y,
                    orientation: or_char(a.orientation, 'N'),
                    height: m.height,
                    mode: st.params.model,
                    data,
                    reverse_print,
                    condition,
                },
            ),
            ZplInstructionType::AztecCode => Some(
                ZplInstructionOf::AztecCode {
                    x,
                    y,
                    orientation: or_char(a.orientation, 'N'),
                    magnification: m.thickness,
                    data,
                    reverse_print,
                    condition,
                },
            ),
            ZplInstructionType::Text => Some(text_instruction(st, data)),
        },
        None => if data.len() > 0 {
            Some(text_instruction(st, data))
        } else {
            None
        },
    }
}

/// The state after a field separator: the field's content, condition,
/// type, reversal and block are cleared (and its graphic data, for a
/// graphic field).
#[verifier::opaque]
pub open spec fn after_field(st: StateView) -> StateView {
    ZplInstructionStateOf {
        value: None,
        condition: None,
        graphic_data: if st.instruction_type == Some(ZplInstructionType::GraphicField) {
            None
        } else {
            st.graphic_data
        },
        instruction_type: None,
        reverse: false,
        field_block: None,
        ..st
    }
}

pub open spec fn with_orientation(st: StateView, o: Option<char>) -> StateView {
    ZplInstructionStateOf { attributes: ZplInstructionAttributesOf { orientation: o, ..st.attributes }, ..st }
}

pub open spec fn with_metrics(st: StateView, m: ZplInstructionMetrics) -> StateView {
    ZplInstructionStateOf { metrics: m, ..st }
}

pub open spec fn with_type(st: StateView, t: ZplInstructionType) -> StateView {
    ZplInstructionStateOf { instruction_type: Some(t), ..st }
}

/// The state after a command that only sets modal state.
#[verifier::opaque]
pub open spec fn modal_step(st: StateView, c: CommandView) -> StateView {
    let m = st.metrics;
    let a = st.attributes;
    match c {
        CommandOf::FieldOrigin { x, y } => ZplInstructionStateOf {
            position: ZplInstructionPosition {
                x: or_u32(x, st.position.x),
                y: or_u32(y, st.position.y),
            },
            is_typeset: false,
            ..st
        },
        CommandOf::FieldTypeset { x, y } => ZplInstructionStateOf {
            typeset: ZplInstructionTypeset {
                x: or_u32(x, st.typeset.x),
                y: or_u32(y, st.typeset.y),
            },
            is_typeset: true,
            ..st
        },
        CommandOf::FieldReverse => ZplInstructionStateOf { reverse: !st.reverse, ..st },
        CommandOf::FieldHexEscape { indicator } => ZplInstructionStateOf {
            hex_escape: indicator,
            ..st
        },
        CommandOf::ChangeIntFont { charset } => match charset {
            Some(cs) => ZplInstructionStateOf { charset: cs, ..st },
            None => st,
        },
        CommandOf::FontSpec { font_name, height, width } => ZplInstructionStateOf {
            font: ZplInstructionFontOf {
                font_name,
                height: match height {
                    Some(h) => Some(h),
                    None => st.font.height,
                },
                width: match width {
                    Some(w) => Some(w),
                    None => st.font.width,
                },
                ..st.font
            },
            ..st
        },
        CommandOf::FontSpecFull { font_name, orientation, height, width } => ZplInstructionStateOf {
            font: ZplInstructionFontOf {
                font_name,
                orientation: match orientation {
                    Some(o) => Some(o),
                    None => st.font.orientation,
                },
                height: match height {
                    Some(h) => Some(h),
                    None => st.font.height,
                },
                width: match width {
                    Some(w) => Some(w),
                    None => st.font.width,
                },
                ..st.font
            },
            ..st
        },
        CommandOf::FieldData { data } => ZplInstructionStateOf {
            value: Some(
                match st.hex_escape {
                    Some(ind) => spec_unescape_hex(data, ind),
                    None => data,
                },
            ),
            ..st
        },
        CommandOf::FieldBlock { width, max_lines, line_spacing, justification, indent } => {
            ZplInstructionStateOf {
                field_block: Some(
                    TextBlock {
                        width: or_u32(width, 0),
                        max_lines: or_u32(max_lines, 1),
                        line_spacing: or_u32(line_spacing, 0) as i32,
                        justification: match justification {
                            Some(j) => justification_letter(j),
                            None => 'L',
                        },
                        indent: or_u32(indent, 0),
                    },
                ),
                ..st
            }
        },
        CommandOf::GraphicBox { width, height, border_thickness, line_color, corner_rounding } => {
            ZplInstructionStateOf {
                metrics: ZplInstructionMetrics {
                    width,
                    height,
                    thickness: or_u32(border_thickness, 1),
                },
                attributes: ZplInstructionAttributesOf { line_color, ..a },
                params: ZplInstructionParamsOf { rounding: or_u32(corner_rounding, 0), ..st.params },
                instruction_type: Some(ZplInstructionType::GraphicBox),
                ..st
            }
        },
        CommandOf::GraphicCircle { diameter, border_thickness, line_color } => {
            ZplInstructionStateOf {
                metrics: ZplInstructionMetrics {
                    width: or_u32(diameter, 0),
                    thickness: or_u32(border_thickness, 1),
                    ..m
                },
                attributes: ZplInstructionAttributesOf { line_color, ..a },
                instruction_type: Some(ZplInstructionType::GraphicCircle),
                ..st
            }
        },
        CommandOf::GraphicEllipse { width, height, border_thickness, line_color } => {
            ZplInstructionStateOf {
                metrics: ZplInstructionMetrics {
                    width: or_u32(width, 0),
                    height: or_u32(height, 0),
                    thickness: or_u32(border_thickness, 1),
                },
                attributes: ZplInstructionAttributesOf { line_color, ..a },
                instruction_type: Some(ZplInstructionType::GraphicEllipse),
                ..st
            }
        },
        CommandOf::GraphicTextColor { color } => ZplInstructionStateOf {
            font: ZplInstructionFontOf { color: Some(color), ..st.font },
            ..st
        },
        CommandOf::GraphicLineColor { color } => ZplInstructionStateOf {
            attributes: ZplInstructionAttributesOf { custom_line_color: Some(color), ..a },
            ..st
        },
        CommandOf::BarcodeDefault { module_width, ratio, height } => ZplInstructionStateOf {
            barcode_metrics: ZplInstructionMetrics {
                thickness: or_u32(module_width, st.barcode_metrics.thickness),
                height: or_u32(height, st.barcode_metrics.height),
                ..st.barcode_metrics
            },
            params: ZplInstructionParamsOf {
                ratio: match ratio {
                    Some(r) => Some(r),
                    None => st.params.ratio,
                },
                ..st.params
            },
            ..st
        },
        CommandOf::Code128 {
            orientation,
            height,
            interpretation_line,
            interpretation_line_above,
            check_digit,
            mode,
        } => ZplInstructionStateOf {
            attributes: ZplInstructionAttributesOf {
                orientation,
                interpretation_line,
                interpretation_above: interpretation_line_above,
                check_digit,
                mode,
                ..a
            },
            metrics: ZplInstructionMetrics { height: bar_height(st, height, 10), ..m },
            instruction_type: Some(ZplInstructionType::Code128),
            ..st
        },
        CommandOf::Code39 {
            orientation,
            check_digit,
            height,
            interpretation_line,
            interpretation_line_above,
        } => ZplInstructionStateOf {
            attributes: ZplInstructionAttributesOf {
                orientation,
                check_digit,
                interpretation_line,
                interpretation_above: interpretation_line_above,
                ..a
            },
            metrics: ZplInstructionMetrics { height: bar_height(st, height, 10), ..m },
            instruction_type: Some(ZplInstructionType::Code39),
            ..st
        },
        CommandOf::Barcode1D {
            kind,
            orientation,
            height,
            interpretation_line,
            interpretation_line_above,
            check_digit,
        } => ZplInstructionStateOf {
            attributes: ZplInstructionAttributesOf {
                orientation,
                interpretation_line,
                interpretation_above: interpretation_line_above,
                ..a
            },
            metrics: ZplInstructionMetrics { height: bar_height(st, height, 10), ..m },
            instruction_type: Some(ZplInstructionType::Barcode1D(kind)),
            ..st
        },
        CommandOf::GraphicDiagonal { width, height, thickness, line_color, diagonal_orientation } => {
            ZplInstructionStateOf {
                metrics: ZplInstructionMetrics {
                    width: or_u32(width, 0),
                    height: or_u32(height, 0),
                    thickness: or_u32(thickness, 1),
                },
                attributes: ZplInstructionAttributesOf {
                    line_color,
                    mode: diagonal_orientation,
                    ..a
                },
                instruction_type: Some(ZplInstructionType::GraphicDiagonal),
                ..st
            }
        },
        CommandOf::DataMatrix { orientation, height, quality, columns, rows } => {
            ZplInstructionStateOf {
                attributes: ZplInstructionAttributesOf { orientation, ..a },
                metrics: ZplInstructionMetrics {
                    thickness: match height {
                        Some(h) => h,
                        None => module_width_of(st),
                    },
                    ..m
                },
                instruction_type: Some(ZplInstructionType::DataMatrix),
                ..st
            }
        },
        CommandOf::MaxiCode { mode, symbol, total } => ZplInstructionStateOf {
            params: ZplInstructionParamsOf { model: or_u32(mode, 2), ..st.params },
            instruction_type: Some(ZplInstructionType::MaxiCode),
            ..st
        },
        CommandOf::Pdf417 { orientation, height, security_level, columns, rows, truncate } => {
            ZplInstructionStateOf {
                attributes: ZplInstructionAttributesOf { orientation, ..a },
                metrics: ZplInstructionMetrics { height: bar_height(st, height, 8), ..m },
                params: ZplInstructionParamsOf { model: or_u32(security_level, 0), ..st.params },
                instruction_type: Some(ZplInstructionType::Pdf417),
                ..st
            }
        },
        CommandOf::QRCode { orientation, model, magnification, error_correction, mask } => {
            ZplInstructionStateOf {
                attributes: ZplInstructionAttributesOf { orientation, error_correction, ..a },
                params: ZplInstructionParamsOf {
                    model: or_u32(model, 2),
                    mask: or_u32(mask, 7),
                    ..st.params
                },
                metrics: ZplInstructionMetrics {
                    thickness: match magnification {
                        Some(v) => v,
                        None => module_width_of(st),
                    },
                    ..m
                },
                instruction_type: Some(ZplInstructionType::QRCode),
                ..st
            }
        },
        CommandOf::MicroPdf417 { orientation, height, mode } => ZplInstructionStateOf {
            attributes: ZplInstructionAttributesOf { orientation, ..a },
            metrics: ZplInstructionMetrics { height: or_u32(height, 10), ..m },
            params: ZplInstructionParamsOf { model: or_u32(mode, 0), ..st.params },
            instruction_type: Some(ZplInstructionType::MicroPdf417),
            ..st
        },
        CommandOf::AztecCode { orientation, magnification, .. } => ZplInstructionStateOf {
            attributes: ZplInstructionAttributesOf { orientation, ..a },
            metrics: ZplInstructionMetrics { thickness: or_u32(magnification, 2), ..m },
            instruction_type: Some(ZplInstructionType::AztecCode),
            ..st
        },
        CommandOf::GS1DataBar { orientation, height, .. } => ZplInstructionStateOf {
            attributes: ZplInstructionAttributesOf { orientation, ..a },
            metrics: ZplInstructionMetrics { height: or_u32(height, 25), ..m },
            instruction_type: Some(ZplInstructionType::Barcode1D(Barcode1DKind::GS1DataBar)),
            ..st
        },
        CommandOf::CustomImage { width, height, data } => ZplInstructionStateOf {
            metrics: ZplInstructionMetrics { width, height, ..m },
            value: Some(data),
            instruction_type: Some(ZplInstructionType::CustomImage),
            ..st
        },
        CommandOf::IfCondition { variable, value } => ZplInstructionStateOf {
            condition: Some((variable, value)),
            ..st
        },
        _ => st,
    }
}

/// The supported MaxiCode requests: mode 2, 3 or 4 (2 when omitted) in a
/// single symbol.
pub open spec fn maxicode_supported(mode: Option<u32>, symbol: Option<u32>, total: Option<u32>) -> bool {
    2 <= or_u32(mode, 2) <= 4 && or_u32(symbol, 1) == 1 && or_u32(total, 1) == 1
}

pub open spec fn maxicode_error() -> Seq<char> {
    "MAXICODE_UNSUPPORTED: modes 2/3/4, single symbol only"@
}

/// One command applied to a running build.
#[verifier::opaque]
pub open spec fn spec_step(r: BuildRun, c: CommandView) -> BuildRun {
    match c {
        CommandOf::StartFormat => BuildRun {
            seen: true,
            out: if r.seen {
                r.out.push(ZplInstructionOf::PageBreak)
            } else {
                r.out
            },
            ..r
        },
        CommandOf::FieldSeparator => BuildRun {
            state: after_field(r.state),
            out: match emitted(r.state) {
                Some(i) => r.out.push(i),
                None => r.out,
            },
            ..r
        },
        CommandOf::MaxiCode { mode, symbol, total } => if maxicode_supported(mode, symbol, total) {
            BuildRun { state: modal_step(r.state, c), ..r }
        } else {
            BuildRun { error: Some(BuildFault::Unsupported(maxicode_error())), ..r }
        },
        CommandOf::GraphicField {
            compression_type,
            binary_byte_count,
            graphic_field_count,
            bytes_per_row,
            data,
        } => if or_char(compression_type, 'A') != 'A' {
            BuildRun { stopped: true, ..r }
        } else {
            match spec_zpl_decode(data, or_u32(bytes_per_row, 0)) {
                Some(bytes) => BuildRun {
                    state: graphic_field_state(r.state, bytes_per_row, graphic_field_count, bytes),
                    ..r
                },
                None => BuildRun { error: Some(BuildFault::TooLarge(graphic_limit_error())), ..r },
            }
        },
        _ => BuildRun { state: modal_step(r.state, c), ..r },
    }
}

} // verus!

verus! {

/// The build after the commands `cmds`, from state `st0`.
pub open spec fn spec_run(st0: StateView, cmds: Seq<CommandView>) -> BuildRun
    decreases cmds.len(),
{
    if cmds.len() == 0 {
        BuildRun { state: st0, seen: false, out: Seq::empty(), stopped: false, error: None }
    } else {
        let r = spec_run(st0, cmds.drop_last());
        if r.stopped || r.error is Some {
            r
        } else {
            spec_step(r, cmds.last())
        }
    }
}

} // verus!

verus! {

fn clone_opt_string(o: &Option<String>) -> (r: Option<String>)
    ensures
        match *o {
            Some(s) => r matches Some(t) && t@ == s@,
            None => r is None,
        },
{
    match o {
        Some(s) => Some(s.clone()),
        None => None,
    }
}

fn unwrap_char(o: Option<char>, d: char) -> (c: char)
    ensures
        c == or_char(o, d),
{
    match o {
        Some(c) => c,
        None => d,
    }
}

fn unwrap_u32(o: Option<u32>, d: u32) -> (c: u32)
    ensures
        c == or_u32(o, d),
{
    match o {
        Some(c) => c,
        None => d,
    }
}

fn exec_module_width(st: &ZplInstructionState) -> (w: u32)
    ensures
        w == module_width_of(st@),
{
    if st.barcode_metrics.thickness > 0 {
        st.barcode_metrics.thickness
    } else {
        2
    }
}

fn exec_ratio(st: &ZplInstructionState) -> (r: String)
    ensures
        r@ == ratio_of(st@),
{
    match &st.params.ratio {
        Some(r) => r.clone(),
        None => "3".to_owned(),
    }
}

fn exec_bar_height(st: &ZplInstructionState, h: Option<u32>, dflt: u32) -> (v: u32)
    ensures
        v == bar_height(st@, h, dflt),
{
    match h {
        Some(v) => v,
        None => if st.barcode_metrics.height > 0 {
            st.barcode_metrics.height
        } else {
            dflt
        },
    }
}

fn exec_field_xy(st: &ZplInstructionState) -> (r: (u32, u32))
    ensures
        r == field_xy(st@),
{
    if st.is_typeset {
        let h = unwrap_u32(st.font.height, 30);
        let y = if st.typeset.y >= h {
            st.typeset.y - h
        } else {
            0
        };
        (st.typeset.x, y)
    } else {
        (st.position.x, st.position.y)
    }
}

fn exec_text_instruction(st: &ZplInstructionState, data: String, condition: Option<(String, String)>) -> (i: ZplInstruction)
    requires
        condition matches Some(c) ==> st@.condition matches Some(d) && c.0@ == d.0 && c.1@ == d.1,
        condition is None ==> st@.condition is None,
    ensures
        i@ == text_instruction(st@, data@),
{
    let (x, y) = exec_field_xy(st);
    ZplInstructionOf::Text {
        x,
        y,
        font: st.font.font_name,
        height: st.font.height,
        width: st.font.width,
        orientation: unwrap_char(st.font.orientation, 'N'),
        text: data,
        reverse_print: st.reverse,
        color: clone_opt_string(&st.font.color),
        block: st.field_block,
        condition,
    }
}

} // verus!

verus! {

fn clone_condition(o: &Option<(String, String)>) -> (r: Option<(String, String)>)
    ensures
        match *o {
            Some(c) => r matches Some(d) && d.0@ == c.0@ && d.1@ == c.1@,
            None => r is None,
        },
{
    match o {
        Some(c) => Some((c.0.clone(), c.1.clone())),
        None => None,
    }
}

/// The instruction a field separator emits, and the state after it.
fn emit(st: &mut ZplInstructionState) -> (r: Option<ZplInstruction>)
    ensures
        match emitted(old(st)@) {
            Some(i) => r matches Some(j) && j@ == i,
            None => r is None,
        },
        final(st)@ == after_field(old(st)@),
{
    reveal(emitted);
    reveal(after_field);
    let (x, y) = exec_field_xy(st);
    let data: String = match &st.value {
        Some(v) => v.clone(),
        None => String::new(),
    };
    let condition = clone_condition(&st.condition);
    let reverse_print = st.reverse;
    let ghost s0 = st@;
    let r: Option<ZplInstruction> = match st.instruction_type {
        Some(t) => match t {
            ZplInstructionType::GraphicBox => Some(
                ZplInstructionOf::GraphicBox {
                    x,
                    y,
                    width: st.metrics.width,
                    height: st.metrics.height,
                    thickness: st.metrics.thickness,
                    color: unwrap_char(st.attributes.line_color, 'B'),
                    custom_color: clone_opt_string(&st.attributes.custom_line_color),
                    rounding: st.params.rounding,
                    reverse_print,
                    condition,
                },
            ),
            ZplInstructionType::GraphicCircle => Some(
                ZplInstructionOf::GraphicCircle {
                    x,
                    y,
                    radius: st.metrics.width / 2,
                    thickness: st.metrics.thickness,
                    color: unwrap_char(st.attributes.line_color, 'B'),
                    custom_color: clone_opt_string(&st.attributes.custom_line_color),
                    reverse_print,
                    condition,
                },
            ),
            ZplInstructionType::GraphicEllipse => Some(
                ZplInstructionOf::GraphicEllipse {
                    x,
                    y,
                    width: st.metrics.width,
                    height: st.metrics.height,
                    thickness: st.metrics.thickness,
                    color: unwrap_char(st.attributes.line_color, 'B'),
                    custom_color: clone_opt_string(&st.attributes.custom_line_color),
                    reverse_print,
                    condition,
                },
            ),
            ZplInstructionType::GraphicField => match st.graphic_data.take() {
                Some(g) => Some(
                    ZplInstructionOf::GraphicField {
                        x,
                        y,
                        width: st.metrics.width,
                        height: st.metrics.height,
                        data: g,
                        reverse_print,
                        condition,
                    },
                ),
                None => None,
            },
            ZplInstructionType::CustomImage => Some(
                ZplInstructionOf::CustomImage {
                    x,
                    y,
                    width: st.metrics.width,
                    height: st.metrics.height,
                    data,
                    condition,
                },
            ),
            ZplInstructionType::Code128 => Some(
                ZplInstructionOf::Code128 {
                    x,
                    y,
                    orientation: unwrap_char(st.attributes.orientation, 'N'),
                    height: st.metrics.height,
                    module_width: exec_module_width(st),
                    interpretation_line: unwrap_char(st.attributes.interpretation_line, 'Y'),
                    interpretation_line_above: unwrap_char(st.attributes.interpretation_above, 'N'),
                    check_digit: unwrap_char(st.attributes.check_digit, 'N'),
                    mode: unwrap_char(st.attributes.mode, 'N'),
                    data,
                    reverse_print,
                    condition,
                },
            ),
            ZplInstructionType::Code39 => Some(
                ZplInstructionOf::Code39 {
                    x,
                    y,
                    orientation: unwrap_char(st.attributes.orientation, 'N'),
                    check_digit: unwrap_char(st.attributes.check_digit, 'N'),
                    height: st.metrics.height,
                    module_width: exec_module_width(st),
                    ratio: exec_ratio(st),
                    interpretation_line: unwrap_char(st.attributes.interpretation_line, 'Y'),
                    interpretation_line_above: unwrap_char(st.attributes.interpretation_above, 'N'),
                    data,
                    reverse_print,
                    condition,
                },
            ),
            ZplInstructionType::Barcode1D(kind) => Some(
                ZplInstructionOf::Barcode1D {
                    kind,
                    x,
                    y,
                    orientation: unwrap_char(st.attributes.orientation, 'N'),
                    height: st.metrics.height,
                    module_width: exec_module_width(st),
                    ratio: exec_ratio(st),
                    check_digit: unwrap_char(st.attributes.check_digit, 'B'),
                    interpretation_line: unwrap_char(st.attributes.interpretation_line, 'Y'),
                    interpretation_line_above: unwrap_char(st.attributes.interpretation_above, 'N'),
                    data,
                    reverse_print,
                    condition,
                },
            ),
            ZplInstructionType::GraphicDiagonal => Some(
                ZplInstructionOf::GraphicDiagonal {
                    x,
                    y,
                    width: st.metrics.width,
                    height: st.metrics.height,
                    thickness: st.metrics.thickness,
                    color: unwrap_char(st.attributes.line_color, 'B'),
                    custom_color: clone_opt_string(&st.attributes.custom_line_color),
                    diagonal_orientation: unwrap_char(st.attributes.mode, 'R'),
                    reverse_print,
                    condition,
                },
            ),
            ZplInstructionType::DataMatrix => Some(
                ZplInstructionOf::DataMatrix {
                    x,
                    y,
                    orientation: unwrap_char(st.attributes.orientation, 'N'),
                    module_size: st.metrics.thickness,
                    data,
                    reverse_print,
                    condition,
                },
            ),
            ZplInstructionType::MaxiCode => Some(
                ZplInstructionOf::MaxiCode {
                    x,
                    y,
                    mode: st.params.model,
                    data,
                    reverse_print,
                    condition,
                },
            ),
            ZplInstructionType::Pdf417 => Some(
                ZplInstructionOf::Pdf417 {
                    x,
                    y,
                    orientation: unwrap_char(st.attributes.orientation, 'N'),
                    row_height: st.metrics.height,
                    module_width: exec_module_width(st),
                    security_level: st.params.model,
                    data,
                    reverse_print,
                    condition,
                },
            ),
            ZplInstructionType::QRCode => Some(
                ZplInstructionOf::QRCode {
                    x,
                    y,
                    orientation: unwrap_char(st.attributes.orientation, 'N'),
                    model: st.params.model,
                    magnification: st.metrics.thickness,
                    error_correction: unwrap_char(st.attributes.error_correction, 'M'),
                    mask: st.params.mask,
                    data,
                    reverse_print,
                    condition,
                },
            ),
            ZplInstructionType::MicroPdf417 => Some(
                ZplInstructionOf::MicroPdf417 {
                    x,
                    y,
                    orientation: unwrap_char(st.attributes.orientation, 'N'),
                    height: st.metrics.height,
                    mode: st.params.model,
                    data,
                    reverse_print,
                    condition,
                },
            ),
            ZplInstructionType::AztecCode => Some(
                ZplInstructionOf::AztecCode {
                    x,
                    y,
                    orientation: unwrap_char(st.attributes.orientation, 'N'),
                    magnification: st.metrics.thickness,
                    data,
                    reverse_print,
                    condition,
                },
            ),
            ZplInstructionType::Text => Some(exec_text_instruction(st, data, condition)),
        },
        None => {
            if data.as_str().is_empty() {
                None
            } else {
                Some(exec_text_instruction(st, data, condition))
            }
        },
    };
    st.value = None;
    st.condition = None;
    st.instruction_type = None;
    st.reverse = false;
    st.field_block = None;
    proof {
        assert(st@ =~= after_field(s0));
    }
    r
}

} // verus!

verus! {

/// Applies one of the fields commands.
fn apply_fields(st: &mut ZplInstructionState, c: &Command)
    requires
        c@ is FieldOrigin || c@ is FieldTypeset || c@ is FieldReverse || c@ is FieldHexEscape || c@ is ChangeIntFont || c@ is FontSpec || c@ is FontSpecFull || c@ is FieldData || c@ is FieldBlock || c@ is GraphicTextColor || c@ is GraphicLineColor || c@ is IfCondition,
    ensures
        final(st)@ == modal_step(old(st)@, c@),
{
    reveal(modal_step);
    let ghost s0 = st@;
    match c {
        CommandOf::FieldOrigin { x, y } => {
            if let Some(x) = x {
                st.position.x = *x;
            }
            if let Some(y) = y {
                st.position.y = *y;
            }
            st.is_typeset = false;
        },
        CommandOf::FieldTypeset { x, y } => {
            if let Some(x) = x {
                st.typeset.x = *x;
            }
            if let Some(y) = y {
                st.typeset.y = *y;
            }
            st.is_typeset = true;
        },
        CommandOf::FieldReverse => {
            st.reverse = !st.reverse;
        },
        CommandOf::FieldHexEscape { indicator } => {
            st.hex_escape = *indicator;
        },
        CommandOf::ChangeIntFont { charset } => {
            if let Some(cs) = charset {
                st.charset = *cs;
            }
        },
        CommandOf::FontSpec { font_name, height, width } => {
            st.font.font_name = *font_name;
            if let Some(h) = height {
                st.font.height = Some(*h);
            }
            if let Some(w) = width {
                st.font.width = Some(*w);
            }
        },
        CommandOf::FontSpecFull { font_name, orientation, height, width } => {
            st.font.font_name = *font_name;
            if let Some(o) = orientation {
                st.font.orientation = Some(*o);
            }
            if let Some(h) = height {
                st.font.height = Some(*h);
            }
            if let Some(w) = width {
                st.font.width = Some(*w);
            }
        },
        CommandOf::FieldData { data } => {
            let v = match st.hex_escape {
                Some(ind) => unescape_hex(data.as_str(), ind),
                None => data.clone(),
            };
            st.value = Some(v);
        },
        CommandOf::FieldBlock { width, max_lines, line_spacing, justification, indent } => {
            let j: char = match justification {
                Some(j) => char::from(*j),
                None => 'L',
            };
            st.field_block = Some(
                TextBlock {
                    width: unwrap_u32(*width, 0),
                    max_lines: unwrap_u32(*max_lines, 1),
                    line_spacing: unwrap_u32(*line_spacing, 0) as i32,
                    justification: j,
                    indent: unwrap_u32(*indent, 0),
                },
            );
        },
        CommandOf::GraphicTextColor { color } => {
            st.font.color = Some(color.clone());
        },
        CommandOf::GraphicLineColor { color } => {
            st.attributes.custom_line_color = Some(color.clone());
        },
        CommandOf::IfCondition { variable, value } => {
            st.condition = Some((variable.clone(), value.clone()));
        },
        _ => {},
    }
    proof {
        assert(st@ =~= modal_step(s0, c@));
    }
}

/// Applies one of the graphics commands.
fn apply_graphics(st: &mut ZplInstructionState, c: &Command)
    requires
        c@ is GraphicBox || c@ is GraphicCircle || c@ is GraphicEllipse || c@ is GraphicDiagonal || c@ is CustomImage,
    ensures
        final(st)@ == modal_step(old(st)@, c@),
{
    reveal(modal_step);
    let ghost s0 = st@;
    match c {
        CommandOf::GraphicBox { width, height, border_thickness, line_color, corner_rounding } => {
            st.metrics.width = *width;
            st.metrics.height = *height;
            st.metrics.thickness = unwrap_u32(*border_thickness, 1);
            st.attributes.line_color = *line_color;
            st.params.rounding = unwrap_u32(*corner_rounding, 0);
            st.instruction_type = Some(ZplInstructionType::GraphicBox);
        },
        CommandOf::GraphicCircle { diameter, border_thickness, line_color } => {
            st.metrics.width = unwrap_u32(*diameter, 0);
            st.metrics.thickness = unwrap_u32(*border_thickness, 1);
            st.attributes.line_color = *line_color;
            st.instruction_type = Some(ZplInstructionType::GraphicCircle);
        },
        CommandOf::GraphicEllipse { width, height, border_thickness, line_color } => {
            st.metrics.width = unwrap_u32(*width, 0);
            st.metrics.height = unwrap_u32(*height, 0);
            st.metrics.thickness = unwrap_u32(*border_thickness, 1);
            st.attributes.line_color = *line_color;
            st.instruction_type = Some(ZplInstructionType::GraphicEllipse);
        },
        CommandOf::GraphicDiagonal { width, height, thickness, line_color, diagonal_orientation } => {
            st.metrics.width = unwrap_u32(*width, 0);
            st.metrics.height = unwrap_u32(*height, 0);
            st.metrics.thickness = unwrap_u32(*thickness, 1);
            st.attributes.line_color = *line_color;
            st.attributes.mode = *diagonal_orientation;
            st.instruction_type = Some(ZplInstructionType::GraphicDiagonal);
        },
        CommandOf::CustomImage { width, height, data } => {
            st.metrics.width = *width;
            st.metrics.height = *height;
            st.value = Some(data.clone());
            st.instruction_type = Some(ZplInstructionType::CustomImage);
        },
        _ => {},
    }
    proof {
        assert(st@ =~= modal_step(s0, c@));
    }
}

/// Applies one of the codes commands.
fn apply_codes(st: &mut ZplInstructionState, c: &Command)
    requires
        c@ is BarcodeDefault || c@ is Code128 || c@ is Code39 || c@ is Barcode1D || c@ is DataMatrix || c@ is MaxiCode || c@ is Pdf417 || c@ is QRCode || c@ is MicroPdf417 || c@ is AztecCode || c@ is GS1DataBar,
    ensures
        final(st)@ == modal_step(old(st)@, c@),
{
    reveal(modal_step);
    let ghost s0 = st@;
    match c {
        CommandOf::BarcodeDefault { module_width, ratio, height } => {
            if let Some(w) = module_width {
                st.barcode_metrics.thickness = *w;
            }
            if let Some(h) = height {
                st.barcode_metrics.height = *h;
            }
            if let Some(r) = ratio {
                st.params.ratio = Some(r.clone());
            }
        },
        CommandOf::Code128 {
            orientation,
            height,
            interpretation_line,
            interpretation_line_above,
            check_digit,
            mode,
        } => {
            st.attributes.orientation = *orientation;
            st.metrics.height = exec_bar_height(st, *height, 10);
            st.attributes.interpretation_line = *interpretation_line;
            st.attributes.interpretation_above = *interpretation_line_above;
            st.attributes.check_digit = *check_digit;
            st.attributes.mode = *mode;
            st.instruction_type = Some(ZplInstructionType::Code128);
        },
        CommandOf::Code39 {
            orientation,
            check_digit,
            height,
            interpretation_line,
            interpretation_line_above,
        } => {
            st.attributes.orientation = *orientation;
            st.attributes.check_digit = *check_digit;
            st.metrics.height = exec_bar_height(st, *height, 10);
            st.attributes.interpretation_line = *interpretation_line;
            st.attributes.interpretation_above = *interpretation_line_above;
            st.instruction_type = Some(ZplInstructionType::Code39);
        },
        CommandOf::Barcode1D {
            kind,
            orientation,
            height,
            interpretation_line,
            interpretation_line_above,
            check_digit: _,
        } => {
            st.attributes.orientation = *orientation;
            st.metrics.height = exec_bar_height(st, *height, 10);
            st.attributes.interpretation_line = *interpretation_line;
            st.attributes.interpretation_above = *interpretation_line_above;
            st.instruction_type = Some(ZplInstructionType::Barcode1D(*kind));
        },
        CommandOf::DataMatrix { orientation, height, .. } => {
            st.attributes.orientation = *orientation;
            st.metrics.thickness = match height {
                Some(h) => *h,
                None => exec_module_width(st),
            };
            st.instruction_type = Some(ZplInstructionType::DataMatrix);
        },
        CommandOf::MaxiCode { mode, .. } => {
            st.params.model = unwrap_u32(*mode, 2);
            st.instruction_type = Some(ZplInstructionType::MaxiCode);
        },
        CommandOf::Pdf417 { orientation, height, security_level, .. } => {
            st.attributes.orientation = *orientation;
            st.metrics.height = exec_bar_height(st, *height, 8);
            st.params.model = unwrap_u32(*security_level, 0);
            st.instruction_type = Some(ZplInstructionType::Pdf417);
        },
        CommandOf::QRCode { orientation, model, magnification, error_correction, mask } => {
            st.attributes.orientation = *orientation;
            st.params.model = unwrap_u32(*model, 2);
            st.metrics.thickness = match magnification {
                Some(v) => *v,
                None => exec_module_width(st),
            };
            st.attributes.error_correction = *error_correction;
            st.params.mask = unwrap_u32(*mask, 7);
            st.instruction_type = Some(ZplInstructionType::QRCode);
        },
        CommandOf::MicroPdf417 { orientation, height, mode } => {
            st.attributes.orientation = *orientation;
            st.metrics.height = unwrap_u32(*height, 10);
            st.params.model = unwrap_u32(*mode, 0);
            st.instruction_type = Some(ZplInstructionType::MicroPdf417);
        },
        CommandOf::AztecCode { orientation, magnification, .. } => {
            st.attributes.orientation = *orientation;
            st.metrics.thickness = unwrap_u32(*magnification, 2);
            st.instruction_type = Some(ZplInstructionType::AztecCode);
        },
        CommandOf::GS1DataBar { orientation, height, .. } => {
            st.attributes.orientation = *orientation;
            st.metrics.height = unwrap_u32(*height, 25);
            st.instruction_type = Some(ZplInstructionType::Barcode1D(Barcode1DKind::GS1DataBar));
        },
        _ => {},
    }
    proof {
        assert(st@ =~= modal_step(s0, c@));
    }
}

/// Applies a command that only sets modal state.
fn apply_modal(st: &mut ZplInstructionState, c: &Command)
    ensures
        final(st)@ == modal_step(old(st)@, c@),
{
    match c {
        CommandOf::FieldOrigin { .. } => apply_fields(st, c),
        CommandOf::FieldTypeset { .. } => apply_fields(st, c),
        CommandOf::FieldReverse  => apply_fields(st, c),
        CommandOf::FieldHexEscape { .. } => apply_fields(st, c),
        CommandOf::ChangeIntFont { .. } => apply_fields(st, c),
        CommandOf::FontSpec { .. } => apply_fields(st, c),
        CommandOf::FontSpecFull { .. } => apply_fields(st, c),
        CommandOf::FieldData { .. } => apply_fields(st, c),
        CommandOf::FieldBlock { .. } => apply_fields(st, c),
        CommandOf::GraphicTextColor { .. } => apply_fields(st, c),
        CommandOf::GraphicLineColor { .. } => apply_fields(st, c),
        CommandOf::IfCondition { .. } => apply_fields(st, c),
        CommandOf::GraphicBox { .. } => apply_graphics(st, c),
        CommandOf::GraphicCircle { .. } => apply_graphics(st, c),
        CommandOf::GraphicEllipse { .. } => apply_graphics(st, c),
        CommandOf::GraphicDiagonal { .. } => apply_graphics(st, c),
        CommandOf::CustomImage { .. } => apply_graphics(st, c),
        CommandOf::BarcodeDefault { .. } => apply_codes(st, c),
        CommandOf::Code128 { .. } => apply_codes(st, c),
        CommandOf::Code39 { .. } => apply_codes(st, c),
        CommandOf::Barcode1D { .. } => apply_codes(st, c),
        CommandOf::DataMatrix { .. } => apply_codes(st, c),
        CommandOf::MaxiCode { .. } => apply_codes(st, c),
        CommandOf::Pdf417 { .. } => apply_codes(st, c),
        CommandOf::QRCode { .. } => apply_codes(st, c),
        CommandOf::MicroPdf417 { .. } => apply_codes(st, c),
        CommandOf::AztecCode { .. } => apply_codes(st, c),
        CommandOf::GS1DataBar { .. } => apply_codes(st, c),
        _ => {
            proof {
                reveal(modal_step);
                assert(modal_step(old(st)@, c@) == old(st)@);
            }
        },
    }
}

} // verus!

verus! {

/// Whether a build result is what the build `run` ends in.
pub open spec fn build_result_matches(r: Result<Vec<ZplInstruction>, ZplError>, run: BuildRun) -> bool {
    match run.error {
        Some(BuildFault::Unsupported(m)) => r matches Err(ZplError::InstructionError(e)) && e@ == m,
        Some(BuildFault::TooLarge(m)) => r matches Err(ZplError::SecurityLimitExceeded(e)) && e@
            == m,
        None => r matches Ok(v) && v@.map_values(|i: ZplInstruction| i@) == run.out,
    }
}

/// A build that stopped or failed stays as it is.
pub proof fn lemma_run_settled(st0: StateView, cmds: Seq<CommandView>, k: int)
    requires
        0 <= k <= cmds.len(),
        spec_run(st0, cmds.take(k)).stopped || spec_run(st0, cmds.take(k)).error is Some,
    ensures
        spec_run(st0, cmds) == spec_run(st0, cmds.take(k)),
    decreases cmds.len() - k,
{
    if k < cmds.len() {
        assert(cmds.take(k + 1).drop_last() =~= cmds.take(k));
        lemma_run_settled(st0, cmds, k + 1);
    } else {
        assert(cmds.take(k) =~= cmds);
    }
}

/// The number of format starts (`^XA`) among `cmds`.
pub open spec fn count_format_starts(cmds: Seq<CommandView>) -> nat
    decreases cmds.len(),
{
    if cmds.len() == 0 {
        0
    } else {
        count_format_starts(cmds.drop_last()) + if cmds.last() is StartFormat {
            1nat
        } else {
            0nat
        }
    }
}

/// The number of page breaks among `out`.
pub open spec fn count_page_breaks(out: Seq<InstructionView>) -> nat
    decreases out.len(),
{
    if out.len() == 0 {
        0
    } else {
        count_page_breaks(out.drop_last()) + if out.last() is PageBreak {
            1nat
        } else {
            0nat
        }
    }
}

proof fn lemma_count_breaks_push(out: Seq<InstructionView>, x: InstructionView)
    ensures
        count_page_breaks(out.push(x)) == count_page_breaks(out) + if x is PageBreak {
            1nat
        } else {
            0nat
        },
{
    assert(out.push(x).drop_last() =~= out);
}

/// A field never emits a page break.
pub proof fn lemma_emitted_not_page_break(st: StateView)
    ensures
        !(emitted(st) matches Some(ZplInstructionOf::PageBreak)),
{
    reveal(emitted);
}

/// Multi-page labels: each `^XA` after the first starts a new page. A build
/// that neither stopped nor failed holds one page break for every format
/// start but the first, and none before the first.
pub proof fn law_page_break_per_extra_format(st0: StateView, cmds: Seq<CommandView>)
    requires
        !spec_run(st0, cmds).stopped,
        spec_run(st0, cmds).error is None,
    ensures
        count_page_breaks(spec_run(st0, cmds).out) == if count_format_starts(cmds) == 0 {
            0
        } else {
            count_format_starts(cmds) - 1
        },
        spec_run(st0, cmds).seen <==> count_format_starts(cmds) > 0,
    decreases cmds.len(),
{
    if cmds.len() > 0 {
        let init = cmds.drop_last();
        let r = spec_run(st0, init);
        assert(!r.stopped && r.error is None);
        law_page_break_per_extra_format(st0, init);
        reveal(spec_step);
        lemma_emitted_not_page_break(r.state);
        let c = cmds.last();
        match c {
            CommandOf::StartFormat => {
                if r.seen {
                    lemma_count_breaks_push(r.out, ZplInstructionOf::PageBreak);
                }
            },
            CommandOf::FieldSeparator => {
                match emitted(r.state) {
                    Some(i) => {
                        lemma_count_breaks_push(r.out, i);
                    },
                    None => {},
                }
            },
            _ => {},
        }
    }
}

/// MaxiCode: `^BY` does not change a MaxiCode symbol, whether it comes
/// before or after the `^BD` of the field.
pub proof fn law_barcode_defaults_leave_maxicode_alone(st: StateView, by: CommandView, bd: CommandView)
    requires
        by is BarcodeDefault,
        bd is MaxiCode,
    ensures
        emitted(modal_step(modal_step(st, by), bd)) == emitted(modal_step(st, bd)),
        emitted(modal_step(modal_step(st, bd), by)) == emitted(modal_step(st, bd)),
{
    reveal(modal_step);
    reveal(emitted);
}

/// `^GC`: the parameter is the diameter of the circle's bounding box. A
/// `^GC` with diameter `d` (0 when omitted) and border `t` (1 when omitted),
/// closed by `^FS`, adds exactly one instruction to the build: a circle of
/// radius `d / 2` with that border.
pub proof fn law_circle_radius_is_half_diameter(
    r: BuildRun,
    diameter: Option<u32>,
    border: Option<u32>,
    color: Option<char>,
)
    ensures
        ({
            let gc = CommandOf::GraphicCircle { diameter, border_thickness: border, line_color: color };
            let r2 = spec_step(spec_step(r, gc), CommandOf::FieldSeparator);
            &&& r2.out.len() == r.out.len() + 1
            &&& r2.out.take(r.out.len() as int) == r.out
            &&& r2.out.last() matches ZplInstructionOf::GraphicCircle { radius, thickness, .. }
                && radius == or_u32(diameter, 0) / 2 && thickness == or_u32(border, 1)
        }),
{
    reveal(spec_step);
    reveal(modal_step);
    reveal(emitted);
    let gc = CommandOf::GraphicCircle { diameter, border_thickness: border, line_color: color };
    let r2 = spec_step(spec_step(r, gc), CommandOf::FieldSeparator);
    assert(r2.out.take(r.out.len() as int) =~= r.out);
}

/// MaxiCode: `^BD` without a mode is mode 2.
pub proof fn law_maxicode_default_mode(st: StateView, symbol: Option<u32>, total: Option<u32>)
    ensures
        modal_step(st, CommandOf::MaxiCode { mode: None, symbol, total }) == modal_step(
            st,
            CommandOf::MaxiCode { mode: Some(2), symbol, total },
        ),
        maxicode_supported(None, symbol, total) == maxicode_supported(Some(2), symbol, total),
{
    reveal(modal_step);
}

/// A build that has neither stopped nor failed.
pub open spec fn running(st: StateView, seen: bool, out: Seq<ZplInstruction>) -> BuildRun {
    BuildRun {
        state: st,
        seen,
        out: out.map_values(|x: ZplInstruction| x@),
        stopped: false,
        error: None,
    }
}

/// How a step of the build ends.
pub enum StepOutcome {
    /// Go on with the next command.
    Continue,
    /// Stop reading; the instructions so far are the result.
    Stop,
    /// The build fails with this error.
    Fail(ZplError),
}

/// Applies one command to the build.
fn step(st: &mut ZplInstructionState, out: &mut Vec<ZplInstruction>, seen: &mut bool, c: &Command) -> (o: StepOutcome)
    ensures
        ({
            let after = spec_step(running(old(st)@, *old(seen), old(out)@), c@);
            match o {
                StepOutcome::Continue => after == running(final(st)@, *final(seen), final(out)@),
                StepOutcome::Stop => after.stopped && after.error is None && after.out == running(
                    old(st)@,
                    *old(seen),
                    final(out)@,
                ).out,
                StepOutcome::Fail(e) => match after.error {
                    Some(f) => build_result_matches(Err(e), after),
                    None => false,
                },
            }
        }),
{
    reveal(spec_step);
    let ghost before = running(st@, *seen, out@);
    match c {
        CommandOf::StartFormat => {
            if *seen {
                out.push(ZplInstructionOf::PageBreak);
            }
            *seen = true;
            proof {
                assert(out@.map_values(|x: ZplInstruction| x@) =~= spec_step(before, c@).out);
            }
            StepOutcome::Continue
        },
        CommandOf::FieldSeparator => {
            let e = emit(st);
            match e {
                Some(ins) => {
                    out.push(ins);
                },
                None => {},
            }
            proof {
                assert(out@.map_values(|x: ZplInstruction| x@) =~= spec_step(before, c@).out);
            }
            StepOutcome::Continue
        },
        CommandOf::MaxiCode { mode, symbol, total } => {
            let m = unwrap_u32(*mode, 2);
            if !(2 <= m && m <= 4 && unwrap_u32(*symbol, 1) == 1 && unwrap_u32(*total, 1) == 1) {
                return StepOutcome::Fail(
                    ZplError::InstructionError(
                        "MAXICODE_UNSUPPORTED: modes 2/3/4, single symbol only".to_owned(),
                    ),
                );
            }
            apply_modal(st, c);
            StepOutcome::Continue
        },
        CommandOf::GraphicField {
            compression_type,
            binary_byte_count: _,
            graphic_field_count,
            bytes_per_row,
            data,
        } => {
            if unwrap_char(*compression_type, 'A') != 'A' {
                return StepOutcome::Stop;
            }
            match zpl_decode(data.as_str(), unwrap_u32(*bytes_per_row, 0)) {
                None => {
                    StepOutcome::Fail(
                        ZplError::SecurityLimitExceeded(
                            "GRAPHIC_FIELD_LIMIT: graphic data expands beyond the size limit".to_owned(),
                        ),
                    )
                },
                Some(bytes) => {
                    let ghost s1 = st@;
                    if let Some(bpr) = bytes_per_row {
                        st.metrics.width = if *bpr > 0x1FFF_FFFF {
                            0xFFFF_FFFF
                        } else {
                            *bpr * 8
                        };
                        if let Some(total) = graphic_field_count {
                            if *bpr > 0 {
                                st.metrics.height = *total / *bpr;
                            }
                        }
                    }
                    st.graphic_data = Some(bytes);
                    st.instruction_type = Some(ZplInstructionType::GraphicField);
                    proof {
                        assert(st@ =~= graphic_field_state(
                            s1,
                            *bytes_per_row,
                            *graphic_field_count,
                            st@.graphic_data->0,
                        ));
                    }
                    StepOutcome::Continue
                },
            }
        },
        _ => {
            apply_modal(st, c);
            StepOutcome::Continue
        },
    }
}

/// Builds drawing instructions from a list of commands.
///
/// It keeps the modal state of the label (position, font, barcode
/// defaults) and emits one instruction per field when a field separator
/// comes.
pub struct ZplInstructionBuilder {
    commands: Vec<Command>,
    state: ZplInstructionState,
}

impl ZplInstructionBuilder {
    /// The commands the builder reads.
    pub closed spec fn commands_view(&self) -> Seq<CommandView> {
        self.commands@.map_values(|c: Command| c@)
    }

    /// The state the builder starts from.
    pub closed spec fn state_view(&self) -> StateView {
        self.state@
    }

    /// A builder over `commands`, from the initial state.
    pub fn new(commands: Vec<Command>) -> (b: Self)
        ensures
            b.commands_view() == commands@.map_values(|c: Command| c@),
            b.state_view() == initial_state(),
    {
        ZplInstructionBuilder { commands, state: ZplInstructionState::new() }
    }

    /// Processes the commands and returns the instructions (see
    /// `spec_run`): a page break between label formats, one instruction
    /// per field; an unsupported MaxiCode request fails, and graphic data
    /// that cannot be decoded ends the reading.
    pub fn build(self) -> (r: Result<Vec<ZplInstruction>, ZplError>)
        ensures
            build_result_matches(r, spec_run(self.state_view(), self.commands_view())),
    {
        let ghost st0 = self.state@;
        let ghost cv = self.commands_view();
        let commands = self.commands;
        let mut st = self.state;
        let mut out: Vec<ZplInstruction> = Vec::new();
        let mut seen = false;
        let mut i: usize = 0;
        proof {
            assert(cv.take(0) =~= Seq::<CommandView>::empty());
            assert(out@.map_values(|x: ZplInstruction| x@) =~= Seq::<InstructionView>::empty());
        }
        while i < commands.len()
            invariant
                i <= commands@.len(),
                cv == commands@.map_values(|c: Command| c@),
                cv == self.commands_view(),
                st0 == self.state_view(),
                spec_run(st0, cv.take(i as int)) == running(st@, seen, out@),
            decreases commands@.len() - i,
        {
            let c = &commands[i];
            proof {
                assert(cv.take(i + 1).drop_last() =~= cv.take(i as int));
                assert(cv.take(i + 1).last() == c@);
                assert(spec_run(st0, cv.take(i + 1)) == spec_step(running(st@, seen, out@), c@));
            }
            let ghost after = spec_step(running(st@, seen, out@), c@);
            let ghost out0 = out@;
            match step(&mut st, &mut out, &mut seen, c) {
                StepOutcome::Continue => {},
                StepOutcome::Stop => {
                    proof {
                        assert(spec_run(st0, cv.take(i + 1)) == after);
                        assert(after.stopped);
                        lemma_run_settled(st0, cv, i + 1);
                        assert(spec_run(st0, cv) == after);
                        assert(after.out == out@.map_values(|x: ZplInstruction| x@));
                    }
                    return Ok(out);
                },
                StepOutcome::Fail(e) => {
                    proof {
                        assert(spec_run(st0, cv.take(i + 1)) == after);
                        assert(after.error is Some);
                        lemma_run_settled(st0, cv, i + 1);
                        assert(spec_run(st0, cv) == after);
                    }
                    return Err(e);
                },
            }
            i = i + 1;
        }
        proof {
            assert(cv.take(i as int) =~= cv);
        }
        Ok(out)
    }
}

} // verus!
