//! The drawing instructions that the builder produces from commands.

use vstd::prelude::*;
pub use crate::ast::commons::Barcode1DKind;

verus! {

/// A self-contained drawing instruction, with text fields of type `S` and
/// byte fields of type `B`.
///
/// Unlike AST commands, instructions are calculated based on the cumulative
/// state of the parser (e.g., coordinates are absolute, fonts are resolved).
#[derive(Debug, Clone)]
pub enum ZplInstructionOf<S, B> {
    /// Starts a new page. Emitted between consecutive `^XA...^XZ` blocks.
    ///
    /// Backends that support multi-page output (PDF) start a fresh page;
    /// single-surface backends (PNG) may ignore it.
    PageBreak,
    /// Renders a text field.
    Text {
        /// Absolute X coordinate.
        x: u32,
        /// Absolute Y coordinate.
        y: u32,
        /// Font identifier.
        font: char,
        /// Height in dots.
        height: Option<u32>,
        /// Width in dots.
        width: Option<u32>,
        /// Field orientation from `^A` (N, R, I, B).
        orientation: char,
        /// Text content.
        text: S,
        /// Whether to print white-on-black.
        reverse_print: bool,
        /// Custom text color.
        color: Option<S>,
        /// `^FB` block formatting (wrap, max lines, justification).
        block: Option<TextBlock>,
        /// Condition for this instruction.
        condition: Option<(S, S)>,
    },
    /// Draws a rectangular box.
    GraphicBox {
        x: u32,
        y: u32,
        width: u32,
        height: u32,
        thickness: u32,
        color: char,
        custom_color: Option<S>,
        rounding: u32,
        reverse_print: bool,
        condition: Option<(S, S)>,
    },
    /// Draws a circle.
    GraphicCircle {
        x: u32,
        y: u32,
        radius: u32,
        thickness: u32,
        color: char,
        custom_color: Option<S>,
        reverse_print: bool,
        condition: Option<(S, S)>,
    },
    /// Draws an ellipse.
    GraphicEllipse {
        x: u32,
        y: u32,
        width: u32,
        height: u32,
        thickness: u32,
        color: char,
        custom_color: Option<S>,
        reverse_print: bool,
        condition: Option<(S, S)>,
    },
    /// Renders a bitmap graphic.
    GraphicField {
        x: u32,
        y: u32,
        width: u32,
        height: u32,
        data: B,
        reverse_print: bool,
        condition: Option<(S, S)>,
    },
    /// Renders a custom color image (extension).
    CustomImage {
        /// Absolute X coordinate.
        x: u32,
        /// Absolute Y coordinate.
        y: u32,
        /// Requested width (0 for natural/proportional).
        width: u32,
        /// Requested height (0 for natural/proportional).
        height: u32,
        /// Base64 encoded image data.
        data: S,
        condition: Option<(S, S)>,
    },
    /// Draws a Code 128 barcode.
    Code128 {
        x: u32,
        y: u32,
        orientation: char,
        height: u32,
        module_width: u32,
        interpretation_line: char,
        interpretation_line_above: char,
        check_digit: char,
        mode: char,
        data: S,
        reverse_print: bool,
        condition: Option<(S, S)>,
    },
    /// Draws a QR Code.
    QRCode {
        x: u32,
        y: u32,
        orientation: char,
        model: u32,
        magnification: u32,
        error_correction: char,
        mask: u32,
        data: S,
        reverse_print: bool,
        condition: Option<(S, S)>,
    },
    /// Draws a generic 1-D barcode (EAN-13, UPC-A, ITF, Code 93).
    Barcode1D {
        kind: Barcode1DKind,
        x: u32,
        y: u32,
        orientation: char,
        height: u32,
        module_width: u32,
        /// `^BY` wide:narrow ratio as decimal text. ZPL defaults to 3.
        ratio: S,
        /// Check-digit mode as spelled by the symbology's own command.
        check_digit: char,
        interpretation_line: char,
        interpretation_line_above: char,
        data: S,
        reverse_print: bool,
        condition: Option<(S, S)>,
    },
    /// Draws a MicroPDF417 2D barcode (`^BF`).
    MicroPdf417 {
        x: u32,
        y: u32,
        orientation: char,
        height: u32,
        mode: u32,
        data: S,
        reverse_print: bool,
        condition: Option<(S, S)>,
    },
    /// Draws an Aztec Code 2D barcode (`^B0`/`^BO`).
    AztecCode {
        x: u32,
        y: u32,
        orientation: char,
        magnification: u32,
        data: S,
        reverse_print: bool,
        condition: Option<(S, S)>,
    },
    /// Draws a MaxiCode symbol (`^BD`).
    MaxiCode {
        x: u32,
        y: u32,
        /// Symbol mode (2, 3 or 4).
        mode: u32,
        data: S,
        reverse_print: bool,
        condition: Option<(S, S)>,
    },
    /// Draws a diagonal line (`^GD`).
    GraphicDiagonal {
        x: u32,
        y: u32,
        width: u32,
        height: u32,
        thickness: u32,
        color: char,
        custom_color: Option<S>,
        /// Leaning: 'R' (`/`) or 'L' (`\`).
        diagonal_orientation: char,
        reverse_print: bool,
        condition: Option<(S, S)>,
    },
    /// Draws a Data Matrix (ECC 200) barcode.
    DataMatrix {
        x: u32,
        y: u32,
        orientation: char,
        /// Module size in dots (`^BX` dimensional height).
        module_size: u32,
        data: S,
        reverse_print: bool,
        condition: Option<(S, S)>,
    },
    /// Draws a PDF417 barcode.
    Pdf417 {
        x: u32,
        y: u32,
        orientation: char,
        /// Row height in dots.
        row_height: u32,
        /// Module width in dots (from `^BY`).
        module_width: u32,
        /// Error correction security level (0-8).
        security_level: u32,
        data: S,
        reverse_print: bool,
        condition: Option<(S, S)>,
    },
    /// Draws a Code 39 barcode.
    Code39 {
        x: u32,
        y: u32,
        orientation: char,
        check_digit: char,
        height: u32,
        module_width: u32,
        /// `^BY` wide:narrow ratio as decimal text. ZPL defaults to 3.
        ratio: S,
        interpretation_line: char,
        interpretation_line_above: char,
        data: S,
        reverse_print: bool,
        condition: Option<(S, S)>,
    },
}

/// A drawing instruction.
pub type ZplInstruction = ZplInstructionOf<String, Vec<u8>>;

/// The mathematical form of a drawing instruction.
pub type InstructionView = ZplInstructionOf<Seq<char>, Seq<u8>>;

impl View for ZplInstructionOf<String, Vec<u8>> {
    type V = ZplInstructionOf<Seq<char>, Seq<u8>>;

    open spec fn view(&self) -> ZplInstructionOf<Seq<char>, Seq<u8>> {
        match *self {
            ZplInstructionOf::PageBreak => ZplInstructionOf::PageBreak,
            ZplInstructionOf::Text { x, y, font, height, width, orientation, text, reverse_print, color, block, condition } => ZplInstructionOf::Text { x: x, y: y, font: font, height: height, width: width, orientation: orientation, text: text@, reverse_print: reverse_print, color: match color { Some(v) => Some(v@), None => None }, block: block, condition: match condition { Some(v) => Some((v.0@, v.1@)), None => None } },
            ZplInstructionOf::GraphicBox { x, y, width, height, thickness, color, custom_color, rounding, reverse_print, condition } => ZplInstructionOf::GraphicBox { x: x, y: y, width: width, height: height, thickness: thickness, color: color, custom_color: match custom_color { Some(v) => Some(v@), None => None }, rounding: rounding, reverse_print: reverse_print, condition: match condition { Some(v) => Some((v.0@, v.1@)), None => None } },
            ZplInstructionOf::GraphicCircle { x, y, radius, thickness, color, custom_color, reverse_print, condition } => ZplInstructionOf::GraphicCircle { x: x, y: y, radius: radius, thickness: thickness, color: color, custom_color: match custom_color { Some(v) => Some(v@), None => None }, reverse_print: reverse_print, condition: match condition { Some(v) => Some((v.0@, v.1@)), None => None } },
            ZplInstructionOf::GraphicEllipse { x, y, width, height, thickness, color, custom_color, reverse_print, condition } => ZplInstructionOf::GraphicEllipse { x: x, y: y, width: width, height: height, thickness: thickness, color: color, custom_color: match custom_color { Some(v) => Some(v@), None => None }, reverse_print: reverse_print, condition: match condition { Some(v) => Some((v.0@, v.1@)), None => None } },
            ZplInstructionOf::GraphicField { x, y, width, height, data, reverse_print, condition } => ZplInstructionOf::GraphicField { x: x, y: y, width: width, height: height, data: data@, reverse_print: reverse_print, condition: match condition { Some(v) => Some((v.0@, v.1@)), None => None } },
            ZplInstructionOf::CustomImage { x, y, width, height, data, condition } => ZplInstructionOf::CustomImage { x: x, y: y, width: width, height: height, data: data@, condition: match condition { Some(v) => Some((v.0@, v.1@)), None => None } },
            ZplInstructionOf::Code128 { x, y, orientation, height, module_width, interpretation_line, interpretation_line_above, check_digit, mode, data, reverse_print, condition } => ZplInstructionOf::Code128 { x: x, y: y, orientation: orientation, height: height, module_width: module_width, interpretation_line: interpretation_line, interpretation_line_above: interpretation_line_above, check_digit: check_digit, mode: mode, data: data@, reverse_print: reverse_print, condition: match condition { Some(v) => Some((v.0@, v.1@)), None => None } },
            ZplInstructionOf::QRCode { x, y, orientation, model, magnification, error_correction, mask, data, reverse_print, condition } => ZplInstructionOf::QRCode { x: x, y: y, orientation: orientation, model: model, magnification: magnification, error_correction: error_correction, mask: mask, data: data@, reverse_print: reverse_print, condition: match condition { Some(v) => Some((v.0@, v.1@)), None => None } },
            ZplInstructionOf::Barcode1D { kind, x, y, orientation, height, module_width, ratio, check_digit, interpretation_line, interpretation_line_above, data, reverse_print, condition } => ZplInstructionOf::Barcode1D { kind: kind, x: x, y: y, orientation: orientation, height: height, module_width: module_width, ratio: ratio@, check_digit: check_digit, interpretation_line: interpretation_line, interpretation_line_above: interpretation_line_above, data: data@, reverse_print: reverse_print, condition: match condition { Some(v) => Some((v.0@, v.1@)), None => None } },
            ZplInstructionOf::MicroPdf417 { x, y, orientation, height, mode, data, reverse_print, condition } => ZplInstructionOf::MicroPdf417 { x: x, y: y, orientation: orientation, height: height, mode: mode, data: data@, reverse_print: reverse_print, condition: match condition { Some(v) => Some((v.0@, v.1@)), None => None } },
            ZplInstructionOf::AztecCode { x, y, orientation, magnification, data, reverse_print, condition } => ZplInstructionOf::AztecCode { x: x, y: y, orientation: orientation, magnification: magnification, data: data@, reverse_print: reverse_print, condition: match condition { Some(v) => Some((v.0@, v.1@)), None => None } },
            ZplInstructionOf::MaxiCode { x, y, mode, data, reverse_print, condition } => ZplInstructionOf::MaxiCode { x: x, y: y, mode: mode, data: data@, reverse_print: reverse_print, condition: match condition { Some(v) => Some((v.0@, v.1@)), None => None } },
            ZplInstructionOf::GraphicDiagonal { x, y, width, height, thickness, color, custom_color, diagonal_orientation, reverse_print, condition } => ZplInstructionOf::GraphicDiagonal { x: x, y: y, width: width, height: height, thickness: thickness, color: color, custom_color: match custom_color { Some(v) => Some(v@), None => None }, diagonal_orientation: diagonal_orientation, reverse_print: reverse_print, condition: match condition { Some(v) => Some((v.0@, v.1@)), None => None } },
            ZplInstructionOf::DataMatrix { x, y, orientation, module_size, data, reverse_print, condition } => ZplInstructionOf::DataMatrix { x: x, y: y, orientation: orientation, module_size: module_size, data: data@, reverse_print: reverse_print, condition: match condition { Some(v) => Some((v.0@, v.1@)), None => None } },
            ZplInstructionOf::Pdf417 { x, y, orientation, row_height, module_width, security_level, data, reverse_print, condition } => ZplInstructionOf::Pdf417 { x: x, y: y, orientation: orientation, row_height: row_height, module_width: module_width, security_level: security_level, data: data@, reverse_print: reverse_print, condition: match condition { Some(v) => Some((v.0@, v.1@)), None => None } },
            ZplInstructionOf::Code39 { x, y, orientation, check_digit, height, module_width, ratio, interpretation_line, interpretation_line_above, data, reverse_print, condition } => ZplInstructionOf::Code39 { x: x, y: y, orientation: orientation, check_digit: check_digit, height: height, module_width: module_width, ratio: ratio@, interpretation_line: interpretation_line, interpretation_line_above: interpretation_line_above, data: data@, reverse_print: reverse_print, condition: match condition { Some(v) => Some((v.0@, v.1@)), None => None } },
        }
    }
}

/// `^FB` field-block formatting parameters.
#[derive(Debug, Clone, Copy, PartialEq, Eq, Structural)]
pub struct TextBlock {
    /// Block width in dots; lines wrap to fit it.
    pub width: u32,
    /// Maximum number of lines (default 1).
    pub max_lines: u32,
    /// Extra space added between lines, in dots.
    pub line_spacing: i32,
    /// Justification: 'L', 'C', 'R' or 'J' (J renders as L).
    pub justification: char,
    /// Hanging indent applied from the second line onwards, in dots.
    pub indent: u32,
}

} // verus!
