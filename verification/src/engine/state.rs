//! The modal state that the instruction builder carries from command to
//! command.

use vstd::prelude::*;
use super::common::{Barcode1DKind, TextBlock};

verus! {

/// The accumulated state for a single ZPL field, with text fields of type
/// `S` and byte fields of type `B`.
#[derive(Debug, Clone)]
pub struct ZplInstructionStateOf<S, B> {
    /// Field origin coordinates.
    pub position: ZplInstructionPosition,
    /// Field typeset coordinates.
    pub typeset: ZplInstructionTypeset,
    /// Dimensions for graphic elements or general metrics.
    pub metrics: ZplInstructionMetrics,
    /// Default barcode metrics (set by `^BY`).
    pub barcode_metrics: ZplInstructionMetrics,
    /// Qualitative attributes like orientation and check digits.
    pub attributes: ZplInstructionAttributesOf<S>,
    /// Algorithm-specific parameters (QR masks, rounding, ratio).
    pub params: ZplInstructionParamsOf<S>,
    /// Current font configuration.
    pub font: ZplInstructionFontOf<S>,
    /// Whether reverse printing (white on black) is active.
    pub reverse: bool,
    /// The text content of the field.
    pub value: Option<S>,
    /// Raw bitmap data of a graphic field.
    pub graphic_data: Option<B>,
    /// The type of instruction being built.
    pub instruction_type: Option<ZplInstructionType>,
    /// Variable and value the field is rendered under.
    pub condition: Option<(S, S)>,
    /// `^FB` block formatting for the next text field.
    pub field_block: Option<TextBlock>,
    /// Hexadecimal escape indicator (set by `^FH`).
    pub hex_escape: Option<char>,
    /// Character set identifier (set by `^CI`).
    pub charset: u32,
    /// Whether the field position was set by `^FT` (baseline origin).
    pub is_typeset: bool,
}

/// The builder state.
pub type ZplInstructionState = ZplInstructionStateOf<String, Vec<u8>>;

/// The mathematical form of the builder state.
pub type StateView = ZplInstructionStateOf<Seq<char>, Seq<u8>>;

/// Absolute position of a field.
#[derive(Debug, Clone, Copy, PartialEq, Eq, Structural)]
pub struct ZplInstructionPosition {
    /// X coordinate in dots.
    pub x: u32,
    /// Y coordinate in dots.
    pub y: u32,
}

/// Typeset (baseline) position of a field.
#[derive(Debug, Clone, Copy, PartialEq, Eq, Structural)]
pub struct ZplInstructionTypeset {
    /// X offset in dots.
    pub x: u32,
    /// Y offset in dots.
    pub y: u32,
}

/// Shared numeric data for various instructions.
#[derive(Debug, Clone, Copy, PartialEq, Eq, Structural)]
pub struct ZplInstructionMetrics {
    /// Width in dots.
    pub width: u32,
    /// Height in dots.
    pub height: u32,
    /// Thickness, module width or magnification depending on context.
    pub thickness: u32,
}

/// Qualitative flags and settings of a field.
#[derive(Debug, Clone)]
pub struct ZplInstructionAttributesOf<S> {
    /// Field orientation (N, R, I, B).
    pub orientation: Option<char>,
    /// Interpretation line visibility flag.
    pub interpretation_line: Option<char>,
    /// Whether the interpretation line is above the barcode.
    pub interpretation_above: Option<char>,
    /// Check digit flag.
    pub check_digit: Option<char>,
    /// Barcode-specific mode (e.g. UCC case mode).
    pub mode: Option<char>,
    /// Error correction level (QR).
    pub error_correction: Option<char>,
    /// Line color identifier ('B' black, 'W' white).
    pub line_color: Option<char>,
    /// Custom line color in hexadecimal form.
    pub custom_line_color: Option<S>,
}

/// Field attributes.
pub type ZplInstructionAttributes = ZplInstructionAttributesOf<String>;

/// Algorithm-specific values and parameters.
#[derive(Debug, Clone)]
pub struct ZplInstructionParamsOf<S> {
    /// Corner rounding of boxes.
    pub rounding: u32,
    /// Model identifier (QR model, PDF417 security level, MaxiCode mode).
    pub model: u32,
    /// Data mask of 2-D barcodes.
    pub mask: u32,
    /// Wide-to-narrow bar ratio as decimal text.
    pub ratio: Option<S>,
}

/// Field parameters.
pub type ZplInstructionParams = ZplInstructionParamsOf<String>;

/// Font specification state.
#[derive(Debug, Clone)]
pub struct ZplInstructionFontOf<S> {
    /// Font identifier.
    pub font_name: char,
    /// Font orientation.
    pub orientation: Option<char>,
    /// Character height in dots.
    pub height: Option<u32>,
    /// Character width in dots.
    pub width: Option<u32>,
    /// Custom text color in hexadecimal form.
    pub color: Option<S>,
}

/// Font state.
pub type ZplInstructionFont = ZplInstructionFontOf<String>;

/// Supported instruction types.
#[derive(Debug, Clone, Copy, PartialEq, Eq, Structural)]
pub enum ZplInstructionType {
    /// Plain or formatted text.
    Text,
    /// Rectangular box.
    GraphicBox,
    /// Circle.
    GraphicCircle,
    /// Ellipse.
    GraphicEllipse,
    /// Bitmap image data.
    GraphicField,
    /// Code 128 barcode.
    Code128,
    /// QR code.
    QRCode,
    /// Code 39 barcode.
    Code39,
    /// Data Matrix barcode.
    DataMatrix,
    /// PDF417 barcode.
    Pdf417,
    /// Generic 1-D barcode.
    Barcode1D(Barcode1DKind),
    /// MicroPDF417 barcode.
    MicroPdf417,
    /// Aztec code.
    AztecCode,
    /// MaxiCode symbol.
    MaxiCode,
    /// Diagonal line.
    GraphicDiagonal,
    /// Custom color image.
    CustomImage,
}

pub open spec fn opt_str_view(o: Option<String>) -> Option<Seq<char>> {
    match o {
        Some(v) => Some(v@),
        None => None,
    }
}

impl View for ZplInstructionAttributesOf<String> {
    type V = ZplInstructionAttributesOf<Seq<char>>;

    open spec fn view(&self) -> ZplInstructionAttributesOf<Seq<char>> {
        ZplInstructionAttributesOf {
            orientation: self.orientation,
            interpretation_line: self.interpretation_line,
            interpretation_above: self.interpretation_above,
            check_digit: self.check_digit,
            mode: self.mode,
            error_correction: self.error_correction,
            line_color: self.line_color,
            custom_line_color: opt_str_view(self.custom_line_color),
        }
    }
}

impl View for ZplInstructionParamsOf<String> {
    type V = ZplInstructionParamsOf<Seq<char>>;

    open spec fn view(&self) -> ZplInstructionParamsOf<Seq<char>> {
        ZplInstructionParamsOf {
            rounding: self.rounding,
            model: self.model,
            mask: self.mask,
            ratio: opt_str_view(self.ratio),
        }
    }
}

impl View for ZplInstructionFontOf<String> {
    type V = ZplInstructionFontOf<Seq<char>>;

    open spec fn view(&self) -> ZplInstructionFontOf<Seq<char>> {
        ZplInstructionFontOf {
            font_name: self.font_name,
            orientation: self.orientation,
            height: self.height,
            width: self.width,
            color: opt_str_view(self.color),
        }
    }
}

impl View for ZplInstructionStateOf<String, Vec<u8>> {
    type V = ZplInstructionStateOf<Seq<char>, Seq<u8>>;

    open spec fn view(&self) -> ZplInstructionStateOf<Seq<char>, Seq<u8>> {
        ZplInstructionStateOf {
            position: self.position,
            typeset: self.typeset,
            metrics: self.metrics,
            barcode_metrics: self.barcode_metrics,
            attributes: self.attributes@,
            params: self.params@,
            font: self.font@,
            reverse: self.reverse,
            value: opt_str_view(self.value),
            graphic_data: match self.graphic_data {
                Some(v) => Some(v@),
                None => None,
            },
            instruction_type: self.instruction_type,
            condition: match self.condition {
                Some(v) => Some((v.0@, v.1@)),
                None => None,
            },
            field_block: self.field_block,
            hex_escape: self.hex_escape,
            charset: self.charset,
            is_typeset: self.is_typeset,
        }
    }
}

/// The state before any command: everything zero, empty or absent, the
/// font identifier the NUL character.
pub open spec fn initial_state() -> StateView {
    ZplInstructionStateOf {
        position: ZplInstructionPosition { x: 0, y: 0 },
        typeset: ZplInstructionTypeset { x: 0, y: 0 },
        metrics: ZplInstructionMetrics { width: 0, height: 0, thickness: 0 },
        barcode_metrics: ZplInstructionMetrics { width: 0, height: 0, thickness: 0 },
        attributes: ZplInstructionAttributesOf {
            orientation: None,
            interpretation_line: None,
            interpretation_above: None,
            check_digit: None,
            mode: None,
            error_correction: None,
            line_color: None,
            custom_line_color: None,
        },
        params: ZplInstructionParamsOf { rounding: 0, model: 0, mask: 0, ratio: None },
        font: ZplInstructionFontOf {
            font_name: '\0',
            orientation: None,
            height: None,
            width: None,
            color: None,
        },
        reverse: false,
        value: None,
        graphic_data: None,
        instruction_type: None,
        condition: None,
        field_block: None,
        hex_escape: None,
        charset: 0,
        is_typeset: false,
    }
}

impl ZplInstructionStateOf<String, Vec<u8>> {
    /// The state before any command.
    pub fn new() -> (s: Self)
        ensures
            s@ == initial_state(),
    {
        ZplInstructionStateOf {
            position: ZplInstructionPosition { x: 0, y: 0 },
            typeset: ZplInstructionTypeset { x: 0, y: 0 },
            metrics: ZplInstructionMetrics { width: 0, height: 0, thickness: 0 },
            barcode_metrics: ZplInstructionMetrics { width: 0, height: 0, thickness: 0 },
            attributes: ZplInstructionAttributesOf {
                orientation: None,
                interpretation_line: None,
                interpretation_above: None,
                check_digit: None,
                mode: None,
                error_correction: None,
                line_color: None,
                custom_line_color: None,
            },
            params: ZplInstructionParamsOf { rounding: 0, model: 0, mask: 0, ratio: None },
            font: ZplInstructionFontOf {
                font_name: '\0',
                orientation: None,
                height: None,
                width: None,
                color: None,
            },
            reverse: false,
            value: None,
            graphic_data: None,
            instruction_type: None,
            condition: None,
            field_block: None,
            hex_escape: None,
            charset: 0,
            is_typeset: false,
        }
    }
}

} // verus!
