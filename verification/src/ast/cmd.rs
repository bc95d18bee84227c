//! The commands of a ZPL label.

use vstd::prelude::*;
use super::commons::{Barcode1DKind, Justification, YesNo};

verus! {

/// The supported ZPL commands, with text fields of type `S`.
#[derive(Debug, Clone)]
pub enum CommandOf<S> {
    /// ^XA - Start Format
    /// Starts the definition of a label format.
    StartFormat,

    /// ^XZ - End Format
    /// Terminates the definition of a label format.
    EndFormat,

    /// ^LH - Label Home
    /// Defines the default home position for the label.
    LabelHome {
        /// X coordinate of the home position (in dots)
        x: Option<u32>,
        /// Y coordinate of the home position (in dots)
        y: Option<u32>,
    },

    /// ^LL - Label Length
    /// Defines the length of the label (Y axis).
    LabelLength {
        /// Length of the label in dots
        length: Option<u32>,
    },

    /// ^FO - Field Origin
    /// Sets the top-left corner of the field area relative to the Label Home.
    FieldOrigin {
        /// X coordinate (in dots)
        x: Option<u32>,
        /// Y coordinate (in dots)
        y: Option<u32>,
    },

    /// ^FT - Field Typeset
    /// Sets the field position relative to the Label Home, defining the font's base point.
    FieldTypeset {
        /// X coordinate (in dots)
        x: Option<u32>,
        /// Y coordinate (in dots)
        y: Option<u32>,
    },

    /// ^FS - Field Separator
    /// Indicates the end of a field definition.
    FieldSeparator,

    /// ^LR - Label Reverse
    /// Inverts the printing of the entire label (white on black).
    LabelReverse {
        /// Reverse label (Y/N)
        reverse: Option<YesNo>,
    },

    /// ^FX - Comment
    /// A comment that does not print or affect the label.
    Comment {
        /// Comment text
        text: S,
    },

    /// ^A - Font Specification (Full)
    /// Specifies the font to be used in the following text field.
    FontSpecFull {
        /// Font name/letter (A-Z, 0-9)
        font_name: char,
        /// Field orientation (N, R, I, B)
        orientation: Option<char>,
        /// Character height in dots
        height: Option<u32>,
        /// Character width in dots
        width: Option<u32>,
    },

    /// ^CF - Change Default Font
    /// Sets the default alphanumeric font.
    FontSpec {
        /// Font name/letter
        font_name: char,
        /// Character height
        height: Option<u32>,
        /// Character width
        width: Option<u32>,
    },

    /// ^FD - Field Data
    /// Defines the data to be printed in the field.
    FieldData {
        /// Data string
        data: S,
    },

    /// ^FB - Field Block
    /// Formats a block of text within a defined rectangle.
    FieldBlock {
        /// Width of the text block
        width: Option<u32>,
        /// Maximum number of lines
        max_lines: Option<u32>,
        /// Extra space between lines
        line_spacing: Option<u32>,
        /// Text justification (L, C, R, J)
        justification: Option<Justification>,
        /// Indentation for the second line onwards
        indent: Option<u32>,
    },

    /// ^CI - Change International Font/Encoding
    /// Changes the character set or international encoding.
    ChangeIntFont {
        /// Character set identifier
        charset: Option<u32>,
    },

    /// ^FR - Field Reverse Print
    /// Prints the field as white on black (inverted).
    FieldReverse,

    /// ^GB - Graphic Box
    /// Draws boxes or lines.
    GraphicBox {
        /// Box width
        width: u32,
        /// Box height
        height: u32,
        /// Border thickness
        border_thickness: Option<u32>,
        /// Line color (B=Black, W=White)
        line_color: Option<char>,
        /// Corner rounding (0-8)
        corner_rounding: Option<u32>,
    },

    /// ^GC - Graphic Circle
    /// Draws a circle.
    GraphicCircle {
        /// Circle diameter
        diameter: Option<u32>,
        /// Border thickness
        border_thickness: Option<u32>,
        /// Line color
        line_color: Option<char>,
    },

    /// ^GE - Graphic Ellipse
    /// Draws an ellipse.
    GraphicEllipse {
        /// Ellipse width
        width: Option<u32>,
        /// Ellipse height
        height: Option<u32>,
        /// Border thickness
        border_thickness: Option<u32>,
        /// Line color
        line_color: Option<char>,
    },

    /// ^GF - Graphic Field
    /// Allows downloading graphic data directly to the bitmap buffer.
    GraphicField {
        /// Compression type (A, B, C)
        compression_type: Option<char>,
        /// Total binary data byte count
        binary_byte_count: Option<u32>,
        /// Total graphic field byte count
        graphic_field_count: Option<u32>,
        /// Bytes per data row
        bytes_per_row: Option<u32>,
        /// Image data (hexadecimal or binary)
        data: S,
    },

    /// ^GIC - Custom Image Color (Extension)
    /// Custom command to load color images with width, height and base64 data.
    CustomImage {
        /// Image width
        width: u32,
        /// Image height
        height: u32,
        /// Base64 encoded image data
        data: S,
    },

    /// ^GTC - Custom Text Color (Extension)
    /// Custom command to set the color of subsequent text fields.
    GraphicTextColor {
        /// Color in hex format (e.g., #FF0000)
        color: S,
    },

    /// ^GLC - Custom Line Color (Extension)
    /// Custom command to set the color of subsequent graphic elements.
    GraphicLineColor {
        /// Color in hex format (e.g., #FF0000)
        color: S,
    },

    /// ^IFC - If Condition Custom
    /// Custom command to render the current field only if a variable matches a value.
    IfCondition {
        /// The variable name
        variable: S,
        /// The expected value to match
        value: S,
    },

    /// ^BC - Code 128 Barcode
    /// Code 128 Barcode (Subsets A, B, and C).
    Code128 {
        /// Orientation
        orientation: Option<char>,
        /// Bar height
        height: Option<u32>,
        /// Print interpretation line (Y/N)
        interpretation_line: Option<char>,
        /// Interpretation line above (Y/N)
        interpretation_line_above: Option<char>,
        /// Verify check digit (Y/N)
        check_digit: Option<char>,
        /// Mode (N=Not selected, U=UCC Case Mode, A=Automatic, D=UCC/EAN Display)
        mode: Option<char>,
    },

    /// ^BQ - QR Code Barcode
    /// QR Code Barcode.
    QRCode {
        /// Orientation
        orientation: Option<char>,
        /// Model (1=Original, 2=Enhanced)
        model: Option<u32>,
        /// Magnification factor (1-10)
        magnification: Option<u32>,
        /// Error correction level (H, Q, M, L)
        error_correction: Option<char>,
        /// Data mask (0-7)
        mask: Option<u32>,
    },

    /// ^B3 - Code 39 Barcode
    /// Code 39 Barcode.
    Code39 {
        /// Orientation
        orientation: Option<char>,
        /// Check digit
        check_digit: Option<char>,
        /// Bar height
        height: Option<u32>,
        /// Print interpretation line
        interpretation_line: Option<char>,
        /// Interpretation line above
        interpretation_line_above: Option<char>,
    },

    /// Generic 1-D barcode commands sharing the `o,h,f,g,e` parameter shape:
    /// `^BE` (EAN-13), `^BU` (UPC-A), `^B2` (Interleaved 2 of 5), `^BA` (Code 93).
    Barcode1D {
        /// Which symbology this command selects.
        kind: Barcode1DKind,
        /// Orientation (N, R, I, B)
        orientation: Option<char>,
        /// Bar height in dots
        height: Option<u32>,
        /// Print interpretation line (Y/N)
        interpretation_line: Option<char>,
        /// Interpretation line above (Y/N)
        interpretation_line_above: Option<char>,
        /// Check digit (Y/N), where applicable
        check_digit: Option<char>,
    },

    /// ^GD - Graphic Diagonal Line
    /// Draws a diagonal line.
    GraphicDiagonal {
        /// Box width in dots
        width: Option<u32>,
        /// Box height in dots
        height: Option<u32>,
        /// Line thickness in dots
        thickness: Option<u32>,
        /// Line color (B/W)
        line_color: Option<char>,
        /// Leaning: 'R' (`/`) or 'L' (`\`)
        diagonal_orientation: Option<char>,
    },

    /// ^BY - Barcode Field Default
    /// Changes the default values for barcodes.
    BarcodeDefault {
        /// Module width (in dots)
        module_width: Option<u32>,
        /// Wide to narrow bar ratio, as the decimal text of the parameter
        ratio: Option<S>,
        /// Bar height
        height: Option<u32>,
    },

    /// ^BX - Data Matrix Barcode
    /// Two-dimensional Data Matrix Barcode.
    DataMatrix {
        /// Orientation
        orientation: Option<char>,
        /// Dimensional height
        height: Option<u32>,
        /// Quality level
        quality: Option<u32>,
        /// Columns to encode
        columns: Option<u32>,
        /// Rows to encode
        rows: Option<u32>,
    },

    /// ^B7 - PDF417 Barcode
    /// Multi-dimensional PDF417 Barcode.
    Pdf417 {
        /// Orientation
        orientation: Option<char>,
        /// Bar height
        height: Option<u32>,
        /// Security level
        security_level: Option<u32>,
        /// Number of data columns
        columns: Option<u32>,
        /// Number of rows
        rows: Option<u32>,
        /// Truncate symbol (Y/N)
        truncate: Option<YesNo>,
    },

    /// ^BF - MicroPDF417 Barcode
    MicroPdf417 {
        /// Orientation (N, R, I, B)
        orientation: Option<char>,
        /// Bar height in dots
        height: Option<u32>,
        /// Mode (0-33)
        mode: Option<u32>,
    },

    /// ^B0 / ^BO - Aztec Code Barcode
    AztecCode {
        /// Orientation (N, R, I, B)
        orientation: Option<char>,
        /// Magnification factor (1-10)
        magnification: Option<u32>,
        /// Extended channel (Y/N)
        extended_channel: Option<bool>,
        /// Error control / ECC percentage (0-99)
        ecc_percent: Option<u32>,
        /// Menu symbol (Y/N)
        menu_symbol: Option<bool>,
        /// Symbols count for structured append
        symbols_count: Option<u32>,
        /// ID field for structured append
        id_field: Option<S>,
    },

    /// ^BR - GS1 DataBar / RSS Barcode
    GS1DataBar {
        /// Orientation (N, R, I, B)
        orientation: Option<char>,
        /// Symbology type (1=RSS14, 2=Truncated, 3=Stacked, etc.)
        symbology_type: Option<u32>,
        /// Magnification (1-10)
        magnification: Option<u32>,
        /// Separator height
        separator_height: Option<u32>,
        /// Barcode height in dots
        height: Option<u32>,
        /// Segment width (even numbers 2-22)
        segment_width: Option<u32>,
    },

    /// ^BD - MaxiCode Barcode
    MaxiCode {
        /// Symbol mode (2, 3 or 4; 2 when omitted)
        mode: Option<u32>,
        /// Number of this symbol in a structured append sequence
        symbol: Option<u32>,
        /// Total number of symbols in the sequence
        total: Option<u32>,
    },

    /// ^FH - Field Hexadecimal Escape
    FieldHexEscape {
        /// Hexadecimal indicator character (defaults to '_')
        indicator: Option<char>,
    },

    /// Unsupported or unknown command
    UnsupportedCommand {
        /// Command code (e.g., ^XY)
        command: S,
        /// Raw command arguments
        args: S,
    },
}

/// A parsed command.
pub type Command = CommandOf<String>;

/// The mathematical form of a command: its text fields as character
/// sequences.
pub type CommandView = CommandOf<Seq<char>>;

impl View for CommandOf<String> {
    type V = CommandOf<Seq<char>>;

    open spec fn view(&self) -> CommandOf<Seq<char>> {
        match *self {
            CommandOf::StartFormat => CommandOf::StartFormat,
            CommandOf::EndFormat => CommandOf::EndFormat,
            CommandOf::LabelHome { x, y } => CommandOf::LabelHome { x: x, y: y },
            CommandOf::LabelLength { length } => CommandOf::LabelLength { length: length },
            CommandOf::FieldOrigin { x, y } => CommandOf::FieldOrigin { x: x, y: y },
            CommandOf::FieldTypeset { x, y } => CommandOf::FieldTypeset { x: x, y: y },
            CommandOf::FieldSeparator => CommandOf::FieldSeparator,
            CommandOf::LabelReverse { reverse } => CommandOf::LabelReverse { reverse: reverse },
            CommandOf::Comment { text } => CommandOf::Comment { text: text@ },
            CommandOf::FontSpecFull { font_name, orientation, height, width } => CommandOf::FontSpecFull { font_name: font_name, orientation: orientation, height: height, width: width },
            CommandOf::FontSpec { font_name, height, width } => CommandOf::FontSpec { font_name: font_name, height: height, width: width },
            CommandOf::FieldData { data } => CommandOf::FieldData { data: data@ },
            CommandOf::FieldBlock { width, max_lines, line_spacing, justification, indent } => CommandOf::FieldBlock { width: width, max_lines: max_lines, line_spacing: line_spacing, justification: justification, indent: indent },
            CommandOf::ChangeIntFont { charset } => CommandOf::ChangeIntFont { charset: charset },
            CommandOf::FieldReverse => CommandOf::FieldReverse,
            CommandOf::GraphicBox { width, height, border_thickness, line_color, corner_rounding } => CommandOf::GraphicBox { width: width, height: height, border_thickness: border_thickness, line_color: line_color, corner_rounding: corner_rounding },
            CommandOf::GraphicCircle { diameter, border_thickness, line_color } => CommandOf::GraphicCircle { diameter: diameter, border_thickness: border_thickness, line_color: line_color },
            CommandOf::GraphicEllipse { width, height, border_thickness, line_color } => CommandOf::GraphicEllipse { width: width, height: height, border_thickness: border_thickness, line_color: line_color },
            CommandOf::GraphicField { compression_type, binary_byte_count, graphic_field_count, bytes_per_row, data } => CommandOf::GraphicField { compression_type: compression_type, binary_byte_count: binary_byte_count, graphic_field_count: graphic_field_count, bytes_per_row: bytes_per_row, data: data@ },
            CommandOf::CustomImage { width, height, data } => CommandOf::CustomImage { width: width, height: height, data: data@ },
            CommandOf::GraphicTextColor { color } => CommandOf::GraphicTextColor { color: color@ },
            CommandOf::GraphicLineColor { color } => CommandOf::GraphicLineColor { color: color@ },
            CommandOf::IfCondition { variable, value } => CommandOf::IfCondition { variable: variable@, value: value@ },
            CommandOf::Code128 { orientation, height, interpretation_line, interpretation_line_above, check_digit, mode } => CommandOf::Code128 { orientation: orientation, height: height, interpretation_line: interpretation_line, interpretation_line_above: interpretation_line_above, check_digit: check_digit, mode: mode },
            CommandOf::QRCode { orientation, model, magnification, error_correction, mask } => CommandOf::QRCode { orientation: orientation, model: model, magnification: magnification, error_correction: error_correction, mask: mask },
            CommandOf::Code39 { orientation, check_digit, height, interpretation_line, interpretation_line_above } => CommandOf::Code39 { orientation: orientation, check_digit: check_digit, height: height, interpretation_line: interpretation_line, interpretation_line_above: interpretation_line_above },
            CommandOf::Barcode1D { kind, orientation, height, interpretation_line, interpretation_line_above, check_digit } => CommandOf::Barcode1D { kind: kind, orientation: orientation, height: height, interpretation_line: interpretation_line, interpretation_line_above: interpretation_line_above, check_digit: check_digit },
            CommandOf::GraphicDiagonal { width, height, thickness, line_color, diagonal_orientation } => CommandOf::GraphicDiagonal { width: width, height: height, thickness: thickness, line_color: line_color, diagonal_orientation: diagonal_orientation },
            CommandOf::BarcodeDefault { module_width, ratio, height } => CommandOf::BarcodeDefault { module_width: module_width, ratio: match ratio { Some(v) => Some(v@), None => None }, height: height },
            CommandOf::DataMatrix { orientation, height, quality, columns, rows } => CommandOf::DataMatrix { orientation: orientation, height: height, quality: quality, columns: columns, rows: rows },
            CommandOf::Pdf417 { orientation, height, security_level, columns, rows, truncate } => CommandOf::Pdf417 { orientation: orientation, height: height, security_level: security_level, columns: columns, rows: rows, truncate: truncate },
            CommandOf::MicroPdf417 { orientation, height, mode } => CommandOf::MicroPdf417 { orientation: orientation, height: height, mode: mode },
            CommandOf::AztecCode { orientation, magnification, extended_channel, ecc_percent, menu_symbol, symbols_count, id_field } => CommandOf::AztecCode { orientation: orientation, magnification: magnification, extended_channel: extended_channel, ecc_percent: ecc_percent, menu_symbol: menu_symbol, symbols_count: symbols_count, id_field: match id_field { Some(v) => Some(v@), None => None } },
            CommandOf::GS1DataBar { orientation, symbology_type, magnification, separator_height, height, segment_width } => CommandOf::GS1DataBar { orientation: orientation, symbology_type: symbology_type, magnification: magnification, separator_height: separator_height, height: height, segment_width: segment_width },
            CommandOf::MaxiCode { mode, symbol, total } => CommandOf::MaxiCode { mode: mode, symbol: symbol, total: total },
            CommandOf::FieldHexEscape { indicator } => CommandOf::FieldHexEscape { indicator: indicator },
            CommandOf::UnsupportedCommand { command, args } => CommandOf::UnsupportedCommand { command: command@, args: args@ },
        }
    }
}

} // verus!
