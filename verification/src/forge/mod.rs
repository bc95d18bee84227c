//! The symbologies: MaxiCode encoding, the native 1-D encoders and the
//! helpers that shape barcode data for the drawing backends.

pub mod barcode;
pub mod color;
pub mod fields;
pub mod geometry;
pub mod maxicode;
pub mod maxicode_tables;
pub mod symbology;
pub mod winansi;
