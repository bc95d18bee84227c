//! ZPL label engine: parses ZPL II into commands, builds positioned drawing
//! instructions from them, and encodes the barcode symbologies it draws.

pub mod ast;
pub mod engine;
pub mod error;
pub mod forge;
pub mod renderer;
pub mod standalone_barcode;
pub mod text;
pub mod tools;

pub use error::{ZplError, ZplResult};
