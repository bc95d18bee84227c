//! The engine: turns the commands of a label into self-contained drawing
//! instructions, tracking the modal state (origin, font, barcode defaults)
//! that ZPL carries from field to field.

pub mod common;
pub mod engine;
pub mod font_map;
pub mod intr;
pub mod layout;
pub mod shaping;
pub mod state;
pub mod vars;

pub use common::{Barcode1DKind, TextBlock, ZplInstruction};
