//! Errors of the engine.

use vstd::prelude::*;

verus! {

/// Why a label could not be read, built or drawn.
#[derive(Debug, Clone, PartialEq, Eq)]
pub enum ZplError {
    /// The ZPL text is malformed: the 1-based line of the problem and a
    /// description of it.
    ParseError { line: usize, message: String },
    /// There is nothing to render.
    EmptyInput,
    /// The commands ask for something the engine cannot build.
    InstructionError(String),
    /// A drawing backend or barcode encoder failed.
    BackendError(String),
    /// A font could not be loaded or used.
    FontError(String),
    /// An image could not be decoded.
    ImageError(String),
    /// A size limit that guards against exhausting resources was exceeded.
    SecurityLimitExceeded(String),
}

/// The result type of the engine.
pub type ZplResult<T> = Result<T, ZplError>;

} // verus!
