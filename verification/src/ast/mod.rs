//! The abstract syntax of ZPL: the commands a label is made of, and the
//! parser that reads them from text.

pub mod cmd;
pub mod commons;
pub mod parser;
