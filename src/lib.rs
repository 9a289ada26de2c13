//! Conversion between 32-bit catalog identifiers and their text codes,
//! such as `530947` and `n1000cb`.
pub mod laws;
mod ncode;
pub mod text;

pub use ncode::{char_weight, Ncode, ParseNcodeError};
