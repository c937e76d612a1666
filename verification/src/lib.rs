//! Prefix (Polish) notation: validation, tokenization and stack reduction of
//! arithmetic expressions, with the reduced value kept as a symbolic term.

pub mod error;
pub mod evaluate;
pub mod prefix;
pub mod syntax;
pub mod term;
pub mod token;

pub use crate::error::PolishError;
pub use crate::evaluate::pn;
