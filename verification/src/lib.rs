//! Compact textual notation for sets of integers.
//!
//! A text such as `1,3:10,14:2:20` lists single values, bounded ranges
//! `start:end` and stepped ranges `start:step:end`. The crate turns such a
//! text into an ordered collection of terms that hands out its values one
//! at a time, and renders what is left of a collection back to text.
//!
//! Every function carries a contract over mathematical models: `int` for
//! numbers, `Seq<char>` for texts, sequences of terms for range sets.
//!
//! - `text`: characters, whitespace, cutting and joining
//! - `decimal`: decimal literals of integers
//! - `numeric`: the integer types that a range can hold
//! - `number`: terms, their validity and their values
//! - `options`: separators and default bounds
//! - `error`: why a text was not read
//! - `grammar`: the notation, from numbers up to lists
//! - `range`: range sets, pulling values and writing what is left
//! - `laws`: what holds between reading, pulling and writing, with the
//!   steps towards it in `lemmas`

pub mod decimal;
pub mod error;
pub mod grammar;
pub mod laws;
pub mod lemmas;
pub mod number;
pub mod numeric;
pub mod options;
pub mod range;
pub mod text;

pub use error::{NumberRangeParseError, ParseErrorKind};
pub use number::Number;
pub use numeric::{Numeric, Wide};
pub use options::NumberRangeOptions;
pub use range::NumberRange;
