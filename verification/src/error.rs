//! The error taxonomy of the crate.
//!
//! Every failure is local and recoverable: each operation returns its error
//! to the immediate caller, with no partial result and no retry.

use vstd::prelude::*;

verus! {

/// Everything that can go wrong while extracting, formatting, or parsing a
/// picture string.
#[derive(Debug, Clone, PartialEq, Eq)]
pub enum Error {
    /// The raw input had zero length.
    EmptyField,
    /// A character at a given zero-based position failed to decode as a plain
    /// digit (non-last positions) or as a sign-carrying digit (last position).
    ParseError { invalid_char: char, index: usize },
    /// An accumulated or rescaled magnitude left the 64-bit signed range.
    /// Carries a rendering of the offending input.
    OverflowError(String),
    /// A requested or derived scale exceeds the representable bound.
    InvalidScale(usize),
    /// A picture string does not match the supported grammar.
    /// Carries the offending picture string.
    InvalidFormatString(String),
    /// A character has no entry in the encoding's table. Surfaced directly by
    /// encodings; the extraction engine remaps it to `ParseError` so that the
    /// error shape is uniform regardless of position.
    UnsupportedCharacter(char),
}

} // verus!
