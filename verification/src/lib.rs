//! Conversion between decimal values and fixed-width signed-overpunch
//! fields.
//!
//! A numeric field stores its sign "overpunched" into the final character: a
//! digit-and-sign pair encoded as one character, a convention from mainframe
//! numeric storage. The crate extracts such a field into a
//! [`FixedDecimal`], formats a [`FixedDecimal`] back into a field, and
//! derives a field's scale from a compact picture string such as
//! `s9(7)v99`. The character table is pluggable through the [`Encoding`]
//! trait; [`Ebcdic`] is the standard table and the default for the
//! entry points here.

use vstd::prelude::*;

pub mod decimal;
mod digits;
pub mod encoding;
pub mod engine;
pub mod error;
pub mod laws;
pub mod picture;

pub use decimal::FixedDecimal;
pub use encoding::{AsciiSignLast, Ebcdic, Encoding, Sign};
pub use engine::{extract_with_encoding, format_with_encoding};
pub use error::Error;
pub use picture::parse_format;

use engine::{extract_post, format_post};
use picture::spec_picture_scale;

verus! {

/// Extracts a raw field under the default overpunch encoding.
pub fn extract(raw: &str, decimals: usize) -> (r: Result<FixedDecimal, Error>)
    ensures
        extract_post(Ebcdic, raw@, decimals, r),
{
    engine::extract_with_encoding(raw, decimals, &Ebcdic)
}

/// Formats a value as a raw field under the default overpunch encoding.
pub fn format(value: FixedDecimal, decimals: usize) -> (r: Result<String, Error>)
    ensures
        format_post(Ebcdic, value, decimals, r),
{
    engine::format_with_encoding(value, decimals, &Ebcdic)
}

/// Derives the scale from the picture string, then extracts the raw field
/// under the default overpunch encoding.
pub fn convert_from_signed_format(value: &str, field_format: &str) -> (r: Result<
    FixedDecimal,
    Error,
>)
    ensures
        ({
            let p = spec_picture_scale(field_format@);
            if p is Some && p->Some_0 <= usize::MAX {
                extract_post(Ebcdic, value@, p->Some_0 as usize, r)
            } else {
                match r {
                    Err(Error::InvalidFormatString(t)) => t@ == field_format@,
                    _ => false,
                }
            }
        }),
{
    let decimals = match parse_format(field_format) {
        Ok(d) => d,
        Err(e) => {
            return Err(e);
        },
    };
    engine::extract_with_encoding(value, decimals, &Ebcdic)
}

/// Derives the scale from the picture string, then formats the value under
/// the default overpunch encoding.
pub fn convert_to_signed_format(value: FixedDecimal, field_format: &str) -> (r: Result<
    String,
    Error,
>)
    ensures
        ({
            let p = spec_picture_scale(field_format@);
            if p is Some && p->Some_0 <= usize::MAX {
                format_post(Ebcdic, value, p->Some_0 as usize, r)
            } else {
                match r {
                    Err(Error::InvalidFormatString(t)) => t@ == field_format@,
                    _ => false,
                }
            }
        }),
{
    let decimals = match parse_format(field_format) {
        Ok(d) => d,
        Err(e) => {
            return Err(e);
        },
    };
    engine::format_with_encoding(value, decimals, &Ebcdic)
}

} // verus!
