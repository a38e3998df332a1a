//! The extraction and formatting engines.
//!
//! Extraction reads a fixed-width field left to right: every character but
//! the last must be a plain digit, the last carries the sign, and the digit
//! stream is accumulated with overflow-checked arithmetic. Formatting
//! rescales a value to the requested count of fractional digits — rounding
//! half away from zero, the native rounding of [`FixedDecimal`] — renders the
//! magnitude left-padded with zeros, and overpunches the sign into the final
//! digit.

use vstd::arithmetic::div_mod::{
    lemma_basic_div, lemma_div_is_ordered, lemma_div_is_ordered_by_denominator,
    lemma_fundamental_div_mod, lemma_small_mod,
};
use vstd::arithmetic::mul::{
    lemma_mul_inequality, lemma_mul_is_associative, lemma_mul_is_commutative,
};
use vstd::prelude::*;
use vstd::string::StringExecFns;
use vstd::string::StrSliceExecFns;

use crate::decimal::{FixedDecimal, MAX_MAGNITUDE, MAX_SCALE};
use crate::digits::{
    digits_of, lemma_pow10_adds, lemma_pow10_increases, lemma_pow10_pos, lemma_pow10_values,
    pad_zeros, padded_digits_vec, pow10, pow10_u64, push_char,
};
use crate::encoding::{digit_char, digit_to_char, Encoding, Sign};
use crate::error::Error;

verus! {

/// The digit the field's character at position `i` stands for under `enc`:
/// the last position decodes sign-aware, every other position as a plain
/// digit.
pub open spec fn digit_at<E: Encoding>(enc: E, cs: Seq<char>, i: int) -> Option<u8> {
    if i == cs.len() - 1 {
        match enc.spec_decode(cs[i]) {
            Some(p) => Some(p.0),
            None => None,
        }
    } else {
        enc.spec_decode_digit(cs[i])
    }
}

/// Every position before `k` decodes.
pub open spec fn digits_ok_upto<E: Encoding>(enc: E, cs: Seq<char>, k: int) -> bool {
    forall|j: int| 0 <= j < k ==> digit_at(enc, cs, j) is Some
}

/// The number the first `k` decoded digits accumulate to.
pub open spec fn acc_upto<E: Encoding>(enc: E, cs: Seq<char>, k: nat) -> nat
    decreases k,
{
    if k == 0 {
        0
    } else {
        acc_upto(enc, cs, (k - 1) as nat) * 10 + digit_at(enc, cs, k - 1)->Some_0 as nat
    }
}

/// The sign the final character decodes to.
pub open spec fn last_sign<E: Encoding>(enc: E, cs: Seq<char>) -> Sign {
    enc.spec_decode(cs[cs.len() - 1])->Some_0.1
}

/// The accumulated value never shrinks as more digits are read.
pub proof fn lemma_acc_monotone<E: Encoding>(enc: E, cs: Seq<char>, j: nat, k: nat)
    requires
        j <= k,
    ensures
        acc_upto(enc, cs, j) <= acc_upto(enc, cs, k),
    decreases k,
{
    if j < k {
        lemma_acc_monotone(enc, cs, j, (k - 1) as nat);
    }
}

/// The whole contract of extraction: which result comes back for which
/// input, case by case and exactly.
pub open spec fn extract_post<E: Encoding>(
    enc: E,
    cs: Seq<char>,
    decimals: usize,
    r: Result<FixedDecimal, Error>,
) -> bool {
    let n = cs.len();
    match r {
        Ok(v) => {
            &&& n > 0
            &&& digits_ok_upto(enc, cs, n as int)
            &&& acc_upto(enc, cs, n) <= MAX_MAGNITUDE
            &&& decimals <= MAX_SCALE
            &&& v.magnitude == acc_upto(enc, cs, n)
            &&& v.scale == decimals
            &&& v.negative == (last_sign(enc, cs) == Sign::Negative)
        },
        Err(e) => match e {
            Error::EmptyField => n == 0,
            Error::ParseError { invalid_char, index } => {
                &&& index < n
                &&& digits_ok_upto(enc, cs, index as int)
                &&& acc_upto(enc, cs, index as nat) <= MAX_MAGNITUDE
                &&& digit_at(enc, cs, index as int) is None
                &&& invalid_char == cs[index as int]
            },
            Error::OverflowError(s) => {
                &&& s@ == cs
                &&& exists|i: int|
                    0 <= i < n && #[trigger] digits_ok_upto(enc, cs, i + 1) && acc_upto(
                        enc,
                        cs,
                        i as nat,
                    ) <= MAX_MAGNITUDE && acc_upto(enc, cs, (i + 1) as nat) > MAX_MAGNITUDE
            },
            Error::InvalidScale(d) => {
                &&& d == decimals
                &&& decimals > MAX_SCALE
                &&& n > 0
                &&& digits_ok_upto(enc, cs, n as int)
                &&& acc_upto(enc, cs, n) <= MAX_MAGNITUDE
            },
            _ => false,
        },
    }
}

/// Converts a raw field to a decimal value under the given encoding.
pub fn extract_with_encoding<E: Encoding>(raw: &str, decimals: usize, encoding: &E) -> (r: Result<
    FixedDecimal,
    Error,
>)
    ensures
        extract_post(*encoding, raw@, decimals, r),
{
    let ghost cs = raw@;
    let n = raw.unicode_len();
    if n == 0 {
        return Err(Error::EmptyField);
    }
    let mut acc: u64 = 0;
    let mut negative: bool = false;
    let mut i: usize = 0;
    while i < n
        invariant
            n == cs.len(),
            cs == raw@,
            n > 0,
            i <= n,
            digits_ok_upto(*encoding, cs, i as int),
            acc as nat == acc_upto(*encoding, cs, i as nat),
            acc <= MAX_MAGNITUDE,
            i == n ==> negative == (last_sign(*encoding, cs) == Sign::Negative),
        decreases n - i,
    {
        let c = raw.get_char(i);
        let d: u8;
        if i == n - 1 {
            match encoding.decode(c) {
                Ok(p) => {
                    d = p.0;
                    negative = match p.1 {
                        Sign::Negative => true,
                        Sign::Positive => false,
                    };
                },
                Err(_) => {
                    return Err(Error::ParseError { invalid_char: c, index: i });
                },
            }
        } else {
            match encoding.decode_digit(c) {
                Ok(dd) => {
                    d = dd;
                },
                Err(_) => {
                    return Err(Error::ParseError { invalid_char: c, index: i });
                },
            }
        }
        proof {
            assert(digit_at(*encoding, cs, i as int) == Some(d));
            assert forall|j: int| 0 <= j < i as int + 1 implies digit_at(
                *encoding,
                cs,
                j,
            ) is Some by {
                if j < i as int {
                    assert(digit_at(*encoding, cs, j) is Some);
                }
            }
            assert(acc_upto(*encoding, cs, (i + 1) as nat) == acc as nat * 10 + d as nat);
        }
        let limit = (MAX_MAGNITUDE - (d as u64)) / 10;
        if acc > limit {
            proof {
                lemma_fundamental_div_mod(MAX_MAGNITUDE as int - d as int, 10);
                assert(acc as nat * 10 + d as nat > MAX_MAGNITUDE);
                let ii = i as int;
                assert(0 <= ii < n && digits_ok_upto(*encoding, cs, ii + 1) && acc_upto(
                    *encoding,
                    cs,
                    ii as nat,
                ) <= MAX_MAGNITUDE && acc_upto(*encoding, cs, (ii + 1) as nat) > MAX_MAGNITUDE);
            }
            return Err(Error::OverflowError(String::from_str(raw)));
        }
        proof {
            lemma_fundamental_div_mod(MAX_MAGNITUDE as int - d as int, 10);
            assert(acc as nat * 10 + d as nat <= MAX_MAGNITUDE);
        }
        acc = acc * 10 + (d as u64);
        i = i + 1;
    }
    if decimals > MAX_SCALE as usize {
        return Err(Error::InvalidScale(decimals));
    }
    Ok(FixedDecimal { magnitude: acc, scale: decimals as u32, negative })
}

/// The magnitude of a value rescaled from `from` fractional digits to `to`:
/// scaling up multiplies by the power of ten; scaling down divides, rounding
/// half away from zero.
pub open spec fn rescale_spec(m: nat, from: nat, to: nat) -> nat {
    if to >= from {
        m * pow10((to - from) as nat)
    } else {
        let d = pow10((from - to) as nat);
        let q = m / d;
        if 2 * (m % d) >= d {
            q + 1
        } else {
            q
        }
    }
}

/// Computes [`rescale_spec`], reporting `None` where the result leaves the
/// representable range.
fn rescale_magnitude(m: u64, from: u32, to: u32) -> (r: Option<u64>)
    requires
        to <= MAX_SCALE,
    ensures
        match r {
            Some(x) => x as nat == rescale_spec(m as nat, from as nat, to as nat) && x
                <= MAX_MAGNITUDE,
            None => rescale_spec(m as nat, from as nat, to as nat) > MAX_MAGNITUDE && to >= from,
        },
{
    if to >= from {
        let k = to - from;
        let mut x: u64 = m;
        let mut i: u32 = 0;
        proof {
            assert(pow10(0) == 1);
        }
        while i < k
            invariant
                i <= k,
                k == to - from,
                x as nat == m as nat * pow10(i as nat),
            decreases k - i,
        {
            proof {
                assert(pow10((i + 1) as nat) == 10 * pow10(i as nat));
                lemma_mul_is_associative(m as int, pow10(i as nat) as int, 10);
                lemma_mul_is_commutative(pow10(i as nat) as int, 10);
                assert(m as nat * pow10((i + 1) as nat) == x as nat * 10);
            }
            if x > MAX_MAGNITUDE / 10 {
                proof {
                    lemma_fundamental_div_mod(MAX_MAGNITUDE as int, 10);
                    assert(x as nat * 10 > MAX_MAGNITUDE);
                    let rest = ((k - i) as nat - 1) as nat;
                    lemma_pow10_adds(i as nat + 1, rest);
                    lemma_pow10_pos(rest);
                    assert(pow10(k as nat) == pow10(i as nat + 1) * pow10(rest));
                    lemma_mul_is_associative(m as int, pow10(i as nat + 1) as int, pow10(
                        rest,
                    ) as int);
                    assert(m as nat * pow10(i as nat + 1) == x as nat * 10);
                    lemma_mul_inequality(1, pow10(rest) as int, (x as nat * 10) as int);
                    lemma_mul_is_commutative((x as nat * 10) as int, pow10(rest) as int);
                    assert(m as nat * pow10(k as nat) >= x as nat * 10);
                }
                return None;
            }
            proof {
                lemma_fundamental_div_mod(MAX_MAGNITUDE as int, 10);
                assert(x as nat * 10 <= MAX_MAGNITUDE);
            }
            x = x * 10;
            i = i + 1;
        }
        if x <= MAX_MAGNITUDE {
            Some(x)
        } else {
            None
        }
    } else {
        let k = from - to;
        if m == 0 {
            proof {
                lemma_pow10_pos(k as nat);
                let d = pow10(k as nat);
                lemma_basic_div(0, d as int);
                lemma_small_mod(0, d);
            }
            return Some(0);
        }
        if k >= 20 {
            proof {
                lemma_pow10_values();
                lemma_pow10_increases(20, k as nat);
                let d = pow10(k as nat);
                lemma_basic_div(m as int, d as int);
                lemma_small_mod(m as nat, d);
                assert(2 * (m as nat) < d);
            }
            return Some(0);
        }
        let d = pow10_u64(k);
        let q = m / d;
        let rem = m % d;
        proof {
            lemma_pow10_values();
            lemma_pow10_increases(1, k as nat);
            lemma_div_is_ordered_by_denominator(m as int, 10, d as int);
            lemma_div_is_ordered(m as int, u64::MAX as int, 10);
        }
        if rem >= d - rem {
            Some(q + 1)
        } else {
            Some(q)
        }
    }
}

/// The full output of formatting: the rescaled magnitude rendered as digits,
/// left-padded with zeros to at least `scale + 1` characters, with the final
/// digit replaced by its sign-carrying encoding.
pub open spec fn formatted_chars<E: Encoding>(enc: E, m: nat, scale: nat, sign: Sign) -> Seq<
    char,
> {
    let ds = pad_zeros(digits_of(m), scale + 1);
    Seq::new((ds.len() - 1) as nat, |j: int| digit_char(ds[j])).push(
        enc.spec_encode(ds.last(), sign)->Some_0,
    )
}

/// The whole contract of formatting, case by case and exactly.
pub open spec fn format_post<E: Encoding>(
    enc: E,
    value: FixedDecimal,
    decimals: usize,
    r: Result<String, Error>,
) -> bool {
    let rescaled = rescale_spec(value.magnitude as nat, value.scale as nat, decimals as nat);
    match r {
        Ok(out) => {
            &&& decimals <= MAX_SCALE
            &&& rescaled <= MAX_MAGNITUDE
            &&& out@ == formatted_chars(enc, rescaled, decimals as nat, value.spec_sign())
        },
        Err(e) => match e {
            Error::InvalidScale(d) => d == decimals && decimals > MAX_SCALE,
            Error::OverflowError(s) => {
                &&& decimals <= MAX_SCALE
                &&& rescaled > MAX_MAGNITUDE
                &&& s@ == value.spec_decimal_string()
            },
            _ => false,
        },
    }
}

/// Converts a decimal value to a raw field under the given encoding.
pub fn format_with_encoding<E: Encoding>(value: FixedDecimal, decimals: usize, encoding: &E) -> (r:
    Result<String, Error>)
    ensures
        format_post(*encoding, value, decimals, r),
{
    if decimals > MAX_SCALE as usize {
        return Err(Error::InvalidScale(decimals));
    }
    let m = match rescale_magnitude(value.magnitude, value.scale, decimals as u32) {
        Some(x) => x,
        None => {
            return Err(Error::OverflowError(value.to_decimal_string()));
        },
    };
    let ds = padded_digits_vec(m, decimals + 1);
    let ghost chars = Seq::new((ds@.len() - 1) as nat, |j: int| digit_char(ds@[j]));
    let mut out = String::new();
    proof {
        assert(out@ =~= chars.take(0));
    }
    let mut i: usize = 0;
    while i < ds.len() - 1
        invariant
            ds@.len() >= 1,
            ds@.len() >= decimals + 1,
            forall|kk: int| 0 <= kk < ds@.len() ==> ds@[kk] <= 9,
            chars == Seq::new((ds@.len() - 1) as nat, |j: int| digit_char(ds@[j])),
            i <= ds@.len() - 1,
            out@ == chars.take(i as int),
        decreases ds@.len() - 1 - i,
    {
        let c = digit_to_char(ds[i]);
        push_char(&mut out, c);
        proof {
            assert(chars.take(i as int + 1) =~= chars.take(i as int).push(chars[i as int]));
        }
        i = i + 1;
    }
    let last = ds[ds.len() - 1];
    let sign = if value.negative {
        Sign::Negative
    } else {
        Sign::Positive
    };
    proof {
        encoding.lemma_encode_total(last, sign);
    }
    match encoding.encode(last, sign) {
        Ok(c) => {
            push_char(&mut out, c);
            proof {
                assert(chars.take(ds@.len() - 1) =~= chars);
                assert(out@ =~= formatted_chars(
                    *encoding,
                    m as nat,
                    decimals as nat,
                    value.spec_sign(),
                ));
            }
            Ok(out)
        },
        Err(e) => {
            // never taken: the encoding law guarantees an entry for every
            // digit, and the rendered digits are all at most nine
            proof {
                assert(false);
            }
            Err(e)
        },
    }
}

} // verus!
