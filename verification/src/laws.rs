//! The crate's laws: theorems that tie the engines together.
//!
//! They are stated over the engines' contract-level specifications, and —
//! like the engines themselves — generically over every [`Encoding`] that
//! satisfies the trait's laws, so any conforming implementation enjoys the
//! same round-trip behavior with no change to the engines.

use vstd::arithmetic::div_mod::lemma_fundamental_div_mod;
use vstd::arithmetic::mul::lemma_mul_is_associative;
use vstd::prelude::*;

use crate::decimal::{FixedDecimal, MAX_MAGNITUDE, MAX_SCALE};
use crate::digits::{
    digits_of, lemma_digits_of, lemma_pad_zeros, lemma_pow10_adds, lemma_pow10_pos, pad_zeros,
    pow10, seq_num,
};
use crate::encoding::{digit_char, Ebcdic, Encoding, Sign};
use crate::engine::{
    acc_upto, digit_at, digits_ok_upto, extract_post, format_post, formatted_chars, last_sign,
    lemma_acc_monotone, rescale_spec,
};
use crate::error::Error;

verus! {

/// Whether `v` is exactly representable with `scale` fractional digits:
/// rescaling to `scale` drops nothing.
pub open spec fn representable_at(v: FixedDecimal, scale: nat) -> bool {
    scale >= v.scale || v.magnitude as nat % pow10((v.scale - scale) as nat) == 0
}

/// Reading the accumulated number off a field whose positions decode to the
/// digits `ds` gives exactly the number those digits denote.
proof fn lemma_acc_is_seq_num<E: Encoding>(enc: E, out: Seq<char>, ds: Seq<u8>, k: nat)
    requires
        out.len() == ds.len(),
        k <= ds.len(),
        forall|i: int| 0 <= i < ds.len() ==> digit_at(enc, out, i) == Some(ds[i]),
    ensures
        acc_upto(enc, out, k) == seq_num(ds.take(k as int)),
    decreases k,
{
    if k > 0 {
        lemma_acc_is_seq_num(enc, out, ds, (k - 1) as nat);
        assert(ds.take(k as int).drop_last() =~= ds.take(k as int - 1));
        assert(seq_num(ds.take(k as int)) == seq_num(ds.take(k as int - 1)) * 10 + ds[k as int
            - 1] as nat);
    }
}

/// A formatted field decodes position by position: every position is a
/// digit, the accumulated number is the formatted magnitude, and the final
/// character carries the formatted sign.
proof fn lemma_formatted_decodes<E: Encoding>(enc: E, m: nat, scale: nat, sign: Sign)
    ensures
        ({
            let out = formatted_chars(enc, m, scale, sign);
            &&& out.len() > 0
            &&& digits_ok_upto(enc, out, out.len() as int)
            &&& acc_upto(enc, out, out.len()) == m
            &&& last_sign(enc, out) == sign
        }),
{
    lemma_digits_of(m);
    lemma_pad_zeros(digits_of(m), scale + 1);
    let ds = pad_zeros(digits_of(m), scale + 1);
    let out = formatted_chars(enc, m, scale, sign);
    assert(out.len() == ds.len());
    assert(forall|i: int| 0 <= i < ds.len() ==> ds[i] <= 9);
    enc.lemma_encode_total(ds.last(), sign);
    enc.lemma_decode_encode(ds.last(), sign);
    assert(digit_at(enc, out, out.len() - 1) == Some(ds.last()));
    assert(last_sign(enc, out) == sign);
    assert forall|i: int| 0 <= i < ds.len() implies digit_at(enc, out, i) == Some(ds[i]) by {
        if i < ds.len() - 1 {
            enc.lemma_decode_digit_plain(ds[i]);
            assert(out[i] == digit_char(ds[i]));
        } else {
            assert(ds[i] == ds.last());
        }
    }
    lemma_acc_is_seq_num(enc, out, ds, ds.len());
    assert(ds.take(ds.len() as int) =~= ds);
}

/// Rescaling a value to a scale at which it is exactly representable keeps
/// its number: the cross-multiplied magnitudes agree.
proof fn lemma_rescale_preserves_value(v: FixedDecimal, scale: nat)
    requires
        representable_at(v, scale),
    ensures
        rescale_spec(v.magnitude as nat, v.scale as nat, scale) * pow10(v.scale as nat)
            == v.magnitude as nat * pow10(scale),
{
    let m = v.magnitude as nat;
    let sv = v.scale as nat;
    if scale >= sv {
        let k = (scale - sv) as nat;
        lemma_pow10_adds(k, sv);
        lemma_mul_is_associative(m as int, pow10(k) as int, pow10(sv) as int);
    } else {
        let k = (sv - scale) as nat;
        let d = pow10(k);
        lemma_pow10_pos(k);
        lemma_fundamental_div_mod(m as int, d as int);
        let q = m / d;
        assert(m == q * d);
        assert(rescale_spec(m, sv, scale) == q);
        lemma_pow10_adds(k, scale);
        lemma_mul_is_associative(q as int, d as int, pow10(scale) as int);
        assert(q * pow10(sv) == (q * d) * pow10(scale));
    }
}

/// ROUND TRIP. Formatting a value at a scale at which it is exactly
/// representable — and at which its rescaled magnitude stays in range — and
/// extracting the resulting field at that same scale succeeds and returns
/// the value back: numerically equal, with the sign preserved exactly, also
/// for the two zeros. The law holds for every conforming [`Encoding`], so
/// implementations are freely substitutable under the generic entry points.
pub proof fn lemma_format_extract_round_trip<E: Encoding>(
    enc: E,
    v: FixedDecimal,
    scale: usize,
    fr: Result<String, Error>,
    er: Result<FixedDecimal, Error>,
)
    requires
        scale <= MAX_SCALE,
        representable_at(v, scale as nat),
        rescale_spec(v.magnitude as nat, v.scale as nat, scale as nat) <= MAX_MAGNITUDE,
        format_post(enc, v, scale, fr),
        fr is Ok ==> extract_post(enc, fr->Ok_0@, scale, er),
    ensures
        fr is Ok,
        er is Ok,
        er->Ok_0.same_value(v),
        er->Ok_0.negative == v.negative,
        er->Ok_0.scale == scale,
{
    let m = rescale_spec(v.magnitude as nat, v.scale as nat, scale as nat);
    assert(fr is Ok);
    let out = fr->Ok_0@;
    lemma_formatted_decodes(enc, m, scale as nat, v.spec_sign());
    if er is Err {
        match er->Err_0 {
            Error::EmptyField => {
                assert(false);
            },
            Error::ParseError { invalid_char, index } => {
                assert(digit_at(enc, out, index as int) is Some);
                assert(false);
            },
            Error::OverflowError(s) => {
                let i = choose|i: int|
                    0 <= i < out.len() && #[trigger] digits_ok_upto(enc, out, i + 1) && acc_upto(
                        enc,
                        out,
                        i as nat,
                    ) <= MAX_MAGNITUDE && acc_upto(enc, out, (i + 1) as nat) > MAX_MAGNITUDE;
                lemma_acc_monotone(enc, out, (i + 1) as nat, out.len());
                assert(false);
            },
            Error::InvalidScale(d) => {
                assert(false);
            },
            _ => {
                assert(false);
            },
        }
    }
    lemma_rescale_preserves_value(v, scale as nat);
}

/// A zero magnitude rescales to zero at every scale, so
/// [`lemma_signed_zero_formatting`] applies to the formatted output of every
/// zero value.
pub proof fn lemma_rescale_zero(from: nat, to: nat)
    ensures
        rescale_spec(0, from, to) == 0,
{
    if to >= from {
        assert(0 * pow10((to - from) as nat) == 0);
    } else {
        let d = pow10((from - to) as nat);
        lemma_pow10_pos((from - to) as nat);
        lemma_fundamental_div_mod(0, d as int);
    }
}

/// SIGNED ZERO. Formatting a zero at a given scale yields `scale` zero
/// characters followed by the encoding of digit zero under the value's own
/// sign: the outputs for the two signs share their whole zero padding and
/// differ exactly in the final, sign-carrying character.
pub proof fn lemma_signed_zero_formatting<E: Encoding>(enc: E, scale: nat)
    ensures
        ({
            let neg = formatted_chars(enc, 0, scale, Sign::Negative);
            let pos = formatted_chars(enc, 0, scale, Sign::Positive);
            &&& neg.len() == scale + 1
            &&& pos.len() == scale + 1
            &&& neg.take(scale as int) == pos.take(scale as int)
            &&& forall|i: int| 0 <= i < scale ==> neg[i] == '0' && pos[i] == '0'
            &&& neg.last() == enc.spec_encode(0, Sign::Negative)->Some_0
            &&& pos.last() == enc.spec_encode(0, Sign::Positive)->Some_0
        }),
{
    lemma_digits_of(0);
    lemma_pad_zeros(digits_of(0), scale + 1);
    let ds = pad_zeros(digits_of(0), scale + 1);
    assert(digits_of(0) =~= seq![0u8]);
    assert(ds.len() == scale + 1);
    assert(forall|i: int| 0 <= i < ds.len() ==> ds[i] == 0u8);
    let neg = formatted_chars(enc, 0, scale, Sign::Negative);
    let pos = formatted_chars(enc, 0, scale, Sign::Positive);
    assert(forall|i: int| 0 <= i < scale ==> neg[i] == '0' && pos[i] == '0');
    assert(neg.take(scale as int) =~= pos.take(scale as int));
}

/// Under the standard overpunch table the two zero fields end in `{` and
/// `}`.
pub proof fn lemma_signed_zero_overpunch(scale: nat)
    ensures
        formatted_chars(Ebcdic, 0, scale, Sign::Positive).last() == '{',
        formatted_chars(Ebcdic, 0, scale, Sign::Negative).last() == '}',
{
    lemma_signed_zero_formatting(Ebcdic, scale);
}

} // verus!
