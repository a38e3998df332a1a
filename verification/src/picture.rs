//! The picture-format parser.
//!
//! A picture string such as `s9(7)v999` describes a field's layout; the
//! parser derives only the scale — the count of fractional digits after the
//! `v`/`V` marker — and validates the overall shape, deliberately ignoring
//! the leading sign indicator and the integer-digit group's content.

use vstd::arithmetic::div_mod::lemma_fundamental_div_mod;
use vstd::prelude::*;
use vstd::string::StrSliceExecFns;
use vstd::string::StringExecFns;

use crate::encoding::{plain_digit, spec_plain_digit};
use crate::error::Error;

verus! {

/// Whether `c` is the decimal-point marker.
pub open spec fn is_marker(c: char) -> bool {
    c == 'v' || c == 'V'
}

/// The position of the first marker at or after `i`, if any.
pub open spec fn find_marker_from(cs: Seq<char>, i: nat) -> Option<int>
    decreases cs.len() - i,
{
    if i >= cs.len() {
        None
    } else if is_marker(cs[i as int]) {
        Some(i as int)
    } else {
        find_marker_from(cs, i + 1)
    }
}

/// Whether the sequence consists of `9` characters only.
pub open spec fn all_nines(cs: Seq<char>) -> bool {
    forall|i: int| 0 <= i < cs.len() ==> cs[i] == '9'
}

/// Whether every character is a plain decimal digit.
pub open spec fn digits_run(cs: Seq<char>) -> bool {
    forall|i: int| 0 <= i < cs.len() ==> spec_plain_digit(cs[i]) is Some
}

/// The number a run of digit characters denotes.
pub open spec fn chars_num(cs: Seq<char>) -> nat
    decreases cs.len(),
{
    if cs.len() == 0 {
        0
    } else {
        chars_num(cs.drop_last()) * 10 + spec_plain_digit(cs.last())->Some_0 as nat
    }
}

/// Whether the sequence is exactly `9(` digits `)` with a non-empty digit
/// run.
pub open spec fn nine_paren(cs: Seq<char>) -> bool {
    &&& cs.len() >= 4
    &&& cs[0] == '9'
    &&& cs[1] == '('
    &&& cs.last() == ')'
    &&& digits_run(cs.subrange(2, cs.len() - 1))
}

/// The scale a picture string denotes, if it matches the grammar:
/// with a `v`/`V` marker, the fraction spec after it must be `9(n)` (scale
/// `n`), a non-empty run of `9`s (scale = run length), or empty (scale 0);
/// without one, the string must start with `s` or `9` (scale 0).
pub open spec fn spec_picture_scale(cs: Seq<char>) -> Option<nat> {
    match find_marker_from(cs, 0) {
        Some(p) => {
            let frac = cs.subrange(p + 1, cs.len() as int);
            if nine_paren(frac) {
                Some(chars_num(frac.subrange(2, frac.len() - 1)))
            } else if frac.len() > 0 && all_nines(frac) {
                Some(frac.len())
            } else if frac.len() == 0 {
                Some(0nat)
            } else {
                None
            }
        },
        None => if cs.len() > 0 && (cs[0] == 's' || cs[0] == '9') {
            Some(0nat)
        } else {
            None
        },
    }
}

/// A digit run's value only grows as the run extends.
proof fn lemma_chars_num_prefix(ds: Seq<char>, k: int)
    requires
        0 <= k <= ds.len(),
    ensures
        chars_num(ds.take(k)) <= chars_num(ds),
    decreases ds.len() - k,
{
    if k < ds.len() {
        lemma_chars_num_prefix(ds, k + 1);
        assert(ds.take(k + 1).drop_last() =~= ds.take(k));
        assert(chars_num(ds.take(k + 1)) == chars_num(ds.take(k)) * 10 + spec_plain_digit(
            ds.take(k + 1).last(),
        )->Some_0 as nat);
    } else {
        assert(ds.take(k) =~= ds);
    }
}

/// Parses the fraction spec that follows a marker at position `p`.
fn parse_frac(s: &str, p: usize, n: usize) -> (r: Result<usize, Error>)
    requires
        n == s@.len(),
        p < n,
        find_marker_from(s@, 0) == Some(p as int),
    ensures
        match r {
            Ok(sc) => spec_picture_scale(s@) == Some(sc as nat),
            Err(e) => match e {
                Error::InvalidFormatString(t) => {
                    &&& t@ == s@
                    &&& (spec_picture_scale(s@) is None || spec_picture_scale(s@)->Some_0
                        > usize::MAX)
                },
                _ => false,
            },
        },
{
    let ghost cs = s@;
    let ghost frac = cs.subrange(p as int + 1, cs.len() as int);
    let fl = n - p - 1;
    if fl == 0 {
        return Ok(0);
    }
    if fl >= 4 {
        let c1 = s.get_char(p + 1);
        let c2 = s.get_char(p + 2);
        let cl = s.get_char(n - 1);
        if c1 == '9' && c2 == '(' && cl == ')' {
            let ghost digs = frac.subrange(2, frac.len() - 1);
            proof {
                assert(frac[0] == c1);
                assert(frac[1] == c2);
                assert(frac.last() == cl);
            }
            let mut j: usize = p + 3;
            let mut val: usize = 0;
            while j < n - 1
                invariant
                    n == cs.len(),
                    cs == s@,
                    p + 3 <= j <= n - 1,
                    p + 4 < n,
                    find_marker_from(cs, 0) == Some(p as int),
                    frac == cs.subrange(p as int + 1, cs.len() as int),
                    frac.len() >= 4,
                    frac[0] == '9',
                    frac[1] == '(',
                    frac.last() == ')',
                    digs == frac.subrange(2, frac.len() - 1),
                    digs.len() == n - p - 4,
                    forall|t: int|
                        0 <= t < j - p - 3 ==> spec_plain_digit(#[trigger] digs[t]) is Some,
                    val as nat == chars_num(digs.take(j - p - 3)),
                decreases n - 1 - j,
            {
                let c = s.get_char(j);
                proof {
                    assert(digs[j - p - 3] == c);
                }
                match plain_digit(c) {
                    Some(dg) => {
                        proof {
                            assert(digs.take(j - p - 3 + 1).drop_last() =~= digs.take(j - p - 3));
                            assert(chars_num(digs.take(j - p - 3 + 1)) == val as nat * 10
                                + dg as nat);
                        }
                        if val > (usize::MAX - (dg as usize)) / 10 {
                            proof {
                                lemma_fundamental_div_mod(usize::MAX as int - dg as int, 10);
                                assert(chars_num(digs.take(j - p - 3 + 1)) > usize::MAX);
                                if digits_run(digs) {
                                    lemma_chars_num_prefix(digs, j - p - 3 + 1);
                                    assert(chars_num(digs) > usize::MAX);
                                }
                            }
                            return Err(Error::InvalidFormatString(String::from_str(s)));
                        }
                        val = val * 10 + (dg as usize);
                        j = j + 1;
                    },
                    None => {
                        proof {
                            assert(!digits_run(digs));
                            assert(!nine_paren(frac));
                            assert(frac[1] == '(');
                            assert(!all_nines(frac));
                        }
                        return Err(Error::InvalidFormatString(String::from_str(s)));
                    },
                }
            }
            proof {
                assert(digs.take(j - p - 3) =~= digs);
                assert(digits_run(digs));
                assert(nine_paren(frac));
            }
            return Ok(val);
        }
    }
    let mut j: usize = p + 1;
    proof {
        assert(!nine_paren(frac));
    }
    while j < n
        invariant
            n == cs.len(),
            cs == s@,
            p + 1 <= j <= n,
            p < n,
            find_marker_from(cs, 0) == Some(p as int),
            frac == cs.subrange(p as int + 1, cs.len() as int),
            frac.len() == n - p - 1,
            frac.len() > 0,
            !nine_paren(frac),
            forall|t: int| 0 <= t < j - p - 1 ==> #[trigger] frac[t] == '9',
        decreases n - j,
    {
        let c = s.get_char(j);
        proof {
            assert(frac[j - p - 1] == c);
        }
        if c != '9' {
            proof {
                assert(!all_nines(frac));
                assert(!nine_paren(frac));
            }
            return Err(Error::InvalidFormatString(String::from_str(s)));
        }
        j = j + 1;
    }
    proof {
        assert(all_nines(frac));
    }
    Ok(fl)
}

/// Derives the scale from a picture string, as
/// [`spec_picture_scale`] says; a string whose shape the grammar does not
/// cover — or whose parenthesized digit count does not fit a `usize` — fails
/// with [`Error::InvalidFormatString`] carrying that string.
pub fn parse_format(field_format: &str) -> (r: Result<usize, Error>)
    ensures
        match r {
            Ok(sc) => spec_picture_scale(field_format@) == Some(sc as nat),
            Err(e) => match e {
                Error::InvalidFormatString(t) => {
                    &&& t@ == field_format@
                    &&& (spec_picture_scale(field_format@) is None || spec_picture_scale(
                        field_format@,
                    )->Some_0 > usize::MAX)
                },
                _ => false,
            },
        },
{
    let ghost cs = field_format@;
    let n = field_format.unicode_len();
    let mut i: usize = 0;
    while i < n
        invariant
            n == cs.len(),
            cs == field_format@,
            i <= n,
            find_marker_from(cs, 0) == find_marker_from(cs, i as nat),
        decreases n - i,
    {
        let c = field_format.get_char(i);
        if c == 'v' || c == 'V' {
            return parse_frac(field_format, i, n);
        }
        i = i + 1;
    }
    if n > 0 {
        let c0 = field_format.get_char(0);
        if c0 == 's' || c0 == '9' {
            return Ok(0);
        }
    }
    Err(Error::InvalidFormatString(String::from_str(field_format)))
}

} // verus!
