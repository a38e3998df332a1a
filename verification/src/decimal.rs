//! The crate's decimal value: a sign-and-magnitude fixed-point number.
//!
//! A value is a non-negative integer magnitude, a scale (the count of
//! fractional digits), and an independent sign bit. A magnitude of zero with
//! the sign bit set — negative zero — is a distinct, representable value; it
//! is never collapsed to positive zero, and the sign of a zero is always read
//! from the explicit field, never from ambient state.
//!
//! Equality (`==`) is numeric: `225.8 == 225.80`, and every zero equals every
//! other zero whatever its sign or scale.

use vstd::arithmetic::div_mod::lemma_fundamental_div_mod;
use vstd::arithmetic::mul::{
    lemma_mul_equality_converse, lemma_mul_inequality, lemma_mul_is_associative,
    lemma_mul_is_commutative, lemma_mul_is_distributive_add_other_way, lemma_mul_strictly_positive,
};
use vstd::prelude::*;

use crate::digits::{
    digits_of, lemma_pow10_adds, lemma_pow10_increases, lemma_pow10_pos, lemma_pow10_values,
    pad_zeros, padded_digits_vec, pow10, pow10_u64, push_char,
};
use crate::encoding::{digit_char, digit_to_char, Sign};

verus! {

/// The largest representable magnitude: the maximum of a 64-bit signed value.
pub const MAX_MAGNITUDE: u64 = 9223372036854775807;

/// The largest representable scale.
pub const MAX_SCALE: u32 = 28;

/// A sign-and-magnitude fixed-point decimal: the number
/// `(-1)^negative * magnitude / 10^scale`.
#[derive(Debug, Clone, Copy)]
pub struct FixedDecimal {
    pub magnitude: u64,
    pub scale: u32,
    pub negative: bool,
}

impl FixedDecimal {
    /// The representation invariant: magnitude within the 64-bit signed
    /// range, scale within the representable bound.
    pub open spec fn wf(self) -> bool {
        self.magnitude <= MAX_MAGNITUDE && self.scale <= MAX_SCALE
    }

    /// The sign indicator as a [`Sign`].
    pub open spec fn spec_sign(self) -> Sign {
        if self.negative {
            Sign::Negative
        } else {
            Sign::Positive
        }
    }

    /// Numeric equality: equal cross-multiplied magnitudes and, for non-zero
    /// values, equal signs. All zeros are numerically equal.
    pub open spec fn same_value(self, other: FixedDecimal) -> bool {
        &&& self.magnitude * pow10(other.scale as nat) == other.magnitude * pow10(
            self.scale as nat,
        )
        &&& (self.magnitude == 0 || self.negative == other.negative)
    }

    /// Builds a value, refusing one that would break the invariant.
    pub fn new(magnitude: u64, scale: u32, negative: bool) -> (r: Option<FixedDecimal>)
        ensures
            match r {
                Some(v) => v == (FixedDecimal { magnitude, scale, negative }) && v.wf(),
                None => magnitude > MAX_MAGNITUDE || scale > MAX_SCALE,
            },
    {
        if magnitude <= MAX_MAGNITUDE && scale <= MAX_SCALE {
            Some(FixedDecimal { magnitude, scale, negative })
        } else {
            None
        }
    }

    /// Whether the value is numerically zero (of either sign).
    pub fn is_zero(&self) -> (r: bool)
        ensures
            r == (self.magnitude == 0),
    {
        self.magnitude == 0
    }

    /// The sign indicator.
    pub fn sign(&self) -> (s: Sign)
        ensures
            s == self.spec_sign(),
    {
        if self.negative {
            Sign::Negative
        } else {
            Sign::Positive
        }
    }

    /// The human-readable rendering: optional `-`, the integer digits, and —
    /// when the scale is positive — a point followed by exactly `scale`
    /// fractional digits.
    pub open spec fn spec_decimal_string(self) -> Seq<char> {
        let ds = pad_zeros(digits_of(self.magnitude as nat), (self.scale + 1) as nat);
        let chars = Seq::new(ds.len(), |j: int| digit_char(ds[j]));
        let sign_part: Seq<char> = if self.negative {
            seq!['-']
        } else {
            Seq::empty()
        };
        if self.scale == 0 {
            sign_part + chars
        } else {
            sign_part + chars.take(chars.len() - self.scale) + seq!['.'] + chars.subrange(
                chars.len() - self.scale,
                chars.len() as int,
            )
        }
    }

    /// Renders the value as [`Self::spec_decimal_string`] says.
    pub fn to_decimal_string(&self) -> (s: String)
        requires
            self.scale <= MAX_SCALE,
        ensures
            s@ == self.spec_decimal_string(),
    {
        proof {
            crate::digits::lemma_digits_of(self.magnitude as nat);
            crate::digits::lemma_pad_zeros(
                digits_of(self.magnitude as nat),
                (self.scale + 1) as nat,
            );
        }
        let width = (self.scale as usize) + 1;
        let ds = padded_digits_vec(self.magnitude, width);
        let ghost chars = Seq::new(ds@.len(), |j: int| digit_char(ds@[j]));
        let ghost sign_part: Seq<char> = if self.negative {
            seq!['-']
        } else {
            Seq::empty()
        };
        let mut out = String::new();
        if self.negative {
            push_char(&mut out, '-');
        }
        proof {
            assert(out@ =~= sign_part);
        }
        let point_at = ds.len() - (self.scale as usize);
        let mut i: usize = 0;
        while i < ds.len()
            invariant
                i <= ds@.len(),
                point_at == ds@.len() - self.scale,
                1 <= point_at <= ds@.len(),
                chars == Seq::new(ds@.len(), |j: int| digit_char(ds@[j])),
                forall|k: int| 0 <= k < ds@.len() ==> ds@[k] <= 9,
                out@ == sign_part + (if i <= point_at {
                    chars.take(i as int)
                } else {
                    chars.take(point_at as int) + seq!['.'] + chars.subrange(
                        point_at as int,
                        i as int,
                    )
                }),
            decreases ds@.len() - i,
        {
            if self.scale > 0 && i == point_at {
                push_char(&mut out, '.');
            }
            let c = digit_to_char(ds[i]);
            push_char(&mut out, c);
            proof {
                if i + 1 <= point_at {
                    assert(sign_part + chars.take(i as int + 1) =~= (sign_part + chars.take(
                        i as int,
                    )).push(chars[i as int]));
                } else if i == point_at {
                    assert(sign_part + chars.take(point_at as int) + seq!['.'] + chars.subrange(
                        point_at as int,
                        i as int + 1,
                    ) =~= ((sign_part + chars.take(i as int)).push('.')).push(chars[i as int]));
                } else {
                    assert(sign_part + chars.take(point_at as int) + seq!['.'] + chars.subrange(
                        point_at as int,
                        i as int + 1,
                    ) =~= (sign_part + chars.take(point_at as int) + seq!['.'] + chars.subrange(
                        point_at as int,
                        i as int,
                    )).push(chars[i as int]));
                }
            }
            i = i + 1;
        }
        proof {
            if self.scale == 0 {
                assert(out@ =~= self.spec_decimal_string());
            } else {
                assert(chars.take(chars.len() as int) =~= chars);
                assert(out@ =~= self.spec_decimal_string());
            }
        }
        out
    }
}

/// Whether `m * 10^k == target`, computed without ever overflowing.
fn scaled_matches(m: u64, k: u32, target: u64) -> (r: bool)
    requires
        m >= 1,
    ensures
        r == ((m as nat) * pow10(k as nat) == target as nat),
{
    if k >= 20 {
        proof {
            lemma_pow10_values();
            lemma_pow10_increases(20, k as nat);
            lemma_mul_inequality(1, m as int, pow10(k as nat) as int);
        }
        false
    } else {
        let p = pow10_u64(k);
        if m <= u64::MAX / p {
            proof {
                lemma_fundamental_div_mod(u64::MAX as int, p as int);
                lemma_mul_inequality(m as int, (u64::MAX / p) as int, p as int);
            }
            m * p == target
        } else {
            proof {
                lemma_fundamental_div_mod(u64::MAX as int, p as int);
                lemma_mul_is_distributive_add_other_way(
                    p as int,
                    (u64::MAX / p) as int,
                    1,
                );
                lemma_mul_inequality(((u64::MAX / p) + 1) as int, m as int, p as int);
            }
            false
        }
    }
}

/// For scales `a.scale <= b.scale`, cross-multiplied equality is the same as
/// comparing `a`'s magnitude brought up to `b`'s scale against `b`'s.
proof fn lemma_align(a: FixedDecimal, b: FixedDecimal)
    requires
        a.scale <= b.scale,
    ensures
        (a.magnitude * pow10(b.scale as nat) == b.magnitude * pow10(a.scale as nat)) <==> (
        a.magnitude * pow10((b.scale - a.scale) as nat) == b.magnitude),
{
    let d = (b.scale - a.scale) as nat;
    let ma = a.magnitude as int;
    let mb = b.magnitude as int;
    let pa = pow10(a.scale as nat) as int;
    let pd = pow10(d) as int;
    lemma_pow10_adds(d, a.scale as nat);
    lemma_pow10_pos(a.scale as nat);
    assert(pow10(b.scale as nat) == pd * pa);
    lemma_mul_is_associative(ma, pd, pa);
    if ma * (pd * pa) == mb * pa {
        lemma_mul_is_commutative(ma * pd, pa);
        lemma_mul_is_commutative(mb, pa);
        lemma_mul_equality_converse(pa, ma * pd, mb);
    }
}

impl PartialEq for FixedDecimal {
    fn eq(&self, other: &FixedDecimal) -> (r: bool) {
        proof {
            lemma_pow10_pos(self.scale as nat);
            lemma_pow10_pos(other.scale as nat);
        }
        if self.magnitude == 0 && other.magnitude == 0 {
            true
        } else if self.magnitude == 0 {
            proof {
                lemma_mul_strictly_positive(other.magnitude as int, pow10(self.scale as nat) as int);
            }
            false
        } else if other.magnitude == 0 {
            proof {
                lemma_mul_strictly_positive(self.magnitude as int, pow10(other.scale as nat) as int);
            }
            false
        } else if self.negative != other.negative {
            false
        } else if self.scale == other.scale {
            proof {
                if self.magnitude * pow10(other.scale as nat) == other.magnitude * pow10(
                    self.scale as nat,
                ) {
                    lemma_mul_is_commutative(self.magnitude as int, pow10(self.scale as nat) as int);
                    lemma_mul_is_commutative(
                        other.magnitude as int,
                        pow10(self.scale as nat) as int,
                    );
                    lemma_mul_equality_converse(
                        pow10(self.scale as nat) as int,
                        self.magnitude as int,
                        other.magnitude as int,
                    );
                }
            }
            self.magnitude == other.magnitude
        } else if self.scale < other.scale {
            let r = scaled_matches(self.magnitude, other.scale - self.scale, other.magnitude);
            proof {
                lemma_align(*self, *other);
            }
            r
        } else {
            let r = scaled_matches(other.magnitude, self.scale - other.scale, self.magnitude);
            proof {
                lemma_align(*other, *self);
            }
            r
        }
    }
}

impl vstd::std_specs::cmp::PartialEqSpecImpl for FixedDecimal {
    open spec fn obeys_eq_spec() -> bool {
        true
    }

    open spec fn eq_spec(&self, other: &FixedDecimal) -> bool {
        self.same_value(*other)
    }
}

} // verus!
