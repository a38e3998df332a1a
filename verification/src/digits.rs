//! Decimal digit sequences and their numeric value.
//!
//! A magnitude is rendered most-significant-digit first; [`seq_num`] is the
//! inverse reading. The lemmas here tie the two together and show that
//! left-padding with zeros never changes the value read back.

use vstd::prelude::*;

verus! {

/// `10^e`.
pub open spec fn pow10(e: nat) -> nat
    decreases e,
{
    if e == 0 {
        1
    } else {
        10 * pow10((e - 1) as nat)
    }
}

pub proof fn lemma_pow10_pos(e: nat)
    ensures
        pow10(e) >= 1,
    decreases e,
{
    if e > 0 {
        lemma_pow10_pos((e - 1) as nat);
    }
}

pub proof fn lemma_pow10_adds(a: nat, b: nat)
    ensures
        pow10(a + b) == pow10(a) * pow10(b),
    decreases a,
{
    if a == 0 {
        assert(a + b == b);
        assert(pow10(a) == 1);
        assert(pow10(a + b) == pow10(a) * pow10(b));
    } else {
        lemma_pow10_adds((a - 1) as nat, b);
        let x = pow10((a - 1) as nat);
        let y = pow10(b);
        assert((a + b - 1) as nat == (a - 1) as nat + b);
        assert(pow10(a + b) == 10 * pow10((a + b - 1) as nat));
        assert(pow10((a + b - 1) as nat) == x * y);
        assert(pow10(a) == 10 * x);
        assert(10 * (x * y) == (10 * x) * y) by (nonlinear_arith);
        assert(pow10(a + b) == 10 * (x * y));
        assert(pow10(a + b) == (10 * x) * y);
        assert(pow10(a + b) == pow10(a) * y);
    }
}

pub proof fn lemma_pow10_increases(a: nat, b: nat)
    requires
        a <= b,
    ensures
        pow10(a) <= pow10(b),
{
    lemma_pow10_adds(a, (b - a) as nat);
    lemma_pow10_pos(a);
    lemma_pow10_pos((b - a) as nat);
    assert(pow10(a) * 1 <= pow10(a) * pow10((b - a) as nat)) by (nonlinear_arith)
        requires
            pow10(a) >= 1,
            pow10((b - a) as nat) >= 1,
    ;
}

/// Frequently needed concrete powers.
pub proof fn lemma_pow10_values()
    ensures
        pow10(1) == 10,
        pow10(19) == 0x8AC7_2304_89E8_0000,
        pow10(20) == 0x5_6BC7_5E2D_6310_0000,
{
    assert(pow10(0) == 1);
    assert(pow10(1) == 10);
    assert(pow10(2) == 100);
    assert(pow10(3) == 1000);
    assert(pow10(4) == 10000);
    assert(pow10(5) == 100000);
    assert(pow10(6) == 1000000);
    assert(pow10(7) == 10000000);
    assert(pow10(8) == 100000000);
    assert(pow10(9) == 1000000000);
    assert(pow10(10) == 10000000000);
    assert(pow10(11) == 100000000000);
    assert(pow10(12) == 1000000000000);
    assert(pow10(13) == 10000000000000);
    assert(pow10(14) == 100000000000000);
    assert(pow10(15) == 1000000000000000);
    assert(pow10(16) == 10000000000000000);
    assert(pow10(17) == 100000000000000000);
    assert(pow10(18) == 1000000000000000000);
    assert(pow10(19) == 10000000000000000000);
    assert(pow10(20) == 100000000000000000000);
}

/// The decimal digits of `n`, most significant first, without leading zeros
/// (`0` itself renders as the single digit `0`).
pub open spec fn digits_of(n: nat) -> Seq<u8>
    decreases n,
{
    if n < 10 {
        seq![n as u8]
    } else {
        digits_of(n / 10).push((n % 10) as u8)
    }
}

/// The number a digit sequence denotes.
pub open spec fn seq_num(ds: Seq<u8>) -> nat
    decreases ds.len(),
{
    if ds.len() == 0 {
        0
    } else {
        seq_num(ds.drop_last()) * 10 + ds.last() as nat
    }
}

/// `ds`, left-padded with zero digits to at least `width` entries.
pub open spec fn pad_zeros(ds: Seq<u8>, width: nat) -> Seq<u8> {
    if ds.len() >= width {
        ds
    } else {
        Seq::new((width - ds.len()) as nat, |i: int| 0u8) + ds
    }
}

/// Rendering then reading back is the identity, every rendered digit is a
/// digit, and the rendering is as short as the magnitude allows.
pub proof fn lemma_digits_of(n: nat)
    ensures
        digits_of(n).len() >= 1,
        seq_num(digits_of(n)) == n,
        forall|i: int| 0 <= i < digits_of(n).len() ==> digits_of(n)[i] <= 9,
        n < pow10(digits_of(n).len()),
    decreases n,
{
    if n < 10 {
        assert(seq_num(digits_of(n)) == seq_num(digits_of(n).drop_last()) * 10 + n);
        assert(digits_of(n).drop_last() =~= Seq::<u8>::empty());
        assert(pow10(0) == 1);
        assert(pow10(1) == 10);
    } else {
        lemma_digits_of(n / 10);
        let ds = digits_of(n);
        assert(ds.drop_last() =~= digits_of(n / 10));
        assert(seq_num(ds) == (n / 10) * 10 + n % 10);
        assert((n / 10) * 10 + n % 10 == n) by (nonlinear_arith);
        assert(n / 10 < pow10(digits_of(n / 10).len()));
        assert(n < 10 * pow10(digits_of(n / 10).len())) by (nonlinear_arith)
            requires
                n / 10 < pow10(digits_of(n / 10).len()),
                n >= 10,
        ;
        assert(pow10(ds.len()) == 10 * pow10((ds.len() - 1) as nat));
    }
}

/// One zero digit in front changes nothing.
proof fn lemma_seq_num_cons_zero(ds: Seq<u8>)
    ensures
        seq_num(seq![0u8] + ds) == seq_num(ds),
    decreases ds.len(),
{
    if ds.len() == 0 {
        assert(seq![0u8] + ds =~= seq![0u8]);
        assert(seq_num(seq![0u8]) == seq_num(seq![0u8].drop_last()) * 10 + 0);
        assert(seq![0u8].drop_last() =~= Seq::<u8>::empty());
    } else {
        assert((seq![0u8] + ds).drop_last() =~= seq![0u8] + ds.drop_last());
        assert((seq![0u8] + ds).last() == ds.last());
        lemma_seq_num_cons_zero(ds.drop_last());
    }
}

/// Left-padding with zeros preserves the number read back.
pub proof fn lemma_pad_zeros(ds: Seq<u8>, width: nat)
    ensures
        seq_num(pad_zeros(ds, width)) == seq_num(ds),
        pad_zeros(ds, width).len() == if ds.len() >= width {
            ds.len()
        } else {
            width
        },
        forall|i: int|
            0 <= i < pad_zeros(ds, width).len() ==> #[trigger] pad_zeros(ds, width)[i] == (
            if i < pad_zeros(ds, width).len() - ds.len() {
                0u8
            } else {
                ds[i - (pad_zeros(ds, width).len() - ds.len())]
            }),
    decreases width,
{
    if ds.len() >= width {
    } else {
        let padded = pad_zeros(ds, width);
        let shorter = pad_zeros(ds, (width - 1) as nat);
        assert(padded =~= seq![0u8] + shorter);
        lemma_seq_num_cons_zero(shorter);
        lemma_pad_zeros(ds, (width - 1) as nat);
    }
}

/// Renders the digits of `n`, most significant first.
pub fn digits_vec(n: u64) -> (v: Vec<u8>)
    ensures
        v@ == digits_of(n as nat),
    decreases n,
{
    if n < 10 {
        let mut v: Vec<u8> = Vec::new();
        v.push(n as u8);
        proof {
            assert(v@ =~= digits_of(n as nat));
        }
        v
    } else {
        let mut v = digits_vec(n / 10);
        v.push((n % 10) as u8);
        proof {
            assert(v@ =~= digits_of(n as nat));
        }
        v
    }
}

/// Renders the digits of `n`, left-padded with zeros to at least `width`.
pub fn padded_digits_vec(n: u64, width: usize) -> (v: Vec<u8>)
    ensures
        v@ == pad_zeros(digits_of(n as nat), width as nat),
        v@.len() >= 1,
        v@.len() >= width,
        forall|i: int| 0 <= i < v@.len() ==> v@[i] <= 9,
{
    proof {
        lemma_digits_of(n as nat);
        lemma_pad_zeros(digits_of(n as nat), width as nat);
    }
    let ds = digits_vec(n);
    if ds.len() >= width {
        ds
    } else {
        let ghost target = pad_zeros(digits_of(n as nat), width as nat);
        let pad: usize = width - ds.len();
        let mut v: Vec<u8> = Vec::new();
        let mut i: usize = 0;
        while i < pad
            invariant
                i <= pad,
                v@.len() == i,
                forall|j: int| 0 <= j < i ==> v@[j] == 0u8,
            decreases pad - i,
        {
            v.push(0u8);
            i = i + 1;
        }
        let mut j: usize = 0;
        while j < ds.len()
            invariant
                j <= ds.len(),
                v@.len() == pad + j,
                pad == width - ds@.len(),
                ds@ == digits_of(n as nat),
                forall|k: int| 0 <= k < pad ==> v@[k] == 0u8,
                forall|k: int| pad <= k < pad + j ==> v@[k] == ds@[k - pad],
            decreases ds.len() - j,
        {
            let d = ds[j];
            v.push(d);
            j = j + 1;
        }
        proof {
            assert(v@ =~= pad_zeros(digits_of(n as nat), width as nat));
        }
        v
    }
}

/// Computes `10^k` for exponents whose power fits a `u64`.
pub fn pow10_u64(k: u32) -> (p: u64)
    requires
        k <= 19,
    ensures
        p as nat == pow10(k as nat),
        p >= 1,
{
    proof {
        lemma_pow10_values();
    }
    let mut p: u64 = 1;
    let mut i: u32 = 0;
    while i < k
        invariant
            i <= k <= 19,
            p as nat == pow10(i as nat),
        decreases k - i,
    {
        proof {
            lemma_pow10_increases((i + 1) as nat, 19);
            lemma_pow10_values();
            assert(pow10((i + 1) as nat) == 10 * pow10(i as nat));
        }
        p = p * 10;
        i = i + 1;
    }
    proof {
        lemma_pow10_pos(k as nat);
    }
    p
}

/// Relies on std's `String::push`: appends exactly one character.
#[verifier::external_body]
pub(crate) fn push_char(s: &mut String, c: char)
    ensures
        final(s)@ == old(s)@.push(c),
{
    s.push(c);
}

} // verus!
