//! Decimal rendering of the integers that appear in generated SQL: plain
//! numbers, sign-aware numbers, zero-padded fields (dates), and fixed-point
//! literals with a prescribed count of fractional digits.

use vstd::prelude::*;
use vstd::arithmetic::div_mod::{lemma_basic_div_specific_divisor, lemma_small_mod};

verus! {

pub open spec fn digit_char(d: int) -> char {
    if d == 0 { '0' } else if d == 1 { '1' } else if d == 2 { '2' }
    else if d == 3 { '3' } else if d == 4 { '4' } else if d == 5 { '5' }
    else if d == 6 { '6' } else if d == 7 { '7' } else if d == 8 { '8' }
    else { '9' }
}

/// The usual base-ten rendering of a natural number, without leading zeros.
pub open spec fn dec_str(n: nat) -> Seq<char>
    decreases n,
{
    if n < 10 {
        seq![digit_char(n as int)]
    } else {
        dec_str(n / 10) + seq![digit_char((n % 10) as int)]
    }
}

/// Base-ten rendering of a possibly negative integer.
pub open spec fn int_str(i: int) -> Seq<char> {
    if i < 0 {
        seq!['-'] + dec_str((-i) as nat)
    } else {
        dec_str(i as nat)
    }
}

pub open spec fn zeros(n: int) -> Seq<char>
    decreases n,
{
    if n <= 0 {
        Seq::empty()
    } else {
        seq!['0'] + zeros(n - 1)
    }
}

/// `n` rendered in base ten and left-padded with zeros to width `w`.
pub open spec fn dec_pad(n: nat, w: int) -> Seq<char> {
    zeros(w - dec_str(n).len()) + dec_str(n)
}

pub open spec fn pow10(d: int) -> nat
    decreases d,
{
    if d <= 0 {
        1
    } else {
        10 * pow10(d - 1)
    }
}

/// The fixed-point rendering of `v / 10^d` with exactly `d` fractional
/// digits; with `d = 0` it is the plain integer rendering.
pub open spec fn decimal_lit(v: nat, d: int) -> Seq<char> {
    if d <= 0 {
        dec_str(v)
    } else {
        dec_str(v / pow10(d)) + seq!['.'] + dec_pad(v % pow10(d), d)
    }
}

pub proof fn lemma_dec_str_digits(n: nat)
    ensures
        dec_str(n).len() >= 1,
        forall|i: int| 0 <= i < dec_str(n).len() ==> crate::text::is_digit_char(#[trigger] dec_str(n)[i]),
    decreases n,
{
    if n >= 10 {
        lemma_dec_str_digits(n / 10);
    }
}

pub proof fn lemma_zeros_digits(n: int)
    ensures
        zeros(n).len() == if n <= 0 { 0 } else { n },
        forall|i: int| 0 <= i < zeros(n).len() ==> #[trigger] zeros(n)[i] == '0',
    decreases n,
{
    if n > 0 {
        lemma_zeros_digits(n - 1);
    }
}

proof fn lemma_pow10_at_least_100(d: int)
    requires
        d >= 2,
    ensures
        pow10(d) >= 100,
    decreases d,
{
    if d == 2 {
        assert(pow10(2) == 10 * pow10(1));
        assert(pow10(1) == 10 * pow10(0));
    } else {
        lemma_pow10_at_least_100(d - 1);
    }
}

/// The shape of a fixed-point literal of precision `p`: for `p >= 1` there
/// is one decimal point, exactly `p` digits follow it, and only digits
/// precede it; for `p == 0` the literal is digits alone.
pub proof fn lemma_decimal_lit_precision(v: nat, p: int)
    requires
        v < 100,
        p >= 0,
    ensures
        p == 0 ==> forall|j: int| 0 <= j < decimal_lit(v, p).len()
            ==> crate::text::is_digit_char(#[trigger] decimal_lit(v, p)[j]),
        p >= 1 ==> ({
            let s = decimal_lit(v, p);
            let i = dec_str(v / pow10(p)).len() as int;
            &&& 0 <= i < s.len()
            &&& s[i] == '.'
            &&& s.len() - i - 1 == p
            &&& forall|j: int| i < j < s.len() ==> crate::text::is_digit_char(#[trigger] s[j])
            &&& forall|j: int| 0 <= j < i ==> crate::text::is_digit_char(#[trigger] s[j])
        }),
{
    if p == 0 {
        lemma_dec_str_digits(v);
    } else {
        let q = v / pow10(p);
        let r = v % pow10(p);
        lemma_dec_str_digits(q);
        lemma_dec_str_digits(r);
        if p == 1 {
            assert(pow10(1) == 10 * pow10(0));
            assert(r < 10);
        } else {
            lemma_pow10_at_least_100(p);
            vstd::arithmetic::div_mod::lemma_small_mod(v, pow10(p));
            assert(r == v);
            if r >= 10 {
                assert(r / 10 < 10);
                assert(dec_str(r) == dec_str(r / 10) + seq![digit_char((r % 10) as int)]);
            }
            assert(dec_str(r).len() <= 2);
        }
        let z = p - dec_str(r).len();
        lemma_zeros_digits(z);
        let s = decimal_lit(v, p);
        let ds = dec_str(q);
        let frac = dec_pad(r, p);
        assert(s == ds + seq!['.'] + frac);
        assert(frac.len() == p);
        let i = ds.len() as int;
        assert(s[i] == '.');
        assert forall|j: int| i < j < s.len() implies crate::text::is_digit_char(#[trigger] s[j]) by {
            assert(s[j] == frac[j - i - 1]);
            if j - i - 1 < z {
                assert(frac[j - i - 1] == zeros(z)[j - i - 1]);
                assert(frac[j - i - 1] == '0');
            } else {
                assert(frac[j - i - 1] == dec_str(r)[j - i - 1 - z]);
            }
        }
        assert forall|j: int| 0 <= j < i implies crate::text::is_digit_char(#[trigger] s[j]) by {
            assert(s[j] == ds[j]);
        }
    }
}

fn push_digit(out: &mut Vec<char>, d: u64)
    requires
        d < 10,
    ensures
        final(out)@ =~= old(out)@ + seq![digit_char(d as int)],
{
    if d == 0 { out.push('0') } else if d == 1 { out.push('1') }
    else if d == 2 { out.push('2') } else if d == 3 { out.push('3') }
    else if d == 4 { out.push('4') } else if d == 5 { out.push('5') }
    else if d == 6 { out.push('6') } else if d == 7 { out.push('7') }
    else if d == 8 { out.push('8') } else { out.push('9') }
}

/// Appends the base-ten rendering of `n`.
pub fn push_u64(out: &mut Vec<char>, n: u64)
    ensures
        final(out)@ =~= old(out)@ + dec_str(n as nat),
    decreases n,
{
    if n >= 10 {
        push_u64(out, n / 10);
    }
    push_digit(out, n % 10);
}

/// Appends the base-ten rendering of `n`, with a leading minus sign when
/// `n` is negative.
pub fn push_i32(out: &mut Vec<char>, n: i32)
    ensures
        final(out)@ =~= old(out)@ + int_str(n as int),
{
    if n < 0 {
        out.push('-');
        let m: u64 = (-(n as i64)) as u64;
        push_u64(out, m);
    } else {
        push_u64(out, n as u64);
    }
}

pub fn push_zeros(out: &mut Vec<char>, n: usize)
    ensures
        final(out)@ =~= old(out)@ + zeros(n as int),
{
    let mut i: usize = 0;
    while i < n
        invariant
            i <= n,
            out@ =~= old(out)@ + zeros(i as int),
        decreases n - i,
    {
        proof {
            lemma_zeros_digits(i as int);
            lemma_zeros_digits(i + 1);
            assert(zeros(i + 1) =~= zeros(i as int) + seq!['0']) by {
                lemma_zeros_unfold_back(i + 1);
            }
        }
        out.push('0');
        i = i + 1;
    }
}

proof fn lemma_zeros_unfold_back(n: int)
    requires
        n > 0,
    ensures
        zeros(n) =~= zeros(n - 1) + seq!['0'],
    decreases n,
{
    if n > 1 {
        lemma_zeros_unfold_back(n - 1);
    }
}

/// Appends the fixed-point rendering of `v / 10^d` with exactly `d`
/// fractional digits.
pub fn push_decimal_lit(out: &mut Vec<char>, v: u64, d: usize)
    requires
        v < 100,
    ensures
        final(out)@ =~= old(out)@ + decimal_lit(v as nat, d as int),
{
    if d == 0 {
        push_u64(out, v);
    } else if d == 1 {
        proof {
            assert(pow10(1) == 10 * pow10(0));
        }
        push_u64(out, v / 10);
        out.push('.');
        push_digit(out, v % 10);
        proof {
            assert(dec_str((v % 10) as nat) =~= seq![digit_char((v % 10) as int)]);
            assert(dec_pad((v % 10) as nat, 1) =~= dec_str((v % 10) as nat));
        }
    } else {
        proof {
            lemma_pow10_at_least_100(d as int);
            lemma_basic_div_specific_divisor(pow10(d as int) as int);
            lemma_small_mod(v as nat, pow10(d as int));
            assert(v as nat / pow10(d as int) == 0);
            assert(v as nat % pow10(d as int) == v as nat);
        }
        out.push('0');
        out.push('.');
        let w: usize = if v < 10 { 1 } else { 2 };
        proof {
            assert(dec_str(v as nat).len() == w as int) by {
                if v >= 10 {
                    assert(v / 10 < 10);
                    assert(dec_str(v as nat) == dec_str((v / 10) as nat) + seq![digit_char((v % 10) as int)]);
                }
            }
        }
        push_zeros(out, d - w);
        push_u64(out, v);
        proof {
            assert(dec_str(0nat) =~= seq!['0']);
            assert(final(out)@ =~= old(out)@ + decimal_lit(v as nat, d as int));
        }
    }
}

} // verus!
