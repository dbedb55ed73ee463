//! Powers of ten and decimal digit counts over the fixed-width coefficient,
//! with the arithmetic facts the rest of the crate builds on.

use vstd::prelude::*;

use vstd::arithmetic::div_mod::lemma_div_decreases;
use vstd::arithmetic::mul::lemma_mul_left_inequality;

verus! {

/// `10^e` as a mathematical natural number.
pub open spec fn pow10(e: nat) -> nat
    decreases e,
{
    if e == 0 {
        1
    } else {
        10 * pow10((e - 1) as nat)
    }
}

pub proof fn lemma_pow10_pos(e: nat)
    ensures
        pow10(e) >= 1,
    decreases e,
{
    if e > 0 {
        lemma_pow10_pos((e - 1) as nat);
    }
}

pub proof fn lemma_pow10_adds(a: nat, b: nat)
    ensures
        pow10(a + b) == pow10(a) * pow10(b),
    decreases a,
{
    if a == 0 {
        assert(pow10(0 + b) == 1 * pow10(b));
    } else {
        lemma_pow10_adds((a - 1) as nat, b);
        assert(pow10((a + b - 1) as nat) == pow10((a - 1) as nat) * pow10(b));
        assert(pow10(a + b) == 10 * (pow10((a - 1) as nat) * pow10(b)));
        assert(10 * (pow10((a - 1) as nat) * pow10(b)) == (10 * pow10((a - 1) as nat)) * pow10(b))
            by (nonlinear_arith);
    }
}

pub proof fn lemma_pow10_increases(a: nat, b: nat)
    requires
        a <= b,
    ensures
        pow10(a) <= pow10(b),
    decreases b,
{
    if a < b && b > 0 {
        lemma_pow10_increases(a, (b - 1) as nat);
        lemma_pow10_pos((b - 1) as nat);
    }
}

/// The coefficient bound is exactly `10^37 - 1`.
pub proof fn lemma_pow10_37()
    ensures
        pow10(37) == crate::COEFF_MAX + 1,
        pow10(37) == 10000000000000000000000000000000000000,
        pow10(38) == 100000000000000000000000000000000000000,
{
    assert(pow10(37) == 10000000000000000000000000000000000000 && pow10(38)
        == 100000000000000000000000000000000000000) by {
        reveal_with_fuel(pow10, 40);
    }
}

/// Count of decimal digits of `n`, where zero counts as one digit.
pub open spec fn spec_digit_count(n: nat) -> nat
    decreases n,
{
    if n < 10 {
        1
    } else {
        1 + spec_digit_count(n / 10)
    }
}

/// A nonzero `n` with `d` digits lies in `[10^(d-1), 10^d)`.
pub proof fn lemma_digit_count_bounds(n: nat)
    requires
        n >= 1,
    ensures
        pow10((spec_digit_count(n) - 1) as nat) <= n < pow10(spec_digit_count(n)),
    decreases n,
{
    if n < 10 {
    } else {
        lemma_div_decreases(n as int, 10);
        lemma_digit_count_bounds(n / 10);
        let d = spec_digit_count(n / 10);
        assert(pow10((d - 1) as nat) <= n / 10 < pow10(d));
        assert(n / 10 >= pow10((d - 1) as nat) ==> n >= 10 * pow10((d - 1) as nat)) by {
            assert(10 * (n / 10) <= n) by (nonlinear_arith);
            lemma_mul_left_inequality(10, pow10((d - 1) as nat) as int, (n / 10) as int);
        }
        assert(n / 10 < pow10(d) ==> n < 10 * pow10(d)) by {
            assert(n < 10 * (n / 10) + 10) by (nonlinear_arith);
            lemma_mul_left_inequality(10, (n / 10 + 1) as int, pow10(d) as int);
        }
    }
}

/// Exponentiation by ten in executable code.
pub fn pow10_u128(e: u32) -> (r: u128)
    requires
        e <= 38,
    ensures
        r == pow10(e as nat),
{
    let mut i: u32 = 0;
    let mut acc: u128 = 1;
    while i < e
        invariant
            i <= e <= 38,
            acc == pow10(i as nat),
        decreases e - i,
    {
        proof {
            lemma_pow10_increases((i + 1) as nat, 38);
            lemma_pow10_37();
            assert(pow10((i + 1) as nat) == 10 * pow10(i as nat));
        }
        acc = acc * 10;
        i = i + 1;
    }
    acc
}

/// Decimal digit count in executable code.
pub fn count_digits(n: u128) -> (r: u32)
    ensures
        r == spec_digit_count(n as nat),
        1 <= r <= 39,
{
    proof {
        lemma_digit_count_at_most(n as nat);
    }
    let mut m: u128 = n;
    let mut c: u32 = 1;
    while m >= 10
        invariant
            c == 1 + spec_digit_count(n as nat) - spec_digit_count(m as nat),
            spec_digit_count(m as nat) >= 1,
            spec_digit_count(n as nat) <= 39,
            spec_digit_count(m as nat) <= spec_digit_count(n as nat),
        decreases m,
    {
        assert(spec_digit_count(m as nat) == 1 + spec_digit_count((m / 10) as nat));
        m = m / 10;
        c = c + 1;
    }
    assert(spec_digit_count(m as nat) == 1);
    c
}

/// Any `u128` has at most 39 decimal digits.
pub proof fn lemma_digit_count_at_most(n: nat)
    ensures
        n <= u128::MAX ==> spec_digit_count(n) <= 39,
{
    if n <= u128::MAX {
        if n >= 1 {
            lemma_digit_count_bounds(n);
            let d = spec_digit_count(n);
            if d > 39 {
                lemma_pow10_increases(39, (d - 1) as nat);
                assert(pow10(39) == 10 * pow10(38));
                lemma_pow10_37();
                assert(n >= pow10((d - 1) as nat) >= pow10(39));
            }
        }
    }
}

} // verus!
