//! Parsing the scientific rendering of a finite value recovers it: the
//! printed coefficient, scale and sign parse back exactly, so the numeric
//! value survives the round trip.

use vstd::prelude::*;

use core::cmp::Ordering;

use crate::decimal::Decimal;
use crate::flags::Flags;
use crate::flags::SignalSet;
use crate::format::dec_digits;
use crate::format::exp_bytes;
use crate::format::lemma_dec_digits_ascii;
use crate::format::spec_scientific;
use crate::numeric::lemma_pow10_37;
use crate::numeric::lemma_pow10_pos;
use crate::numeric::pow10;
use crate::parse::is_digit;
use crate::parse::sp_exp_digits;
use crate::parse::sp_exp_sign;
use crate::parse::sp_finish;
use crate::parse::sp_frac;
use crate::parse::sp_int;
use crate::parse::spec_parse;
use crate::parse::ParseError;
use crate::COEFF_MAX;

use vstd::arithmetic::div_mod::lemma_div_decreases;
use vstd::arithmetic::div_mod::lemma_fundamental_div_mod;
use vstd::arithmetic::mul::lemma_mul_basics;

verus! {

/// Value of the ASCII digit window `s[lo..hi)`, most significant digit
/// first.
pub open spec fn seg_val(s: Seq<u8>, lo: int, hi: int) -> nat
    decreases hi - lo,
{
    if hi <= lo {
        0
    } else {
        seg_val(s, lo, hi - 1) * 10 + (s[hi - 1] - 48) as nat
    }
}

/// Windows with equal bytes have equal values.
proof fn lemma_seg_val_congruent(s1: Seq<u8>, lo1: int, s2: Seq<u8>, lo2: int, len: int)
    requires
        0 <= len,
        forall|j: int| 0 <= j < len ==> #[trigger] s1[lo1 + j] == s2[lo2 + j],
    ensures
        seg_val(s1, lo1, lo1 + len) == seg_val(s2, lo2, lo2 + len),
    decreases len,
{
    if len > 0 {
        lemma_seg_val_congruent(s1, lo1, s2, lo2, len - 1);
        assert(s1[lo1 + (len - 1)] == s2[lo2 + (len - 1)]);
    }
}

/// Splitting a digit window at its first byte.
proof fn lemma_seg_val_first(s: Seq<u8>, lo: int, hi: int)
    requires
        lo < hi,
    ensures
        seg_val(s, lo, hi) == (s[lo] - 48) as nat * pow10((hi - lo - 1) as nat) + seg_val(
            s,
            lo + 1,
            hi,
        ),
    decreases hi - lo,
{
    if lo + 1 == hi {
        assert(pow10(0) == 1);
        assert(seg_val(s, lo, lo) == 0);
        assert(seg_val(s, lo + 1, hi) == 0);
        lemma_mul_basics((s[lo] - 48) as nat as int);
    } else {
        lemma_seg_val_first(s, lo, hi - 1);
        let d0 = (s[lo] - 48) as nat;
        let dl = (s[hi - 1] - 48) as nat;
        let k = (hi - lo - 2) as nat;
        assert(pow10(k + 1) == 10 * pow10(k));
        assert((hi - lo - 1) as nat == k + 1);
        assert(seg_val(s, lo, hi) == seg_val(s, lo, hi - 1) * 10 + dl);
        assert(seg_val(s, lo + 1, hi) == seg_val(s, lo + 1, hi - 1) * 10 + dl);
        assert(seg_val(s, lo, hi - 1) == d0 * pow10(k) + seg_val(s, lo + 1, hi - 1));
        assert((d0 * pow10(k) + seg_val(s, lo + 1, hi - 1)) * 10 + dl == d0 * (10 * pow10(k)) + (
        seg_val(s, lo + 1, hi - 1) * 10 + dl)) by (nonlinear_arith);
        assert(seg_val(s, lo, hi) == d0 * pow10(k + 1) + seg_val(s, lo + 1, hi));
    }
}

/// The digit string of `n` evaluates back to `n`.
proof fn lemma_dec_digits_val(n: nat)
    ensures
        seg_val(dec_digits(n), 0, dec_digits(n).len() as int) == n,
    decreases n,
{
    if n < 10 {
        assert(seg_val(dec_digits(n), 0, 0) == 0);
    } else {
        lemma_div_decreases(n as int, 10);
        lemma_dec_digits_val(n / 10);
        let ds = dec_digits(n);
        let prev = dec_digits(n / 10);
        let l = prev.len() as int;
        let last = (n % 10 + 48) as u8;
        assert(ds == prev.push(last));
        assert(ds.len() == l + 1);
        assert(forall|j: int| 0 <= j < l ==> #[trigger] ds[0 + j] == prev[0 + j]);
        lemma_seg_val_congruent(ds, 0, prev, 0, l);
        assert(ds[l] == last);
        assert(seg_val(ds, 0, l + 1) == seg_val(ds, 0, l) * 10 + (last - 48) as nat);
        assert(seg_val(ds, 0, l) == n / 10);
        lemma_fundamental_div_mod(n as int, 10);
    }
}

/// Running the integer-digit phase across a window of `len` digit bytes
/// accumulates the window's value, provided nothing overflows.
proof fn lemma_sp_int_run(s: Seq<u8>, i: int, len: int, a: nat, any: bool, neg: bool)
    requires
        0 <= i,
        0 <= len,
        i + len <= s.len(),
        forall|j: int| i <= j < i + len ==> is_digit(#[trigger] s[j]),
        a * pow10(len as nat) + seg_val(s, i, i + len) <= COEFF_MAX,
    ensures
        sp_int(s, i, a, any, neg) == sp_int(
            s,
            i + len,
            (a * pow10(len as nat) + seg_val(s, i, i + len)) as nat,
            any || len > 0,
            neg,
        ),
    decreases len,
{
    if len == 0 {
        assert(pow10(0) == 1);
        lemma_mul_basics(a as int);
    } else {
        let d = (s[i] - 48) as nat;
        let acc2 = a * 10 + d;
        let rest = seg_val(s, i + 1, i + len);
        lemma_seg_val_first(s, i, i + len);
        let p = pow10((len - 1) as nat);
        lemma_pow10_pos((len - 1) as nat);
        assert(pow10(len as nat) == 10 * p);
        assert(a * (10 * p) + (d * p + rest) == (a * 10 + d) * p + rest) by (nonlinear_arith);
        assert(acc2 <= acc2 * p) by (nonlinear_arith)
            requires
                p >= 1,
                acc2 >= 0,
        ;
        lemma_sp_int_run(s, i + 1, len - 1, acc2, true, neg);
    }
}

/// The fraction-digit phase across a window of `len` digit bytes: the value
/// accumulates and the fraction count grows by `len`.
proof fn lemma_sp_frac_run(s: Seq<u8>, i: int, len: int, a: nat, any: bool, fc: nat, neg: bool)
    requires
        0 <= i,
        0 <= len,
        i + len <= s.len(),
        forall|j: int| i <= j < i + len ==> is_digit(#[trigger] s[j]),
        a * pow10(len as nat) + seg_val(s, i, i + len) <= COEFF_MAX,
    ensures
        sp_frac(s, i, a, any, fc, neg) == sp_frac(
            s,
            i + len,
            (a * pow10(len as nat) + seg_val(s, i, i + len)) as nat,
            any || len > 0,
            fc + len as nat,
            neg,
        ),
    decreases len,
{
    if len == 0 {
        assert(pow10(0) == 1);
        lemma_mul_basics(a as int);
    } else {
        let d = (s[i] - 48) as nat;
        let acc2 = a * 10 + d;
        let rest = seg_val(s, i + 1, i + len);
        lemma_seg_val_first(s, i, i + len);
        let p = pow10((len - 1) as nat);
        lemma_pow10_pos((len - 1) as nat);
        assert(pow10(len as nat) == 10 * p);
        assert(a * (10 * p) + (d * p + rest) == (a * 10 + d) * p + rest) by (nonlinear_arith);
        assert(acc2 <= acc2 * p) by (nonlinear_arith)
            requires
                p >= 1,
                acc2 >= 0,
        ;
        lemma_sp_frac_run(s, i + 1, len - 1, acc2, true, fc + 1, neg);
    }
}

/// The exponent-digit phase across a window of `len` digit bytes.
proof fn lemma_sp_exp_run(
    s: Seq<u8>,
    i: int,
    len: int,
    acc: nat,
    fc: nat,
    eneg: bool,
    ea: nat,
    eany: bool,
    neg: bool,
)
    requires
        0 <= i,
        0 <= len,
        i + len <= s.len(),
        forall|j: int| i <= j < i + len ==> is_digit(#[trigger] s[j]),
    ensures
        sp_exp_digits(s, i, acc, fc, eneg, ea, eany, neg) == sp_exp_digits(
            s,
            i + len,
            acc,
            fc,
            eneg,
            (ea * pow10(len as nat) + seg_val(s, i, i + len)) as nat,
            eany || len > 0,
            neg,
        ),
    decreases len,
{
    if len == 0 {
        assert(pow10(0) == 1);
        lemma_mul_basics(ea as int);
    } else {
        let d = (s[i] - 48) as nat;
        let ea2 = ea * 10 + d;
        let rest = seg_val(s, i + 1, i + len);
        lemma_seg_val_first(s, i, i + len);
        let p = pow10((len - 1) as nat);
        lemma_pow10_pos((len - 1) as nat);
        assert(pow10(len as nat) == 10 * p);
        assert(ea * (10 * p) + (d * p + rest) == (ea * 10 + d) * p + rest) by (nonlinear_arith);
        lemma_sp_exp_run(s, i + 1, len - 1, acc, fc, eneg, ea2, true, neg);
    }
}

/// From just after the exponent marker, the rendering of exponent `e`
/// followed by the end of the input finishes the parse with exponent `e`.
proof fn lemma_parse_exp_tail(s: Seq<u8>, p: int, e: int, acc: nat, fc: nat, neg: bool)
    requires
        0 <= p,
        s.len() == p + exp_bytes(e).len(),
        forall|j: int| 0 <= j < exp_bytes(e).len() ==> #[trigger] s[p + j] == exp_bytes(e)[j],
        -100000 <= e <= 100000,
    ensures
        sp_exp_sign(s, p, acc, fc, neg) == sp_finish(acc, fc, e, neg),
{
    if e < 0 {
        let m = (-e) as nat;
        let ds = dec_digits(m);
        lemma_dec_digits_ascii(m);
        lemma_dec_digits_val(m);
        assert(exp_bytes(e)[0] == 45);
        assert(s[p + 0] == exp_bytes(e)[0]);
        assert(s[p] == 45);
        let l = ds.len() as int;
        assert forall|j: int| 0 <= j < l implies #[trigger] s[p + 1 + j] == ds[j] by {
            assert(s[p + (1 + j)] == exp_bytes(e)[1 + j]);
            assert(exp_bytes(e)[1 + j] == ds[j]);
        }
        assert forall|j: int| p + 1 <= j < p + 1 + l implies is_digit(#[trigger] s[j]) by {
            assert(s[p + 1 + (j - (p + 1))] == ds[j - (p + 1)]);
            assert(48 <= ds[j - (p + 1)] <= 57);
        }
        lemma_seg_val_congruent(s, p + 1, ds, 0, l);
        lemma_sp_exp_run(s, p + 1, l, acc, fc, true, 0, false, neg);
        lemma_mul_basics(pow10(l as nat) as int);
        assert(seg_val(s, p + 1, p + 1 + l) == m);
        assert((0 * pow10(l as nat) + m) as nat == m) by {
            assert(0 * pow10(l as nat) == 0);
        }
        assert(p + 1 + l == s.len());
    } else {
        let m = e as nat;
        let ds = dec_digits(m);
        lemma_dec_digits_ascii(m);
        lemma_dec_digits_val(m);
        let l = ds.len() as int;
        assert(forall|j: int| 0 <= j < l ==> #[trigger] s[p + j] == ds[j]);
        assert(is_digit(s[p])) by {
            assert(s[p + 0] == ds[0]);
        }
        assert(s[p] != 43 && s[p] != 45);
        assert forall|j: int| p <= j < p + l implies is_digit(#[trigger] s[j]) by {
            assert(s[p + (j - p)] == ds[j - p]);
            assert(48 <= ds[j - p] <= 57);
        }
        lemma_seg_val_congruent(s, p, ds, 0, l);
        lemma_sp_exp_run(s, p, l, acc, fc, false, 0, false, neg);
        assert((0 * pow10(l as nat) + m) as nat == m) by {
            assert(0 * pow10(l as nat) == 0);
        }
        assert(p + l == s.len());
    }
}

/// Parsing the scientific rendering of a finite nonzero value recovers its
/// coefficient, scale and sign exactly; in particular the numeric value is
/// unchanged, so rendering and re-parsing compare equal.
pub proof fn lemma_scientific_round_trip(v: Decimal)
    requires
        v.wf(),
        v.spec_is_finite(),
        v.digits != 0,
    ensures
        spec_parse(spec_scientific(v)) == Ok::<Decimal, ParseError>(
            Decimal {
                digits: v.digits,
                scale: v.scale,
                flags: (Flags {
                    sign: v.flags.sign,
                    nan: false,
                    infinity: false,
                    signals: SignalSet::spec_empty(),
                }),
            },
        ),
        spec_parse(spec_scientific(v)) matches Ok(w) && w.spec_cmp(v) == Ordering::Equal,
{
    let s = spec_scientific(v);
    let n = v.digits as nat;
    let ds = dec_digits(n);
    let l = ds.len() as int;
    lemma_dec_digits_ascii(n);
    lemma_dec_digits_val(n);
    crate::numeric::lemma_digit_count_at_most(n);
    lemma_pow10_37();
    let e = l - 1 - v.scale;
    let sgn: Seq<u8> = if v.flags.sign {
        seq![45u8]
    } else {
        Seq::empty()
    };
    let mantissa: Seq<u8> = if l == 1 {
        ds
    } else {
        ds.take(1) + seq![46u8] + ds.skip(1)
    };
    assert(s == sgn + mantissa + seq![101u8] + exp_bytes(e));
    let start: int = if v.flags.sign {
        1
    } else {
        0
    };
    let mlen: int = if l == 1 {
        1
    } else {
        l + 1
    };
    let p = start + mlen + 1;
    // Byte layout facts.
    assert(s.len() == p + exp_bytes(e).len());
    assert(s[start] == ds[0]);
    assert(is_digit(s[start]));
    if v.flags.sign {
        assert(s[0] == 45);
    }
    assert(s[start + mlen] == 101);
    assert(forall|j: int| 0 <= j < exp_bytes(e).len() ==> #[trigger] s[p + j] == exp_bytes(e)[j]);
    // The input is not empty, the sign is read, and no keyword matches
    // because the first remaining byte is a digit.
    assert(s.len() > 0);
    assert(spec_parse(s) == sp_int(s, start, 0, false, v.flags.sign)) by {
        assert(48 <= s[start] <= 57);
        assert(crate::parse::lower(s[start]) == s[start]);
    }
    // Mantissa traversal.
    if l == 1 {
        assert(n < 10) by {
            if n >= 10 {
                assert(dec_digits(n) == dec_digits(n / 10).push((n % 10 + 48) as u8));
                assert(dec_digits(n / 10).len() >= 1) by {
                    if n / 10 < 10 {
                    } else {
                        assert(dec_digits(n / 10) == dec_digits(n / 10 / 10).push(
                            (n / 10 % 10 + 48) as u8,
                        ));
                    }
                }
            }
        }
        assert(seg_val(s, start, start + 1) == n) by {
            lemma_seg_val_congruent(s, start, ds, 0, 1);
            assert(seg_val(ds, 0, 0) == 0);
        }
        lemma_sp_int_run(s, start, 1, 0, false, v.flags.sign);
        assert((0 * pow10(1) + n) as nat == n) by {
            assert(0 * pow10(1) == 0);
        }
        assert(sp_int(s, start, 0, false, v.flags.sign) == sp_int(
            s,
            start + 1,
            n,
            true,
            v.flags.sign,
        ));
        assert(sp_int(s, start + 1, n, true, v.flags.sign) == sp_exp_sign(
            s,
            start + 2,
            n,
            0,
            v.flags.sign,
        )) by {
            assert(s[start + 1] == 101);
            assert(!is_digit(101u8));
        }
        lemma_parse_exp_tail(s, p, e, n, 0, v.flags.sign);
        assert(sp_finish(n, 0, e, v.flags.sign) == Ok::<Decimal, ParseError>(
            Decimal {
                digits: v.digits,
                scale: v.scale,
                flags: (Flags {
                    sign: v.flags.sign,
                    nan: false,
                    infinity: false,
                    signals: SignalSet::spec_empty(),
                }),
            },
        ));
    } else {
        // First digit, then the point, then the remaining digits.
        let d0 = (ds[0] - 48) as nat;
        assert(seg_val(s, start, start + 1) == d0) by {
            lemma_seg_val_congruent(s, start, ds, 0, 1);
            assert(seg_val(ds, 0, 0) == 0);
            assert(seg_val(ds, 0, 1) == d0);
        }
        assert(d0 <= COEFF_MAX);
        lemma_sp_int_run(s, start, 1, 0, false, v.flags.sign);
        assert((0 * pow10(1) + d0) as nat == d0) by {
            assert(0 * pow10(1) == 0);
        }
        assert(s[start + 1] == 46);
        assert(!is_digit(46u8));
        assert(sp_int(s, start + 1, d0, true, v.flags.sign) == sp_frac(
            s,
            start + 2,
            d0,
            true,
            0,
            v.flags.sign,
        ));
        // The fraction window holds ds[1..l].
        assert forall|j: int| 0 <= j < l - 1 implies #[trigger] s[start + 2 + j] == ds[1 + j]
            by {}
        assert forall|j: int| start + 2 <= j < start + 2 + (l - 1) implies is_digit(
            #[trigger] s[j],
        ) by {
            assert(s[start + 2 + (j - (start + 2))] == ds[1 + (j - (start + 2))]);
            assert(48 <= ds[1 + (j - (start + 2))] <= 57);
        }
        lemma_seg_val_congruent(s, start + 2, ds, 1, l - 1);
        lemma_seg_val_first(ds, 0, l);
        assert(seg_val(ds, 0, l) == n);
        assert(d0 * pow10((l - 1) as nat) + seg_val(ds, 1, l) == n);
        assert(seg_val(s, start + 2, start + 2 + (l - 1)) == seg_val(ds, 1, l));
        lemma_sp_frac_run(s, start + 2, l - 1, d0, true, 0, v.flags.sign);
        assert((d0 * pow10((l - 1) as nat) + seg_val(s, start + 2, start + 2 + (l - 1))) as nat
            == n);
        assert(start + 2 + (l - 1) == start + mlen);
        assert(sp_frac(s, start + mlen, n, true, (l - 1) as nat, v.flags.sign) == sp_exp_sign(
            s,
            p,
            n,
            (l - 1) as nat,
            v.flags.sign,
        )) by {
            assert(s[start + mlen] == 101);
            assert(!is_digit(101u8));
        }
        lemma_parse_exp_tail(s, p, e, n, (l - 1) as nat, v.flags.sign);
        assert(sp_finish(n, (l - 1) as nat, e, v.flags.sign) == Ok::<Decimal, ParseError>(
            Decimal {
                digits: v.digits,
                scale: v.scale,
                flags: (Flags {
                    sign: v.flags.sign,
                    nan: false,
                    infinity: false,
                    signals: SignalSet::spec_empty(),
                }),
            },
        ));
    }
    // The parsed value compares equal to the original: same coefficient,
    // scale and sign; signals are ignored by the order.
    let w = spec_parse(s)->Ok_0;
    assert(w.spec_cmp(v) == Ordering::Equal) by {
        assert(pow10(0) == 1);
        lemma_mul_basics(v.digits as int);
    }
}

} // verus!
