//! Addition, subtraction, multiplication and remainder. Each operation
//! derives the result scale, folds the signals of both operands into the
//! result and raises the invalid-operation signal when the fixed-width
//! coefficient overflows.

use vstd::prelude::*;

use crate::cmp::aligned_mag;
use crate::cmp::scale_max;
use crate::cmp::signed_aligned;
use crate::context::Context;
use crate::decimal::Decimal;
use crate::flags::Flags;
use crate::flags::Signal;
use crate::numeric::lemma_pow10_37;
use crate::numeric::lemma_pow10_increases;
use crate::numeric::lemma_pow10_pos;
use crate::numeric::pow10;
use crate::numeric::pow10_u128;
use crate::COEFF_MAX;

use vstd::arithmetic::div_mod::lemma_fundamental_div_mod;
use vstd::arithmetic::mul::lemma_mul_basics;
use vstd::arithmetic::mul::lemma_mul_inequality;

verus! {

/// The NaN produced by an operation on these two operands' flags: both
/// operands' signals are kept and the invalid-operation signal is raised.
pub open spec fn spec_nan_from(a: Flags, b: Flags) -> Decimal {
    Decimal {
        digits: 0,
        scale: 0,
        flags: (Flags {
            sign: false,
            nan: true,
            infinity: false,
            signals: a.signals.spec_union(b.signals).spec_with(Signal::Invalid),
        }),
    }
}

/// The infinity of the given sign produced by an operation on these two
/// operands' flags: both operands' signals are kept.
pub open spec fn spec_inf_from(sign: bool, a: Flags, b: Flags) -> Decimal {
    Decimal {
        digits: 0,
        scale: 0,
        flags: (Flags {
            sign,
            nan: false,
            infinity: true,
            signals: a.signals.spec_union(b.signals),
        }),
    }
}

pub(crate) fn nan_from(a: Flags, b: Flags) -> (r: Decimal)
    ensures
        r == spec_nan_from(a, b),
        r.wf(),
{
    Decimal {
        digits: 0,
        scale: 0,
        flags: Flags {
            sign: false,
            nan: true,
            infinity: false,
            signals: a.signals.union(b.signals).with(Signal::Invalid),
        },
    }
}

fn inf_from(sign: bool, a: Flags, b: Flags) -> (r: Decimal)
    ensures
        r == spec_inf_from(sign, a, b),
        r.wf(),
{
    Decimal {
        digits: 0,
        scale: 0,
        flags: Flags { sign, nan: false, infinity: true, signals: a.signals.union(b.signals) },
    }
}

/// Bring a coefficient at scale `s` to the finer scale `m`, or report that
/// the aligned coefficient overflows the fixed width.
fn align_coeff(c: u128, s: i16, m: i16) -> (r: Option<u128>)
    requires
        c <= COEFF_MAX,
        s <= m,
    ensures
        aligned_mag(c, s, m as int) <= COEFF_MAX ==> r == Some(
            aligned_mag(c, s, m as int) as u128,
        ),
        aligned_mag(c, s, m as int) > COEFF_MAX ==> r is None,
{
    proof {
        lemma_pow10_37();
        lemma_pow10_pos((m - s) as nat);
    }
    if c == 0 {
        proof {
            lemma_mul_basics(pow10((m - s) as nat) as int);
        }
        return Some(0);
    }
    let diff = m as i32 - s as i32;
    if diff > 37 {
        proof {
            lemma_pow10_increases(38, diff as nat);
            lemma_mul_inequality(1, c as int, pow10(diff as nat) as int);
            assert(c as nat * pow10(diff as nat) >= 1 * pow10(diff as nat));
        }
        return None;
    }
    let p = pow10_u128(diff as u32);
    proof {
        lemma_fundamental_div_mod(COEFF_MAX as int, p as int);
    }
    let limit = COEFF_MAX / p;
    if c > limit {
        proof {
            assert(c as int * p as int > COEFF_MAX) by (nonlinear_arith)
                requires
                    (c as int) >= COEFF_MAX as int / p as int + 1,
                    p > 0,
                    COEFF_MAX as int == (COEFF_MAX as int / p as int) * p as int + (COEFF_MAX
                        as int % p as int),
                    (COEFF_MAX as int % p as int) < p,
            ;
        }
        return None;
    }
    proof {
        assert(c as int * p as int <= COEFF_MAX) by (nonlinear_arith)
            requires
                (c as int) <= COEFF_MAX as int / p as int,
                p > 0,
                COEFF_MAX as int == (COEFF_MAX as int / p as int) * p as int + (COEFF_MAX as int
                    % p as int),
                (COEFF_MAX as int % p as int) >= 0,
        ;
    }
    Some(c * p)
}

impl Decimal {
    /// Result of `self + rhs`. A NaN operand, an opposite-signed pair of
    /// infinities, or coefficient overflow during alignment or in the final
    /// sum yields NaN with the invalid-operation signal; an infinity operand
    /// otherwise propagates with its sign. Finite operands are aligned to the
    /// finer of the two scales, which is the result scale, and summed with
    /// their signs; a sum of exactly zero is positive.
    pub open spec fn spec_add(self, rhs: Decimal, ctx: Context) -> Decimal {
        if self.flags.nan || rhs.flags.nan {
            spec_nan_from(self.flags, rhs.flags)
        } else if self.flags.infinity && rhs.flags.infinity {
            if self.flags.sign == rhs.flags.sign {
                spec_inf_from(self.flags.sign, self.flags, rhs.flags)
            } else {
                spec_nan_from(self.flags, rhs.flags)
            }
        } else if self.flags.infinity {
            spec_inf_from(self.flags.sign, self.flags, rhs.flags)
        } else if rhs.flags.infinity {
            spec_inf_from(rhs.flags.sign, self.flags, rhs.flags)
        } else {
            let m = scale_max(self.scale, rhs.scale);
            if aligned_mag(self.digits, self.scale, m) > COEFF_MAX || aligned_mag(
                rhs.digits,
                rhs.scale,
                m,
            ) > COEFF_MAX {
                spec_nan_from(self.flags, rhs.flags)
            } else {
                let s = signed_aligned(self, m) + signed_aligned(rhs, m);
                let mag = if s < 0 {
                    (-s) as nat
                } else {
                    s as nat
                };
                if mag > COEFF_MAX {
                    spec_nan_from(self.flags, rhs.flags)
                } else {
                    Decimal {
                        digits: mag as u128,
                        scale: m as i16,
                        flags: (Flags {
                            sign: s < 0,
                            nan: false,
                            infinity: false,
                            signals: self.flags.signals.spec_union(rhs.flags.signals),
                        }),
                    }
                }
            }
        }
    }

    /// Result of `self - rhs`: addition of the negated right-hand side.
    pub open spec fn spec_sub(self, rhs: Decimal, ctx: Context) -> Decimal {
        self.spec_add(rhs.spec_neg(), ctx)
    }

    /// Result of `self * rhs`. NaN operands and zero-times-infinity yield
    /// NaN with the invalid-operation signal; an infinity operand otherwise
    /// gives the infinity of the combined sign. Finite operands multiply
    /// coefficients, add scales and combine signs by exclusive or; overflow
    /// of the coefficient or of the scale range yields NaN with the
    /// invalid-operation signal.
    pub open spec fn spec_mul(self, rhs: Decimal, ctx: Context) -> Decimal {
        if self.flags.nan || rhs.flags.nan {
            spec_nan_from(self.flags, rhs.flags)
        } else if self.flags.infinity || rhs.flags.infinity {
            if (!self.flags.infinity && self.digits == 0) || (!rhs.flags.infinity && rhs.digits
                == 0) {
                spec_nan_from(self.flags, rhs.flags)
            } else {
                spec_inf_from(self.flags.sign != rhs.flags.sign, self.flags, rhs.flags)
            }
        } else {
            let c = self.digits as nat * rhs.digits as nat;
            let sc = self.scale + rhs.scale;
            if c > COEFF_MAX || sc > i16::MAX || sc < i16::MIN {
                spec_nan_from(self.flags, rhs.flags)
            } else {
                Decimal {
                    digits: c as u128,
                    scale: sc as i16,
                    flags: (Flags {
                        sign: self.flags.sign != rhs.flags.sign,
                        nan: false,
                        infinity: false,
                        signals: self.flags.signals.spec_union(rhs.flags.signals),
                    }),
                }
            }
        }
    }

    /// Result of `self % rhs`: the truncating remainder, whose sign follows
    /// the dividend. A NaN operand, an infinite dividend, a zero divisor or
    /// alignment overflow yields NaN with the invalid-operation signal; an
    /// infinite divisor returns the dividend unchanged (plus the divisor's
    /// signals).
    pub open spec fn spec_rem(self, rhs: Decimal, ctx: Context) -> Decimal {
        if self.flags.nan || rhs.flags.nan {
            spec_nan_from(self.flags, rhs.flags)
        } else if self.flags.infinity {
            spec_nan_from(self.flags, rhs.flags)
        } else if rhs.flags.infinity {
            Decimal { flags: self.flags.spec_with_signals_from(rhs.flags), ..self }
        } else if rhs.digits == 0 {
            spec_nan_from(self.flags, rhs.flags)
        } else {
            let m = scale_max(self.scale, rhs.scale);
            if aligned_mag(self.digits, self.scale, m) > COEFF_MAX || aligned_mag(
                rhs.digits,
                rhs.scale,
                m,
            ) > COEFF_MAX {
                spec_nan_from(self.flags, rhs.flags)
            } else {
                let rr = aligned_mag(self.digits, self.scale, m) % aligned_mag(
                    rhs.digits,
                    rhs.scale,
                    m,
                );
                Decimal {
                    digits: rr as u128,
                    scale: m as i16,
                    flags: (Flags {
                        sign: self.flags.sign,
                        nan: false,
                        infinity: false,
                        signals: self.flags.signals.spec_union(rhs.flags.signals),
                    }),
                }
            }
        }
    }

    /// `self + rhs` under `ctx`; used by the `+` operator.
    #[must_use]
    pub fn add(self, rhs: Decimal, ctx: Context) -> (r: Decimal)
        requires
            self.wf(),
            rhs.wf(),
            ctx.spec_allows(self.spec_add(rhs, ctx).flags.signals),
        ensures
            r == self.spec_add(rhs, ctx),
            r.wf(),
    {
        if self.is_nan() || rhs.is_nan() {
            return nan_from(self.flags, rhs.flags);
        }
        if self.is_infinite() && rhs.is_infinite() {
            if self.is_sign_negative() == rhs.is_sign_negative() {
                return inf_from(self.is_sign_negative(), self.flags, rhs.flags);
            }
            return nan_from(self.flags, rhs.flags);
        }
        if self.is_infinite() {
            return inf_from(self.is_sign_negative(), self.flags, rhs.flags);
        }
        if rhs.is_infinite() {
            return inf_from(rhs.is_sign_negative(), self.flags, rhs.flags);
        }
        let m = if self.scale >= rhs.scale {
            self.scale
        } else {
            rhs.scale
        };
        let ca_opt = align_coeff(self.digits, self.scale, m);
        let cb_opt = align_coeff(rhs.digits, rhs.scale, m);
        if ca_opt.is_none() || cb_opt.is_none() {
            return nan_from(self.flags, rhs.flags);
        }
        let ca = ca_opt.unwrap();
        let cb = cb_opt.unwrap();
        let sign_a = self.is_sign_negative();
        let sign_b = rhs.is_sign_negative();
        let signals = self.flags.signals.union(rhs.flags.signals);
        if sign_a == sign_b {
            let sum = ca + cb;
            if sum > COEFF_MAX {
                return nan_from(self.flags, rhs.flags);
            }
            let sign = if sum == 0 {
                false
            } else {
                sign_a
            };
            Decimal {
                digits: sum,
                scale: m,
                flags: Flags { sign, nan: false, infinity: false, signals },
            }
        } else {
            let (mag, sgn): (u128, bool) = if ca > cb {
                (ca - cb, sign_a)
            } else if cb > ca {
                (cb - ca, sign_b)
            } else {
                (0u128, false)
            };
            Decimal {
                digits: mag,
                scale: m,
                flags: Flags { sign: sgn, nan: false, infinity: false, signals },
            }
        }
    }

    /// `self - rhs` under `ctx`; used by the `-` operator.
    #[must_use]
    pub fn sub(self, rhs: Decimal, ctx: Context) -> (r: Decimal)
        requires
            self.wf(),
            rhs.wf(),
            ctx.spec_allows(self.spec_sub(rhs, ctx).flags.signals),
        ensures
            r == self.spec_sub(rhs, ctx),
            r.wf(),
    {
        self.add(rhs.neg(), ctx)
    }

    /// `self * rhs` under `ctx`; used by the `*` operator.
    #[must_use]
    pub fn mul(self, rhs: Decimal, ctx: Context) -> (r: Decimal)
        requires
            self.wf(),
            rhs.wf(),
            ctx.spec_allows(self.spec_mul(rhs, ctx).flags.signals),
        ensures
            r == self.spec_mul(rhs, ctx),
            r.wf(),
    {
        if self.is_nan() || rhs.is_nan() {
            return nan_from(self.flags, rhs.flags);
        }
        if self.is_infinite() || rhs.is_infinite() {
            let self_zero = !self.is_infinite() && self.is_zero();
            let rhs_zero = !rhs.is_infinite() && rhs.is_zero();
            if self_zero || rhs_zero {
                return nan_from(self.flags, rhs.flags);
            }
            let s = self.is_sign_negative() != rhs.is_sign_negative();
            return inf_from(s, self.flags, rhs.flags);
        }
        let prod = self.digits.checked_mul(rhs.digits);
        let sc = self.scale as i32 + rhs.scale as i32;
        match prod {
            Some(c) => {
                if c > COEFF_MAX || sc > i16::MAX as i32 || sc < i16::MIN as i32 {
                    nan_from(self.flags, rhs.flags)
                } else {
                    Decimal {
                        digits: c,
                        scale: sc as i16,
                        flags: Flags {
                            sign: self.is_sign_negative() != rhs.is_sign_negative(),
                            nan: false,
                            infinity: false,
                            signals: self.flags.signals.union(rhs.flags.signals),
                        },
                    }
                }
            },
            None => nan_from(self.flags, rhs.flags),
        }
    }

    /// `self % rhs` under `ctx`; used by the `%` operator.
    #[must_use]
    pub fn rem(self, rhs: Decimal, ctx: Context) -> (r: Decimal)
        requires
            self.wf(),
            rhs.wf(),
            ctx.spec_allows(self.spec_rem(rhs, ctx).flags.signals),
        ensures
            r == self.spec_rem(rhs, ctx),
            r.wf(),
    {
        if self.is_nan() || rhs.is_nan() {
            return nan_from(self.flags, rhs.flags);
        }
        if self.is_infinite() {
            return nan_from(self.flags, rhs.flags);
        }
        if rhs.is_infinite() {
            return Decimal { flags: self.flags.with_signals_from(rhs.flags), ..self };
        }
        if rhs.is_zero() {
            return nan_from(self.flags, rhs.flags);
        }
        let m = if self.scale >= rhs.scale {
            self.scale
        } else {
            rhs.scale
        };
        let ca_opt = align_coeff(self.digits, self.scale, m);
        let cb_opt = align_coeff(rhs.digits, rhs.scale, m);
        if ca_opt.is_none() || cb_opt.is_none() {
            return nan_from(self.flags, rhs.flags);
        }
        let ca = ca_opt.unwrap();
        let cb = cb_opt.unwrap();
        proof {
            lemma_pow10_pos((m - rhs.scale) as nat);
            lemma_mul_inequality(1, rhs.digits as int, pow10((m - rhs.scale) as nat) as int);
            assert(aligned_mag(rhs.digits, rhs.scale, m as int) >= 1 * pow10(
                (m - rhs.scale) as nat,
            ));
        }
        let rr = ca % cb;
        Decimal {
            digits: rr,
            scale: m,
            flags: Flags {
                sign: self.is_sign_negative(),
                nan: false,
                infinity: false,
                signals: self.flags.signals.union(rhs.flags.signals),
            },
        }
    }
}

/// Addition is commutative, bit for bit: the result carries the same
/// coefficient, scale, sign and signals whichever way the operands are
/// given.
pub proof fn lemma_add_commutative(a: Decimal, b: Decimal, ctx: Context)
    ensures
        a.spec_add(b, ctx) == b.spec_add(a, ctx),
{
}

/// Multiplication is commutative, bit for bit.
pub proof fn lemma_mul_commutative(a: Decimal, b: Decimal, ctx: Context)
    ensures
        a.spec_mul(b, ctx) == b.spec_mul(a, ctx),
{
    assert(a.digits as nat * b.digits as nat == b.digits as nat * a.digits as nat)
        by (nonlinear_arith);
}

/// Negation is an involution: negating twice restores the value exactly.
pub proof fn lemma_neg_involution(v: Decimal)
    requires
        v.spec_is_finite(),
    ensures
        v.spec_neg().spec_neg() == v,
{
}

/// The absolute value is never negative, for every value that is not NaN.
pub proof fn lemma_abs_never_negative(v: Decimal)
    requires
        !v.flags.nan,
    ensures
        !v.spec_abs().flags.sign,
{
}

} // verus!
