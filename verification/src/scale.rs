//! Rescaling: changing the count of fractional digits of a value, rounding
//! with the context's mode when digits are discarded and signaling overflow
//! of the fixed-width coefficient when refinement would not fit.

use vstd::prelude::*;

use crate::context::Context;
use crate::context::RoundingMode;
use crate::decimal::Decimal;
use crate::flags::Signal;
use crate::numeric::lemma_pow10_37;
use crate::numeric::lemma_pow10_increases;
use crate::numeric::lemma_pow10_pos;
use crate::numeric::pow10;
use crate::numeric::pow10_u128;
use crate::COEFF_MAX;

use vstd::arithmetic::div_mod::lemma_basic_div;
use vstd::arithmetic::div_mod::lemma_div_by_multiple;
use vstd::arithmetic::div_mod::lemma_fundamental_div_mod;
use vstd::arithmetic::div_mod::lemma_mod_multiples_basic;
use vstd::arithmetic::div_mod::lemma_small_mod;
use vstd::arithmetic::mul::lemma_mul_inequality;

verus! {

/// Whether a truncated quotient `q` with remainder `r` of a division by `d`
/// must be bumped by one under the given rounding mode, for a value of the
/// given sign. Toward-positive-infinity rounding bumps a positive value and
/// truncates a negative one; toward-negative-infinity is the mirror image.
pub open spec fn spec_round_up(
    q: nat,
    r: nat,
    d: nat,
    negative: bool,
    mode: RoundingMode,
) -> bool {
    match mode {
        RoundingMode::Up => r != 0,
        RoundingMode::Down => false,
        RoundingMode::Ceiling => !negative && r != 0,
        RoundingMode::Floor => negative && r != 0,
        RoundingMode::HalfUp => 2 * r >= d,
        RoundingMode::HalfDown => 2 * r > d,
        RoundingMode::HalfEven => 2 * r > d || (2 * r == d && q % 2 == 1),
    }
}

impl Decimal {
    /// Result of rescaling to `new_scale` under `ctx`. NaN and infinities
    /// pass through unchanged. Refining multiplies the coefficient by the
    /// needed power of ten, and overflow of the fixed width yields NaN with
    /// the invalid-operation signal. Coarsening divides with the context's
    /// rounding mode, raising the rounded signal (digits were discarded) and
    /// additionally the inexact signal when the discarded digits were not all
    /// zero.
    pub open spec fn spec_with_scale(self, new_scale: i16, ctx: Context) -> Decimal {
        if self.flags.nan || self.flags.infinity {
            self
        } else if new_scale == self.scale {
            self
        } else if new_scale > self.scale {
            let c = self.digits as nat * pow10((new_scale - self.scale) as nat);
            if c > COEFF_MAX {
                Decimal::spec_invalid(self.flags)
            } else {
                Decimal { digits: c as u128, scale: new_scale, ..self }
            }
        } else {
            let d = pow10((self.scale - new_scale) as nat);
            let q = self.digits as nat / d;
            let r = self.digits as nat % d;
            let q2 = if spec_round_up(q, r, d, self.flags.sign, ctx.rounding_mode) {
                q + 1
            } else {
                q
            };
            let f = if r != 0 {
                self.flags.spec_raise_signal(Signal::Rounded).spec_raise_signal(Signal::Inexact)
            } else {
                self.flags.spec_raise_signal(Signal::Rounded)
            };
            Decimal { digits: q2 as u128, scale: new_scale, flags: f }
        }
    }

    /// Rescale to `new_scale` digits after the decimal point, rounding with
    /// the context's mode when digits must be discarded.
    #[must_use]
    pub fn with_scale(self, new_scale: i16, ctx: Context) -> (r: Decimal)
        requires
            self.wf(),
            ctx.spec_allows(self.spec_with_scale(new_scale, ctx).flags.signals),
        ensures
            r == self.spec_with_scale(new_scale, ctx),
            r.wf(),
    {
        proof {
            lemma_pow10_37();
        }
        if self.is_nan() || self.is_infinite() {
            return self;
        }
        if new_scale == self.scale {
            return self;
        }
        if new_scale > self.scale {
            let diff = new_scale as i32 - self.scale as i32;
            if self.digits == 0 {
                assert(0 as nat * pow10((new_scale - self.scale) as nat) == 0) by {
                    vstd::arithmetic::mul::lemma_mul_basics(
                        pow10((new_scale - self.scale) as nat) as int,
                    );
                }
                return Decimal { digits: 0, scale: new_scale, ..self };
            }
            if diff > 37 {
                proof {
                    lemma_pow10_increases(38, diff as nat);
                    lemma_mul_inequality(
                        1,
                        self.digits as int,
                        pow10(diff as nat) as int,
                    );
                    assert(self.digits as nat * pow10(diff as nat) >= 1 * pow10(diff as nat));
                }
                return Decimal::invalid_result(self.flags);
            }
            let p = pow10_u128(diff as u32);
            proof {
                lemma_pow10_pos(diff as nat);
                lemma_fundamental_div_mod(COEFF_MAX as int, p as int);
            }
            let limit = COEFF_MAX / p;
            if self.digits > limit {
                proof {
                    assert(self.digits as int * p as int > COEFF_MAX) by (nonlinear_arith)
                        requires
                            (self.digits as int) >= COEFF_MAX as int / p as int + 1,
                            p > 0,
                            COEFF_MAX as int == (COEFF_MAX as int / p as int) * p as int + (
                            COEFF_MAX as int % p as int),
                            (COEFF_MAX as int % p as int) < p,
                    ;
                }
                return Decimal::invalid_result(self.flags);
            }
            proof {
                assert(self.digits as int * p as int <= COEFF_MAX) by (nonlinear_arith)
                    requires
                        (self.digits as int) <= COEFF_MAX as int / p as int,
                        p > 0,
                        COEFF_MAX as int == (COEFF_MAX as int / p as int) * p as int + (
                        COEFF_MAX as int % p as int),
                        (COEFF_MAX as int % p as int) >= 0,
                ;
            }
            let c = self.digits * p;
            Decimal { digits: c, scale: new_scale, ..self }
        } else {
            let diff = self.scale as i32 - new_scale as i32;
            let negative = self.is_sign_negative();
            let ghost dd = pow10((self.scale - new_scale) as nat);
            let (q, bump): (u128, bool) = if diff <= 38 {
                let p = pow10_u128(diff as u32);
                proof {
                    lemma_pow10_pos(diff as nat);
                    lemma_pow10_increases(diff as nat, 38);
                }
                let q0 = self.digits / p;
                let r0 = self.digits % p;
                let b = round_up_exec(q0, r0, p, negative, ctx.rounding_mode);
                (q0, b)
            } else {
                // More digits are discarded than any coefficient has: the
                // quotient is zero and the remainder is the whole
                // coefficient, strictly below half of the divisor.
                proof {
                    lemma_pow10_increases(39, diff as nat);
                    lemma_pow10_pos(diff as nat);
                    assert(pow10(39) == 10 * pow10(38));
                    lemma_basic_div(self.digits as int, dd as int);
                    lemma_small_mod(self.digits as nat, dd);
                    assert(2 * (self.digits as nat) < dd);
                }
                let b = match ctx.rounding_mode {
                    RoundingMode::Up => self.digits != 0,
                    RoundingMode::Down => false,
                    RoundingMode::Ceiling => !negative && self.digits != 0,
                    RoundingMode::Floor => negative && self.digits != 0,
                    RoundingMode::HalfUp => false,
                    RoundingMode::HalfDown => false,
                    RoundingMode::HalfEven => false,
                };
                (0u128, b)
            };
            let ghost rr = self.digits as nat % dd;
            proof {
                lemma_pow10_pos((self.scale - new_scale) as nat);
                assert(q as nat == self.digits as nat / dd);
                assert(q + 1 <= COEFF_MAX) by {
                    lemma_fundamental_div_mod(self.digits as int, dd as int);
                    assert(dd >= 10) by {
                        lemma_pow10_increases(1, (self.scale - new_scale) as nat);
                        assert(pow10(1) == 10 * pow10(0));
                    }
                    assert(q as int * 10 <= q as int * dd) by (nonlinear_arith)
                        requires
                            dd >= 10,
                            q >= 0,
                    ;
                    assert(q as int * dd <= self.digits as int) by (nonlinear_arith)
                        requires
                            self.digits as int == q as int * dd + rr,
                            rr >= 0,
                    ;
                }
            }
            let q2 = if bump {
                q + 1
            } else {
                q
            };
            let any_discarded = self.digits % pow10_u128(if diff <= 38 {
                diff as u32
            } else {
                38
            }) != 0;
            // For a discard wider than any coefficient the remainder is the
            // whole coefficient, so the 38-digit probe already decides
            // whether anything nonzero was discarded.
            proof {
                if diff > 38 {
                    if self.digits as nat % pow10(38) != 0 || self.digits != 0 {
                        lemma_small_mod(self.digits as nat, pow10(38));
                    }
                }
            }
            let flags = if any_discarded {
                self.flags.raise_signal(Signal::Rounded).raise_signal(Signal::Inexact)
            } else {
                self.flags.raise_signal(Signal::Rounded)
            };
            Decimal { digits: q2, scale: new_scale, flags }
        }
    }

    /// Round to `digits` fractional digits with the given mode under the
    /// default trap policy.
    #[must_use]
    pub fn round(self, digits: i16, rounding_mode: RoundingMode) -> (r: Decimal)
        requires
            self.wf(),
            ({
                let ctx = Context::spec_default().spec_with_rounding_mode(rounding_mode);
                ctx.spec_allows(self.spec_with_scale(digits, ctx).flags.signals)
            }),
        ensures
            r == self.spec_with_scale(
                digits,
                Context::spec_default().spec_with_rounding_mode(rounding_mode),
            ),
            r.wf(),
    {
        self.with_scale(digits, Context::default().with_rounding_mode(rounding_mode))
    }
}

/// The executable rounding decision over an actual quotient and remainder.
pub(crate) fn round_up_exec(q: u128, r: u128, d: u128, negative: bool, mode: RoundingMode) -> (b: bool)
    requires
        d >= 1,
        r < d,
        d <= 100000000000000000000000000000000000000u128,
    ensures
        b == spec_round_up(q as nat, r as nat, d as nat, negative, mode),
{
    match mode {
        RoundingMode::Up => r != 0,
        RoundingMode::Down => false,
        RoundingMode::Ceiling => !negative && r != 0,
        RoundingMode::Floor => negative && r != 0,
        RoundingMode::HalfUp => 2 * r >= d,
        RoundingMode::HalfDown => 2 * r > d,
        RoundingMode::HalfEven => 2 * r > d || (2 * r == d && q % 2 == 1),
    }
}

/// Rescaling to a finer scale and back to the original one recovers the
/// original coefficient and scale exactly when the refinement does not
/// overflow: the way back divides exactly, so no rounding mode can disturb
/// the result and no inexact signal is raised.
pub proof fn lemma_rescale_round_trip(v: Decimal, finer: i16, ctx: Context)
    requires
        v.wf(),
        v.spec_is_finite(),
        finer >= v.scale,
        v.digits as nat * pow10((finer - v.scale) as nat) <= COEFF_MAX,
    ensures
        ({
            let back = v.spec_with_scale(finer, ctx).spec_with_scale(v.scale, ctx);
            &&& back.digits == v.digits
            &&& back.scale == v.scale
            &&& back.flags.sign == v.flags.sign
            &&& back.flags.signals.inexact == v.flags.signals.inexact
        }),
{
    if finer == v.scale {
    } else {
        let e = (finer - v.scale) as nat;
        let p = pow10(e);
        let up = v.spec_with_scale(finer, ctx);
        lemma_pow10_pos(e);
        assert(up.digits as nat == v.digits as nat * p);
        assert(up.scale == finer);
        lemma_div_by_multiple(v.digits as int, p as int);
        lemma_mod_multiples_basic(v.digits as int, p as int);
        let q = up.digits as nat / p;
        let r = up.digits as nat % p;
        assert(q == v.digits as nat);
        assert(r == 0);
        assert(!spec_round_up(q, r, p, up.flags.sign, ctx.rounding_mode)) by {
            lemma_pow10_increases(1, e);
            assert(pow10(1) == 10 * pow10(0));
        }
    }
}

} // verus!
