//! Division: long division extending the quotient digit by digit to the
//! bounded working precision of the fixed-width coefficient, with the
//! context's rounding mode applied to the final digit.

use vstd::prelude::*;

use crate::arith::spec_inf_from;
use crate::arith::spec_nan_from;
use crate::context::Context;
use crate::decimal::Decimal;
use crate::flags::Flags;
use crate::flags::Signal;
use crate::scale::spec_round_up;
use crate::COEFF_MAX;

use vstd::arithmetic::div_mod::lemma_fundamental_div_mod;
use vstd::arithmetic::div_mod::lemma_mod_bound;

verus! {

/// Largest quotient that can still take one more decimal digit without
/// leaving the fixed width.
pub const QUOTIENT_CAP: u128 = 999999999999999999999999999999999999;

/// One digit-extension pass of long division by `b`: starting from quotient
/// `q`, remainder `r` and result scale `sc`, pull down decimal digits while
/// the remainder is nonzero, the quotient can still grow a digit and the
/// scale has room. Returns the final quotient, remainder and scale.
pub open spec fn spec_div_steps(b: nat, q: nat, r: nat, sc: int) -> (nat, nat, int)
    decreases i16::MAX - sc,
{
    if r == 0 || q > QUOTIENT_CAP || sc >= i16::MAX {
        (q, r, sc)
    } else {
        spec_div_steps(b, q * 10 + (r * 10) / b, (r * 10) % b, sc + 1)
    }
}

impl Decimal {
    /// Result of `self / rhs`. NaN operands and infinity over infinity yield
    /// NaN with the invalid-operation signal; an infinite dividend gives the
    /// signed infinity, an infinite divisor a signed zero. A zero divisor
    /// with a nonzero dividend gives the signed infinity with the
    /// division-by-zero signal; zero over zero is NaN with invalid. Finite
    /// division starts from the integer quotient at scale
    /// `self.scale - rhs.scale`, extends it digit by digit as far as the
    /// fixed width and the scale range allow, and rounds the last digit with
    /// the context's mode, raising rounded and inexact when a nonzero
    /// remainder survives; a result scale outside the representable range
    /// yields NaN with invalid.
    pub open spec fn spec_div(self, rhs: Decimal, ctx: Context) -> Decimal {
        if self.flags.nan || rhs.flags.nan {
            spec_nan_from(self.flags, rhs.flags)
        } else if self.flags.infinity && rhs.flags.infinity {
            spec_nan_from(self.flags, rhs.flags)
        } else if self.flags.infinity {
            spec_inf_from(self.flags.sign != rhs.flags.sign, self.flags, rhs.flags)
        } else if rhs.flags.infinity {
            Decimal {
                digits: 0,
                scale: 0,
                flags: (Flags {
                    sign: self.flags.sign != rhs.flags.sign,
                    nan: false,
                    infinity: false,
                    signals: self.flags.signals.spec_union(rhs.flags.signals),
                }),
            }
        } else if rhs.digits == 0 {
            if self.digits == 0 {
                spec_nan_from(self.flags, rhs.flags)
            } else {
                Decimal {
                    digits: 0,
                    scale: 0,
                    flags: (Flags {
                        sign: self.flags.sign != rhs.flags.sign,
                        nan: false,
                        infinity: true,
                        signals: self.flags.signals.spec_union(rhs.flags.signals).spec_with(
                            Signal::DivByZero,
                        ),
                    }),
                }
            }
        } else {
            let b = rhs.digits as nat;
            let steps = spec_div_steps(
                b,
                self.digits as nat / b,
                self.digits as nat % b,
                self.scale - rhs.scale,
            );
            let q = steps.0;
            let r = steps.1;
            let sc = steps.2;
            let sign = self.flags.sign != rhs.flags.sign;
            let signals = self.flags.signals.spec_union(rhs.flags.signals);
            if sc > i16::MAX || sc < i16::MIN {
                spec_nan_from(self.flags, rhs.flags)
            } else if r == 0 {
                Decimal {
                    digits: q as u128,
                    scale: sc as i16,
                    flags: (Flags { sign, nan: false, infinity: false, signals }),
                }
            } else {
                let signals2 = signals.spec_with(Signal::Rounded).spec_with(Signal::Inexact);
                let q2 = if spec_round_up(q, r, b, sign, ctx.rounding_mode) {
                    q + 1
                } else {
                    q
                };
                if q2 > COEFF_MAX {
                    // A carry out of an all-nines quotient: fold the carry
                    // back into one fewer fractional digit.
                    if sc - 1 < i16::MIN {
                        spec_nan_from(self.flags, rhs.flags)
                    } else {
                        Decimal {
                            digits: (q2 / 10) as u128,
                            scale: (sc - 1) as i16,
                            flags: (Flags { sign, nan: false, infinity: false, signals: signals2 }),
                        }
                    }
                } else {
                    Decimal {
                        digits: q2 as u128,
                        scale: sc as i16,
                        flags: (Flags { sign, nan: false, infinity: false, signals: signals2 }),
                    }
                }
            }
        }
    }

    /// `self / rhs` under `ctx`; used by the `/` operator.
    #[must_use]
    pub fn div(self, rhs: Decimal, ctx: Context) -> (res: Decimal)
        requires
            self.wf(),
            rhs.wf(),
            ctx.spec_allows(self.spec_div(rhs, ctx).flags.signals),
        ensures
            res == self.spec_div(rhs, ctx),
            res.wf(),
    {
        if self.is_nan() || rhs.is_nan() {
            return crate::arith::nan_from(self.flags, rhs.flags);
        }
        if self.is_infinite() && rhs.is_infinite() {
            return crate::arith::nan_from(self.flags, rhs.flags);
        }
        let sign = self.is_sign_negative() != rhs.is_sign_negative();
        if self.is_infinite() {
            return Decimal {
                digits: 0,
                scale: 0,
                flags: Flags {
                    sign,
                    nan: false,
                    infinity: true,
                    signals: self.flags.signals.union(rhs.flags.signals),
                },
            };
        }
        if rhs.is_infinite() {
            return Decimal {
                digits: 0,
                scale: 0,
                flags: Flags {
                    sign,
                    nan: false,
                    infinity: false,
                    signals: self.flags.signals.union(rhs.flags.signals),
                },
            };
        }
        if rhs.is_zero() {
            if self.is_zero() {
                return crate::arith::nan_from(self.flags, rhs.flags);
            }
            return Decimal {
                digits: 0,
                scale: 0,
                flags: Flags {
                    sign,
                    nan: false,
                    infinity: true,
                    signals: self.flags.signals.union(rhs.flags.signals).with(Signal::DivByZero),
                },
            };
        }
        let b = rhs.digits;
        let ghost q0 = self.digits as nat / b as nat;
        let ghost r0 = self.digits as nat % b as nat;
        let ghost sc0 = self.scale - rhs.scale;
        let mut q: u128 = self.digits / b;
        let mut r: u128 = self.digits % b;
        let mut sc: i32 = self.scale as i32 - rhs.scale as i32;
        while r != 0 && q <= QUOTIENT_CAP && sc < i16::MAX as i32
            invariant
                1 <= b <= COEFF_MAX,
                r < b,
                q <= COEFF_MAX,
                -65535 <= sc <= 65535,
                spec_div_steps(b as nat, q as nat, r as nat, sc as int) == spec_div_steps(
                    b as nat,
                    q0,
                    r0,
                    sc0,
                ),
            decreases i16::MAX - sc,
        {
            let rx = r * 10;
            let digit = rx / b;
            proof {
                lemma_fundamental_div_mod(rx as int, b as int);
                lemma_mod_bound(rx as int, b as int);
                assert((rx as int / b as int) <= 9) by (nonlinear_arith)
                    requires
                        rx as int == (rx as int / b as int) * b + (rx as int % b as int),
                        (rx as int % b as int) >= 0,
                        (rx as int) < 10 * b,
                        b >= 1,
                        (rx as int / b as int) >= 0,
                ;
            }
            r = rx % b;
            q = q * 10 + digit;
            sc = sc + 1;
        }
        proof {
            lemma_mod_bound(self.digits as int, b as int);
        }
        if sc > i16::MAX as i32 || sc < i16::MIN as i32 {
            return crate::arith::nan_from(self.flags, rhs.flags);
        }
        let signals = self.flags.signals.union(rhs.flags.signals);
        if r == 0 {
            return Decimal {
                digits: q,
                scale: sc as i16,
                flags: Flags { sign, nan: false, infinity: false, signals },
            };
        }
        let signals2 = signals.with(Signal::Rounded).with(Signal::Inexact);
        let bump = crate::scale::round_up_exec(q, r, b, sign, ctx.rounding_mode);
        let q2 = if bump {
            q + 1
        } else {
            q
        };
        if q2 > COEFF_MAX {
            if sc - 1 < i16::MIN as i32 {
                return crate::arith::nan_from(self.flags, rhs.flags);
            }
            return Decimal {
                digits: q2 / 10,
                scale: (sc - 1) as i16,
                flags: Flags { sign, nan: false, infinity: false, signals: signals2 },
            };
        }
        Decimal {
            digits: q2,
            scale: sc as i16,
            flags: Flags { sign, nan: false, infinity: false, signals: signals2 },
        }
    }
}

} // verus!
