//! Canonicalization: significant trailing zeros migrate from the coefficient
//! into the scale. Normalization is value-preserving and idempotent; zero,
//! NaN and infinite values pass through unchanged.

use vstd::prelude::*;

use core::cmp::Ordering;

use crate::context::Context;
use crate::decimal::Decimal;
use crate::numeric::lemma_pow10_adds;
use crate::numeric::pow10;

use vstd::arithmetic::div_mod::lemma_div_decreases;
use vstd::arithmetic::div_mod::lemma_fundamental_div_mod;
use vstd::arithmetic::mul::lemma_mul_basics;

verus! {

impl Decimal {
    /// The canonical form: while the coefficient is nonzero and ends in a
    /// zero digit (and the scale can still be lowered), divide the
    /// coefficient by ten and lower the scale by one.
    pub open spec fn spec_normalize(self) -> Decimal
        decreases self.digits,
        when self.digits >= 0
        via Self::spec_normalize_decreases
    {
        if self.flags.nan || self.flags.infinity || self.digits == 0 {
            self
        } else if self.digits % 10 == 0 && self.scale > i16::MIN {
            (Decimal {
                digits: (self.digits / 10) as u128,
                scale: (self.scale - 1) as i16,
                ..self
            }).spec_normalize()
        } else {
            self
        }
    }

    #[via_fn]
    proof fn spec_normalize_decreases(self) {
        if !(self.flags.nan || self.flags.infinity || self.digits == 0) && self.digits % 10 == 0
            && self.scale > i16::MIN {
            lemma_div_decreases(self.digits as int, 10);
        }
    }

    /// Normalize, shifting all significant trailing zeros into the exponent.
    /// Raises no signal of its own; the context's trap policy applies to the
    /// signals the operand already carries.
    #[must_use]
    pub fn normalized(self, ctx: Context) -> (r: Decimal)
        requires
            ctx.spec_allows(self.flags.signals),
        ensures
            r == self.spec_normalize(),
            self.wf() ==> r.wf(),
    {
        if self.is_nan() || self.is_infinite() || self.is_zero() {
            return self;
        }
        let mut d: u128 = self.digits;
        let mut s: i16 = self.scale;
        while d % 10 == 0 && s > i16::MIN
            invariant
                1 <= d <= self.digits,
                !self.flags.nan,
                !self.flags.infinity,
                (Decimal { digits: d, scale: s, ..self }).spec_normalize()
                    == self.spec_normalize(),
            decreases d,
        {
            proof {
                lemma_div_decreases(d as int, 10);
            }
            d = d / 10;
            s = s - 1;
        }
        Decimal { digits: d, scale: s, ..self }
    }
}

/// Shape of the canonical form: same flags, a scale no larger than before,
/// and the original coefficient is exactly the canonical coefficient padded
/// back with the migrated zeros.
proof fn lemma_normalize_shape(v: Decimal)
    ensures
        v.spec_normalize().flags == v.flags,
        v.spec_normalize().scale <= v.scale,
        v.spec_normalize().digits <= v.digits,
        v.digits as nat == v.spec_normalize().digits as nat * pow10(
            (v.scale - v.spec_normalize().scale) as nat,
        ),
    decreases v.digits,
{
    let n = v.spec_normalize();
    if v.flags.nan || v.flags.infinity || v.digits == 0 {
        lemma_mul_basics(n.digits as int);
    } else if v.digits % 10 == 0 && v.scale > i16::MIN {
        let u = Decimal { digits: (v.digits / 10) as u128, scale: (v.scale - 1) as i16, ..v };
        lemma_div_decreases(v.digits as int, 10);
        lemma_normalize_shape(u);
        lemma_fundamental_div_mod(v.digits as int, 10);
        let k = (u.scale - n.scale) as nat;
        lemma_pow10_adds(k, 1);
        assert(pow10(1) == 10 * pow10(0));
        assert(v.digits as nat == (n.digits as nat * pow10(k)) * 10);
        assert((n.digits as nat * pow10(k)) * 10 == n.digits as nat * (pow10(k) * 10))
            by (nonlinear_arith);
    } else {
        lemma_mul_basics(n.digits as int);
    }
}

/// Normalization is idempotent: normalizing a canonical form returns it
/// unchanged.
pub proof fn lemma_normalize_idempotent(v: Decimal)
    ensures
        v.spec_normalize().spec_normalize() == v.spec_normalize(),
    decreases v.digits,
{
    if v.flags.nan || v.flags.infinity || v.digits == 0 {
    } else if v.digits % 10 == 0 && v.scale > i16::MIN {
        let u = Decimal { digits: (v.digits / 10) as u128, scale: (v.scale - 1) as i16, ..v };
        lemma_div_decreases(v.digits as int, 10);
        lemma_normalize_idempotent(u);
    }
}

/// Normalization is lossless: rescaling the canonical form back to the
/// original scale recovers the original value bit for bit, because only
/// zeros were migrated into the exponent.
pub proof fn lemma_normalize_reversible(v: Decimal, ctx: Context)
    requires
        v.wf(),
        v.spec_is_finite(),
    ensures
        v.spec_normalize().spec_with_scale(v.scale, ctx) == v,
{
    let n = v.spec_normalize();
    lemma_normalize_shape(v);
    if n.scale == v.scale {
        assert(pow10(0) == 1);
        lemma_mul_basics(n.digits as int);
        assert(n == v);
    } else {
        assert(n.digits as nat * pow10((v.scale - n.scale) as nat) == v.digits as nat);
    }
}

/// Normalization never changes the numeric value: the canonical form
/// compares equal to the original under the total order.
pub proof fn lemma_normalize_value_preserving(v: Decimal)
    ensures
        v.spec_normalize().spec_cmp(v) == Ordering::Equal,
{
    let n = v.spec_normalize();
    lemma_normalize_shape(v);
    if v.flags.nan || v.flags.infinity {
    } else {
        let m = crate::cmp::scale_max(n.scale, v.scale);
        assert(m == v.scale as int);
        assert(crate::cmp::aligned_mag(v.digits, v.scale, m) == v.digits as nat) by {
            assert(pow10(0) == 1);
            lemma_mul_basics(v.digits as int);
        }
        assert(crate::cmp::aligned_mag(n.digits, n.scale, m) == v.digits as nat);
    }
}

} // verus!
