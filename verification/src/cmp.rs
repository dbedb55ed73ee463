//! Total ordering over decimal values, including NaN, infinities and signed
//! zero, and the comparison API built on it.
//!
//! The order on finite values is the numeric one, decided by aligning both
//! coefficients to the finer of the two scales. NaN needs a documented
//! convention to keep the order total: NaN compares equal to NaN and greater
//! than every other value, so sorting, `min` and `max` never fail.

use vstd::prelude::*;

use core::cmp::Ordering;

use crate::decimal::Decimal;
use crate::numeric::count_digits;
use crate::numeric::lemma_digit_count_bounds;
use crate::numeric::lemma_pow10_37;
use crate::numeric::lemma_pow10_adds;
use crate::numeric::lemma_pow10_increases;
use crate::numeric::lemma_pow10_pos;
use crate::numeric::pow10;
use crate::numeric::pow10_u128;
use crate::numeric::spec_digit_count;

verus! {

/// The finer (larger) of two scales: the common scale both coefficients are
/// brought to before their magnitudes are compared.
pub open spec fn scale_max(sa: i16, sb: i16) -> int {
    if sa >= sb {
        sa as int
    } else {
        sb as int
    }
}

/// Magnitude of a coefficient `c` at scale `s`, re-expressed at the finer
/// scale `m >= s`: the coefficient times `10^(m - s)`.
pub open spec fn aligned_mag(c: u128, s: i16, m: int) -> nat {
    c as nat * pow10((m - s) as nat)
}

/// Signed numeric value of a finite decimal at the common scale `m`.
pub open spec fn signed_aligned(v: Decimal, m: int) -> int {
    if v.flags.sign {
        -(aligned_mag(v.digits, v.scale, m) as int)
    } else {
        aligned_mag(v.digits, v.scale, m) as int
    }
}

/// Ordering of two mathematical integers.
pub open spec fn spec_cmp_int(x: int, y: int) -> Ordering {
    if x < y {
        Ordering::Less
    } else if x == y {
        Ordering::Equal
    } else {
        Ordering::Greater
    }
}

impl Decimal {
    /// The total order: NaN above everything (NaN equals NaN), then
    /// infinities by sign, then finite values numerically, with every zero
    /// equal to every other zero regardless of scale and sign.
    pub open spec fn spec_cmp(self, other: Decimal) -> Ordering {
        if self.flags.nan || other.flags.nan {
            if self.flags.nan && other.flags.nan {
                Ordering::Equal
            } else if self.flags.nan {
                Ordering::Greater
            } else {
                Ordering::Less
            }
        } else if self.flags.infinity {
            if self.flags.sign {
                if other.flags.infinity && other.flags.sign {
                    Ordering::Equal
                } else {
                    Ordering::Less
                }
            } else {
                if other.flags.infinity && !other.flags.sign {
                    Ordering::Equal
                } else {
                    Ordering::Greater
                }
            }
        } else if other.flags.infinity {
            if other.flags.sign {
                Ordering::Greater
            } else {
                Ordering::Less
            }
        } else {
            let m = scale_max(self.scale, other.scale);
            spec_cmp_int(signed_aligned(self, m), signed_aligned(other, m))
        }
    }

    /// Numeric equality under the total order.
    pub open spec fn spec_eq(self, other: Decimal) -> bool {
        self.spec_cmp(other) == Ordering::Equal
    }
}

/// A nonzero coefficient aligned to scale `m` lies in the power-of-ten window
/// determined by its digit count and its own scale.
proof fn lemma_mag_window(c: u128, s: i16, m: int)
    requires
        c >= 1,
        m >= s,
    ensures
        aligned_mag(c, s, m) >= pow10((spec_digit_count(c as nat) - s + m - 1) as nat),
        aligned_mag(c, s, m) < pow10((spec_digit_count(c as nat) - s + m) as nat),
        aligned_mag(c, s, m) >= 1,
{
    let d = spec_digit_count(c as nat);
    let e = (m - s) as nat;
    lemma_digit_count_bounds(c as nat);
    lemma_pow10_pos(e);
    lemma_pow10_pos((d - 1) as nat);
    lemma_pow10_adds((d - 1) as nat, e);
    lemma_pow10_adds(d, e);
    assert(c as nat * pow10(e) >= pow10((d - 1) as nat) * pow10(e)) by (nonlinear_arith)
        requires
            (c as nat) >= pow10((d - 1) as nat),
            pow10(e) >= 1,
    ;
    assert(c as nat * pow10(e) < pow10(d) * pow10(e)) by (nonlinear_arith)
        requires
            (c as nat) < pow10(d),
            pow10(e) >= 1,
    ;
    assert((d - 1 + e) as nat == (d - s + m - 1) as nat);
    assert((d + e) as nat == (d - s + m) as nat);
}

/// Compare the magnitudes of two nonzero finite values at their common scale
/// without computing the full alignment when the orders of magnitude already
/// decide.
fn cmp_magnitude(ca: u128, sa: i16, cb: u128, sb: i16) -> (r: Ordering)
    requires
        ca >= 1,
        cb >= 1,
    ensures
        r == spec_cmp_int(
            aligned_mag(ca, sa, scale_max(sa, sb)) as int,
            aligned_mag(cb, sb, scale_max(sa, sb)) as int,
        ),
{
    let m: Ghost<int> = Ghost(scale_max(sa, sb));
    let da = count_digits(ca);
    let db = count_digits(cb);
    let pa: i64 = da as i64 - sa as i64;
    let pb: i64 = db as i64 - sb as i64;
    proof {
        lemma_mag_window(ca, sa, m@);
        lemma_mag_window(cb, sb, m@);
    }
    if pa > pb {
        proof {
            lemma_pow10_increases((pb + m@) as nat, (pa + m@ - 1) as nat);
        }
        Ordering::Greater
    } else if pa < pb {
        proof {
            lemma_pow10_increases((pa + m@) as nat, (pb + m@ - 1) as nat);
        }
        Ordering::Less
    } else if sa >= sb {
        let diff = (sa as i64 - sb as i64) as u32;
        proof {
            lemma_pow10_37();
        }
        let p = pow10_u128(diff);
        proof {
            assert((m@ - sa) as nat == 0);
            assert(pow10(0) == 1);
            vstd::arithmetic::mul::lemma_mul_basics(ca as int);
            assert(aligned_mag(ca, sa, m@) == ca as nat);
            assert(aligned_mag(cb, sb, m@) == cb as nat * pow10(diff as nat));
        }
        match cb.checked_mul(p) {
            Some(cbal) => {
                if ca < cbal {
                    Ordering::Less
                } else if ca == cbal {
                    Ordering::Equal
                } else {
                    Ordering::Greater
                }
            },
            None => {
                // The aligned coefficient of the finer-scaled operand exceeds
                // the machine word, so it certainly exceeds the other side.
                Ordering::Less
            },
        }
    } else {
        let diff = (sb as i64 - sa as i64) as u32;
        proof {
            lemma_pow10_37();
        }
        let p = pow10_u128(diff);
        proof {
            assert((m@ - sb) as nat == 0);
            assert(pow10(0) == 1);
            vstd::arithmetic::mul::lemma_mul_basics(cb as int);
            assert(aligned_mag(cb, sb, m@) == cb as nat);
            assert(aligned_mag(ca, sa, m@) == ca as nat * pow10(diff as nat));
        }
        match ca.checked_mul(p) {
            Some(caal) => {
                if caal < cb {
                    Ordering::Less
                } else if caal == cb {
                    Ordering::Equal
                } else {
                    Ordering::Greater
                }
            },
            None => Ordering::Greater,
        }
    }
}

impl Decimal {
    /// The ordering between `self` and `other` under the documented total
    /// order.
    #[must_use]
    pub fn cmp(&self, other: &Decimal) -> (r: Ordering)
        ensures
            r == self.spec_cmp(*other),
    {
        if self.is_nan() || other.is_nan() {
            if self.is_nan() && other.is_nan() {
                Ordering::Equal
            } else if self.is_nan() {
                Ordering::Greater
            } else {
                Ordering::Less
            }
        } else if self.is_infinite() {
            if self.is_sign_negative() {
                if other.is_infinite() && other.is_sign_negative() {
                    Ordering::Equal
                } else {
                    Ordering::Less
                }
            } else {
                if other.is_infinite() && other.is_sign_positive() {
                    Ordering::Equal
                } else {
                    Ordering::Greater
                }
            }
        } else if other.is_infinite() {
            if other.is_sign_negative() {
                Ordering::Greater
            } else {
                Ordering::Less
            }
        } else {
            let ghost m = scale_max(self.scale, other.scale);
            let a_zero = self.is_zero();
            let b_zero = other.is_zero();
            if a_zero && b_zero {
                Ordering::Equal
            } else if a_zero {
                proof {
                    lemma_mag_window(other.digits, other.scale, m);
                }
                if other.is_sign_negative() {
                    Ordering::Greater
                } else {
                    Ordering::Less
                }
            } else if b_zero {
                proof {
                    lemma_mag_window(self.digits, self.scale, m);
                }
                if self.is_sign_negative() {
                    Ordering::Less
                } else {
                    Ordering::Greater
                }
            } else if self.is_sign_negative() != other.is_sign_negative() {
                proof {
                    lemma_mag_window(self.digits, self.scale, m);
                    lemma_mag_window(other.digits, other.scale, m);
                }
                if self.is_sign_negative() {
                    Ordering::Less
                } else {
                    Ordering::Greater
                }
            } else {
                let mag = cmp_magnitude(self.digits, self.scale, other.digits, other.scale);
                if self.is_sign_negative() {
                    match mag {
                        Ordering::Less => Ordering::Greater,
                        Ordering::Equal => Ordering::Equal,
                        Ordering::Greater => Ordering::Less,
                    }
                } else {
                    mag
                }
            }
        }
    }

    /// Numeric equality; used by the `==` operator.
    #[must_use]
    pub fn eq(&self, other: &Decimal) -> (r: bool)
        ensures
            r == self.spec_eq(*other),
    {
        let ord = self.cmp(other);
        matches!(ord, Ordering::Equal)
    }

    /// Numeric inequality; used by the `!=` operator.
    #[must_use]
    pub fn ne(&self, other: &Decimal) -> (r: bool)
        ensures
            r == !self.spec_eq(*other),
    {
        let e = self.eq(other);
        !e
    }

    /// Strictly less under the total order.
    #[must_use]
    pub fn lt(&self, other: &Decimal) -> (r: bool)
        ensures
            r == (self.spec_cmp(*other) == Ordering::Less),
    {
        let ord = self.cmp(other);
        matches!(ord, Ordering::Less)
    }

    /// Less or equal under the total order.
    #[must_use]
    pub fn le(&self, other: &Decimal) -> (r: bool)
        ensures
            r == (self.spec_cmp(*other) != Ordering::Greater),
    {
        let ord = self.cmp(other);
        !matches!(ord, Ordering::Greater)
    }

    /// Strictly greater under the total order.
    #[must_use]
    pub fn gt(&self, other: &Decimal) -> (r: bool)
        ensures
            r == (self.spec_cmp(*other) == Ordering::Greater),
    {
        let ord = self.cmp(other);
        matches!(ord, Ordering::Greater)
    }

    /// Greater or equal under the total order.
    #[must_use]
    pub fn ge(&self, other: &Decimal) -> (r: bool)
        ensures
            r == (self.spec_cmp(*other) != Ordering::Less),
    {
        let ord = self.cmp(other);
        !matches!(ord, Ordering::Less)
    }

    /// The larger of the two values; ties return the second argument.
    #[must_use]
    pub fn max(self, other: Decimal) -> (r: Decimal)
        ensures
            r == (if self.spec_cmp(other) == Ordering::Greater {
                self
            } else {
                other
            }),
    {
        match self.cmp(&other) {
            Ordering::Less | Ordering::Equal => other,
            Ordering::Greater => self,
        }
    }

    /// The smaller of the two values; ties return the first argument.
    #[must_use]
    pub fn min(self, other: Decimal) -> (r: Decimal)
        ensures
            r == (if self.spec_cmp(other) == Ordering::Greater {
                other
            } else {
                self
            }),
    {
        match self.cmp(&other) {
            Ordering::Less | Ordering::Equal => self,
            Ordering::Greater => other,
        }
    }

    /// Restrict the value to `[lo, hi]`. The bounds must be ordered; calling
    /// with `lo > hi` is a caller contract violation.
    #[must_use]
    pub fn clamp(self, lo: Decimal, hi: Decimal) -> (r: Decimal)
        requires
            lo.spec_cmp(hi) != Ordering::Greater,
        ensures
            r == (if self.spec_cmp(lo) == Ordering::Less {
                lo
            } else if self.spec_cmp(hi) == Ordering::Greater {
                hi
            } else {
                self
            }),
    {
        if matches!(self.cmp(&lo), Ordering::Less) {
            lo
        } else if matches!(self.cmp(&hi), Ordering::Greater) {
            hi
        } else {
            self
        }
    }
}

impl PartialEq for Decimal {
    fn eq(&self, other: &Decimal) -> (r: bool) {
        let ord = Decimal::cmp(self, other);
        matches!(ord, Ordering::Equal)
    }
}

impl vstd::std_specs::cmp::PartialEqSpecImpl for Decimal {
    open spec fn obeys_eq_spec() -> bool {
        true
    }

    open spec fn eq_spec(&self, other: &Decimal) -> bool {
        self.spec_eq(*other)
    }
}

/// Every coefficient-0 value compares equal to every other, whatever the two
/// scales and signs: the sign of zero is observable but ignored by ordering.
pub proof fn lemma_zero_law(s1: i16, s2: i16, neg1: bool, neg2: bool)
    ensures
        (Decimal {
            digits: 0,
            scale: s1,
            flags: (crate::flags::Flags { sign: neg1, ..crate::flags::Flags::spec_empty() }),
        }).spec_cmp(
            Decimal {
                digits: 0,
                scale: s2,
                flags: (crate::flags::Flags { sign: neg2, ..crate::flags::Flags::spec_empty() }),
            },
        ) == Ordering::Equal,
{
}

} // verus!
