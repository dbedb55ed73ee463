//! The decimal value itself: an unsigned fixed-width coefficient, a signed
//! 16-bit scale and a flag word, together with construction, inspection and
//! the sign-only transformations.

use vstd::prelude::*;

use crate::flags::Category;
use crate::flags::Flags;
use crate::flags::Sign;
use crate::flags::Signal;
use crate::numeric::count_digits;
use crate::numeric::spec_digit_count;
use crate::COEFF_MAX;

verus! {

/// A signed decimal number: `(-1)^sign * digits * 10^(-scale)` when finite.
///
/// The coefficient keeps significant trailing zeros (the value `-1.0` has
/// coefficient `10`, not `1`); the sign lives only in the flags, so `+0` and
/// `-0` are distinct bit patterns that compare equal; NaN and infinities
/// ignore the coefficient entirely. Values are immutable: every operation
/// returns a new value.
#[derive(Clone, Copy, Debug)]
pub struct Decimal {
    /// Unsigned coefficient holding the significant decimal digits,
    /// including significant trailing zeros. At most [`COEFF_MAX`].
    pub digits: u128,
    /// Count of digits to the right of the decimal point; negative means the
    /// coefficient carries that many whole-number trailing zeros.
    pub scale: i16,
    /// Sign, special-value category and accumulated signals.
    pub flags: Flags,
}

/// The non-negative projection of a [`Decimal`]: same coefficient, scale and
/// signals, sign forced positive.
#[derive(Clone, Copy, Debug)]
pub struct UnsignedDecimal(pub Decimal);

impl UnsignedDecimal {
    pub(crate) fn new(value: Decimal) -> (r: UnsignedDecimal)
        ensures
            r.0 == value,
    {
        UnsignedDecimal(value)
    }
}

impl Decimal {
    /// Well-formedness: the coefficient fits the fixed width.
    pub open spec fn wf(self) -> bool {
        self.digits <= COEFF_MAX
    }

    pub(crate) fn new(digits: u128, scale: i16, flags: Flags) -> (r: Decimal)
        ensures
            r == (Decimal { digits, scale, flags }),
    {
        Decimal { digits, scale, flags }
    }

    /// The NaN an operation yields when it cannot represent its result:
    /// the invalid-operation signal is raised on top of the signals already
    /// accumulated in `flags`.
    pub open spec fn spec_invalid(flags: Flags) -> Decimal {
        Decimal {
            digits: 0,
            scale: 0,
            flags: (Flags {
                sign: false,
                nan: true,
                infinity: false,
                signals: flags.signals.spec_with(Signal::Invalid),
            }),
        }
    }

    pub(crate) fn invalid_result(flags: Flags) -> (r: Decimal)
        ensures
            r == Decimal::spec_invalid(flags),
            r.wf(),
    {
        Decimal {
            digits: 0,
            scale: 0,
            flags: Flags {
                sign: false,
                nan: true,
                infinity: false,
                signals: flags.signals.with(Signal::Invalid),
            },
        }
    }

    /// Positive zero at scale zero.
    pub open spec fn spec_zero() -> Decimal {
        Decimal { digits: 0, scale: 0, flags: Flags::spec_empty() }
    }

    pub fn zero() -> (r: Decimal)
        ensures
            r == Self::spec_zero(),
            r.wf(),
    {
        Decimal { digits: 0, scale: 0, flags: Flags::empty() }
    }

    /// A small whole-number constant at scale zero.
    pub open spec fn spec_int(n: u128) -> Decimal {
        Decimal { digits: n, scale: 0, flags: Flags::spec_empty() }
    }

    pub fn one() -> (r: Decimal)
        ensures
            r == Self::spec_int(1),
            r.wf(),
    {
        Decimal { digits: 1, scale: 0, flags: Flags::empty() }
    }

    pub fn two() -> (r: Decimal)
        ensures
            r == Self::spec_int(2),
            r.wf(),
    {
        Decimal { digits: 2, scale: 0, flags: Flags::empty() }
    }

    pub fn five() -> (r: Decimal)
        ensures
            r == Self::spec_int(5),
            r.wf(),
    {
        Decimal { digits: 5, scale: 0, flags: Flags::empty() }
    }

    pub fn ten() -> (r: Decimal)
        ensures
            r == Self::spec_int(10),
            r.wf(),
    {
        Decimal { digits: 10, scale: 0, flags: Flags::empty() }
    }

    /// The quiet NaN with no signals.
    pub open spec fn spec_nan() -> Decimal {
        Decimal { digits: 0, scale: 0, flags: (Flags { nan: true, ..Flags::spec_empty() }) }
    }

    pub fn nan() -> (r: Decimal)
        ensures
            r == Self::spec_nan(),
            r.wf(),
    {
        Decimal { digits: 0, scale: 0, flags: Flags { nan: true, ..Flags::empty() } }
    }

    /// Infinity of the given sign, no signals.
    pub open spec fn spec_infinity(sign: bool) -> Decimal {
        Decimal {
            digits: 0,
            scale: 0,
            flags: (Flags { sign, infinity: true, ..Flags::spec_empty() }),
        }
    }

    pub fn infinity() -> (r: Decimal)
        ensures
            r == Self::spec_infinity(false),
            r.wf(),
    {
        Decimal { digits: 0, scale: 0, flags: Flags { infinity: true, ..Flags::empty() } }
    }

    pub fn neg_infinity() -> (r: Decimal)
        ensures
            r == Self::spec_infinity(true),
            r.wf(),
    {
        Decimal {
            digits: 0,
            scale: 0,
            flags: Flags { sign: true, infinity: true, ..Flags::empty() },
        }
    }

    /// Largest finite value: the full coefficient at the most negative scale.
    pub fn max_value() -> (r: Decimal)
        ensures
            r == (Decimal { digits: COEFF_MAX, scale: i16::MIN, flags: Flags::spec_empty() }),
            r.wf(),
    {
        Decimal { digits: COEFF_MAX, scale: i16::MIN, flags: Flags::empty() }
    }

    /// Smallest finite value: the negation of `max_value`.
    pub fn min_value() -> (r: Decimal)
        ensures
            r == (Decimal {
                digits: COEFF_MAX,
                scale: i16::MIN,
                flags: Flags::spec_empty().spec_neg(),
            }),
            r.wf(),
    {
        Decimal { digits: COEFF_MAX, scale: i16::MIN, flags: Flags::empty().neg() }
    }

    /// `1 * 10^exp`.
    pub fn from_scale(exp: i16) -> (r: Decimal)
        requires
            exp > i16::MIN,
        ensures
            r == (Decimal { digits: 1, scale: -exp as i16, flags: Flags::spec_empty() }),
            r.wf(),
    {
        Decimal { digits: 1, scale: -exp, flags: Flags::empty() }
    }

    /// The coefficient: all significant decimal digits, including significant
    /// trailing zeros.
    pub fn digits(&self) -> (r: u128)
        ensures
            r == self.digits,
    {
        self.digits
    }

    /// Count of decimal digits in the coefficient; zero counts as one digit.
    pub fn digits_count(&self) -> (r: usize)
        ensures
            r == spec_digit_count(self.digits as nat),
    {
        if self.is_zero() {
            return 1;
        }
        let c = count_digits(self.digits);
        c as usize
    }

    /// The scale: digits to the right of the decimal point, possibly
    /// negative.
    pub fn fractional_digits_count(&self) -> (r: i16)
        ensures
            r == self.scale,
    {
        self.scale
    }

    pub fn sign(&self) -> (r: Sign)
        ensures
            r == (if self.flags.sign {
                Sign::Minus
            } else {
                Sign::Plus
            }),
    {
        if self.flags.is_negative() {
            Sign::Minus
        } else {
            Sign::Plus
        }
    }

    pub fn is_op_div_by_zero(&self) -> (r: bool)
        ensures
            r == self.flags.signals.div_by_zero,
    {
        self.flags.has_signal(Signal::DivByZero)
    }

    pub fn is_op_invalid(&self) -> (r: bool)
        ensures
            r == self.flags.signals.invalid,
    {
        self.flags.has_signal(Signal::Invalid)
    }

    #[must_use]
    pub fn is_op_subnormal(&self) -> (r: bool)
        ensures
            r == self.flags.signals.subnormal,
    {
        self.flags.has_signal(Signal::Subnormal)
    }

    pub fn is_op_inexact(&self) -> (r: bool)
        ensures
            r == self.flags.signals.inexact,
    {
        self.flags.has_signal(Signal::Inexact)
    }

    pub fn is_op_rounded(&self) -> (r: bool)
        ensures
            r == self.flags.signals.rounded,
    {
        self.flags.has_signal(Signal::Rounded)
    }

    pub fn is_op_clamped(&self) -> (r: bool)
        ensures
            r == self.flags.signals.clamped,
    {
        self.flags.has_signal(Signal::Clamped)
    }

    /// No signal at all is set.
    pub fn is_op_ok(&self) -> (r: bool)
        ensures
            r == self.flags.signals.spec_is_empty(),
    {
        let has = self.flags.has_signals();
        !has
    }

    /// Classification priority: NaN, then infinite, then zero, then
    /// subnormal, then normal.
    pub open spec fn spec_classify(self) -> Category {
        if self.flags.nan {
            Category::Nan
        } else if self.flags.infinity {
            Category::Infinite
        } else if self.digits == 0 {
            Category::Zero
        } else if self.flags.signals.subnormal {
            Category::Subnormal
        } else {
            Category::Normal
        }
    }

    pub fn classify(&self) -> (r: Category)
        ensures
            r == self.spec_classify(),
    {
        if self.flags.is_nan() {
            Category::Nan
        } else if self.flags.is_infinity() {
            Category::Infinite
        } else if self.is_zero() {
            Category::Zero
        } else if self.is_subnormal() {
            Category::Subnormal
        } else {
            Category::Normal
        }
    }

    pub fn is_normal(&self) -> (r: bool)
        ensures
            r == !self.flags.signals.subnormal,
    {
        let s = self.is_subnormal();
        !s
    }

    #[must_use]
    pub fn is_subnormal(&self) -> (r: bool)
        ensures
            r == self.flags.signals.subnormal,
    {
        self.is_op_subnormal()
    }

    /// Neither infinite nor NaN.
    pub open spec fn spec_is_finite(self) -> bool {
        !self.flags.spec_is_special()
    }

    pub fn is_finite(&self) -> (r: bool)
        ensures
            r == self.spec_is_finite(),
    {
        let s = self.flags.is_special();
        !s
    }

    pub fn is_infinite(&self) -> (r: bool)
        ensures
            r == self.flags.infinity,
    {
        self.flags.is_infinity()
    }

    pub fn is_nan(&self) -> (r: bool)
        ensures
            r == self.flags.nan,
    {
        self.flags.is_nan()
    }

    pub fn is_sign_positive(&self) -> (r: bool)
        ensures
            r == !self.flags.sign,
    {
        let n = self.flags.is_negative();
        !n
    }

    pub fn is_sign_negative(&self) -> (r: bool)
        ensures
            r == self.flags.sign,
    {
        self.flags.is_negative()
    }

    /// A value is zero exactly when its coefficient is zero, regardless of
    /// scale or sign.
    pub open spec fn spec_is_zero(self) -> bool {
        self.digits == 0
    }

    pub fn is_zero(&self) -> (r: bool)
        ensures
            r == self.spec_is_zero(),
    {
        self.digits == 0
    }

    /// Strictly the value one: coefficient 1, scale 0, no flag of any kind.
    pub open spec fn spec_is_one(self) -> bool {
        self.digits == 1 && self.scale == 0 && self.flags.spec_is_empty()
    }

    pub fn is_one(&self) -> (r: bool)
        ensures
            r == self.spec_is_one(),
    {
        self.digits == 1 && self.scale == 0 && self.flags.is_empty()
    }

    /// Positive or unsigned zero: the sign bit is clear.
    pub fn is_positive(&self) -> (r: bool)
        ensures
            r == !self.flags.sign,
    {
        let n = self.flags.is_negative();
        !n
    }

    /// Strictly negative by sign bit, including `-0`.
    pub fn is_negative(&self) -> (r: bool)
        ensures
            r == self.flags.sign,
    {
        self.flags.is_negative()
    }

    /// The value with its sign inverted.
    pub open spec fn spec_neg(self) -> Decimal {
        Decimal { flags: self.flags.spec_neg(), ..self }
    }

    pub fn neg(self) -> (r: Decimal)
        ensures
            r == self.spec_neg(),
            self.wf() ==> r.wf(),
    {
        Decimal { flags: self.flags.neg(), ..self }
    }

    /// The value with its sign forced non-negative.
    pub open spec fn spec_abs(self) -> Decimal {
        Decimal { flags: self.flags.spec_abs(), ..self }
    }

    pub fn abs(self) -> (r: Decimal)
        ensures
            r == self.spec_abs(),
            self.wf() ==> r.wf(),
    {
        Decimal { flags: self.flags.abs(), ..self }
    }

    /// The absolute value as an [`UnsignedDecimal`].
    pub fn unsigned_abs(self) -> (r: UnsignedDecimal)
        ensures
            r.0 == self.spec_abs(),
            self.wf() ==> r.0.wf(),
    {
        UnsignedDecimal::new(self.abs())
    }

    /// `1` with the sign of `self`, or NaN for NaN.
    pub open spec fn spec_signum(self) -> Decimal {
        if self.flags.nan {
            Self::spec_nan()
        } else if self.flags.sign {
            Self::spec_int(1).spec_neg()
        } else {
            Self::spec_int(1)
        }
    }

    pub fn signum(&self) -> (r: Decimal)
        ensures
            r == self.spec_signum(),
            r.wf(),
    {
        if self.is_nan() {
            Self::nan()
        } else if self.is_negative() {
            Self::one().neg()
        } else {
            Self::one()
        }
    }

    /// The value, if it is finite and carries no signal; nothing otherwise.
    pub fn ok(self) -> (r: Option<Decimal>)
        ensures
            r == (if self.flags.spec_is_special() || !self.flags.signals.spec_is_empty() {
                Option::<Decimal>::None
            } else {
                Option::Some(self)
            }),
    {
        if self.flags.is_special() || self.flags.has_signals() {
            None
        } else {
            Some(self)
        }
    }
}

} // verus!
