//! Sign, special-value category and sticky operation signals of a decimal
//! value, kept as plain boolean state with pure query and combinator
//! operations.

use vstd::prelude::*;

verus! {

/// Sign of a decimal value.
#[derive(Clone, Copy, Debug, PartialEq, Eq, Structural)]
pub enum Sign {
    Plus,
    Minus,
}

/// One exceptional condition that an operation can record in its result.
#[derive(Clone, Copy, Debug, PartialEq, Eq, Structural)]
pub enum Signal {
    DivByZero,
    Invalid,
    Subnormal,
    Inexact,
    Rounded,
    Clamped,
}

/// A set of [`Signal`]s, combinable by union.
#[derive(Clone, Copy, Debug, PartialEq, Eq, Structural)]
pub struct SignalSet {
    pub div_by_zero: bool,
    pub invalid: bool,
    pub subnormal: bool,
    pub inexact: bool,
    pub rounded: bool,
    pub clamped: bool,
}

impl SignalSet {
    /// The empty signal set.
    pub open spec fn spec_empty() -> SignalSet {
        SignalSet {
            div_by_zero: false,
            invalid: false,
            subnormal: false,
            inexact: false,
            rounded: false,
            clamped: false,
        }
    }

    pub fn empty() -> (r: SignalSet)
        ensures
            r == Self::spec_empty(),
    {
        SignalSet {
            div_by_zero: false,
            invalid: false,
            subnormal: false,
            inexact: false,
            rounded: false,
            clamped: false,
        }
    }

    /// The set holding exactly one signal.
    pub open spec fn spec_only(s: Signal) -> SignalSet {
        Self::spec_empty().spec_with(s)
    }

    pub fn only(s: Signal) -> (r: SignalSet)
        ensures
            r == Self::spec_only(s),
    {
        SignalSet::empty().with(s)
    }

    pub open spec fn spec_contains(self, s: Signal) -> bool {
        match s {
            Signal::DivByZero => self.div_by_zero,
            Signal::Invalid => self.invalid,
            Signal::Subnormal => self.subnormal,
            Signal::Inexact => self.inexact,
            Signal::Rounded => self.rounded,
            Signal::Clamped => self.clamped,
        }
    }

    pub fn contains(&self, s: Signal) -> (r: bool)
        ensures
            r == self.spec_contains(s),
    {
        match s {
            Signal::DivByZero => self.div_by_zero,
            Signal::Invalid => self.invalid,
            Signal::Subnormal => self.subnormal,
            Signal::Inexact => self.inexact,
            Signal::Rounded => self.rounded,
            Signal::Clamped => self.clamped,
        }
    }

    pub open spec fn spec_is_empty(self) -> bool {
        self == Self::spec_empty()
    }

    pub fn is_empty(&self) -> (r: bool)
        ensures
            r == self.spec_is_empty(),
    {
        !(self.div_by_zero || self.invalid || self.subnormal || self.inexact || self.rounded
            || self.clamped)
    }

    pub open spec fn spec_union(self, other: SignalSet) -> SignalSet {
        SignalSet {
            div_by_zero: self.div_by_zero || other.div_by_zero,
            invalid: self.invalid || other.invalid,
            subnormal: self.subnormal || other.subnormal,
            inexact: self.inexact || other.inexact,
            rounded: self.rounded || other.rounded,
            clamped: self.clamped || other.clamped,
        }
    }

    pub fn union(self, other: SignalSet) -> (r: SignalSet)
        ensures
            r == self.spec_union(other),
    {
        SignalSet {
            div_by_zero: self.div_by_zero || other.div_by_zero,
            invalid: self.invalid || other.invalid,
            subnormal: self.subnormal || other.subnormal,
            inexact: self.inexact || other.inexact,
            rounded: self.rounded || other.rounded,
            clamped: self.clamped || other.clamped,
        }
    }

    /// The set extended by one more signal.
    pub open spec fn spec_with(self, s: Signal) -> SignalSet {
        match s {
            Signal::DivByZero => SignalSet { div_by_zero: true, ..self },
            Signal::Invalid => SignalSet { invalid: true, ..self },
            Signal::Subnormal => SignalSet { subnormal: true, ..self },
            Signal::Inexact => SignalSet { inexact: true, ..self },
            Signal::Rounded => SignalSet { rounded: true, ..self },
            Signal::Clamped => SignalSet { clamped: true, ..self },
        }
    }

    pub fn with(self, s: Signal) -> (r: SignalSet)
        ensures
            r == self.spec_with(s),
    {
        match s {
            Signal::DivByZero => SignalSet { div_by_zero: true, ..self },
            Signal::Invalid => SignalSet { invalid: true, ..self },
            Signal::Subnormal => SignalSet { subnormal: true, ..self },
            Signal::Inexact => SignalSet { inexact: true, ..self },
            Signal::Rounded => SignalSet { rounded: true, ..self },
            Signal::Clamped => SignalSet { clamped: true, ..self },
        }
    }

    pub open spec fn spec_intersects(self, other: SignalSet) -> bool {
        ||| (self.div_by_zero && other.div_by_zero)
        ||| (self.invalid && other.invalid)
        ||| (self.subnormal && other.subnormal)
        ||| (self.inexact && other.inexact)
        ||| (self.rounded && other.rounded)
        ||| (self.clamped && other.clamped)
    }

    pub fn intersects(self, other: SignalSet) -> (r: bool)
        ensures
            r == self.spec_intersects(other),
    {
        (self.div_by_zero && other.div_by_zero) || (self.invalid && other.invalid) || (
        self.subnormal && other.subnormal) || (self.inexact && other.inexact) || (self.rounded
            && other.rounded) || (self.clamped && other.clamped)
    }
}

/// Decimal category of a value, in decreasing priority of classification:
/// NaN, then infinite, then zero, then subnormal, then normal.
#[derive(Clone, Copy, Debug, PartialEq, Eq, Structural)]
pub enum Category {
    Nan,
    Infinite,
    Zero,
    Subnormal,
    Normal,
}

/// Sign bit, special-value category and accumulated operation signals of a
/// decimal value.
#[derive(Clone, Copy, Debug, PartialEq, Eq, Structural)]
pub struct Flags {
    /// `true` when the value is negative (the sign bit).
    pub sign: bool,
    /// `true` when the value is NaN.
    pub nan: bool,
    /// `true` when the value is an infinity.
    pub infinity: bool,
    /// Sticky signals accumulated by the operations that produced the value.
    pub signals: SignalSet,
}

impl Flags {
    /// Flags with nothing set: positive, finite, no signal.
    pub open spec fn spec_empty() -> Flags {
        Flags { sign: false, nan: false, infinity: false, signals: SignalSet::spec_empty() }
    }

    pub fn empty() -> (r: Flags)
        ensures
            r == Self::spec_empty(),
    {
        Flags { sign: false, nan: false, infinity: false, signals: SignalSet::empty() }
    }

    pub open spec fn spec_is_empty(self) -> bool {
        self == Self::spec_empty()
    }

    pub fn is_empty(&self) -> (r: bool)
        ensures
            r == self.spec_is_empty(),
    {
        !(self.sign || self.nan || self.infinity) && self.signals.is_empty()
    }

    pub fn is_negative(&self) -> (r: bool)
        ensures
            r == self.sign,
    {
        self.sign
    }

    pub fn is_nan(&self) -> (r: bool)
        ensures
            r == self.nan,
    {
        self.nan
    }

    pub fn is_infinity(&self) -> (r: bool)
        ensures
            r == self.infinity,
    {
        self.infinity
    }

    /// Whether the value is NaN or infinite.
    pub open spec fn spec_is_special(self) -> bool {
        self.nan || self.infinity
    }

    pub fn is_special(&self) -> (r: bool)
        ensures
            r == self.spec_is_special(),
    {
        self.nan || self.infinity
    }

    pub fn has_signal(&self, s: Signal) -> (r: bool)
        ensures
            r == self.signals.spec_contains(s),
    {
        self.signals.contains(s)
    }

    pub fn has_signals(&self) -> (r: bool)
        ensures
            r == !self.signals.spec_is_empty(),
    {
        let e = self.signals.is_empty();
        !e
    }

    pub fn signals(&self) -> (r: SignalSet)
        ensures
            r == self.signals,
    {
        self.signals
    }

    /// The same flags with the sign inverted.
    pub open spec fn spec_neg(self) -> Flags {
        Flags { sign: !self.sign, ..self }
    }

    pub fn neg(self) -> (r: Flags)
        ensures
            r == self.spec_neg(),
    {
        Flags { sign: !self.sign, ..self }
    }

    /// The same flags with the sign forced non-negative.
    pub open spec fn spec_abs(self) -> Flags {
        Flags { sign: false, ..self }
    }

    pub fn abs(self) -> (r: Flags)
        ensures
            r == self.spec_abs(),
    {
        Flags { sign: false, ..self }
    }

    /// Union of two flag words: any bit set on either side is set in the
    /// result.
    pub open spec fn spec_combine(self, other: Flags) -> Flags {
        Flags {
            sign: self.sign || other.sign,
            nan: self.nan || other.nan,
            infinity: self.infinity || other.infinity,
            signals: self.signals.spec_union(other.signals),
        }
    }

    pub fn combine(self, other: Flags) -> (r: Flags)
        ensures
            r == self.spec_combine(other),
    {
        Flags {
            sign: self.sign || other.sign,
            nan: self.nan || other.nan,
            infinity: self.infinity || other.infinity,
            signals: self.signals.union(other.signals),
        }
    }

    /// The same flags, additionally carrying the signals of `other`.
    pub open spec fn spec_with_signals_from(self, other: Flags) -> Flags {
        Flags { signals: self.signals.spec_union(other.signals), ..self }
    }

    pub fn with_signals_from(self, other: Flags) -> (r: Flags)
        ensures
            r == self.spec_with_signals_from(other),
    {
        Flags { signals: self.signals.union(other.signals), ..self }
    }

    /// The same flags, carrying the signals of `other` and one more signal.
    pub open spec fn spec_with_signals_from_and(self, other: Flags, s: Signal) -> Flags {
        Flags { signals: self.signals.spec_union(other.signals).spec_with(s), ..self }
    }

    pub fn with_signals_from_and(self, other: Flags, s: Signal) -> (r: Flags)
        ensures
            r == self.spec_with_signals_from_and(other, s),
    {
        Flags { signals: self.signals.union(other.signals).with(s), ..self }
    }

    /// The same flags with one more signal raised.
    pub open spec fn spec_raise_signal(self, s: Signal) -> Flags {
        Flags { signals: self.signals.spec_with(s), ..self }
    }

    pub fn raise_signal(self, s: Signal) -> (r: Flags)
        ensures
            r == self.spec_raise_signal(s),
    {
        Flags { signals: self.signals.with(s), ..self }
    }
}

} // verus!
