//! Exact base-10 decimal arithmetic on a fixed-width coefficient.
//!
//! A [`Decimal`] holds an unsigned coefficient of at most 37 significant
//! decimal digits, a signed 16-bit scale (the count of digits to the right of
//! the decimal point, possibly negative), and a flag word carrying the sign,
//! the special-value category (NaN, infinity) and the sticky operation
//! signals. Every operation is a pure function from its operands and an
//! explicit [`Context`] to a new value; signals accumulate in the result and
//! are inspected through predicates, never through hidden global state.
//!
//! The context's trap policy is enforced statically: an operation whose
//! result would carry a signal that the context traps is excluded by that
//! operation's precondition, so no verified function ever aborts at run time.

use vstd::prelude::*;

mod numeric;

pub mod arith;
pub mod cmp;
pub mod context;
pub mod decimal;
pub mod div;
pub mod flags;
pub mod format;
pub mod normalize;
pub mod parse;
pub mod round_trip;
pub mod scale;

pub use context::Context;
pub use context::RoundingMode;
pub use decimal::Decimal;
pub use decimal::UnsignedDecimal;
pub use flags::Category;
pub use flags::Flags;
pub use flags::Sign;
pub use flags::Signal;
pub use flags::SignalSet;
pub use parse::ParseError;

verus! {

/// Largest coefficient a value may carry: `10^37 - 1`, so every coefficient
/// has at most 37 significant decimal digits and all internal products fit
/// comfortably in a `u128`.
pub const COEFF_MAX: u128 = 9999999999999999999999999999999999999;

/// Number of decimal digits of [`COEFF_MAX`].
pub const MAX_DIGITS: u32 = 37;

} // verus!
