//! The explicit, stateless operation context: a rounding mode and a trap
//! policy, passed by value to every operation that can round or fault.

use vstd::prelude::*;

use crate::flags::Signal;
use crate::flags::SignalSet;

verus! {

/// How discarded digits are folded into the last kept digit.
#[derive(Clone, Copy, Debug, PartialEq, Eq, Structural)]
pub enum RoundingMode {
    /// Away from zero.
    Up,
    /// Toward zero (truncate).
    Down,
    /// Toward positive infinity.
    Ceiling,
    /// Toward negative infinity.
    Floor,
    /// Ties away from zero.
    HalfUp,
    /// Ties toward zero.
    HalfDown,
    /// Ties to the even neighbour.
    HalfEven,
}

/// Per-call configuration: rounding mode plus the set of signals whose
/// appearance the caller treats as fatal. There is no ambient context; every
/// operation takes one explicitly.
#[derive(Clone, Copy, Debug, PartialEq, Eq, Structural)]
pub struct Context {
    pub rounding_mode: RoundingMode,
    /// Signals that must not appear in a result produced under this context.
    /// The preconditions of the arithmetic operations enforce the policy
    /// statically, so a verified caller never reaches a fatal trap.
    pub signal_traps: SignalSet,
}

impl Context {
    /// The default context: half-up rounding, trapping only the
    /// invalid-operation signal (which covers coefficient overflow).
    pub open spec fn spec_default() -> Context {
        Context {
            rounding_mode: RoundingMode::HalfUp,
            signal_traps: SignalSet::spec_only(Signal::Invalid),
        }
    }

    /// The same context with another rounding mode.
    pub open spec fn spec_with_rounding_mode(self, mode: RoundingMode) -> Context {
        Context { rounding_mode: mode, ..self }
    }

    pub fn with_rounding_mode(self, mode: RoundingMode) -> (r: Context)
        ensures
            r == self.spec_with_rounding_mode(mode),
    {
        Context { rounding_mode: mode, ..self }
    }

    /// The same context with another trap policy.
    pub open spec fn spec_with_signal_traps(self, traps: SignalSet) -> Context {
        Context { signal_traps: traps, ..self }
    }

    pub fn with_signal_traps(self, traps: SignalSet) -> (r: Context)
        ensures
            r == self.spec_with_signal_traps(traps),
    {
        Context { signal_traps: traps, ..self }
    }

    /// A context that traps nothing: signals are recorded in results and left
    /// for the caller to inspect.
    pub open spec fn spec_no_traps() -> Context {
        Context { rounding_mode: RoundingMode::HalfUp, signal_traps: SignalSet::spec_empty() }
    }

    pub fn no_traps() -> (r: Context)
        ensures
            r == Self::spec_no_traps(),
    {
        Context { rounding_mode: RoundingMode::HalfUp, signal_traps: SignalSet::empty() }
    }

    /// Whether a result carrying `signals` passes this context's trap policy.
    pub open spec fn spec_allows(self, signals: SignalSet) -> bool {
        !self.signal_traps.spec_intersects(signals)
    }

    pub fn allows(&self, signals: SignalSet) -> (r: bool)
        ensures
            r == self.spec_allows(signals),
    {
        let hit = self.signal_traps.intersects(signals);
        !hit
    }
}

impl Default for Context {
    fn default() -> (r: Context)
        ensures
            r == Context::spec_default(),
    {
        Context {
            rounding_mode: RoundingMode::HalfUp,
            signal_traps: SignalSet::only(Signal::Invalid),
        }
    }
}

} // verus!
