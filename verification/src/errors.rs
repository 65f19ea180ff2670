//! Typed failures of the tabulation engine. Every "fail fast" site of the
//! engine reports one of these variants instead of silently picking a value,
//! so callers can distinguish a bad voter/method pairing from a bad
//! tie-breaker.

use vstd::prelude::*;

verus! {

/// The failure kinds of the engine.
#[derive(Clone, Copy, Debug, PartialEq, Eq, Structural)]
pub enum ElectionError {
    /// A voter kind was asked for a ballot shape or scalar it cannot produce
    /// (for example, a cardinal ballot from an ordinal-only voter).
    UnsupportedCapability,
    /// A fixed-range cardinal voter was queried at a different range than it
    /// was built with.
    RangeMismatch,
    /// A supplied tie-breaker is not a strict total order over the candidate
    /// indices, so it cannot decide the ties the engine hands it.
    NonDecisiveTieBreaker,
}

} // verus!
