//! Error taxonomy for quoting, refreshing and searching venues.

use vstd::prelude::*;

verus! {

/// A venue-local failure.  Every variant is non-fatal for the run as a
/// whole: the affected venue (or the affected search branch) is skipped
/// and the rest of the computation continues.
#[derive(Clone, Copy, Debug, PartialEq, Eq, Structural)]
pub enum PoolError {
    /// A pricing curve was asked to quote with a zero reserve or an
    /// otherwise unusable parameter set.
    InvalidCurveParameters,
    /// The iterative stable-curve solver did not stabilize within its
    /// iteration bound.
    ConvergenceFailure,
    /// The venue carries a curve discriminator this library does not know.
    UnsupportedCurveType,
    /// A quote was requested for a mint the venue does not connect.
    InvalidMint,
    /// A refresh payload could not be decoded into the expected layout.
    MalformedAccountData,
    /// A required account was absent from a refresh batch.
    MissingAccount,
    /// Amount arithmetic left the representable range.  Reported loudly
    /// instead of wrapping, since a wrapped amount could manufacture a
    /// false profitable cycle.
    ArithmeticOverflow,
}

} // verus!
