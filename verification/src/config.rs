//! Plain-value configuration carried across the library boundary.

use vstd::prelude::*;

verus! {

/// Command-line arguments of the surrounding program, as plain values:
/// which cluster to run against and where the configuration file lives.
/// Parsing them belongs to the surrounding program; the library only
/// carries the values.
pub struct Args {
    /// Solana cluster to connect to.
    pub cluster: String,
    /// Configuration file path.
    pub config: String,
}

} // verus!
