//! The identity correlator. It holds no state; the scoring itself works on
//! floating-point similarity ratios and lives outside the verified core.

use vstd::prelude::*;

verus! {

/// The identity correlation engine: stateless, without I/O.
pub struct Correlator;

impl Correlator {
    /// Makes the correlator.
    pub fn new() -> (r: Correlator)
        ensures
            r == Correlator,
    {
        Correlator
    }
}

} // verus!
