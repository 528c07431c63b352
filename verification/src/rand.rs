//! The entropy source that sampling draws from.

use crate::error::Unspecified;
use vstd::prelude::*;

verus! {

/// A source of cryptographically secure random bytes.
pub trait SecureRandom {
    /// Overwrites all of `dest` with random bytes, or fails. After a failure
    /// nothing is known of what `dest` holds.
    ///
    /// The one thing required of an implementation is what every slice
    /// guarantees: `dest` is as long after the call as before.
    fn fill(&self, dest: &mut [u8]) -> (r: Result<(), Unspecified>)
        ensures
            final(dest).len() == old(dest).len(),
    ;
}

} // verus!
