//! The one failure that this library reports.

use vstd::prelude::*;

verus! {

/// A failure without detail.
///
/// Running out of sampling attempts and a failing entropy source are both
/// reported by this one value, so that what is returned tells nothing about
/// the state the failure came from.
#[derive(Clone, Copy, Debug, PartialEq, Eq)]
pub struct Unspecified;

} // verus!
