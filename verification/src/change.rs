//! The event that a watch reports: the newly observed metric value.

use vstd::prelude::*;

verus! {

/// A change of the watched metric: the sampled value differs from the
/// previous observation (a first observation always counts as a change).
/// Holds the new value verbatim, as the listing command printed it.
#[derive(Debug)]
pub struct Change(pub String);

} // verus!
