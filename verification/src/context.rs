//! The immutable configuration of a watch.

use vstd::prelude::*;
use core::time::Duration;

use crate::metric::Metric;

verus! {

/// Relies on std's `Duration::clone`: `Duration` is a plain `Copy` value, so
/// its clone is the value itself.
pub assume_specification[ <Duration as Clone>::clone ](d: &Duration) -> (r: Duration)
    ensures
        r == *d,
;

/// Everything a watch needs to know: which process to observe, which of its
/// metrics, how long to pause between samples, and whether to stop after the
/// first reported change. Fixed once the watch starts.
#[derive(Clone)]
pub struct Context {
    /// The exact process name to look for in the listing's identity field.
    pub process_name: String,
    /// The metric whose value is observed.
    pub metric: Metric,
    /// The pause between two consecutive samples.
    pub interval: Duration,
    /// Stop after the first reported change instead of polling forever.
    pub one_iteration: bool,
}

impl Context {
    /// Bundle the four configuration values into a context.
    pub fn new(
        process_name: String,
        metric: Metric,
        interval: Duration,
        one_iteration: bool,
    ) -> (r: Self)
        ensures
            r.process_name == process_name,
            r.metric == metric,
            r.interval == interval,
            r.one_iteration == one_iteration,
    {
        Self { process_name, metric, interval, one_iteration }
    }
}

} // verus!
