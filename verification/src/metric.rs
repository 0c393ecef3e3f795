//! The metric selector: which process statistic a watch observes, and where
//! that statistic sits in a whitespace-delimited process-listing row.

use vstd::prelude::*;
use vstd::string::*;

use crate::text::str_eq;

verus! {

/// A resource metric of a process that can be watched.
#[derive(Debug, Clone)]
pub enum Metric {
    /// Processor usage, as the listing command reports it.
    Cpu,
    /// Resident memory, as the listing command reports it.
    ResidentMemory,
}

/// Failure to recognise a textual metric name.
#[derive(Debug, Clone)]
pub enum MetricError {
    /// The given name matches no known metric.
    UnknownMetricName(String),
}

impl Metric {
    /// The zero-based index of the field that holds this metric's value
    /// within a whitespace-delimited process-listing row.
    pub open spec fn spec_column(&self) -> usize {
        match self {
            Metric::Cpu => 2,
            Metric::ResidentMemory => 5,
        }
    }

    /// Return the zero-based field index of this metric's value in a
    /// process-listing row.
    pub fn column(&self) -> (c: usize)
        ensures
            c == self.spec_column(),
    {
        match self {
            Metric::Cpu => 2,
            Metric::ResidentMemory => 5,
        }
    }

    /// Parse a textual metric name: `cpu` selects [`Metric::Cpu`], `res`
    /// selects [`Metric::ResidentMemory`], and every other name is rejected
    /// with [`MetricError::UnknownMetricName`] carrying that name.
    pub fn from_str(s: &str) -> (r: Result<Metric, MetricError>)
        ensures
            s@ == "cpu"@ ==> r == Result::<Metric, MetricError>::Ok(Metric::Cpu),
            s@ == "res"@ ==> r == Result::<Metric, MetricError>::Ok(Metric::ResidentMemory),
            s@ != "cpu"@ && s@ != "res"@ ==> (match r {
                Result::Ok(_) => false,
                Result::Err(MetricError::UnknownMetricName(name)) => name@ == s@,
            }),
    {
        proof {
            reveal_strlit("cpu");
            reveal_strlit("res");
            assert("cpu"@ != "res"@) by {
                assert("cpu"@[0] == 'c');
                assert("res"@[0] == 'r');
            }
        }
        if str_eq(s, "cpu") {
            Ok(Metric::Cpu)
        } else if str_eq(s, "res") {
            Ok(Metric::ResidentMemory)
        } else {
            Err(MetricError::UnknownMetricName(String::from_str(s)))
        }
    }
}

impl MetricError {
    /// The human-readable description of this failure.
    pub fn message(&self) -> (r: String)
        ensures
            (match self {
                MetricError::UnknownMetricName(name) =>
                    r@ == "No known metric for name '"@ + name@ + "'"@,
            }),
    {
        match self {
            MetricError::UnknownMetricName(name) => {
                let head = String::from_str("No known metric for name '");
                head.concat(name.as_str()).concat("'")
            },
        }
    }
}

} // verus!
