//! The dashboard's error: a terminal operation that failed.
use vstd::prelude::*;
use crate::text::concat2;

verus! {

/// Why the dashboard stopped: a terminal operation failed, with the
/// system's description of the failure.
#[derive(Debug, Clone, PartialEq, Eq)]
pub enum DashboardError {
    Terminal(String),
}

impl DashboardError {
    pub open spec fn message_spec(&self) -> Seq<char> {
        match self {
            DashboardError::Terminal(m) => "terminal operation failed: "@ + m@,
        }
    }

    /// The text of the error as the user reads it.
    pub fn message(&self) -> (r: String)
        ensures
            r@ == self.message_spec(),
    {
        match self {
            DashboardError::Terminal(m) => concat2("terminal operation failed: ", m.as_str()),
        }
    }
}

} // verus!
