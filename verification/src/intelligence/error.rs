//! Errors of the intelligence model.
use vstd::prelude::*;
use crate::text::concat2;

verus! {

/// Why an intelligence computation was refused.
#[derive(Debug, Clone, PartialEq, Eq)]
pub enum IntelligenceError {
    InvalidInput(String),
    InvalidRelationship(String),
    MissingRelationshipEndpoint(String),
    DuplicateSemanticIdentity(String),
    InsightMissingEvidence(String),
    InconsistentCapability(String),
}

impl IntelligenceError {
    /// The text of the error as the user reads it.
    pub open spec fn message_spec(&self) -> Seq<char> {
        match self {
            IntelligenceError::InvalidInput(m) => "invalid intelligence input: "@ + m@,
            IntelligenceError::InvalidRelationship(m) => "invalid relationship: "@ + m@,
            IntelligenceError::MissingRelationshipEndpoint(m) => "relationship endpoint is missing: "@ + m@,
            IntelligenceError::DuplicateSemanticIdentity(m) => "duplicate semantic identity conflict: "@ + m@,
            IntelligenceError::InsightMissingEvidence(m) => "derived insight requires evidence: "@ + m@,
            IntelligenceError::InconsistentCapability(m) => "inconsistent execution capability information: "@
                + m@,
        }
    }

    pub fn message(&self) -> (r: String)
        ensures
            r@ == self.message_spec(),
    {
        match self {
            IntelligenceError::InvalidInput(m) => concat2("invalid intelligence input: ", m.as_str()),
            IntelligenceError::InvalidRelationship(m) => concat2("invalid relationship: ", m.as_str()),
            IntelligenceError::MissingRelationshipEndpoint(m) => concat2(
                "relationship endpoint is missing: ",
                m.as_str(),
            ),
            IntelligenceError::DuplicateSemanticIdentity(m) => concat2(
                "duplicate semantic identity conflict: ",
                m.as_str(),
            ),
            IntelligenceError::InsightMissingEvidence(m) => concat2(
                "derived insight requires evidence: ",
                m.as_str(),
            ),
            IntelligenceError::InconsistentCapability(m) => concat2(
                "inconsistent execution capability information: ",
                m.as_str(),
            ),
        }
    }
}

} // verus!
