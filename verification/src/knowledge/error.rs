//! Errors of the knowledge model.
use vstd::prelude::*;
use crate::text::{concat2, decimal, decimal_string, owned, push_str};

verus! {

/// Why a knowledge or operator-response operation was refused.
#[derive(Debug, Clone, PartialEq, Eq)]
pub enum KnowledgeError {
    InvalidClaim(String),
    SensitiveField(String),
    InvalidId(String),
    InvalidProjectName(String),
    ClaimNotFound(String),
    RelationshipEndpointMissing(String),
    SelfRelationship,
    Corrupt { path: String, message: String },
    UnsupportedSchema { found: u32, supported: u32 },
    DefaultLocationUnavailable,
    InvalidOperatorResponse(String),
    SensitiveOperatorResponse(String),
    ObservedTargetGovernance,
    OperatorResponseNotFound(String),
    InvalidResponseTransition(String),
    GoverningResponseConflict(String),
    OperatorTargetChanged,
    UnsupportedOperatorResponseSchema { found: u32, supported: u32 },
    OperatorStoreBusy,
}

impl KnowledgeError {
    /// The text of the error as the user reads it.
    pub open spec fn message_spec(&self) -> Seq<char> {
        match self {
            KnowledgeError::InvalidClaim(m) => "invalid knowledge claim: "@ + m@,
            KnowledgeError::SensitiveField(m) => "knowledge claim contains a sensitive field: "@ + m@,
            KnowledgeError::InvalidId(m) => "invalid knowledge identifier: "@ + m@,
            KnowledgeError::InvalidProjectName(m) => "invalid knowledge project name: "@ + m@,
            KnowledgeError::ClaimNotFound(m) => "knowledge claim not found: "@ + m@,
            KnowledgeError::RelationshipEndpointMissing(m) => "knowledge relationship endpoint does not exist: "@
                + m@,
            KnowledgeError::SelfRelationship => "knowledge relationship cannot connect a claim to itself"@,
            KnowledgeError::Corrupt { path, message } => "knowledge file is corrupt at "@ + path@ + ": "@
                + message@,
            KnowledgeError::UnsupportedSchema { found, supported } => "unsupported knowledge schema version "@
                + decimal(*found as nat) + "; supported version is "@ + decimal(*supported as nat),
            KnowledgeError::DefaultLocationUnavailable => "the default knowledge directory cannot be determined"@,
            KnowledgeError::InvalidOperatorResponse(m) => "invalid operator response: "@ + m@,
            KnowledgeError::SensitiveOperatorResponse(m) => "operator response contains sensitive content in "@
                + m@,
            KnowledgeError::ObservedTargetGovernance => "observed information cannot be governed by this response type"@,
            KnowledgeError::OperatorResponseNotFound(m) => "operator response not found: "@ + m@,
            KnowledgeError::InvalidResponseTransition(m) => "operator response lifecycle transition is invalid: "@
                + m@,
            KnowledgeError::GoverningResponseConflict(m) => "an active governing response already exists for target: "@
                + m@,
            KnowledgeError::OperatorTargetChanged => "operator response target no longer matches current intelligence"@,
            KnowledgeError::UnsupportedOperatorResponseSchema { found, supported } =>
                "unsupported operator response schema version "@ + decimal(*found as nat)
                + "; supported version is "@ + decimal(*supported as nat),
            KnowledgeError::OperatorStoreBusy => "operator response store is busy"@,
        }
    }

    pub fn message(&self) -> (r: String)
        ensures
            r@ == self.message_spec(),
    {
        match self {
            KnowledgeError::InvalidClaim(m) => concat2("invalid knowledge claim: ", m.as_str()),
            KnowledgeError::SensitiveField(m) => concat2(
                "knowledge claim contains a sensitive field: ",
                m.as_str(),
            ),
            KnowledgeError::InvalidId(m) => concat2("invalid knowledge identifier: ", m.as_str()),
            KnowledgeError::InvalidProjectName(m) => concat2(
                "invalid knowledge project name: ",
                m.as_str(),
            ),
            KnowledgeError::ClaimNotFound(m) => concat2("knowledge claim not found: ", m.as_str()),
            KnowledgeError::RelationshipEndpointMissing(m) => concat2(
                "knowledge relationship endpoint does not exist: ",
                m.as_str(),
            ),
            KnowledgeError::SelfRelationship => owned(
                "knowledge relationship cannot connect a claim to itself",
            ),
            KnowledgeError::Corrupt { path, message } => {
                let mut r = concat2("knowledge file is corrupt at ", path.as_str());
                push_str(&mut r, ": ");
                push_str(&mut r, message.as_str());
                r
            },
            KnowledgeError::UnsupportedSchema { found, supported } => {
                let mut r = owned("unsupported knowledge schema version ");
                push_str(&mut r, decimal_string(*found as u64).as_str());
                push_str(&mut r, "; supported version is ");
                push_str(&mut r, decimal_string(*supported as u64).as_str());
                r
            },
            KnowledgeError::DefaultLocationUnavailable => owned(
                "the default knowledge directory cannot be determined",
            ),
            KnowledgeError::InvalidOperatorResponse(m) => concat2(
                "invalid operator response: ",
                m.as_str(),
            ),
            KnowledgeError::SensitiveOperatorResponse(m) => concat2(
                "operator response contains sensitive content in ",
                m.as_str(),
            ),
            KnowledgeError::ObservedTargetGovernance => owned(
                "observed information cannot be governed by this response type",
            ),
            KnowledgeError::OperatorResponseNotFound(m) => concat2(
                "operator response not found: ",
                m.as_str(),
            ),
            KnowledgeError::InvalidResponseTransition(m) => concat2(
                "operator response lifecycle transition is invalid: ",
                m.as_str(),
            ),
            KnowledgeError::GoverningResponseConflict(m) => concat2(
                "an active governing response already exists for target: ",
                m.as_str(),
            ),
            KnowledgeError::OperatorTargetChanged => owned(
                "operator response target no longer matches current intelligence",
            ),
            KnowledgeError::UnsupportedOperatorResponseSchema { found, supported } => {
                let mut r = owned("unsupported operator response schema version ");
                push_str(&mut r, decimal_string(*found as u64).as_str());
                push_str(&mut r, "; supported version is ");
                push_str(&mut r, decimal_string(*supported as u64).as_str());
                r
            },
            KnowledgeError::OperatorStoreBusy => owned("operator response store is busy"),
        }
    }
}

} // verus!
