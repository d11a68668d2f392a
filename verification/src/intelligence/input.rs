//! The explicit input of the analyzer.
use vstd::prelude::*;
use crate::intelligence::evidence::IntelligenceEvidenceRef;
use crate::intelligence::status::{IntelligenceConfidence, VerificationValidity};

verus! {

/// Stable project identity; it excludes a local filesystem root.
#[derive(Debug, Clone, PartialEq, Eq)]
pub struct ProjectIdentityInput {
    pub name: String,
    pub project_type: Option<String>,
}

#[derive(Debug, Clone, PartialEq, Eq)]
pub struct WorkspacePackageInput {
    pub name: String,
    pub ecosystem: String,
    /// A project-relative semantic location, never an absolute path.
    pub relative_path: String,
    pub confidence: IntelligenceConfidence,
    pub evidence: Vec<IntelligenceEvidenceRef>,
}

#[derive(Debug, Clone, PartialEq, Eq)]
pub struct ProjectContextInput {
    pub workspace_kinds: Vec<String>,
    pub packages: Vec<WorkspacePackageInput>,
    pub languages: Vec<String>,
    pub build_systems: Vec<String>,
    pub continuous_integration: Vec<String>,
    pub repository: RepositoryInput,
}

#[derive(Debug, Clone, PartialEq, Eq)]
pub struct RepositoryInput {
    pub state: Option<String>,
    pub clean: Option<bool>,
}

#[derive(Debug, Clone, PartialEq, Eq)]
pub struct ActionInput {
    pub id: String,
    pub confidence: IntelligenceConfidence,
    pub evidence: Vec<IntelligenceEvidenceRef>,
}

/// Neutral execution-policy information: availability only.
#[derive(Debug, Clone, PartialEq, Eq)]
pub struct ExecutionCapabilityInput {
    pub discovered_actions: Vec<String>,
    pub controlled_actions: Vec<String>,
    pub dry_run_only_actions: Vec<String>,
    pub unsupported_actions: Vec<String>,
}

#[derive(Debug, Clone, Copy, PartialEq, Eq, PartialOrd, Ord, Structural)]
pub enum KnowledgeCategoryInput {
    Fact,
    Decision,
    Verification,
    Goal,
}

#[derive(Debug, Clone, PartialEq, Eq)]
pub struct KnowledgeClaimInput {
    pub id: String,
    pub category: KnowledgeCategoryInput,
    pub predicate: String,
    pub confidence: IntelligenceConfidence,
    pub validity: VerificationValidity,
    /// Used only to select the latest verification; never emitted.
    pub created_at: String,
    pub verification_action: Option<String>,
    pub verification_verdict: Option<String>,
}

#[derive(Debug, Clone, PartialEq, Eq)]
pub struct ProjectKnowledgeInput {
    pub claims: Vec<KnowledgeClaimInput>,
}

/// Complete, explicit input for the pure intelligence analyzer.
#[derive(Debug, Clone, PartialEq, Eq)]
pub struct ProjectIntelligenceInput {
    pub project: ProjectIdentityInput,
    pub context: ProjectContextInput,
    pub actions: Vec<ActionInput>,
    pub execution_capabilities: ExecutionCapabilityInput,
    pub knowledge: ProjectKnowledgeInput,
}

} // verus!
