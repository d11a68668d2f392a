//! The project-understanding report.
use vstd::prelude::*;
use crate::intelligence::entity::ProjectEntity;
use crate::intelligence::insight::{ProjectInsight, ProjectLimitation, ProjectRisk};
use crate::intelligence::relationship::ProjectRelationship;
use crate::intelligence::status::{Availability, VerificationValidity};
use crate::intelligence::evidence::clone_evidence;
use crate::intelligence::ids::EntityId;
use crate::knowledge::operator::clone_strings;

verus! {

/// Versioned public contract for the report.
pub const PROJECT_INTELLIGENCE_SCHEMA_VERSION: u32 = 1;

#[derive(Debug, Clone, PartialEq, Eq)]
pub struct ProjectIdentityModel {
    pub name: String,
}

#[derive(Debug, Clone, PartialEq, Eq)]
pub struct IdentityModel {
    pub project_type: Availability<String>,
    pub languages: Vec<String>,
    pub build_systems: Vec<String>,
    pub workspace: Availability<String>,
    pub package_count: usize,
}

#[derive(Debug, Clone, PartialEq, Eq)]
pub struct ArchitectureModel {
    pub workspace_detected: Availability<bool>,
    pub package_structure: Availability<String>,
}

#[derive(Debug, Clone, PartialEq, Eq)]
pub struct CapabilityModel {
    pub discovered_actions: Vec<String>,
    pub controlled_execution_actions: Vec<String>,
    pub dry_run_only_actions: Vec<String>,
    pub unsupported_actions: Vec<String>,
}

#[derive(Debug, Clone, PartialEq, Eq)]
pub struct VerificationModel {
    pub availability: Availability<String>,
    pub latest_action: Availability<String>,
    pub verdict: Availability<String>,
    pub validity: Availability<VerificationValidity>,
}

#[derive(Debug, Clone, Copy, PartialEq, Eq, Default)]
pub struct KnowledgeSummary {
    pub facts: usize,
    pub decisions: usize,
    pub verifications: usize,
    pub goals: usize,
}

#[derive(Debug, Clone, PartialEq, Eq)]
pub struct RepositoryStatus {
    pub state: Availability<String>,
    pub clean: Availability<bool>,
    pub continuous_integration: Availability<Vec<String>>,
}

/// The complete, deterministic project-understanding report model.
#[derive(Debug, Clone, PartialEq, Eq)]
pub struct ProjectIntelligence {
    pub schema_version: u32,
    pub project: ProjectIdentityModel,
    pub identity: IdentityModel,
    pub architecture: ArchitectureModel,
    pub capabilities: CapabilityModel,
    pub verification: VerificationModel,
    pub knowledge: KnowledgeSummary,
    pub repository: RepositoryStatus,
    pub entities: Vec<ProjectEntity>,
    pub relationships: Vec<ProjectRelationship>,
    pub insights: Vec<ProjectInsight>,
    pub risks: Vec<ProjectRisk>,
    pub limitations: Vec<ProjectLimitation>,
}

/// The same entity: equal fields, equal evidence.
pub open spec fn same_entity(a: ProjectEntity, b: ProjectEntity) -> bool {
    &&& a.id == b.id
    &&& a.kind == b.kind
    &&& a.name == b.name
    &&& a.classification == b.classification
    &&& a.confidence == b.confidence
    &&& a.evidence@ == b.evidence@
    &&& a.semantic_key == b.semantic_key
}

pub open spec fn same_relationship(a: ProjectRelationship, b: ProjectRelationship) -> bool {
    &&& a.id == b.id
    &&& a.kind == b.kind
    &&& a.source == b.source
    &&& a.target == b.target
    &&& a.classification == b.classification
    &&& a.confidence == b.confidence
    &&& a.evidence@ == b.evidence@
}

pub open spec fn same_insight(a: ProjectInsight, b: ProjectInsight) -> bool {
    &&& a.id == b.id
    &&& a.rule_id == b.rule_id
    &&& a.statement == b.statement
    &&& a.classification == b.classification
    &&& a.confidence == b.confidence
    &&& a.evidence@ == b.evidence@
    &&& a.related_entities@ == b.related_entities@
}

pub open spec fn same_risk(a: ProjectRisk, b: ProjectRisk) -> bool {
    &&& a.id == b.id
    &&& a.statement == b.statement
    &&& a.classification == b.classification
    &&& a.evidence@ == b.evidence@
}

pub open spec fn same_limitation(a: ProjectLimitation, b: ProjectLimitation) -> bool {
    &&& a.id == b.id
    &&& a.statement == b.statement
    &&& a.evidence@ == b.evidence@
}

pub open spec fn same_list_availability(a: Availability<Vec<String>>, b: Availability<Vec<String>>) -> bool {
    match a {
        Availability::Available(v) => b matches Availability::Available(w) && v@ == w@,
        Availability::Unavailable => b is Unavailable,
        Availability::Unknown => b is Unknown,
    }
}

/// Two reports with the same content, field by field.
pub open spec fn same_intelligence(a: ProjectIntelligence, b: ProjectIntelligence) -> bool {
    &&& a.schema_version == b.schema_version
    &&& a.project == b.project
    &&& a.identity.project_type == b.identity.project_type
    &&& a.identity.languages@ == b.identity.languages@
    &&& a.identity.build_systems@ == b.identity.build_systems@
    &&& a.identity.workspace == b.identity.workspace
    &&& a.identity.package_count == b.identity.package_count
    &&& a.architecture == b.architecture
    &&& a.capabilities.discovered_actions@ == b.capabilities.discovered_actions@
    &&& a.capabilities.controlled_execution_actions@ == b.capabilities.controlled_execution_actions@
    &&& a.capabilities.dry_run_only_actions@ == b.capabilities.dry_run_only_actions@
    &&& a.capabilities.unsupported_actions@ == b.capabilities.unsupported_actions@
    &&& a.verification == b.verification
    &&& a.knowledge == b.knowledge
    &&& a.repository.state == b.repository.state
    &&& a.repository.clean == b.repository.clean
    &&& same_list_availability(a.repository.continuous_integration, b.repository.continuous_integration)
    &&& a.entities@.len() == b.entities@.len()
    &&& forall|i: int| 0 <= i < a.entities@.len() ==> same_entity(#[trigger] a.entities@[i], b.entities@[i])
    &&& a.relationships@.len() == b.relationships@.len()
    &&& forall|i: int|
        0 <= i < a.relationships@.len() ==> same_relationship(#[trigger] a.relationships@[i], b.relationships@[i])
    &&& a.insights@.len() == b.insights@.len()
    &&& forall|i: int| 0 <= i < a.insights@.len() ==> same_insight(#[trigger] a.insights@[i], b.insights@[i])
    &&& a.risks@.len() == b.risks@.len()
    &&& forall|i: int| 0 <= i < a.risks@.len() ==> same_risk(#[trigger] a.risks@[i], b.risks@[i])
    &&& a.limitations@.len() == b.limitations@.len()
    &&& forall|i: int|
        0 <= i < a.limitations@.len() ==> same_limitation(#[trigger] a.limitations@[i], b.limitations@[i])
}

fn copy_text_availability(a: &Availability<String>) -> (r: Availability<String>)
    ensures
        r == *a,
{
    match a {
        Availability::Available(s) => Availability::Available(s.clone()),
        Availability::Unavailable => Availability::Unavailable,
        Availability::Unknown => Availability::Unknown,
    }
}

fn copy_ids(v: &Vec<EntityId>) -> (r: Vec<EntityId>)
    ensures
        r@ == v@,
{
    let mut r: Vec<EntityId> = Vec::new();
    let mut i: usize = 0;
    while i < v.len()
        invariant
            i <= v@.len(),
            r@ == v@.take(i as int),
        decreases v@.len() - i,
    {
        r.push(v[i].duplicate());
        i = i + 1;
        assert(r@ =~= v@.take(i as int));
    }
    assert(v@.take(v@.len() as int) =~= v@);
    r
}

impl ProjectIntelligence {
    /// A copy with the same content.
    pub fn duplicate(&self) -> (r: Self)
        ensures
            same_intelligence(r, *self),
    {
        let mut entities: Vec<ProjectEntity> = Vec::new();
        let mut i: usize = 0;
        while i < self.entities.len()
            invariant
                i <= self.entities@.len(),
                entities@.len() == i,
                forall|j: int| 0 <= j < i ==> same_entity(#[trigger] entities@[j], self.entities@[j]),
            decreases self.entities@.len() - i,
        {
            entities.push(self.entities[i].duplicate());
            i = i + 1;
        }
        let mut relationships: Vec<ProjectRelationship> = Vec::new();
        let mut i: usize = 0;
        while i < self.relationships.len()
            invariant
                i <= self.relationships@.len(),
                relationships@.len() == i,
                forall|j: int| 0 <= j < i ==> same_relationship(#[trigger] relationships@[j], self.relationships@[j]),
            decreases self.relationships@.len() - i,
        {
            relationships.push(self.relationships[i].duplicate());
            i = i + 1;
        }
        let mut insights: Vec<ProjectInsight> = Vec::new();
        let mut i: usize = 0;
        while i < self.insights.len()
            invariant
                i <= self.insights@.len(),
                insights@.len() == i,
                forall|j: int| 0 <= j < i ==> same_insight(#[trigger] insights@[j], self.insights@[j]),
            decreases self.insights@.len() - i,
        {
            let x = &self.insights[i];
            insights.push(ProjectInsight {
                id: x.id.duplicate(),
                rule_id: x.rule_id.duplicate(),
                statement: x.statement.clone(),
                classification: x.classification,
                confidence: x.confidence,
                evidence: clone_evidence(&x.evidence),
                related_entities: copy_ids(&x.related_entities),
            });
            i = i + 1;
        }
        let mut risks: Vec<ProjectRisk> = Vec::new();
        let mut i: usize = 0;
        while i < self.risks.len()
            invariant
                i <= self.risks@.len(),
                risks@.len() == i,
                forall|j: int| 0 <= j < i ==> same_risk(#[trigger] risks@[j], self.risks@[j]),
            decreases self.risks@.len() - i,
        {
            let x = &self.risks[i];
            risks.push(ProjectRisk {
                id: x.id.duplicate(),
                statement: x.statement.clone(),
                classification: x.classification,
                evidence: clone_evidence(&x.evidence),
            });
            i = i + 1;
        }
        let mut limitations: Vec<ProjectLimitation> = Vec::new();
        let mut i: usize = 0;
        while i < self.limitations.len()
            invariant
                i <= self.limitations@.len(),
                limitations@.len() == i,
                forall|j: int| 0 <= j < i ==> same_limitation(#[trigger] limitations@[j], self.limitations@[j]),
            decreases self.limitations@.len() - i,
        {
            let x = &self.limitations[i];
            limitations.push(ProjectLimitation {
                id: x.id.duplicate(),
                statement: x.statement.clone(),
                evidence: clone_evidence(&x.evidence),
            });
            i = i + 1;
        }
        ProjectIntelligence {
            schema_version: self.schema_version,
            project: ProjectIdentityModel { name: self.project.name.clone() },
            identity: IdentityModel {
                project_type: copy_text_availability(&self.identity.project_type),
                languages: clone_strings(&self.identity.languages),
                build_systems: clone_strings(&self.identity.build_systems),
                workspace: copy_text_availability(&self.identity.workspace),
                package_count: self.identity.package_count,
            },
            architecture: ArchitectureModel {
                workspace_detected: match &self.architecture.workspace_detected {
                    Availability::Available(b) => Availability::Available(*b),
                    Availability::Unavailable => Availability::Unavailable,
                    Availability::Unknown => Availability::Unknown,
                },
                package_structure: copy_text_availability(&self.architecture.package_structure),
            },
            capabilities: CapabilityModel {
                discovered_actions: clone_strings(&self.capabilities.discovered_actions),
                controlled_execution_actions: clone_strings(&self.capabilities.controlled_execution_actions),
                dry_run_only_actions: clone_strings(&self.capabilities.dry_run_only_actions),
                unsupported_actions: clone_strings(&self.capabilities.unsupported_actions),
            },
            verification: VerificationModel {
                availability: copy_text_availability(&self.verification.availability),
                latest_action: copy_text_availability(&self.verification.latest_action),
                verdict: copy_text_availability(&self.verification.verdict),
                validity: match &self.verification.validity {
                    Availability::Available(v) => Availability::Available(*v),
                    Availability::Unavailable => Availability::Unavailable,
                    Availability::Unknown => Availability::Unknown,
                },
            },
            knowledge: self.knowledge,
            repository: RepositoryStatus {
                state: copy_text_availability(&self.repository.state),
                clean: match &self.repository.clean {
                    Availability::Available(b) => Availability::Available(*b),
                    Availability::Unavailable => Availability::Unavailable,
                    Availability::Unknown => Availability::Unknown,
                },
                continuous_integration: match &self.repository.continuous_integration {
                    Availability::Available(v) => Availability::Available(clone_strings(v)),
                    Availability::Unavailable => Availability::Unavailable,
                    Availability::Unknown => Availability::Unknown,
                },
            },
            entities,
            relationships,
            insights,
            risks,
            limitations,
        }
    }
}

} // verus!
