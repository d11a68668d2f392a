//! Edges of the project-understanding graph.
use vstd::prelude::*;
use crate::intelligence::entity::InformationClassification;
use crate::intelligence::error::IntelligenceError;
use crate::intelligence::evidence::{clone_evidence, IntelligenceEvidenceRef};
use crate::intelligence::ids::{derived_id, EntityId, RelationshipId, RELATIONSHIP_ID_PREFIX};
use crate::intelligence::status::IntelligenceConfidence;
use crate::order::{append_key, push_tag, sort_unique, sorted_unique_of, SortKey};
use crate::text::owned;

verus! {

#[derive(Debug, Clone, Copy, PartialEq, Eq, PartialOrd, Ord, Structural)]
pub enum ProjectRelationshipKind {
    Contains,
    UsesLanguage,
    UsesBuildSystem,
    ProvidesAction,
    ActionValidatesProject,
    VerificationAppliesToProject,
    DecisionGovernsEntity,
    ClaimSupportsEntity,
    CapabilityRestrictedToDryRun,
    CapabilityAllowedForControlledExecution,
}

impl ProjectRelationshipKind {
    pub open spec fn tag(self) -> u32 {
        match self {
            ProjectRelationshipKind::Contains => 0,
            ProjectRelationshipKind::UsesLanguage => 1,
            ProjectRelationshipKind::UsesBuildSystem => 2,
            ProjectRelationshipKind::ProvidesAction => 3,
            ProjectRelationshipKind::ActionValidatesProject => 4,
            ProjectRelationshipKind::VerificationAppliesToProject => 5,
            ProjectRelationshipKind::DecisionGovernsEntity => 6,
            ProjectRelationshipKind::ClaimSupportsEntity => 7,
            ProjectRelationshipKind::CapabilityRestrictedToDryRun => 8,
            ProjectRelationshipKind::CapabilityAllowedForControlledExecution => 9,
        }
    }

    pub fn tag_of(self) -> (r: u32)
        ensures
            r == self.tag(),
    {
        match self {
            ProjectRelationshipKind::Contains => 0,
            ProjectRelationshipKind::UsesLanguage => 1,
            ProjectRelationshipKind::UsesBuildSystem => 2,
            ProjectRelationshipKind::ProvidesAction => 3,
            ProjectRelationshipKind::ActionValidatesProject => 4,
            ProjectRelationshipKind::VerificationAppliesToProject => 5,
            ProjectRelationshipKind::DecisionGovernsEntity => 6,
            ProjectRelationshipKind::ClaimSupportsEntity => 7,
            ProjectRelationshipKind::CapabilityRestrictedToDryRun => 8,
            ProjectRelationshipKind::CapabilityAllowedForControlledExecution => 9,
        }
    }

    pub open spec fn as_str_spec(self) -> Seq<char> {
        match self {
            ProjectRelationshipKind::Contains => "contains"@,
            ProjectRelationshipKind::UsesLanguage => "uses_language"@,
            ProjectRelationshipKind::UsesBuildSystem => "uses_build_system"@,
            ProjectRelationshipKind::ProvidesAction => "provides_action"@,
            ProjectRelationshipKind::ActionValidatesProject => "action_validates_project"@,
            ProjectRelationshipKind::VerificationAppliesToProject => "verification_applies_to_project"@,
            ProjectRelationshipKind::DecisionGovernsEntity => "decision_governs_entity"@,
            ProjectRelationshipKind::ClaimSupportsEntity => "claim_supports_entity"@,
            ProjectRelationshipKind::CapabilityRestrictedToDryRun => "capability_restricted_to_dry_run"@,
            ProjectRelationshipKind::CapabilityAllowedForControlledExecution => "capability_allowed_for_controlled_execution"@,
        }
    }

    pub fn as_str(self) -> (r: &'static str)
        ensures
            r@ == self.as_str_spec(),
    {
        match self {
            ProjectRelationshipKind::Contains => "contains",
            ProjectRelationshipKind::UsesLanguage => "uses_language",
            ProjectRelationshipKind::UsesBuildSystem => "uses_build_system",
            ProjectRelationshipKind::ProvidesAction => "provides_action",
            ProjectRelationshipKind::ActionValidatesProject => "action_validates_project",
            ProjectRelationshipKind::VerificationAppliesToProject => "verification_applies_to_project",
            ProjectRelationshipKind::DecisionGovernsEntity => "decision_governs_entity",
            ProjectRelationshipKind::ClaimSupportsEntity => "claim_supports_entity",
            ProjectRelationshipKind::CapabilityRestrictedToDryRun => "capability_restricted_to_dry_run",
            ProjectRelationshipKind::CapabilityAllowedForControlledExecution => "capability_allowed_for_controlled_execution",
        }
    }
}

/// The identifier of an edge: its kind and both endpoints.
pub open spec fn relationship_id(kind: ProjectRelationshipKind, source: Seq<char>, target: Seq<char>) -> Seq<char> {
    derived_id(RELATIONSHIP_ID_PREFIX@, kind.as_str_spec(), seq![source, target])
}

/// A current graph edge, distinct from a persisted knowledge relationship.
#[derive(Debug, Clone, PartialEq, Eq)]
pub struct ProjectRelationship {
    pub id: RelationshipId,
    pub kind: ProjectRelationshipKind,
    pub source: EntityId,
    pub target: EntityId,
    pub classification: InformationClassification,
    pub confidence: IntelligenceConfidence,
    pub evidence: Vec<IntelligenceEvidenceRef>,
}

impl ProjectRelationship {
    /// Creates an edge between two distinct entities; evidence is sorted and deduplicated.
    pub fn new(
        kind: ProjectRelationshipKind,
        source: EntityId,
        target: EntityId,
        classification: InformationClassification,
        confidence: IntelligenceConfidence,
        evidence: Vec<IntelligenceEvidenceRef>,
    ) -> (r: Result<Self, IntelligenceError>)
        ensures
            r is Ok <==> source@ != target@ && evidence@.len() > 0,
            r matches Err(e) ==> e matches IntelligenceError::InvalidRelationship(m) && m@
                == "relationships require distinct endpoints and evidence"@,
            r matches Ok(x) ==> {
                &&& x.id@ == relationship_id(kind, source@, target@)
                &&& x.kind == kind
                &&& x.source == source
                &&& x.target == target
                &&& x.classification == classification
                &&& x.confidence == confidence
                &&& sorted_unique_of(x.evidence@, evidence@)
            },
    {
        if source.same(&target) || evidence.len() == 0 {
            return Err(
                IntelligenceError::InvalidRelationship(
                    owned("relationships require distinct endpoints and evidence"),
                ),
            );
        }
        let evidence = sort_unique(evidence);
        let mut fields: Vec<String> = Vec::new();
        fields.push(source.to_text());
        fields.push(target.to_text());
        let id = RelationshipId::derive(kind.as_str(), &fields);
        assert(crate::knowledge::operator::views(fields@) =~= seq![source@, target@]);
        Ok(ProjectRelationship { id, kind, source, target, classification, confidence, evidence })
    }

    pub fn duplicate(&self) -> (r: Self)
        ensures
            r.id == self.id,
            r.kind == self.kind,
            r.source == self.source,
            r.target == self.target,
            r.classification == self.classification,
            r.confidence == self.confidence,
            r.evidence@ == self.evidence@,
    {
        ProjectRelationship {
            id: self.id.duplicate(),
            kind: self.kind,
            source: self.source.duplicate(),
            target: self.target.duplicate(),
            classification: self.classification,
            confidence: self.confidence,
            evidence: clone_evidence(&self.evidence),
        }
    }

    /// Merges the evidence of an edge with the same kind, endpoints and classification.
    pub fn merge_evidence(&mut self, other: &Self) -> (r: Result<(), IntelligenceError>)
        ensures
            r is Ok <==> (old(self).kind == other.kind && old(self).source@ == other.source@
                && old(self).target@ == other.target@ && old(self).classification
                == other.classification),
            r matches Err(e) ==> e matches IntelligenceError::DuplicateSemanticIdentity(m) && m@
                == old(self).id@,
            r is Err ==> *final(self) == *old(self),
            r is Ok ==> {
                &&& final(self).id == old(self).id
                &&& final(self).kind == old(self).kind
                &&& final(self).source == old(self).source
                &&& final(self).target == old(self).target
                &&& final(self).classification == old(self).classification
                &&& final(self).confidence.rank() == if old(self).confidence.rank()
                    >= other.confidence.rank() {
                    old(self).confidence.rank()
                } else {
                    other.confidence.rank()
                }
                &&& sorted_unique_of(final(self).evidence@, old(self).evidence@ + other.evidence@)
            },
    {
        if !(self.kind == other.kind && self.source.same(&other.source) && self.target.same(
            &other.target,
        ) && self.classification == other.classification) {
            return Err(IntelligenceError::DuplicateSemanticIdentity(self.id.to_text()));
        }
        let mut all = clone_evidence(&self.evidence);
        let more = clone_evidence(&other.evidence);
        let mut i: usize = 0;
        let ghost start = all@;
        while i < more.len()
            invariant
                i <= more@.len(),
                all@ == start + more@.take(i as int),
            decreases more@.len() - i,
        {
            all.push(more[i].duplicate());
            i = i + 1;
            assert(all@ =~= start + more@.take(i as int));
        }
        assert(more@.take(more@.len() as int) =~= more@);
        self.evidence = sort_unique(all);
        self.confidence = self.confidence.max_of(other.confidence);
        Ok(())
    }
}

/// Edges are listed by kind, source, target, then identifier.
impl SortKey for ProjectRelationship {
    open spec fn sort_key(&self) -> Seq<u32> {
        seq![self.kind.tag()] + self.source.sort_key() + self.target.sort_key() + self.id.sort_key()
    }

    fn key(&self) -> (k: Vec<u32>) {
        let mut k = Vec::new();
        push_tag(&mut k, self.kind.tag_of());
        append_key(&mut k, &self.source.key());
        append_key(&mut k, &self.target.key());
        append_key(&mut k, &self.id.key());
        assert(k@ =~= seq![self.kind.tag()] + self.source.sort_key() + self.target.sort_key() + self.id.sort_key());
        k
    }
}

} // verus!
