//! Entities of the project-understanding graph.
use vstd::prelude::*;
use crate::intelligence::error::IntelligenceError;
use crate::intelligence::evidence::{clone_evidence, IntelligenceEvidenceRef};
use crate::intelligence::ids::{derived_id, EntityId, ENTITY_ID_PREFIX};
use crate::intelligence::status::IntelligenceConfidence;
use crate::order::{push_str_key, push_tag, sort_unique, sorted_unique_of, str_key, SortKey};
use crate::text::{owned, str_eq};

verus! {

/// Whether information is direct observation, a deterministic derivation, or
/// an authoritative operator-owned decision.
#[derive(Debug, Clone, Copy, PartialEq, Eq, PartialOrd, Ord, Structural)]
pub enum InformationClassification {
    Observed,
    Derived,
    OperatorDecided,
}

#[derive(Debug, Clone, Copy, PartialEq, Eq, PartialOrd, Ord, Structural)]
pub enum EntityKind {
    Project,
    Workspace,
    Package,
    Language,
    BuildSystem,
    Action,
    ExecutionCapability,
    Verification,
    KnowledgeClaim,
    Decision,
    ContinuousIntegration,
}

impl EntityKind {
    pub open spec fn tag(self) -> u32 {
        match self {
            EntityKind::Project => 0,
            EntityKind::Workspace => 1,
            EntityKind::Package => 2,
            EntityKind::Language => 3,
            EntityKind::BuildSystem => 4,
            EntityKind::Action => 5,
            EntityKind::ExecutionCapability => 6,
            EntityKind::Verification => 7,
            EntityKind::KnowledgeClaim => 8,
            EntityKind::Decision => 9,
            EntityKind::ContinuousIntegration => 10,
        }
    }

    pub fn tag_of(self) -> (r: u32)
        ensures
            r == self.tag(),
    {
        match self {
            EntityKind::Project => 0,
            EntityKind::Workspace => 1,
            EntityKind::Package => 2,
            EntityKind::Language => 3,
            EntityKind::BuildSystem => 4,
            EntityKind::Action => 5,
            EntityKind::ExecutionCapability => 6,
            EntityKind::Verification => 7,
            EntityKind::KnowledgeClaim => 8,
            EntityKind::Decision => 9,
            EntityKind::ContinuousIntegration => 10,
        }
    }

    pub open spec fn as_str_spec(self) -> Seq<char> {
        match self {
            EntityKind::Project => "project"@,
            EntityKind::Workspace => "workspace"@,
            EntityKind::Package => "package"@,
            EntityKind::Language => "language"@,
            EntityKind::BuildSystem => "build_system"@,
            EntityKind::Action => "action"@,
            EntityKind::ExecutionCapability => "execution_capability"@,
            EntityKind::Verification => "verification"@,
            EntityKind::KnowledgeClaim => "knowledge_claim"@,
            EntityKind::Decision => "decision"@,
            EntityKind::ContinuousIntegration => "continuous_integration"@,
        }
    }

    pub fn as_str(self) -> (r: &'static str)
        ensures
            r@ == self.as_str_spec(),
    {
        match self {
            EntityKind::Project => "project",
            EntityKind::Workspace => "workspace",
            EntityKind::Package => "package",
            EntityKind::Language => "language",
            EntityKind::BuildSystem => "build_system",
            EntityKind::Action => "action",
            EntityKind::ExecutionCapability => "execution_capability",
            EntityKind::Verification => "verification",
            EntityKind::KnowledgeClaim => "knowledge_claim",
            EntityKind::Decision => "decision",
            EntityKind::ContinuousIntegration => "continuous_integration",
        }
    }
}

/// The identifier of an entity: its kind, semantic key and name.
pub open spec fn entity_id(kind: EntityKind, semantic_key: Seq<char>, name: Seq<char>) -> Seq<char> {
    derived_id(ENTITY_ID_PREFIX@, kind.as_str_spec(), seq![semantic_key, name])
}

/// A safe, runtime entity in the project-understanding graph.
#[derive(Debug, Clone, PartialEq, Eq)]
pub struct ProjectEntity {
    pub id: EntityId,
    pub kind: EntityKind,
    pub name: String,
    pub classification: InformationClassification,
    pub confidence: IntelligenceConfidence,
    pub evidence: Vec<IntelligenceEvidenceRef>,
    pub semantic_key: String,
}

impl ProjectEntity {
    /// Creates an entity; its evidence is sorted and deduplicated.
    pub fn new(
        kind: EntityKind,
        semantic_key: String,
        name: String,
        classification: InformationClassification,
        confidence: IntelligenceConfidence,
        evidence: Vec<IntelligenceEvidenceRef>,
    ) -> (r: Result<Self, IntelligenceError>)
        ensures
            r is Ok <==> semantic_key@.len() > 0 && name@.len() > 0 && evidence@.len() > 0,
            r matches Err(e) ==> e matches IntelligenceError::InvalidInput(m) && m@
                == "entities require a semantic key, name, and evidence"@,
            r matches Ok(e) ==> {
                &&& e.id@ == entity_id(kind, semantic_key@, name@)
                &&& e.kind == kind
                &&& e.name@ == name@
                &&& e.classification == classification
                &&& e.confidence == confidence
                &&& e.semantic_key@ == semantic_key@
                &&& sorted_unique_of(e.evidence@, evidence@)
            },
    {
        if semantic_key.as_str().unicode_len() == 0 || name.as_str().unicode_len() == 0
            || evidence.len() == 0 {
            return Err(
                IntelligenceError::InvalidInput(
                    owned("entities require a semantic key, name, and evidence"),
                ),
            );
        }
        let evidence = sort_unique(evidence);
        let mut fields: Vec<String> = Vec::new();
        fields.push(semantic_key.clone());
        fields.push(name.clone());
        let id = EntityId::derive(kind.as_str(), &fields);
        assert(crate::knowledge::operator::views(fields@) =~= seq![semantic_key@, name@]);
        Ok(ProjectEntity { id, kind, name, classification, confidence, evidence, semantic_key })
    }

    /// Same kind, name, classification and semantic key.
    pub open spec fn same_identity(&self, other: &Self) -> bool {
        &&& self.kind == other.kind
        &&& self.name@ == other.name@
        &&& self.classification == other.classification
        &&& self.semantic_key@ == other.semantic_key@
    }

    /// Merges the evidence of an entity with the same identity.
    pub fn merge_evidence(&mut self, other: &Self) -> (r: Result<(), IntelligenceError>)
        ensures
            r is Ok <==> old(self).same_identity(other),
            r matches Err(e) ==> e matches IntelligenceError::DuplicateSemanticIdentity(m) && m@
                == old(self).id@,
            r is Err ==> *final(self) == *old(self),
            r is Ok ==> {
                &&& final(self).id == old(self).id
                &&& final(self).kind == old(self).kind
                &&& final(self).name == old(self).name
                &&& final(self).classification == old(self).classification
                &&& final(self).semantic_key == old(self).semantic_key
                &&& final(self).confidence.rank() == if old(self).confidence.rank()
                    >= other.confidence.rank() {
                    old(self).confidence.rank()
                } else {
                    other.confidence.rank()
                }
                &&& sorted_unique_of(final(self).evidence@, old(self).evidence@ + other.evidence@)
            },
    {
        if !(self.kind == other.kind && str_eq(self.name.as_str(), other.name.as_str())
            && self.classification == other.classification && str_eq(
            self.semantic_key.as_str(),
            other.semantic_key.as_str(),
        )) {
            return Err(IntelligenceError::DuplicateSemanticIdentity(self.id.to_text()));
        }
        let mut all = clone_evidence(&self.evidence);
        let more = clone_evidence(&other.evidence);
        let mut i: usize = 0;
        let ghost start = all@;
        while i < more.len()
            invariant
                i <= more@.len(),
                all@ == start + more@.take(i as int),
            decreases more@.len() - i,
        {
            all.push(more[i].duplicate());
            i = i + 1;
            assert(all@ =~= start + more@.take(i as int));
        }
        assert(more@.take(more@.len() as int) =~= more@);
        self.evidence = sort_unique(all);
        self.confidence = self.confidence.max_of(other.confidence);
        Ok(())
    }

    pub fn duplicate(&self) -> (r: Self)
        ensures
            r.id == self.id,
            r.kind == self.kind,
            r.name == self.name,
            r.classification == self.classification,
            r.confidence == self.confidence,
            r.evidence@ == self.evidence@,
            r.semantic_key == self.semantic_key,
    {
        ProjectEntity {
            id: self.id.duplicate(),
            kind: self.kind,
            name: self.name.clone(),
            classification: self.classification,
            confidence: self.confidence,
            evidence: clone_evidence(&self.evidence),
            semantic_key: self.semantic_key.clone(),
        }
    }
}

/// Entities are listed by kind, then name, then identifier.
impl SortKey for ProjectEntity {
    open spec fn sort_key(&self) -> Seq<u32> {
        seq![self.kind.tag()] + str_key(self.name@) + self.id.sort_key()
    }

    fn key(&self) -> (k: Vec<u32>) {
        let mut k = Vec::new();
        push_tag(&mut k, self.kind.tag_of());
        push_str_key(&mut k, self.name.as_str());
        let idk = self.id.key();
        let mut i: usize = 0;
        let ghost start = k@;
        while i < idk.len()
            invariant
                i <= idk@.len(),
                k@ == start + idk@.take(i as int),
            decreases idk@.len() - i,
        {
            k.push(idk[i]);
            i = i + 1;
            assert(k@ =~= start + idk@.take(i as int));
        }
        assert(idk@.take(idk@.len() as int) =~= idk@);
        assert(k@ =~= seq![self.kind.tag()] + str_key(self.name@) + self.id.sort_key());
        k
    }
}

} // verus!
