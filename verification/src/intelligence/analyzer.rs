//! The pure, deterministic project-intelligence analyzer.
use vstd::prelude::*;
use crate::intelligence::entity::{entity_id, EntityKind, InformationClassification, ProjectEntity};
use crate::intelligence::error::IntelligenceError;
use crate::intelligence::evidence::{clone_evidence, IntelligenceEvidenceRef};
use crate::intelligence::ids::EntityId;
use crate::intelligence::input::{
    WorkspacePackageInput, ActionInput, KnowledgeCategoryInput, KnowledgeClaimInput, ProjectContextInput,
    ProjectIntelligenceInput,
};
use crate::intelligence::insight::{insight_id, ProjectInsight, ProjectLimitation, ProjectRisk};
use crate::intelligence::model::{
    ArchitectureModel, CapabilityModel, IdentityModel, KnowledgeSummary, ProjectIdentityModel,
    ProjectIntelligence, RepositoryStatus, VerificationModel, PROJECT_INTELLIGENCE_SCHEMA_VERSION,
};
use crate::intelligence::relationship::{relationship_id, ProjectRelationship, ProjectRelationshipKind};
use crate::intelligence::rule::{
    default_rules, ref_key, restricted_evidence_keys, restricted_related_keys, rule_output_insight, InsightRule, RestrictedActionRuleInput,
    RuleContext, RuleOutput, VerificationRuleInput,
};
use crate::intelligence::status::{Availability, IntelligenceConfidence, VerificationValidity};
use crate::knowledge::operator::{clone_strings, views};
use crate::order::{
    compare_keys, has_key, key_lt, keys_strictly_sorted, lemma_key_lt_asymmetric, lemma_key_lt_total,
    lemma_key_lt_irreflexive,
    lemma_key_lt_transitive, lemma_str_key_injective, sort_unique, sorted_unique_of,
    key_set, sorted_with_keys, str_key, SortKey,
};
use crate::text::{concat2, has_text, is_blank, owned, push_str, str_blank, str_eq, strings_contain};

verus! {

/// Entity `i` is the first with the identifier.
pub open spec fn first_entity(entities: Seq<ProjectEntity>, id: Seq<char>, i: int) -> bool {
    &&& 0 <= i < entities.len()
    &&& entities[i].id@ == id
    &&& forall|j: int| 0 <= j < i ==> (#[trigger] entities[j]).id@ != id
}

/// Relationship `i` is the first with the identifier.
pub open spec fn first_relationship(rels: Seq<ProjectRelationship>, id: Seq<char>, i: int) -> bool {
    &&& 0 <= i < rels.len()
    &&& rels[i].id@ == id
    &&& forall|j: int| 0 <= j < i ==> (#[trigger] rels[j]).id@ != id
}

/// The first entity with the identifier, if any, has the identity given.
pub open spec fn first_like(
    es: Seq<ProjectEntity>,
    id: Seq<char>,
    kind: EntityKind,
    name: Seq<char>,
    classification: InformationClassification,
    key: Seq<char>,
) -> bool {
    forall|i: int|
        #[trigger] first_entity(es, id, i) ==> es[i].kind == kind && es[i].name@ == name && es[i].classification
            == classification && es[i].semantic_key@ == key
}

/// The first relationship with the identifier, if any, has the kind,
/// endpoints and classification given.
pub open spec fn first_rel_like(
    rs: Seq<ProjectRelationship>,
    id: Seq<char>,
    kind: ProjectRelationshipKind,
    source: Seq<char>,
    target: Seq<char>,
    classification: InformationClassification,
) -> bool {
    forall|i: int|
        #[trigger] first_relationship(rs, id, i) ==> rs[i].kind == kind && rs[i].source@ == source && rs[i].target@
            == target && rs[i].classification == classification
}

/// Every identifier but `id` has the same first entity in both lists.
pub open spec fn firsts_kept_except(a: Seq<ProjectEntity>, b: Seq<ProjectEntity>, id: Seq<char>) -> bool {
    forall|x: Seq<char>, i: int|
        #![trigger first_entity(b, x, i)]
        #![trigger first_entity(a, x, i)]
        x != id ==> (first_entity(b, x, i) <==> first_entity(a, x, i)) && (first_entity(a, x, i) ==> b[i] == a[i])
}

/// Every identifier but `id` has the same first relationship in both lists.
pub open spec fn rel_firsts_kept_except(a: Seq<ProjectRelationship>, b: Seq<ProjectRelationship>, id: Seq<char>) -> bool {
    forall|x: Seq<char>, i: int|
        #![trigger first_relationship(b, x, i)]
        #![trigger first_relationship(a, x, i)]
        x != id ==> (first_relationship(b, x, i) <==> first_relationship(a, x, i)) && (first_relationship(a, x, i)
            ==> b[i] == a[i])
}

proof fn lemma_first_entity_exists(es: Seq<ProjectEntity>, id: Seq<char>, k: int)
    requires
        0 <= k < es.len(),
        es[k].id@ == id,
    ensures
        exists|i: int| first_entity(es, id, i),
    decreases k,
{
    if exists|j: int| 0 <= j < k && (#[trigger] es[j]).id@ == id {
        let j = choose|j: int| 0 <= j < k && (#[trigger] es[j]).id@ == id;
        lemma_first_entity_exists(es, id, j);
    } else {
        assert(first_entity(es, id, k));
    }
}

proof fn lemma_first_relationship_exists(rs: Seq<ProjectRelationship>, id: Seq<char>, k: int)
    requires
        0 <= k < rs.len(),
        rs[k].id@ == id,
    ensures
        exists|i: int| first_relationship(rs, id, i),
    decreases k,
{
    if exists|j: int| 0 <= j < k && (#[trigger] rs[j]).id@ == id {
        let j = choose|j: int| 0 <= j < k && (#[trigger] rs[j]).id@ == id;
        lemma_first_relationship_exists(rs, id, j);
    } else {
        assert(first_relationship(rs, id, k));
    }
}

/// What adding an entity does to the first entities: others keep theirs,
/// and on success the entity's identifier has its identity.
proof fn lemma_entity_firsts(a: Seq<ProjectEntity>, b: Seq<ProjectEntity>, e: ProjectEntity, ok: bool)
    requires
        (forall|k: int| 0 <= k < a.len() ==> (#[trigger] a[k]).id@ != e.id@) ==> ok && b == a.push(e),
        forall|i: int|
            first_entity(a, e.id@, i) ==> {
                &&& (ok <==> a[i].same_identity(&e))
                &&& ok ==> b == a.update(i, b[i]) && entity_merged(a[i], e, b[i])
                &&& !ok ==> b == a
            },
    ensures
        firsts_kept_except(a, b, e.id@),
        ok ==> first_like(b, e.id@, e.kind, e.name@, e.classification, e.semantic_key@),
        first_like(a, e.id@, e.kind, e.name@, e.classification, e.semantic_key@) ==> ok,
{
    if forall|k: int| 0 <= k < a.len() ==> (#[trigger] a[k]).id@ != e.id@ {
        assert forall|x: Seq<char>, i: int| x != e.id@ implies (first_entity(b, x, i) <==> first_entity(a, x, i)) && (
        first_entity(a, x, i) ==> b[i] == a[i]) by {
            if first_entity(b, x, i) {
                assert(i < a.len());
                assert forall|j: int| 0 <= j < i implies (#[trigger] a[j]).id@ != x by {
                    assert(b[j] == a[j]);
                }
            }
            if first_entity(a, x, i) {
                assert forall|j: int| 0 <= j < i implies (#[trigger] b[j]).id@ != x by {
                    assert(b[j] == a[j]);
                }
            }
        }
        assert forall|i: int| #[trigger] first_entity(b, e.id@, i) implies b[i].kind == e.kind && b[i].name@ == e.name@
            && b[i].classification == e.classification && b[i].semantic_key@ == e.semantic_key@ by {
            if i < a.len() {
                assert(b[i] == a[i]);
            }
        }
    } else {
        let k = choose|k: int| 0 <= k < a.len() && (#[trigger] a[k]).id@ == e.id@;
        lemma_first_entity_exists(a, e.id@, k);
        let i0 = choose|i: int| first_entity(a, e.id@, i);
        assert(ok ==> b == a.update(i0, b[i0]) && entity_merged(a[i0], e, b[i0]));
        assert(!ok ==> b == a);
        assert forall|x: Seq<char>, i: int| x != e.id@ implies (first_entity(b, x, i) <==> first_entity(a, x, i)) && (
        first_entity(a, x, i) ==> b[i] == a[i]) by {
            if ok {
                assert(b.len() == a.len());
                assert(b[i0].id@ == a[i0].id@);
                assert forall|j: int| 0 <= j < b.len() implies (#[trigger] b[j]).id@ == a[j].id@ by {
                    if j != i0 {
                        assert(b[j] == a[j]);
                    }
                }
                if first_entity(a, x, i) {
                    assert(i != i0);
                    assert(b[i] == a[i]);
                    assert forall|j: int| 0 <= j < i implies (#[trigger] b[j]).id@ != x by {
                        assert(b[j].id@ == a[j].id@);
                    }
                }
                if first_entity(b, x, i) {
                    assert(i != i0);
                    assert forall|j: int| 0 <= j < i implies (#[trigger] a[j]).id@ != x by {
                        assert(b[j].id@ == a[j].id@);
                    }
                }
            }
        }
        if ok {
            assert forall|i: int| #[trigger] first_entity(b, e.id@, i) implies b[i].kind == e.kind && b[i].name@ == e.name@
                && b[i].classification == e.classification && b[i].semantic_key@ == e.semantic_key@ by {
                assert forall|j: int| 0 <= j < b.len() implies (#[trigger] b[j]).id@ == a[j].id@ by {
                    if j != i0 {
                        assert(b[j] == a[j]);
                    }
                }
                if i < i0 {
                    assert(a[i].id@ != e.id@);
                } else if i > i0 {
                    assert(b[i0].id@ == e.id@);
                }
            }
        }
        if first_like(a, e.id@, e.kind, e.name@, e.classification, e.semantic_key@) {
            assert(a[i0].same_identity(&e));
        }
    }
}

/// What adding a relationship does to the first relationships: others keep
/// theirs, and on success its identifier has its kind, endpoints and
/// classification.
proof fn lemma_relationship_firsts(a: Seq<ProjectRelationship>, b: Seq<ProjectRelationship>, x0: ProjectRelationship, ok: bool)
    requires
        (forall|k: int| 0 <= k < a.len() ==> (#[trigger] a[k]).id@ != x0.id@) ==> ok && b == a.push(x0),
        forall|i: int|
            first_relationship(a, x0.id@, i) ==> {
                &&& (ok <==> relationship_mergeable(a[i], x0))
                &&& ok ==> b == a.update(i, b[i]) && relationship_merged(a[i], x0, b[i])
                &&& !ok ==> b == a
            },
    ensures
        rel_firsts_kept_except(a, b, x0.id@),
        ok ==> first_rel_like(b, x0.id@, x0.kind, x0.source@, x0.target@, x0.classification),
        first_rel_like(a, x0.id@, x0.kind, x0.source@, x0.target@, x0.classification) ==> ok,
{
    if forall|k: int| 0 <= k < a.len() ==> (#[trigger] a[k]).id@ != x0.id@ {
        assert forall|x: Seq<char>, i: int| x != x0.id@ implies (first_relationship(b, x, i) <==> first_relationship(a, x, i)) && (
        first_relationship(a, x, i) ==> b[i] == a[i]) by {
            if first_relationship(b, x, i) {
                assert(i < a.len());
                assert forall|j: int| 0 <= j < i implies (#[trigger] a[j]).id@ != x by {
                    assert(b[j] == a[j]);
                }
            }
            if first_relationship(a, x, i) {
                assert forall|j: int| 0 <= j < i implies (#[trigger] b[j]).id@ != x by {
                    assert(b[j] == a[j]);
                }
            }
        }
        assert forall|i: int| #[trigger] first_relationship(b, x0.id@, i) implies b[i].kind == x0.kind && b[i].source@ == x0.source@
            && b[i].target@ == x0.target@ && b[i].classification == x0.classification by {
            if i < a.len() {
                assert(b[i] == a[i]);
            }
        }
    } else {
        let k = choose|k: int| 0 <= k < a.len() && (#[trigger] a[k]).id@ == x0.id@;
        lemma_first_relationship_exists(a, x0.id@, k);
        let i0 = choose|i: int| first_relationship(a, x0.id@, i);
        assert(ok ==> b == a.update(i0, b[i0]) && relationship_merged(a[i0], x0, b[i0]));
        assert(!ok ==> b == a);
        assert forall|x: Seq<char>, i: int| x != x0.id@ implies (first_relationship(b, x, i) <==> first_relationship(a, x, i)) && (
        first_relationship(a, x, i) ==> b[i] == a[i]) by {
            if ok {
                assert(b.len() == a.len());
                assert(b[i0].id@ == a[i0].id@);
                assert forall|j: int| 0 <= j < b.len() implies (#[trigger] b[j]).id@ == a[j].id@ by {
                    if j != i0 {
                        assert(b[j] == a[j]);
                    }
                }
                if first_relationship(a, x, i) {
                    assert(i != i0);
                    assert(b[i] == a[i]);
                    assert forall|j: int| 0 <= j < i implies (#[trigger] b[j]).id@ != x by {
                        assert(b[j].id@ == a[j].id@);
                    }
                }
                if first_relationship(b, x, i) {
                    assert(i != i0);
                    assert forall|j: int| 0 <= j < i implies (#[trigger] a[j]).id@ != x by {
                        assert(b[j].id@ == a[j].id@);
                    }
                }
            }
        }
        if ok {
            assert forall|i: int| #[trigger] first_relationship(b, x0.id@, i) implies b[i].kind == x0.kind && b[i].source@ == x0.source@
                && b[i].target@ == x0.target@ && b[i].classification == x0.classification by {
                assert forall|j: int| 0 <= j < b.len() implies (#[trigger] b[j]).id@ == a[j].id@ by {
                    if j != i0 {
                        assert(b[j] == a[j]);
                    }
                }
                if i < i0 {
                    assert(a[i].id@ != x0.id@);
                } else if i > i0 {
                    assert(b[i0].id@ == x0.id@);
                }
            }
        }
        if first_rel_like(a, x0.id@, x0.kind, x0.source@, x0.target@, x0.classification) {
            assert(relationship_mergeable(a[i0], x0));
        }
    }
}

/// The higher of two confidences, by rank.
pub open spec fn stronger_rank(a: IntelligenceConfidence, b: IntelligenceConfidence) -> int {
    if a.rank() >= b.rank() {
        a.rank()
    } else {
        b.rank()
    }
}

/// `m` is entity `a` with the evidence of `b` merged in and the higher confidence.
pub open spec fn entity_merged(a: ProjectEntity, b: ProjectEntity, m: ProjectEntity) -> bool {
    &&& m.id == a.id
    &&& m.kind == a.kind
    &&& m.name == a.name
    &&& m.classification == a.classification
    &&& m.semantic_key == a.semantic_key
    &&& m.confidence.rank() == stronger_rank(a.confidence, b.confidence)
    &&& sorted_unique_of(m.evidence@, a.evidence@ + b.evidence@)
}

/// Two relationships of the same kind, endpoints and classification.
pub open spec fn relationship_mergeable(a: ProjectRelationship, b: ProjectRelationship) -> bool {
    &&& a.kind == b.kind
    &&& a.source@ == b.source@
    &&& a.target@ == b.target@
    &&& a.classification == b.classification
}

/// `m` is relationship `a` with the evidence of `b` merged in and the higher confidence.
pub open spec fn relationship_merged(a: ProjectRelationship, b: ProjectRelationship, m: ProjectRelationship) -> bool {
    &&& m.id == a.id
    &&& m.kind == a.kind
    &&& m.source == a.source
    &&& m.target == a.target
    &&& m.classification == a.classification
    &&& m.confidence.rank() == stronger_rank(a.confidence, b.confidence)
    &&& sorted_unique_of(m.evidence@, a.evidence@ + b.evidence@)
}

/// Every entity of `b` is one of `a` or has one of the identifiers.
#[verifier::opaque]
pub open spec fn entities_within(a: GraphBuilder, b: GraphBuilder, ids: Set<Seq<char>>) -> bool {
    forall|x: Seq<char>| #[trigger] b.has_entity(x) ==> a.has_entity(x) || ids.contains(x)
}

/// Every relationship of `b` is one of `a` or has one of the identifiers.
#[verifier::opaque]
pub open spec fn relationships_within(a: GraphBuilder, b: GraphBuilder, ids: Set<Seq<char>>) -> bool {
    forall|x: Seq<char>| #[trigger] b.has_relationship(x) ==> a.has_relationship(x) || ids.contains(x)
}

proof fn lemma_within_trans(a: GraphBuilder, b: GraphBuilder, c: GraphBuilder, s1: Set<Seq<char>>, s2: Set<Seq<char>>, r1: Set<Seq<char>>, r2: Set<Seq<char>>)
    requires
        entities_within(a, b, s1),
        entities_within(b, c, s2),
        relationships_within(a, b, r1),
        relationships_within(b, c, r2),
    ensures
        entities_within(a, c, s1 + s2),
        relationships_within(a, c, r1 + r2),
{
    reveal(entities_within);
    reveal(relationships_within);
}

proof fn lemma_within_refl(a: GraphBuilder, b: GraphBuilder)
    requires
        a.entities@ == b.entities@,
        a.relationships@ == b.relationships@,
    ensures
        entities_within(a, b, Set::empty()),
        relationships_within(a, b, Set::empty()),
{
    reveal(entities_within);
    reveal(relationships_within);
    lemma_same_entities(a, b);
    lemma_same_relationships(a, b);
}

proof fn lemma_within_weaken(a: GraphBuilder, b: GraphBuilder, s1: Set<Seq<char>>, s2: Set<Seq<char>>, r1: Set<Seq<char>>, r2: Set<Seq<char>>)
    requires
        entities_within(a, b, s1),
        relationships_within(a, b, r1),
        s1.subset_of(s2),
        r1.subset_of(r2),
    ensures
        entities_within(a, b, s2),
        relationships_within(a, b, r2),
{
    reveal(entities_within);
    reveal(relationships_within);
}

/// Every relationship's endpoints are entities of the graph.
pub open spec fn graph_closed(g: GraphBuilder) -> bool {
    forall|i: int|
        0 <= i < g.relationships@.len() ==> g.has_entity((#[trigger] g.relationships@[i]).source@) && g.has_entity(
            g.relationships@[i].target@,
        )
}

/// Some entity of the graph has the identifier, kind, name and
/// classification.
pub open spec fn entity_like(
    g: GraphBuilder,
    id: Seq<char>,
    kind: EntityKind,
    name: Seq<char>,
    classification: InformationClassification,
) -> bool {
    exists|k: int|
        0 <= k < g.entities@.len() && (#[trigger] g.entities@[k]).id@ == id && g.entities@[k].kind == kind
            && g.entities@[k].name@ == name && g.entities@[k].classification == classification
}

/// Every entity of `a` stands in `b` at its place with its identifier, kind,
/// name and classification.
pub open spec fn entities_kept(a: GraphBuilder, b: GraphBuilder) -> bool {
    &&& a.entities@.len() <= b.entities@.len()
    &&& forall|k: int|
        0 <= k < a.entities@.len() ==> (#[trigger] b.entities@[k]).id == a.entities@[k].id && b.entities@[k].kind
            == a.entities@[k].kind && b.entities@[k].name == a.entities@[k].name && b.entities@[k].classification
            == a.entities@[k].classification
}

proof fn lemma_like_kept(
    a: GraphBuilder,
    b: GraphBuilder,
    id: Seq<char>,
    kind: EntityKind,
    name: Seq<char>,
    classification: InformationClassification,
)
    requires
        entity_like(a, id, kind, name, classification),
        entities_kept(a, b),
    ensures
        entity_like(b, id, kind, name, classification),
{
    let k = choose|k: int|
        0 <= k < a.entities@.len() && (#[trigger] a.entities@[k]).id@ == id && a.entities@[k].kind == kind
            && a.entities@[k].name@ == name && a.entities@[k].classification == classification;
    assert(b.entities@[k].id == a.entities@[k].id);
}

proof fn lemma_kept_trans(a: GraphBuilder, b: GraphBuilder, c: GraphBuilder)
    requires
        entities_kept(a, b),
        entities_kept(b, c),
    ensures
        entities_kept(a, c),
{
    assert forall|k: int| 0 <= k < a.entities@.len() implies (#[trigger] c.entities@[k]).id == a.entities@[k].id
        && c.entities@[k].kind == a.entities@[k].kind && c.entities@[k].name == a.entities@[k].name
        && c.entities@[k].classification == a.entities@[k].classification by {
        assert(b.entities@[k].id == a.entities@[k].id);
    }
}

/// No two entities of the graph share an identifier.
pub open spec fn entity_ids_unique(g: GraphBuilder) -> bool {
    forall|i: int, j: int|
        0 <= i < j < g.entities@.len() ==> (#[trigger] g.entities@[i]).id@ != (#[trigger] g.entities@[j]).id@
}

/// Entities and relationships, one per identifier.
pub struct GraphBuilder {
    pub entities: Vec<ProjectEntity>,
    pub relationships: Vec<ProjectRelationship>,
}

impl GraphBuilder {
    pub open spec fn has_entity(&self, id: Seq<char>) -> bool {
        exists|i: int| 0 <= i < self.entities@.len() && #[trigger] self.entities@[i].id@ == id
    }

    pub open spec fn has_relationship(&self, id: Seq<char>) -> bool {
        exists|i: int| 0 <= i < self.relationships@.len() && #[trigger] self.relationships@[i].id@ == id
    }

    pub fn new() -> (r: Self)
        ensures
            r.entities@.len() == 0,
            r.relationships@.len() == 0,
    {
        GraphBuilder { entities: Vec::new(), relationships: Vec::new() }
    }

    fn find_entity(&self, id: &EntityId) -> (r: Option<usize>)
        ensures
            r matches Some(i) ==> first_entity(self.entities@, id@, i as int),
            r is None ==> !self.has_entity(id@),
    {
        let mut i: usize = 0;
        while i < self.entities.len()
            invariant
                i <= self.entities@.len(),
                forall|j: int| 0 <= j < i ==> (#[trigger] self.entities@[j]).id@ != id@,
            decreases self.entities@.len() - i,
        {
            if self.entities[i].id.same(id) {
                return Some(i);
            }
            i = i + 1;
        }
        None
    }

    fn find_relationship(&self, r: &ProjectRelationship) -> (res: Option<usize>)
        ensures
            res matches Some(i) ==> first_relationship(self.relationships@, r.id@, i as int),
            res is None ==> !self.has_relationship(r.id@),
    {
        let mut i: usize = 0;
        while i < self.relationships.len()
            invariant
                i <= self.relationships@.len(),
                forall|j: int| 0 <= j < i ==> (#[trigger] self.relationships@[j]).id@ != r.id@,
            decreases self.relationships@.len() - i,
        {
            if self.relationships[i].id.same(&r.id) {
                return Some(i);
            }
            i = i + 1;
        }
        None
    }

    /// Adds an entity, or merges its evidence into the entity with the same identifier.
    pub fn entity(&mut self, entity: ProjectEntity) -> (r: Result<EntityId, IntelligenceError>)
        ensures
            entity_ids_unique(*old(self)) ==> entity_ids_unique(*final(self)),
            entities_kept(*old(self), *final(self)),
            r is Ok ==> entity_like(*final(self), entity.id@, entity.kind, entity.name@, entity.classification),
            final(self).relationships@ == old(self).relationships@,
            r matches Ok(id) ==> id == entity.id,
            !old(self).has_entity(entity.id@) ==> r is Ok && final(self).entities@ == old(self).entities@.push(entity),
            forall|i: int|
                first_entity(old(self).entities@, entity.id@, i) ==> {
                    &&& (r is Ok <==> old(self).entities@[i].same_identity(&entity))
                    &&& r is Ok ==> final(self).entities@ == old(self).entities@.update(i, final(self).entities@[i])
                        && entity_merged(old(self).entities@[i], entity, final(self).entities@[i])
                    &&& r matches Err(e) ==> e matches IntelligenceError::DuplicateSemanticIdentity(m) && m@
                        == entity.id@ && final(self).entities@ == old(self).entities@
                },
            r is Ok ==> final(self).has_entity(entity.id@),
            graph_grows(*old(self), *final(self)),
            entities_within(*old(self), *final(self), set![entity.id@]),
            r is Err ==> final(self).entities@ == old(self).entities@,
            graph_closed(*old(self)) ==> graph_closed(*final(self)),
    {
        let id = entity.id.duplicate();
        match self.find_entity(&id) {
            Some(i) => {
                let mut existing = self.entities[i].duplicate();
                match existing.merge_evidence(&entity) {
                    Ok(()) => {},
                    Err(e) => {
                        proof {
                            lemma_within_refl(*old(self), *self);
                            lemma_within_weaken(*old(self), *self, Set::empty(), set![entity.id@], Set::empty(), Set::empty());
                        }
                        return Err(e);
                    },
                }
                let ghost before = self.entities@;
                self.entities.set(i, existing);
                proof {
                    assert(self.entities@[i as int].id@ == entity.id@);
                    assert forall|x: Seq<char>| #[trigger] old(self).has_entity(x) implies self.has_entity(x) by {
                        let k = choose|k: int| 0 <= k < before.len() && #[trigger] before[k].id@ == x;
                        assert(self.entities@[k].id@ == x);
                    }
                    assert forall|x: Seq<char>| #[trigger] old(self).has_relationship(x) implies self.has_relationship(x) by {
                        let k = choose|k: int| 0 <= k < self.relationships@.len() && #[trigger] self.relationships@[k].id@ == x;
                    }
                    reveal(entities_within);
                    assert(before == old(self).entities@);
                    assert forall|x: Seq<char>| #[trigger] self.has_entity(x) implies old(self).has_entity(x) || set![entity.id@].contains(x) by {
                        let k = choose|k: int| 0 <= k < self.entities@.len() && #[trigger] self.entities@[k].id@ == x;
                        if k != i {
                            assert(before[k] == self.entities@[k]);
                            assert(before[k].id@ == x);
                        } else {
                            assert(x == entity.id@);
                        }
                    }
                }
                Ok(id)
            },
            None => {
                let ghost before = self.entities@;
                self.entities.push(entity);
                proof {
                    assert(self.entities@[before.len() as int].id@ == entity.id@);
                    assert forall|x: Seq<char>| #[trigger] old(self).has_entity(x) implies self.has_entity(x) by {
                        let k = choose|k: int| 0 <= k < before.len() && #[trigger] before[k].id@ == x;
                        assert(self.entities@[k].id@ == x);
                    }
                    assert forall|x: Seq<char>| #[trigger] old(self).has_relationship(x) implies self.has_relationship(x) by {
                        let k = choose|k: int| 0 <= k < self.relationships@.len() && #[trigger] self.relationships@[k].id@ == x;
                    }
                    reveal(entities_within);
                    lemma_entity_pushed(*old(self), *self, entity);
                }
                Ok(id)
            },
        }
    }

    /// Adds a relationship, or merges its evidence into the one with the same identifier.
    pub fn relationship(&mut self, relationship: ProjectRelationship) -> (r: Result<(), IntelligenceError>)
        ensures
            final(self).entities@ == old(self).entities@,
            !old(self).has_relationship(relationship.id@) ==> r is Ok && final(self).relationships@
                == old(self).relationships@.push(relationship),
            forall|i: int|
                first_relationship(old(self).relationships@, relationship.id@, i) ==> {
                    &&& (r is Ok <==> relationship_mergeable(old(self).relationships@[i], relationship))
                    &&& r is Ok ==> final(self).relationships@ == old(self).relationships@.update(
                        i,
                        final(self).relationships@[i],
                    ) && relationship_merged(old(self).relationships@[i], relationship, final(self).relationships@[i])
                    &&& r matches Err(e) ==> e matches IntelligenceError::DuplicateSemanticIdentity(m) && m@
                        == relationship.id@ && final(self).relationships@ == old(self).relationships@
                },
            r is Ok ==> final(self).has_relationship(relationship.id@),
            graph_grows(*old(self), *final(self)),
            relationships_within(*old(self), *final(self), set![relationship.id@]),
            r is Err ==> final(self).relationships@ == old(self).relationships@,
            graph_closed(*old(self)) && old(self).has_entity(relationship.source@) && old(self).has_entity(
                relationship.target@,
            ) ==> graph_closed(*final(self)),
    {
        match self.find_relationship(&relationship) {
            Some(i) => {
                let mut existing = self.relationships[i].duplicate();
                match existing.merge_evidence(&relationship) {
                    Ok(()) => {},
                    Err(e) => {
                        proof {
                            lemma_within_refl(*old(self), *self);
                            lemma_within_weaken(*old(self), *self, Set::empty(), Set::empty(), Set::empty(), set![relationship.id@]);
                        }
                        return Err(e);
                    },
                }
                let ghost before = self.relationships@;
                self.relationships.set(i, existing);
                proof {
                    assert(self.relationships@[i as int].id@ == relationship.id@);
                    assert forall|x: Seq<char>| #[trigger] old(self).has_relationship(x) implies self.has_relationship(x) by {
                        let k = choose|k: int| 0 <= k < before.len() && #[trigger] before[k].id@ == x;
                        assert(self.relationships@[k].id@ == x);
                    }
                    assert forall|x: Seq<char>| #[trigger] old(self).has_entity(x) implies self.has_entity(x) by {
                        let k = choose|k: int| 0 <= k < self.entities@.len() && #[trigger] self.entities@[k].id@ == x;
                    }
                    reveal(relationships_within);
                    assert(before == old(self).relationships@);
                    assert forall|x: Seq<char>| #[trigger] self.has_relationship(x) implies old(self).has_relationship(x) || set![relationship.id@].contains(x) by {
                        let k = choose|k: int| 0 <= k < self.relationships@.len() && #[trigger] self.relationships@[k].id@ == x;
                        if k != i {
                            assert(before[k] == self.relationships@[k]);
                            assert(before[k].id@ == x);
                        } else {
                            assert(x == relationship.id@);
                        }
                    }
                }
                Ok(())
            },
            None => {
                let ghost before = self.relationships@;
                self.relationships.push(relationship);
                proof {
                    assert(self.relationships@[before.len() as int].id@ == relationship.id@);
                    assert forall|x: Seq<char>| #[trigger] old(self).has_relationship(x) implies self.has_relationship(x) by {
                        let k = choose|k: int| 0 <= k < before.len() && #[trigger] before[k].id@ == x;
                        assert(self.relationships@[k].id@ == x);
                    }
                    assert forall|x: Seq<char>| #[trigger] old(self).has_entity(x) implies self.has_entity(x) by {
                        let k = choose|k: int| 0 <= k < self.entities@.len() && #[trigger] self.entities@[k].id@ == x;
                    }
                    reveal(relationships_within);
                    lemma_relationship_pushed(*old(self), *self, relationship);
                }
                Ok(())
            },
        }
    }
}

/// Some action of the input has this identifier.
pub open spec fn action_known(input: ProjectIntelligenceInput, a: Seq<char>) -> bool {
    exists|i: int| 0 <= i < input.actions@.len() && #[trigger] input.actions@[i].id@ == a
}

pub open spec fn actions_valid(input: ProjectIntelligenceInput) -> bool {
    forall|i: int|
        0 <= i < input.actions@.len() ==> (#[trigger] input.actions@[i]).id@.len() > 0
            && input.actions@[i].evidence@.len() > 0
}

pub open spec fn claims_valid(input: ProjectIntelligenceInput) -> bool {
    forall|i: int|
        0 <= i < input.knowledge.claims@.len() ==> (#[trigger] input.knowledge.claims@[i]).id@.len()
            > 0 && input.knowledge.claims@[i].predicate@.len() > 0
}

/// Every action that a capability lists was discovered.
pub open spec fn discovered_known(input: ProjectIntelligenceInput) -> bool {
    forall|i: int|
        0 <= i < input.execution_capabilities.discovered_actions@.len() ==> action_known(
            input,
            (#[trigger] input.execution_capabilities.discovered_actions@[i])@,
        )
}

/// The actions named by the controlled, dry-run-only and unsupported lists, in that order.
pub open spec fn capability_actions(input: ProjectIntelligenceInput) -> Seq<String> {
    input.execution_capabilities.controlled_actions@ + input.execution_capabilities.dry_run_only_actions@
        + input.execution_capabilities.unsupported_actions@
}

pub open spec fn capabilities_discovered(input: ProjectIntelligenceInput) -> bool {
    forall|i: int|
        0 <= i < capability_actions(input).len() ==> has_text(
            input.execution_capabilities.discovered_actions@,
            (#[trigger] capability_actions(input)[i])@,
        )
}

pub open spec fn capabilities_disjoint(input: ProjectIntelligenceInput) -> bool {
    forall|i: int|
        0 <= i < input.execution_capabilities.controlled_actions@.len() ==> !has_text(
            input.execution_capabilities.dry_run_only_actions@,
            (#[trigger] input.execution_capabilities.controlled_actions@[i])@,
        )
}

/// The input the analyzer accepts.
pub open spec fn input_valid(input: ProjectIntelligenceInput) -> bool {
    &&& !is_blank(input.project.name@)
    &&& actions_valid(input)
    &&& claims_valid(input)
    &&& discovered_known(input)
    &&& capabilities_discovered(input)
    &&& capabilities_disjoint(input)
}

/// The error for an input that `input_valid` refuses: the first check that fails decides.
pub open spec fn validation_error(input: ProjectIntelligenceInput, e: IntelligenceError) -> bool {
    if is_blank(input.project.name@) {
        e matches IntelligenceError::InvalidInput(m) && m@ == "project name is required"@
    } else if !actions_valid(input) {
        e matches IntelligenceError::InvalidInput(m) && m@
            == "actions require an identifier and evidence"@
    } else if !claims_valid(input) {
        e matches IntelligenceError::InvalidInput(m) && m@
            == "knowledge claims require an identifier and predicate"@
    } else if !discovered_known(input) {
        e matches IntelligenceError::InconsistentCapability(m) && exists|a: Seq<char>|
            has_text(input.execution_capabilities.discovered_actions@, a) && !action_known(input, a)
                && m@ == "execution capability references undiscovered action "@ + a
    } else if !capabilities_discovered(input) {
        e matches IntelligenceError::InconsistentCapability(m) && exists|a: Seq<char>|
            has_text(capability_actions(input), a) && !has_text(
                input.execution_capabilities.discovered_actions@,
                a,
            ) && m@ == "capability action is not discovered: "@ + a
    } else {
        e matches IntelligenceError::InconsistentCapability(m) && m@
            == "an action cannot be controlled and dry-run-only"@
    }
}

fn action_ids_contain(actions: &Vec<ActionInput>, a: &str) -> (r: bool)
    ensures
        r == exists|i: int| 0 <= i < actions@.len() && #[trigger] actions@[i].id@ == a@,
{
    let mut i: usize = 0;
    while i < actions.len()
        invariant
            i <= actions@.len(),
            forall|j: int| 0 <= j < i ==> actions@[j].id@ != a@,
        decreases actions@.len() - i,
    {
        if str_eq(actions[i].id.as_str(), a) {
            return true;
        }
        i = i + 1;
    }
    false
}

/// The position of the first entry of `list` that `known` lacks.
fn first_unknown(list: &Vec<String>, known: &Vec<String>) -> (r: Option<usize>)
    ensures
        r is None ==> forall|j: int| 0 <= j < list@.len() ==> has_text(known@, (#[trigger] list@[j])@),
        r matches Some(k) ==> k < list@.len() && !has_text(known@, list@[k as int]@),
{
    let mut k: usize = 0;
    while k < list.len()
        invariant
            k <= list@.len(),
            forall|j: int| 0 <= j < k ==> has_text(known@, (#[trigger] list@[j])@),
        decreases list@.len() - k,
    {
        if !strings_contain(known, list[k].as_str()) {
            return Some(k);
        }
        k = k + 1;
    }
    None
}

/// Checks the input before anything is built.
pub fn validate_input(input: &ProjectIntelligenceInput) -> (r: Result<(), IntelligenceError>)
    ensures
        r is Ok <==> input_valid(*input),
        r matches Err(e) ==> validation_error(*input, e),
{
    if str_blank(input.project.name.as_str()) {
        return Err(IntelligenceError::InvalidInput(owned("project name is required")));
    }
    let mut i: usize = 0;
    while i < input.actions.len()
        invariant
            i <= input.actions@.len(),
            !is_blank(input.project.name@),
            forall|j: int|
                0 <= j < i ==> (#[trigger] input.actions@[j]).id@.len() > 0
                    && input.actions@[j].evidence@.len() > 0,
        decreases input.actions@.len() - i,
    {
        if input.actions[i].id.as_str().unicode_len() == 0 || input.actions[i].evidence.len() == 0 {
            assert(!actions_valid(*input)) by {
                let x = input.actions@[i as int];
            }
            return Err(
                IntelligenceError::InvalidInput(owned("actions require an identifier and evidence")),
            );
        }
        i = i + 1;
    }
    assert(actions_valid(*input));
    let claims = &input.knowledge.claims;
    let mut i: usize = 0;
    while i < claims.len()
        invariant
            i <= claims@.len(),
            claims@ == input.knowledge.claims@,
            !is_blank(input.project.name@),
            actions_valid(*input),
            forall|j: int|
                0 <= j < i ==> (#[trigger] claims@[j]).id@.len() > 0 && claims@[j].predicate@.len()
                    > 0,
        decreases claims@.len() - i,
    {
        if claims[i].id.as_str().unicode_len() == 0 || claims[i].predicate.as_str().unicode_len()
            == 0 {
            assert(!claims_valid(*input)) by {
                let x = input.knowledge.claims@[i as int];
            }
            return Err(
                IntelligenceError::InvalidInput(
                    owned("knowledge claims require an identifier and predicate"),
                ),
            );
        }
        i = i + 1;
    }
    assert(claims_valid(*input));
    let caps = &input.execution_capabilities;
    let mut i: usize = 0;
    while i < caps.discovered_actions.len()
        invariant
            i <= caps.discovered_actions@.len(),
            caps == &input.execution_capabilities,
            !is_blank(input.project.name@),
            actions_valid(*input),
            claims_valid(*input),
            forall|j: int|
                0 <= j < i ==> action_known(*input, (#[trigger] caps.discovered_actions@[j])@),
        decreases caps.discovered_actions@.len() - i,
    {
        if !action_ids_contain(&input.actions, caps.discovered_actions[i].as_str()) {
            let m = concat2(
                "execution capability references undiscovered action ",
                caps.discovered_actions[i].as_str(),
            );
            let ghost a = caps.discovered_actions@[i as int]@;
            assert(has_text(caps.discovered_actions@, a));
            assert(!discovered_known(*input));
            assert(has_text(input.execution_capabilities.discovered_actions@, a) && !action_known(*input, a)
                && m@ == "execution capability references undiscovered action "@ + a);
            return Err(IntelligenceError::InconsistentCapability(m));
        }
        i = i + 1;
    }
    assert(discovered_known(*input));
    let ghost all = capability_actions(*input);
    let ghost nc = caps.controlled_actions@.len();
    let ghost nd = caps.dry_run_only_actions@.len();
    assert(forall|j: int| 0 <= j < nc ==> all[j] == caps.controlled_actions@[j]);
    assert(forall|j: int| 0 <= j < nd ==> all[nc + j] == caps.dry_run_only_actions@[j]);
    assert(forall|j: int|
        0 <= j < caps.unsupported_actions@.len() ==> all[nc + nd + j]
            == caps.unsupported_actions@[j]);
    let lists: [&Vec<String>; 3] = [
        &caps.controlled_actions,
        &caps.dry_run_only_actions,
        &caps.unsupported_actions,
    ];
    let mut l: usize = 0;
    while l < 3
        invariant
            l <= 3,
            caps == &input.execution_capabilities,
            !is_blank(input.project.name@),
            actions_valid(*input),
            claims_valid(*input),
            discovered_known(*input),
            all == capability_actions(*input),
            nc == caps.controlled_actions@.len(),
            nd == caps.dry_run_only_actions@.len(),
            forall|j: int| 0 <= j < nc ==> all[j] == caps.controlled_actions@[j],
            forall|j: int| 0 <= j < nd ==> all[nc + j] == caps.dry_run_only_actions@[j],
            forall|j: int|
                0 <= j < caps.unsupported_actions@.len() ==> all[nc + nd + j]
                    == caps.unsupported_actions@[j],
            lists@[0]@ == caps.controlled_actions@,
            lists@[1]@ == caps.dry_run_only_actions@,
            lists@[2]@ == caps.unsupported_actions@,
            l >= 1 ==> forall|j: int|
                0 <= j < nc ==> has_text(caps.discovered_actions@, (#[trigger] all[j])@),
            l >= 2 ==> forall|j: int|
                nc <= j < nc + nd ==> has_text(caps.discovered_actions@, (#[trigger] all[j])@),
            l >= 3 ==> forall|j: int|
                nc + nd <= j < all.len() ==> has_text(caps.discovered_actions@, (#[trigger] all[j])@),
        decreases 3 - l,
    {
        let list = lists[l];
        match first_unknown(list, &caps.discovered_actions) {
            Some(k) => {
                let m = concat2("capability action is not discovered: ", list[k].as_str());
                let ghost a = list@[k as int]@;
                proof {
                    let idx = if l == 0 { k as int } else if l == 1 { nc + k } else { nc + nd + k };
                    assert(all[idx]@ == a);
                    assert(has_text(all, a));
                    assert(!capabilities_discovered(*input));
                }
                return Err(IntelligenceError::InconsistentCapability(m));
            },
            None => {
                proof {
                    if l == 0 {
                        assert forall|j: int| 0 <= j < nc implies has_text(caps.discovered_actions@, (#[trigger] all[j])@) by {
                            assert(all[j] == list@[j]);
                        }
                    } else if l == 1 {
                        assert forall|j: int| nc <= j < nc + nd implies has_text(caps.discovered_actions@, (#[trigger] all[j])@) by {
                            assert(all[j] == list@[j - nc]);
                        }
                    } else {
                        assert forall|j: int| nc + nd <= j < all.len() implies has_text(caps.discovered_actions@, (#[trigger] all[j])@) by {
                            assert(all[j] == list@[j - nc - nd]);
                        }
                    }
                }
            },
        }
        l = l + 1;
    }
    assert(capabilities_discovered(*input)) by {
        assert forall|j: int| 0 <= j < all.len() implies has_text(caps.discovered_actions@, (#[trigger] all[j])@) by {
            if j < nc {
            } else if j < nc + nd {
            } else {
            }
        }
    }
    let mut i: usize = 0;
    while i < caps.controlled_actions.len()
        invariant
            i <= caps.controlled_actions@.len(),
            caps == &input.execution_capabilities,
            !is_blank(input.project.name@),
            actions_valid(*input),
            claims_valid(*input),
            discovered_known(*input),
            capabilities_discovered(*input),
            forall|j: int|
                0 <= j < i ==> !has_text(
                    caps.dry_run_only_actions@,
                    (#[trigger] caps.controlled_actions@[j])@,
                ),
        decreases caps.controlled_actions@.len() - i,
    {
        if strings_contain(&caps.dry_run_only_actions, caps.controlled_actions[i].as_str()) {
            assert(!capabilities_disjoint(*input)) by {
                let x = caps.controlled_actions@[i as int];
            }
            return Err(
                IntelligenceError::InconsistentCapability(
                    owned("an action cannot be controlled and dry-run-only"),
                ),
            );
        }
        i = i + 1;
    }
    Ok(())
}

/// The distinct values of a list, in increasing order.
pub fn sorted_set(values: &Vec<String>) -> (r: Vec<String>)
    ensures
        sorted_unique_of(r@, values@),
{
    sort_unique(clone_strings(values))
}

/// `a:b`.
fn join2(a: &str, b: &str) -> (r: String)
    ensures
        r@ == a@ + ":"@ + b@,
{
    let mut r = owned(a);
    push_str(&mut r, ":");
    push_str(&mut r, b);
    r
}

/// `a:b:c`.
fn join3(a: &str, b: &str, c: &str) -> (r: String)
    ensures
        r@ == a@ + ":"@ + b@ + ":"@ + c@,
{
    let mut r = join2(a, b);
    push_str(&mut r, ":");
    push_str(&mut r, c);
    r
}

fn one_ref(e: IntelligenceEvidenceRef) -> (r: Vec<IntelligenceEvidenceRef>)
    ensures
        r@ == seq![e],
{
    let mut v = Vec::new();
    v.push(e);
    v
}

/// The identifier of the entity of a workspace package.
pub open spec fn package_entity_id(p: WorkspacePackageInput) -> Seq<char> {
    entity_id(
        EntityKind::Package,
        p.ecosystem@ + ":"@ + p.name@ + ":"@ + p.relative_path@,
        p.name@,
    )
}

/// The graph kept what it held: every entity and relationship identifier
/// of `a` is in `b`.
pub open spec fn graph_grows(a: GraphBuilder, b: GraphBuilder) -> bool {
    &&& forall|x: Seq<char>| #[trigger] a.has_entity(x) ==> b.has_entity(x)
    &&& forall|x: Seq<char>| #[trigger] a.has_relationship(x) ==> b.has_relationship(x)
}

proof fn lemma_grows_trans(a: GraphBuilder, b: GraphBuilder, c: GraphBuilder)
    requires
        graph_grows(a, b),
        graph_grows(b, c),
    ensures
        graph_grows(a, c),
{
    assert forall|x: Seq<char>| #[trigger] a.has_entity(x) implies c.has_entity(x) by {
        assert(b.has_entity(x));
    }
    assert forall|x: Seq<char>| #[trigger] a.has_relationship(x) implies c.has_relationship(x) by {
        assert(b.has_relationship(x));
    }
}

/// The identifier of the workspace entity of a workspace kind.
pub open spec fn workspace_entity_id(input: ProjectIntelligenceInput, kind: Seq<char>) -> Seq<char> {
    entity_id(EntityKind::Workspace, input.project.name@ + ":"@ + kind, kind)
}

proof fn lemma_least_unique(values: Seq<String>, a: Seq<char>, b: Seq<char>)
    requires
        least_text(values, a),
        least_text(values, b),
    ensures
        a == b,
{
    let i = choose|i: int| 0 <= i < values.len() && values[i]@ == a;
    let j = choose|j: int| 0 <= j < values.len() && values[j]@ == b;
    assert(!key_lt(str_key(values[i]@), str_key(b)));
    assert(!key_lt(str_key(values[j]@), str_key(a)));
    lemma_key_lt_total(str_key(a), str_key(b));
    if str_key(a) == str_key(b) {
        lemma_str_key_injective(a, b);
    }
}

/// The workspace entity of the least workspace kind.
pub open spec fn workspace_entities_set(input: ProjectIntelligenceInput) -> Set<Seq<char>> {
    Set::new(|x: Seq<char>| exists|k: Seq<char>| #[trigger] least_text(input.context.workspace_kinds@, k) && x == workspace_entity_id(input, k))
}

/// The containment of the workspace entity of the least workspace kind in the project.
pub open spec fn workspace_links_set(input: ProjectIntelligenceInput, project: Seq<char>) -> Set<Seq<char>> {
    Set::new(
        |x: Seq<char>|
            exists|k: Seq<char>|
                #[trigger] least_text(input.context.workspace_kinds@, k) && x == relationship_id(
                    ProjectRelationshipKind::Contains,
                    project,
                    workspace_entity_id(input, k),
                ),
    )
}

/// What adding the workspace of kind `k` to graph `a` gave: success where the
/// kind is named, the workspace is not the project, and neither the
/// workspace nor its containment is in the graph yet; on success, both are
/// in graph `b`, and the workspace is returned.
pub open spec fn workspace_built(
    input: ProjectIntelligenceInput,
    project: Seq<char>,
    a: GraphBuilder,
    b: GraphBuilder,
    k: Seq<char>,
    r: Result<Option<EntityId>, IntelligenceError>,
) -> bool {
    let w = workspace_entity_id(input, k);
    let rel = relationship_id(ProjectRelationshipKind::Contains, project, w);
    &&& (k.len() > 0 && project != w && !a.has_entity(w) && !a.has_relationship(rel)) ==> r is Ok
    &&& r is Ok ==> (r matches Ok(Some(id)) && id@ == w && b.has_entity(w) && b.has_relationship(rel))
}

/// Adds the workspace entity of the least workspace kind, contained in the
/// project; none where no kind is given.
fn build_workspace(
    graph: &mut GraphBuilder,
    input: &ProjectIntelligenceInput,
    project: &EntityId,
) -> (r: Result<Option<EntityId>, IntelligenceError>)
    ensures
        entity_ids_unique(*old(graph)) ==> entity_ids_unique(*final(graph)),
        r matches Ok(w) ==> (w is Some <==> input.context.workspace_kinds@.len() > 0),
        input.context.workspace_kinds@.len() > 0 ==> exists|k: Seq<char>| #[trigger] least_text(input.context.workspace_kinds@, k),
        input.context.workspace_kinds@.len() == 0 ==> (r matches Ok(None) && final(graph).entities@ == old(
            graph,
        ).entities@ && final(graph).relationships@ == old(graph).relationships@),
        forall|k: Seq<char>|
            #[trigger] least_text(input.context.workspace_kinds@, k) ==> workspace_built(
                *input,
                project@,
                *old(graph),
                *final(graph),
                k,
                r,
            ),
        r is Ok ==> graph_grows(*old(graph), *final(graph)),
        r is Ok ==> entities_within(*old(graph), *final(graph), workspace_entities_set(*input)),
        r is Ok ==> relationships_within(*old(graph), *final(graph), workspace_links_set(*input, project@)),
        r is Ok && graph_closed(*old(graph)) && old(graph).has_entity(project@) ==> graph_closed(*final(graph)),
{
    let kinds = sorted_set(&input.context.workspace_kinds);
    if kinds.len() == 0 {
        proof {
            if input.context.workspace_kinds@.len() > 0 {
                assert(has_key(kinds@, input.context.workspace_kinds@[0].sort_key()));
            }
            assert forall|k: Seq<char>| #[trigger] least_text(input.context.workspace_kinds@, k) implies false by {}
            lemma_within_start(*graph, workspace_entities_set(*input), workspace_links_set(*input, project@));
        }
        return Ok(None);
    }
    let ghost k0 = kinds@[0]@;
    proof {
        assert(input.context.workspace_kinds@.contains(kinds@[0]));
        lemma_first_is_least(kinds@, input.context.workspace_kinds@);
    }
    let r = add_workspace(graph, input, project, &kinds[0]);
    proof {
        assert forall|k: Seq<char>| #[trigger] least_text(input.context.workspace_kinds@, k) implies workspace_built(
            *input,
            project@,
            *old(graph),
            *graph,
            k,
            r,
        ) by {
            lemma_least_unique(input.context.workspace_kinds@, k, k0);
        }
        if r is Ok {
            let w = workspace_entity_id(*input, k0);
            assert(workspace_entities_set(*input).contains(w));
            assert(workspace_links_set(*input, project@).contains(relationship_id(ProjectRelationshipKind::Contains, project@, w)));
            lemma_within_weaken(
                *old(graph),
                *graph,
                set![w],
                workspace_entities_set(*input),
                set![relationship_id(ProjectRelationshipKind::Contains, project@, w)],
                workspace_links_set(*input, project@),
            );
        }
    }
    r
}

fn add_workspace(
    graph: &mut GraphBuilder,
    input: &ProjectIntelligenceInput,
    project: &EntityId,
    kind: &String,
) -> (r: Result<Option<EntityId>, IntelligenceError>)
    ensures
        entity_ids_unique(*old(graph)) ==> entity_ids_unique(*final(graph)),
        r matches Ok(w) ==> w is Some,
        workspace_built(*input, project@, *old(graph), *final(graph), kind@, r),
        r is Ok ==> graph_grows(*old(graph), *final(graph)),
        r is Ok ==> entities_within(*old(graph), *final(graph), set![workspace_entity_id(*input, kind@)]),
        r is Ok ==> relationships_within(
            *old(graph),
            *final(graph),
            set![relationship_id(ProjectRelationshipKind::Contains, project@, workspace_entity_id(*input, kind@))],
        ),
        r is Ok && graph_closed(*old(graph)) && old(graph).has_entity(project@) ==> graph_closed(*final(graph)),
{
    let ghost w = workspace_entity_id(*input, kind@);
    let ghost rel_id = relationship_id(ProjectRelationshipKind::Contains, project@, w);
    let key = join2(input.project.name.as_str(), kind.as_str());
    proof {
        reveal_strlit(":");
    }
    assert(key@.len() > 0);
    let entity = match ProjectEntity::new(
        EntityKind::Workspace,
        key,
        kind.clone(),
        InformationClassification::Observed,
        IntelligenceConfidence::Certain,
        one_ref(IntelligenceEvidenceRef::context(owned("workspace.kinds"))),
    ) {
        Ok(e) => e,
        Err(e) => {
            return Err(e);
        },
    };
    assert(entity.id@ == w);
    let ghost e0 = entity;
    let workspace = match graph.entity(entity) {
        Ok(id) => id,
        Err(e) => {
            return Err(e);
        },
    };
    let rel = match ProjectRelationship::new(
        ProjectRelationshipKind::Contains,
        project.duplicate(),
        workspace.duplicate(),
        InformationClassification::Observed,
        IntelligenceConfidence::Certain,
        one_ref(IntelligenceEvidenceRef::context(owned("workspace.kinds"))),
    ) {
        Ok(x) => x,
        Err(e) => {
            return Err(e);
        },
    };
    assert(rel.id@ == rel_id);
    let ghost g1 = *graph;
    assert(graph.has_entity(w));
    match graph.relationship(rel) {
        Ok(()) => {},
        Err(e) => {
            return Err(e);
        },
    }
    proof {
        lemma_grows_trans(*old(graph), g1, *graph);
        assert(graph.entities@ == g1.entities@);
        let k = choose|k: int| 0 <= k < g1.entities@.len() && #[trigger] g1.entities@[k].id@ == w;
        assert(graph.entities@[k].id@ == w);
        assert(relationships_within(*old(graph), g1, Set::empty())) by {
            reveal(relationships_within);
            lemma_same_relationships(g1, *old(graph));
        }
        assert(entities_within(g1, *graph, Set::empty())) by {
            reveal(entities_within);
            lemma_same_entities(*graph, g1);
        }
        lemma_within_trans(*old(graph), g1, *graph, set![w], Set::empty(), Set::empty(), set![rel_id]);
        lemma_within_weaken(*old(graph), *graph, set![w] + Set::empty(), set![w], Set::empty() + set![rel_id], set![rel_id]);
        if graph_closed(*old(graph)) && old(graph).has_entity(project@) {
            assert(g1.has_entity(project@));
        }
    }
    Ok(Some(workspace))
}

proof fn lemma_entity_pushed(a: GraphBuilder, b: GraphBuilder, e: ProjectEntity)
    requires
        b.entities@ == a.entities@.push(e),
    ensures
        forall|x: Seq<char>| #[trigger] b.has_entity(x) ==> a.has_entity(x) || x == e.id@,
{
    assert forall|x: Seq<char>| #[trigger] b.has_entity(x) implies a.has_entity(x) || x == e.id@ by {
        let k = choose|k: int| 0 <= k < b.entities@.len() && #[trigger] b.entities@[k].id@ == x;
        if k < a.entities@.len() {
            assert(a.entities@[k] == b.entities@[k]);
        }
    }
}

proof fn lemma_relationship_pushed(a: GraphBuilder, b: GraphBuilder, e: ProjectRelationship)
    requires
        b.relationships@ == a.relationships@.push(e),
    ensures
        forall|x: Seq<char>| #[trigger] b.has_relationship(x) ==> a.has_relationship(x) || x == e.id@,
{
    assert forall|x: Seq<char>| #[trigger] b.has_relationship(x) implies a.has_relationship(x) || x == e.id@ by {
        let k = choose|k: int| 0 <= k < b.relationships@.len() && #[trigger] b.relationships@[k].id@ == x;
        if k < a.relationships@.len() {
            assert(a.relationships@[k] == b.relationships@[k]);
        }
    }
}

proof fn lemma_same_relationships(a: GraphBuilder, b: GraphBuilder)
    requires
        b.relationships@ == a.relationships@,
    ensures
        forall|x: Seq<char>| #[trigger] b.has_relationship(x) ==> a.has_relationship(x),
{
    assert forall|x: Seq<char>| #[trigger] b.has_relationship(x) implies a.has_relationship(x) by {
        let k = choose|k: int| 0 <= k < b.relationships@.len() && #[trigger] b.relationships@[k].id@ == x;
        assert(a.relationships@[k].id@ == x);
    }
}

proof fn lemma_same_entities(a: GraphBuilder, b: GraphBuilder)
    requires
        b.entities@ == a.entities@,
    ensures
        forall|x: Seq<char>| #[trigger] b.has_entity(x) ==> a.has_entity(x),
{
    assert forall|x: Seq<char>| #[trigger] b.has_entity(x) implies a.has_entity(x) by {
        let k = choose|k: int| 0 <= k < b.entities@.len() && #[trigger] b.entities@[k].id@ == x;
        assert(a.entities@[k].id@ == x);
    }
}

/// Adds an entity and links it with one relationship. Where the entity and
/// the relationship are valid and new to the graph, both are appended.
proof fn lemma_link_final(
    g0: GraphBuilder,
    g1: GraphBuilder,
    g2: GraphBuilder,
    e0: ProjectEntity,
    x0: ProjectRelationship,
    id: EntityId,
    other: Seq<char>,
    rid: Seq<char>,
)
    requires
        id == e0.id,
        x0.id@ == rid,
        (x0.source@ == id@ && x0.target@ == other) || (x0.source@ == other && x0.target@ == id@),
        g1.has_entity(id@),
        graph_grows(g0, g1),
        graph_grows(g1, g2),
        g2.entities@ == g1.entities@,
        g2.has_relationship(rid),
        entities_within(g0, g1, set![e0.id@]),
        relationships_within(g0, g1, Set::empty()),
        relationships_within(g1, g2, set![rid]),
        g1.relationships@ == g0.relationships@,
        graph_closed(g0) ==> graph_closed(g1),
        graph_closed(g1) && g1.has_entity(x0.source@) && g1.has_entity(x0.target@) ==> graph_closed(g2),
        !g0.has_entity(e0.id@) ==> g1.entities@ == g0.entities@.push(e0),
        !g1.has_relationship(x0.id@) ==> g2.relationships@ == g1.relationships@.push(x0),
    ensures
        g2.has_entity(id@),
        graph_grows(g0, g2),
        entities_within(g0, g2, set![e0.id@]),
        relationships_within(g0, g2, set![rid]),
        graph_closed(g0) && g0.has_entity(other) ==> graph_closed(g2),
        (!g0.has_entity(e0.id@) && !g0.has_relationship(rid)) ==> {
            &&& forall|x: Seq<char>| #[trigger] g2.has_entity(x) ==> g0.has_entity(x) || x == e0.id@
            &&& forall|x: Seq<char>| #[trigger] g2.has_relationship(x) ==> g0.has_relationship(x) || x == rid
        },
{
    lemma_grows_trans(g0, g1, g2);
    lemma_same_entities(g1, g2);
    lemma_same_entities(g2, g1);
    assert(entities_within(g1, g2, Set::empty())) by {
        reveal(entities_within);
    }
    lemma_within_trans(g0, g1, g2, set![e0.id@], Set::empty(), Set::empty(), set![rid]);
    lemma_within_weaken(g0, g2, set![e0.id@] + Set::empty(), set![e0.id@], Set::empty() + set![rid], set![rid]);
    if graph_closed(g0) && g0.has_entity(other) {
        assert(g1.has_entity(other));
    }
    if !g0.has_entity(e0.id@) && !g0.has_relationship(rid) {
        lemma_entity_pushed(g0, g1, e0);
        lemma_same_relationships(g0, g1);
        assert(!g1.has_relationship(rid));
        lemma_relationship_pushed(g1, g2, x0);
    }
}

/// The link's identifier, from the entity to the other end or back.
pub open spec fn linked_id(kind: ProjectRelationshipKind, id: Seq<char>, other: Seq<char>, from_entity: bool) -> Seq<char> {
    if from_entity {
        relationship_id(kind, id, other)
    } else {
        relationship_id(kind, other, id)
    }
}

/// The link's source: `a` when it goes from the entity, else `b`.
pub open spec fn linked_source(a: Seq<char>, b: Seq<char>, from_entity: bool) -> Seq<char> {
    if from_entity {
        a
    } else {
        b
    }
}

fn add_linked(
    graph: &mut GraphBuilder,
    entity: Result<ProjectEntity, IntelligenceError>,
    kind: ProjectRelationshipKind,
    other: &EntityId,
    from_entity: bool,
    classification: InformationClassification,
    confidence: IntelligenceConfidence,
    evidence: Vec<IntelligenceEvidenceRef>,
) -> (r: Result<EntityId, IntelligenceError>)
    ensures
        entities_kept(*old(graph), *final(graph)),
        r is Ok ==> (entity matches Ok(e) && entity_like(*final(graph), e.id@, e.kind, e.name@, e.classification)),
        entity_ids_unique(*old(graph)) ==> entity_ids_unique(*final(graph)),
        r matches Ok(id) ==> entity matches Ok(e) && id == e.id,
        r is Ok ==> {
            let id = r->Ok_0@;
            let rel = if from_entity {
                relationship_id(kind, id, other@)
            } else {
                relationship_id(kind, other@, id)
            };
            &&& final(graph).has_entity(id)
            &&& final(graph).has_relationship(rel)
            &&& graph_grows(*old(graph), *final(graph))
        },
        entity is Err ==> final(graph).entities@ == old(graph).entities@ && final(graph).relationships@ == old(
            graph,
        ).relationships@,
        entity matches Ok(e) ==> entities_within(*old(graph), *final(graph), set![e.id@]),
        entity matches Ok(e) ==> relationships_within(
            *old(graph),
            *final(graph),
            set![if from_entity {
                relationship_id(kind, e.id@, other@)
            } else {
                relationship_id(kind, other@, e.id@)
            }],
        ),
        r is Ok && graph_closed(*old(graph)) && old(graph).has_entity(other@) ==> graph_closed(*final(graph)),
        entity matches Ok(e) ==> firsts_kept_except(old(graph).entities@, final(graph).entities@, e.id@),
        entity matches Ok(e) ==> rel_firsts_kept_except(
            old(graph).relationships@,
            final(graph).relationships@,
            linked_id(kind, e.id@, other@, from_entity),
        ),
        r is Ok ==> (entity matches Ok(e) && first_like(final(graph).entities@, e.id@, e.kind, e.name@, e.classification, e.semantic_key@)
            && first_rel_like(
            final(graph).relationships@,
            linked_id(kind, e.id@, other@, from_entity),
            kind,
            linked_source(e.id@, other@, from_entity),
            linked_source(other@, e.id@, from_entity),
            classification,
        )),
        entity matches Ok(e) ==> (other@ != e.id@ && evidence@.len() > 0 && first_like(
            old(graph).entities@,
            e.id@,
            e.kind,
            e.name@,
            e.classification,
            e.semantic_key@,
        ) && first_rel_like(
            old(graph).relationships@,
            linked_id(kind, e.id@, other@, from_entity),
            kind,
            linked_source(e.id@, other@, from_entity),
            linked_source(other@, e.id@, from_entity),
            classification,
        )) ==> r is Ok,
        entity matches Ok(e) ==> {
            let rel = if from_entity {
                relationship_id(kind, e.id@, other@)
            } else {
                relationship_id(kind, other@, e.id@)
            };
            (other@ != e.id@ && evidence@.len() > 0 && !old(graph).has_entity(e.id@) && !old(
                graph,
            ).has_relationship(rel)) ==> {
                &&& r is Ok
                &&& forall|x: Seq<char>| #[trigger] final(graph).has_entity(x) ==> old(graph).has_entity(x) || x == e.id@
                &&& forall|x: Seq<char>| #[trigger] final(graph).has_relationship(x) ==> old(graph).has_relationship(x) || x == rel
            }
        },
{
    let entity = match entity {
        Ok(e) => e,
        Err(e) => {
            return Err(e);
        },
    };
    let ghost e0 = entity;
    let ghost rid = if from_entity {
        relationship_id(kind, e0.id@, other@)
    } else {
        relationship_id(kind, other@, e0.id@)
    };
    let added = graph.entity(entity);
    proof {
        lemma_entity_firsts(old(graph).entities@, graph.entities@, e0, added is Ok);
    }
    let id = match added {
        Ok(id) => id,
        Err(e) => {
            proof {
                lemma_within_refl(*old(graph), *graph);
                lemma_within_weaken(*old(graph), *graph, Set::empty(), set![e0.id@], Set::empty(), set![rid]);
            }
            return Err(e);
        },
    };
    let ghost g1 = *graph;
    proof {
        assert(graph.relationships@ == old(graph).relationships@);
        lemma_same_relationships(*old(graph), g1);
        lemma_within_refl(*old(graph), *old(graph));
        assert(relationships_within(*old(graph), g1, Set::empty())) by {
            reveal(relationships_within);
        }
    }
    let rel = if from_entity {
        ProjectRelationship::new(kind, id.duplicate(), other.duplicate(), classification, confidence, evidence)
    } else {
        ProjectRelationship::new(kind, other.duplicate(), id.duplicate(), classification, confidence, evidence)
    };
    let rel = match rel {
        Ok(x) => x,
        Err(e) => {
            proof {
                lemma_within_weaken(*old(graph), *graph, set![e0.id@], set![e0.id@], Set::empty(), set![rid]);
            }
            return Err(e);
        },
    };
    let ghost x0 = rel;
    assert(x0.id@ == rid);
    let linked = graph.relationship(rel);
    proof {
        lemma_relationship_firsts(g1.relationships@, graph.relationships@, x0, linked is Ok);
    }
    match linked {
        Ok(()) => {},
        Err(e) => {
            proof {
                lemma_within_refl(g1, *graph);
                lemma_within_trans(*old(graph), g1, *graph, set![e0.id@], Set::empty(), Set::empty(), Set::empty());
                lemma_within_weaken(*old(graph), *graph, set![e0.id@] + Set::empty(), set![e0.id@], Set::empty() + Set::empty(), set![rid]);
            }
            return Err(e);
        },
    }
    proof {
        lemma_link_final(*old(graph), g1, *graph, e0, x0, id, other@, rid);
    }
    Ok(id)
}

/// Some package of the list has this entity identifier.
pub open spec fn from_some_package(id: Seq<char>, packages: Seq<WorkspacePackageInput>) -> bool {
    exists|j: int| 0 <= j < packages.len() && package_entity_id(#[trigger] packages[j]) == id
}

/// The package's entity identifier is in the list.
pub open spec fn package_listed(ids: Seq<EntityId>, p: WorkspacePackageInput) -> bool {
    exists|i: int| 0 <= i < ids.len() && (#[trigger] ids[i])@ == package_entity_id(p)
}

proof fn lemma_package_ids(r: Seq<EntityId>, all: Seq<EntityId>, packages: Seq<WorkspacePackageInput>)
    requires
        sorted_unique_of(r, all),
        all.len() == packages.len(),
        forall|k: int| 0 <= k < all.len() ==> (#[trigger] all[k])@ == package_entity_id(packages[k]),
    ensures
        forall|i: int| 0 <= i < r.len() ==> from_some_package(#[trigger] r[i]@, packages),
        forall|j: int| 0 <= j < packages.len() ==> package_listed(r, #[trigger] packages[j]),
{
    assert forall|i: int| 0 <= i < r.len() implies from_some_package(#[trigger] r[i]@, packages) by {
        assert(all.contains(r[i]));
        let k = choose|k: int| 0 <= k < all.len() && all[k] == r[i];
        assert(all[k]@ == package_entity_id(packages[k]));
    }
    assert forall|j: int| 0 <= j < packages.len() implies package_listed(r, #[trigger] packages[j]) by {
        assert(has_key(r, all[j].sort_key()));
        let i = choose|i: int| 0 <= i < r.len() && #[trigger] r[i].sort_key() == all[j].sort_key();
        lemma_str_key_injective(r[i]@, all[j]@);
        assert(all[j]@ == package_entity_id(packages[j]));
    }
}

/// The containment of a package's entity in the workspace entity `w`.
pub open spec fn package_link_id(w: Seq<char>, p: WorkspacePackageInput) -> Seq<char> {
    relationship_id(ProjectRelationshipKind::Contains, w, package_entity_id(p))
}

/// The package's semantic key: its ecosystem, name and path.
pub open spec fn package_key(p: WorkspacePackageInput) -> Seq<char> {
    p.ecosystem@ + ":"@ + p.name@ + ":"@ + p.relative_path@
}

/// Two packages of the same ecosystem, name and path: the same package,
/// whose entries are merged.
pub open spec fn same_package(a: WorkspacePackageInput, b: WorkspacePackageInput) -> bool {
    &&& a.ecosystem@ == b.ecosystem@
    &&& a.name@ == b.name@
    &&& a.relative_path@ == b.relative_path@
}

/// The first entity with the package's identifier, if any, is the package's,
/// and so is the first containment in the workspace with its link's identifier.
pub open spec fn package_slot_ok(g: GraphBuilder, p: WorkspacePackageInput, workspace: Option<EntityId>) -> bool {
    &&& first_like(
        g.entities@,
        package_entity_id(p),
        EntityKind::Package,
        p.name@,
        InformationClassification::Observed,
        package_key(p),
    )
    &&& workspace matches Some(w) ==> first_rel_like(
        g.relationships@,
        package_link_id(w@, p),
        ProjectRelationshipKind::Contains,
        w@,
        package_entity_id(p),
        InformationClassification::Observed,
    )
}

/// Adding package `j` keeps every package's slot: its own identifiers now
/// hold its entity and link, and the others' are untouched.
proof fn lemma_package_slots(
    start: GraphBuilder,
    g0: GraphBuilder,
    g: GraphBuilder,
    pkgs: Seq<WorkspacePackageInput>,
    j: int,
    ws: Option<EntityId>,
)
    requires
        0 <= j < pkgs.len(),
        packages_fresh(start, pkgs, ws),
        forall|k: int| 0 <= k < pkgs.len() ==> package_slot_ok(g0, #[trigger] pkgs[k], ws),
        firsts_kept_except(g0.entities@, g.entities@, package_entity_id(pkgs[j])),
        first_like(
            g.entities@,
            package_entity_id(pkgs[j]),
            EntityKind::Package,
            pkgs[j].name@,
            InformationClassification::Observed,
            package_key(pkgs[j]),
        ),
        ws matches Some(w) ==> rel_firsts_kept_except(g0.relationships@, g.relationships@, package_link_id(w@, pkgs[j]))
            && first_rel_like(
            g.relationships@,
            package_link_id(w@, pkgs[j]),
            ProjectRelationshipKind::Contains,
            w@,
            package_entity_id(pkgs[j]),
            InformationClassification::Observed,
        ),
        ws is None ==> g.relationships@ == g0.relationships@,
    ensures
        forall|k: int| 0 <= k < pkgs.len() ==> package_slot_ok(g, #[trigger] pkgs[k], ws),
{
    let pj = pkgs[j];
    assert forall|k: int| 0 <= k < pkgs.len() implies package_slot_ok(g, #[trigger] pkgs[k], ws) by {
        let pk = pkgs[k];
        assert(package_slot_ok(g0, pk, ws));
        if k < j {
            assert(same_package(pk, pj) || {
                &&& package_entity_id(pk) != package_entity_id(pj)
                &&& (ws matches Some(w) ==> package_link_id(w@, pk) != package_link_id(w@, pj))
            });
        } else if k > j {
            assert(same_package(pj, pk) || {
                &&& package_entity_id(pj) != package_entity_id(pk)
                &&& (ws matches Some(w) ==> package_link_id(w@, pj) != package_link_id(w@, pk))
            });
        }
        if package_entity_id(pk) != package_entity_id(pj) {
            let x = package_entity_id(pk);
            assert forall|i: int| #[trigger] first_entity(g.entities@, x, i) implies g.entities@[i].kind == EntityKind::Package
                && g.entities@[i].name@ == pk.name@ && g.entities@[i].classification == InformationClassification::Observed
                && g.entities@[i].semantic_key@ == package_key(pk) by {
                assert(first_entity(g0.entities@, x, i));
                assert(g.entities@[i] == g0.entities@[i]);
            }
        }
        if let Some(w) = ws {
            if package_link_id(w@, pk) != package_link_id(w@, pj) {
                let x = package_link_id(w@, pk);
                assert forall|i: int| #[trigger] first_relationship(g.relationships@, x, i) implies g.relationships@[i].kind
                    == ProjectRelationshipKind::Contains && g.relationships@[i].source@ == w@ && g.relationships@[i].target@
                    == package_entity_id(pk) && g.relationships@[i].classification == InformationClassification::Observed by {
                    assert(first_relationship(g0.relationships@, x, i));
                    assert(g.relationships@[i] == g0.relationships@[i]);
                }
            }
        }
    }
}

/// Every package is named; no package's entity, nor its containment in the
/// workspace, is in the graph; and two packages share neither unless they
/// are the same package.
pub open spec fn packages_fresh(g: GraphBuilder, packages: Seq<WorkspacePackageInput>, workspace: Option<EntityId>) -> bool {
    &&& forall|i: int|
        0 <= i < packages.len() ==> {
            &&& (#[trigger] packages[i]).name@.len() > 0
            &&& !g.has_entity(package_entity_id(packages[i]))
            &&& (workspace matches Some(w) ==> (w@ != package_entity_id(packages[i]) && !g.has_relationship(
                package_link_id(w@, packages[i]),
            )))
        }
    &&& forall|i: int, j: int|
        0 <= i < j < packages.len() ==> same_package(#[trigger] packages[i], #[trigger] packages[j]) || {
            &&& package_entity_id(packages[i]) != package_entity_id(packages[j])
            &&& (workspace matches Some(w) ==> package_link_id(w@, packages[i]) != package_link_id(w@, packages[j]))
        }
}

/// The entity identifiers of the packages.
pub open spec fn package_entities_set(packages: Seq<WorkspacePackageInput>) -> Set<Seq<char>> {
    Set::new(|x: Seq<char>| exists|j: int| 0 <= j < packages.len() && x == package_entity_id(#[trigger] packages[j]))
}

/// The containments of the packages in the workspace, where there is one.
pub open spec fn package_links_set(packages: Seq<WorkspacePackageInput>, workspace: Option<EntityId>) -> Set<Seq<char>> {
    match workspace {
        Some(w) => Set::new(|x: Seq<char>| exists|j: int| 0 <= j < packages.len() && x == package_link_id(w@, #[trigger] packages[j])),
        None => Set::empty(),
    }
}

/// The graph is closed and holds the workspace entity where there is one.
pub open spec fn packages_closed_pre(g: GraphBuilder, workspace: Option<EntityId>) -> bool {
    &&& graph_closed(g)
    &&& (workspace matches Some(w) ==> g.has_entity(w@))
}

/// The package's entity, and its containment in the workspace where there is
/// one, are in the graph.
pub open spec fn package_present(g: GraphBuilder, p: WorkspacePackageInput, workspace: Option<EntityId>) -> bool {
    &&& g.has_entity(package_entity_id(p))
    &&& (workspace matches Some(w) ==> g.has_relationship(package_link_id(w@, p)))
}

/// Adds an entity per package, contained in the workspace where there is
/// one, and returns the package entities in order.
#[verifier::rlimit(40)]
fn build_packages(
    graph: &mut GraphBuilder,
    context: &ProjectContextInput,
    workspace: &Option<EntityId>,
) -> (r: Result<Vec<EntityId>, IntelligenceError>)
    ensures
        entity_ids_unique(*old(graph)) ==> entity_ids_unique(*final(graph)),
        r matches Ok(ids) ==> {
            &&& keys_strictly_sorted(ids@)
            &&& forall|i: int|
                0 <= i < ids@.len() ==> from_some_package(#[trigger] ids@[i]@, context.packages@)
            &&& forall|j: int|
                0 <= j < context.packages@.len() ==> package_listed(ids@, #[trigger] context.packages@[j])
        },
        packages_fresh(*old(graph), context.packages@, *workspace) ==> r is Ok,
        r is Ok ==> graph_grows(*old(graph), *final(graph)),
        r is Ok ==> entities_within(*old(graph), *final(graph), package_entities_set(context.packages@)),
        r is Ok ==> relationships_within(*old(graph), *final(graph), package_links_set(context.packages@, *workspace)),
        r is Ok && packages_closed_pre(*old(graph), *workspace) ==> graph_closed(*final(graph)),
        r is Ok ==> forall|j: int|
            0 <= j < context.packages@.len() ==> package_present(*final(graph), #[trigger] context.packages@[j], *workspace),
{
    let ghost fresh = packages_fresh(*old(graph), context.packages@, *workspace);
    proof {
        lemma_within_start(*graph, package_entities_set(context.packages@), package_links_set(context.packages@, *workspace));
    }
    let mut ids: Vec<EntityId> = Vec::new();
    let mut j: usize = 0;
    while j < context.packages.len()
        invariant
            entity_ids_unique(*old(graph)) ==> entity_ids_unique(*graph),
            j <= context.packages@.len(),
            ids@.len() == j,
            forall|k: int|
                0 <= k < j ==> (#[trigger] ids@[k])@ == package_entity_id(context.packages@[k]),
            fresh == packages_fresh(*old(graph), context.packages@, *workspace),
            entities_within(*old(graph), *graph, package_entities_set(context.packages@)),
            relationships_within(*old(graph), *graph, package_links_set(context.packages@, *workspace)),
            packages_closed_pre(*old(graph), *workspace) ==> graph_closed(*graph),
            graph_grows(*old(graph), *graph),
            forall|k: int| 0 <= k < j ==> package_present(*graph, #[trigger] context.packages@[k], *workspace),
            fresh ==> forall|k: int| 0 <= k < context.packages@.len() ==> package_slot_ok(*graph, #[trigger] context.packages@[k], *workspace),
        decreases context.packages@.len() - j,
    {
        let package = &context.packages[j];
        let ghost g0 = *graph;
        let evidence = if package.evidence.len() == 0 {
            one_ref(IntelligenceEvidenceRef::ContextPackage { package: package.name.clone() })
        } else {
            clone_evidence(&package.evidence)
        };
        let key = join3(package.ecosystem.as_str(), package.name.as_str(), package.relative_path.as_str());
        proof {
            reveal_strlit(":");
        }
        let entity = ProjectEntity::new(
            EntityKind::Package,
            key,
            package.name.clone(),
            InformationClassification::Observed,
            package.confidence,
            clone_evidence(&evidence),
        );
        let id = match workspace {
            Some(w) => {
                match add_linked(
                    graph,
                    entity,
                    ProjectRelationshipKind::Contains,
                    w,
                    false,
                    InformationClassification::Observed,
                    package.confidence,
                    evidence,
                ) {
                    Ok(id) => id,
                    Err(e) => {
                        return Err(e);
                    },
                }
            },
            None => {
                let entity = match entity {
                    Ok(e) => e,
                    Err(e) => {
                        return Err(e);
                    },
                };
                let ghost e0 = entity;
                let added = graph.entity(entity);
                proof {
                    lemma_entity_firsts(g0.entities@, graph.entities@, e0, added is Ok);
                }
                match added {
                    Ok(id) => {
                        proof {
                            assert(id@ == e0.id@);
                            if !g0.has_entity(e0.id@) {
                                lemma_entity_pushed(g0, *graph, e0);
                            }
                            lemma_same_relationships(g0, *graph);
                        }
                        id
                    },
                    Err(e) => {
                        return Err(e);
                    },
                }
            },
        };
        proof {
            lemma_grows_trans(*old(graph), g0, *graph);
            assert(id@ == package_entity_id(context.packages@[j as int]));
            assert(package_entities_set(context.packages@).contains(id@));
            match workspace {
                Some(w) => {
                    assert(package_links_set(context.packages@, *workspace).contains(package_link_id(w@, context.packages@[j as int])));
                    lemma_within_step(*old(graph), g0, *graph, package_entities_set(context.packages@), package_links_set(context.packages@, *workspace), id@, package_link_id(w@, context.packages@[j as int]));
                    if packages_closed_pre(*old(graph), *workspace) {
                        assert(g0.has_entity(w@));
                    }
                },
                None => {
                    assert(relationships_within(g0, *graph, Set::empty())) by {
                        reveal(relationships_within);
                        lemma_same_relationships(*graph, g0);
                    }
                    lemma_within_trans(*old(graph), g0, *graph, package_entities_set(context.packages@), set![id@], package_links_set(context.packages@, *workspace), Set::empty());
                    lemma_within_weaken(*old(graph), *graph, package_entities_set(context.packages@) + set![id@], package_entities_set(context.packages@), package_links_set(context.packages@, *workspace) + Set::empty(), package_links_set(context.packages@, *workspace));
                },
            }
            assert forall|k: int| 0 <= k < j + 1 implies package_present(*graph, #[trigger] context.packages@[k], *workspace) by {
                if k < j {
                    assert(package_present(g0, context.packages@[k], *workspace));
                }
            }
            if fresh {
                lemma_package_slots(*old(graph), g0, *graph, context.packages@, j as int, *workspace);
            }
        }
        ids.push(id);
        j = j + 1;
    }
    let ghost all = ids@;
    let r = sort_unique(ids);
    proof {
        lemma_package_ids(r@, all, context.packages@);
    }
    Ok(r)
}

/// The identifier of the entity named by a value.
pub open spec fn named_entity_id(kind: EntityKind, value: Seq<char>) -> Seq<char> {
    entity_id(kind, value, value)
}

/// Every value is named, none names the project or an entity or link the
/// graph holds, and different values give different identifiers.
pub open spec fn named_fresh(
    g: GraphBuilder,
    values: Seq<String>,
    kind: EntityKind,
    relationship_kind: ProjectRelationshipKind,
    project: Seq<char>,
) -> bool {
    &&& forall|i: int|
        0 <= i < values.len() ==> {
            let e = named_entity_id(kind, (#[trigger] values[i])@);
            &&& values[i]@.len() > 0
            &&& project != e
            &&& !g.has_entity(e)
            &&& !g.has_relationship(relationship_id(relationship_kind, project, e))
        }
    &&& forall|i: int, j: int|
        0 <= i < values.len() && 0 <= j < values.len() && (#[trigger] values[i])@ != (#[trigger] values[j])@ ==> {
            &&& named_entity_id(kind, values[i]@) != named_entity_id(kind, values[j]@)
            &&& relationship_id(relationship_kind, project, named_entity_id(kind, values[i]@)) != relationship_id(
                relationship_kind,
                project,
                named_entity_id(kind, values[j]@),
            )
        }
}

/// The entity of the value and its link from the project are in the graph.
pub open spec fn named_present(
    g: GraphBuilder,
    value: Seq<char>,
    kind: EntityKind,
    relationship_kind: ProjectRelationshipKind,
    project: Seq<char>,
) -> bool {
    &&& g.has_entity(named_entity_id(kind, value))
    &&& g.has_relationship(relationship_id(relationship_kind, project, named_entity_id(kind, value)))
}

proof fn lemma_within_step(
    g0: GraphBuilder,
    g1: GraphBuilder,
    g2: GraphBuilder,
    es: Set<Seq<char>>,
    rs: Set<Seq<char>>,
    e: Seq<char>,
    r: Seq<char>,
)
    requires
        entities_within(g0, g1, es),
        relationships_within(g0, g1, rs),
        entities_within(g1, g2, set![e]),
        relationships_within(g1, g2, set![r]),
        es.contains(e),
        rs.contains(r),
    ensures
        entities_within(g0, g2, es),
        relationships_within(g0, g2, rs),
{
    lemma_within_trans(g0, g1, g2, es, set![e], rs, set![r]);
    lemma_within_weaken(g0, g2, es + set![e], es, rs + set![r], rs);
}

proof fn lemma_within_start(g: GraphBuilder, es: Set<Seq<char>>, rs: Set<Seq<char>>)
    ensures
        entities_within(g, g, es),
        relationships_within(g, g, rs),
{
    reveal(entities_within);
    reveal(relationships_within);
}

/// The entity identifiers of the values.
pub open spec fn named_entities_set(values: Seq<String>, kind: EntityKind) -> Set<Seq<char>> {
    Set::new(|x: Seq<char>| exists|j: int| 0 <= j < values.len() && x == named_entity_id(kind, (#[trigger] values[j])@))
}

/// The links from the project to the values' entities.
pub open spec fn named_links_set(
    values: Seq<String>,
    kind: EntityKind,
    relationship_kind: ProjectRelationshipKind,
    project: Seq<char>,
) -> Set<Seq<char>> {
    Set::new(
        |x: Seq<char>|
            exists|j: int|
                0 <= j < values.len() && x == relationship_id(relationship_kind, project, named_entity_id(kind, (#[trigger] values[j])@)),
    )
}

/// Adds one entity per distinct value, each linked from the project.
fn build_named_entities(
    graph: &mut GraphBuilder,
    values: &Vec<String>,
    evidence_prefix: &str,
    kind: EntityKind,
    relationship_kind: ProjectRelationshipKind,
    project: &EntityId,
) -> (r: Result<(), IntelligenceError>)
    ensures
        entity_ids_unique(*old(graph)) ==> entity_ids_unique(*final(graph)),
        named_fresh(*old(graph), values@, kind, relationship_kind, project@) ==> r is Ok,
        r is Ok ==> graph_grows(*old(graph), *final(graph)),
        r is Ok ==> forall|j: int|
            0 <= j < values@.len() ==> named_present(*final(graph), (#[trigger] values@[j])@, kind, relationship_kind, project@),
        r is Ok ==> entities_within(*old(graph), *final(graph), named_entities_set(values@, kind)),
        r is Ok ==> relationships_within(*old(graph), *final(graph), named_links_set(values@, kind, relationship_kind, project@)),
        r is Ok && graph_closed(*old(graph)) && old(graph).has_entity(project@) ==> graph_closed(*final(graph)),
{
    proof {
        lemma_within_start(*graph, named_entities_set(values@, kind), named_links_set(values@, kind, relationship_kind, project@));
    }
    let set = sorted_set(values);
    let ghost fresh = named_fresh(*old(graph), values@, kind, relationship_kind, project@);
    let mut i: usize = 0;
    while i < set.len()
        invariant
            entity_ids_unique(*old(graph)) ==> entity_ids_unique(*graph),
            i <= set@.len(),
            sorted_unique_of(set@, values@),
            fresh == named_fresh(*old(graph), values@, kind, relationship_kind, project@),
            graph_grows(*old(graph), *graph),
            entities_within(*old(graph), *graph, named_entities_set(values@, kind)),
            relationships_within(*old(graph), *graph, named_links_set(values@, kind, relationship_kind, project@)),
            graph_closed(*old(graph)) && old(graph).has_entity(project@) ==> graph_closed(*graph),
            forall|k: int| 0 <= k < i ==> named_present(*graph, (#[trigger] set@[k])@, kind, relationship_kind, project@),
            fresh ==> forall|k: int|
                i <= k < set@.len() ==> {
                    let e = named_entity_id(kind, (#[trigger] set@[k])@);
                    &&& !graph.has_entity(e)
                    &&& !graph.has_relationship(relationship_id(relationship_kind, project@, e))
                },
        decreases set@.len() - i,
    {
        let value = &set[i];
        let ghost g0 = *graph;
        let ghost e = named_entity_id(kind, value@);
        let ghost rel = relationship_id(relationship_kind, project@, e);
        let field = concat2(evidence_prefix, value.as_str());
        let entity = ProjectEntity::new(
            kind,
            value.clone(),
            value.clone(),
            InformationClassification::Observed,
            IntelligenceConfidence::High,
            one_ref(IntelligenceEvidenceRef::context(field.clone())),
        );
        proof {
            assert(values@.contains(set@[i as int]));
            if fresh {
                let q = choose|q: int| 0 <= q < values@.len() && values@[q] == set@[i as int];
                assert(values@[q]@.len() > 0);
            }
        }
        match add_linked(
            graph,
            entity,
            relationship_kind,
            project,
            false,
            InformationClassification::Observed,
            IntelligenceConfidence::High,
            one_ref(IntelligenceEvidenceRef::context(field)),
        ) {
            Ok(_) => {},
            Err(err) => {
                return Err(err);
            },
        }
        proof {
            lemma_grows_trans(*old(graph), g0, *graph);
            let q = choose|q: int| 0 <= q < values@.len() && values@[q] == set@[i as int];
            assert(named_entities_set(values@, kind).contains(e)) by {
                assert(e == named_entity_id(kind, values@[q]@));
            }
            assert(named_links_set(values@, kind, relationship_kind, project@).contains(rel)) by {
                assert(rel == relationship_id(relationship_kind, project@, named_entity_id(kind, values@[q]@)));
            }
            lemma_within_step(*old(graph), g0, *graph, named_entities_set(values@, kind), named_links_set(values@, kind, relationship_kind, project@), e, rel);
            if graph_closed(*old(graph)) && old(graph).has_entity(project@) {
                assert(g0.has_entity(project@));
            }
            assert forall|k: int| 0 <= k < i + 1 implies named_present(*graph, (#[trigger] set@[k])@, kind, relationship_kind, project@) by {
                if k < i {
                    assert(named_present(g0, set@[k]@, kind, relationship_kind, project@));
                }
            }
            if fresh {
                let q = choose|q: int| 0 <= q < values@.len() && values@[q] == set@[i as int];
                assert forall|k: int| i + 1 <= k < set@.len() implies {
                    let e2 = named_entity_id(kind, (#[trigger] set@[k])@);
                    &&& !graph.has_entity(e2)
                    &&& !graph.has_relationship(relationship_id(relationship_kind, project@, e2))
                } by {
                    assert(values@.contains(set@[k]));
                    let p = choose|p: int| 0 <= p < values@.len() && values@[p] == set@[k];
                    assert(key_lt(set@[i as int].sort_key(), set@[k].sort_key()));
                    if set@[k]@ == set@[i as int]@ {
                        lemma_key_lt_irreflexive(set@[k].sort_key());
                    }
                    assert(values@[p]@ != values@[q]@);
                }
            }
        }
        i = i + 1;
    }
    proof {
        assert forall|j: int| 0 <= j < values@.len() implies named_present(*graph, (#[trigger] values@[j])@, kind, relationship_kind, project@) by {
            assert(has_key(set@, values@[j].sort_key()));
            let k = choose|k: int| 0 <= k < set@.len() && #[trigger] set@[k].sort_key() == values@[j].sort_key();
            lemma_str_key_injective(set@[k]@, values@[j]@);
            assert(named_present(*graph, set@[k]@, kind, relationship_kind, project@));
        }
    }
    Ok(())
}

/// Action names and the entities created for them.
pub struct ActionEntityReferences {
    pub actions: Vec<(String, EntityId)>,
    pub controlled_execution_capabilities: Vec<(String, EntityId)>,
    pub dry_run_only_capabilities: Vec<(String, EntityId)>,
}

/// The entity recorded for a name, if any.
fn lookup(map: &Vec<(String, EntityId)>, key: &str) -> (r: Option<EntityId>)
    ensures
        lookup_result(map@, key@, r),
{
    let mut i: usize = 0;
    while i < map.len()
        invariant
            i <= map@.len(),
            forall|j: int| 0 <= j < i ==> (#[trigger] map@[j]).0@ != key@,
        decreases map@.len() - i,
    {
        if str_eq(map[i].0.as_str(), key) {
            return Some(map[i].1.duplicate());
        }
        i = i + 1;
    }
    None
}

/// The identifier of the entity of an action.
pub open spec fn action_entity_id(id: Seq<char>) -> Seq<char> {
    entity_id(EntityKind::Action, id, id)
}

/// The kind of link from a capability to its action.
pub open spec fn capability_link_kind(controlled: bool) -> ProjectRelationshipKind {
    if controlled {
        ProjectRelationshipKind::CapabilityAllowedForControlledExecution
    } else {
        ProjectRelationshipKind::CapabilityRestrictedToDryRun
    }
}

/// The name of a capability entity.
pub open spec fn capability_name(controlled: bool, action: Seq<char>) -> Seq<char> {
    if controlled {
        "controlled execution: "@ + action
    } else {
        "dry run only: "@ + action
    }
}

/// The identifier of the entity of an action's capability.
pub open spec fn capability_entity_id(controlled: bool, action: Seq<char>) -> Seq<char> {
    entity_id(
        EntityKind::ExecutionCapability,
        capability_link_kind(controlled).as_str_spec() + ":"@ + action,
        capability_name(controlled, action),
    )
}

/// The identifier of the link from an action's capability to the action.
pub open spec fn capability_link_id(controlled: bool, action: Seq<char>) -> Seq<char> {
    relationship_id(capability_link_kind(controlled), capability_entity_id(controlled, action), action_entity_id(action))
}

/// The names of recorded pairs.
pub open spec fn pair_names(v: Seq<(String, EntityId)>) -> Seq<String> {
    v.map_values(|p: (String, EntityId)| p.0)
}

/// One pair per distinct name, in name order, each with its capability entity.
pub open spec fn capabilities_recorded(v: Seq<(String, EntityId)>, names: Seq<String>, controlled: bool) -> bool {
    &&& sorted_unique_of(pair_names(v), names)
    &&& forall|k: int| 0 <= k < v.len() ==> (#[trigger] v[k]).1@ == capability_entity_id(controlled, v[k].0@)
}

/// Some pair records the name.
pub open spec fn name_recorded(v: Seq<(String, EntityId)>, name: Seq<char>) -> bool {
    exists|i: int| 0 <= i < v.len() && (#[trigger] v[i]).0@ == name
}

/// The action's entity and its two links with the project are in the graph.
pub open spec fn action_present(g: GraphBuilder, a: ActionInput, project: Seq<char>) -> bool {
    let e = action_entity_id(a.id@);
    &&& g.has_entity(e)
    &&& g.has_relationship(relationship_id(ProjectRelationshipKind::ProvidesAction, project, e))
    &&& g.has_relationship(relationship_id(ProjectRelationshipKind::ActionValidatesProject, e, project))
}

/// The capability's entity and its link to the action are in the graph.
pub open spec fn capability_present(g: GraphBuilder, controlled: bool, action: Seq<char>) -> bool {
    g.has_entity(capability_entity_id(controlled, action)) && g.has_relationship(capability_link_id(controlled, action))
}

/// Every name is an action's; no capability entity of a name is in the
/// graph, nor is its link, nor is it the action's entity; different names
/// give different capability entities and links.
pub open spec fn caps_fresh(g: GraphBuilder, names: Seq<String>, controlled: bool, actions: Seq<(String, EntityId)>) -> bool {
    &&& forall|j: int|
        0 <= j < names.len() ==> {
            let n = (#[trigger] names[j])@;
            &&& name_recorded(actions, n)
            &&& !g.has_entity(capability_entity_id(controlled, n))
            &&& !g.has_relationship(capability_link_id(controlled, n))
            &&& capability_entity_id(controlled, n) != action_entity_id(n)
        }
    &&& forall|j: int, m: int|
        0 <= j < names.len() && 0 <= m < names.len() && (#[trigger] names[j])@ != (#[trigger] names[m])@ ==> {
            &&& capability_entity_id(controlled, names[j]@) != capability_entity_id(controlled, names[m]@)
            &&& capability_link_id(controlled, names[j]@) != capability_link_id(controlled, names[m]@)
        }
}

/// Some name of the list has the capability entity.
pub open spec fn is_capability_of(names: Seq<String>, controlled: bool, x: Seq<char>) -> bool {
    exists|j: int| 0 <= j < names.len() && x == capability_entity_id(controlled, (#[trigger] names[j])@)
}

/// Some name of the list has the capability link.
pub open spec fn is_capability_link_of(names: Seq<String>, controlled: bool, x: Seq<char>) -> bool {
    exists|j: int| 0 <= j < names.len() && x == capability_link_id(controlled, (#[trigger] names[j])@)
}

/// The capability entities of the names.
pub open spec fn cap_entities_set(names: Seq<String>, controlled: bool) -> Set<Seq<char>> {
    Set::new(|x: Seq<char>| exists|j: int| 0 <= j < names.len() && x == capability_entity_id(controlled, (#[trigger] names[j])@))
}

/// The links of the names' capabilities to their actions.
pub open spec fn cap_links_set(names: Seq<String>, controlled: bool) -> Set<Seq<char>> {
    Set::new(|x: Seq<char>| exists|j: int| 0 <= j < names.len() && x == capability_link_id(controlled, (#[trigger] names[j])@))
}

/// The graph is closed and holds every recorded action entity.
pub open spec fn caps_closed_pre(g: GraphBuilder, actions: Seq<(String, EntityId)>) -> bool {
    &&& graph_closed(g)
    &&& forall|w: int| 0 <= w < actions.len() ==> g.has_entity((#[trigger] actions[w]).1@)
}

proof fn lemma_cap_step(
    g: GraphBuilder,
    g0: GraphBuilder,
    g1: GraphBuilder,
    g2: GraphBuilder,
    names: Seq<String>,
    controlled: bool,
    actions: Seq<(String, EntityId)>,
    q: int,
    action_entity: Seq<char>,
    x0: ProjectRelationship,
)
    requires
        0 <= q < names.len(),
        x0.id@ == capability_link_id(controlled, names[q]@),
        x0.source@ == capability_entity_id(controlled, names[q]@),
        x0.target@ == action_entity,
        exists|w: int| 0 <= w < actions.len() && (#[trigger] actions[w]).1@ == action_entity,
        g1.relationships@ == g0.relationships@,
        g2.entities@ == g1.entities@,
        g1.has_entity(capability_entity_id(controlled, names[q]@)),
        graph_grows(g0, g1),
        entities_within(g, g0, cap_entities_set(names, controlled)),
        relationships_within(g, g0, cap_links_set(names, controlled)),
        entities_within(g0, g1, set![capability_entity_id(controlled, names[q]@)]),
        relationships_within(g1, g2, set![x0.id@]),
        graph_closed(g0) ==> graph_closed(g1),
        graph_closed(g1) && g1.has_entity(x0.source@) && g1.has_entity(x0.target@) ==> graph_closed(g2),
        caps_closed_pre(g, actions) ==> caps_closed_pre(g0, actions),
    ensures
        entities_within(g, g2, cap_entities_set(names, controlled)),
        relationships_within(g, g2, cap_links_set(names, controlled)),
        caps_closed_pre(g, actions) ==> caps_closed_pre(g2, actions),
{
    assert(relationships_within(g0, g1, Set::empty())) by {
        reveal(relationships_within);
        lemma_same_relationships(g1, g0);
    }
    assert(entities_within(g1, g2, Set::empty())) by {
        reveal(entities_within);
        lemma_same_entities(g2, g1);
    }
    let e = capability_entity_id(controlled, names[q]@);
    assert(cap_entities_set(names, controlled).contains(e));
    assert(cap_links_set(names, controlled).contains(x0.id@));
    lemma_within_trans(g0, g1, g2, set![e], Set::empty(), Set::empty(), set![x0.id@]);
    lemma_within_weaken(g0, g2, set![e] + Set::empty(), set![e], Set::empty() + set![x0.id@], set![x0.id@]);
    lemma_within_step(g, g0, g2, cap_entities_set(names, controlled), cap_links_set(names, controlled), e, x0.id@);
    if caps_closed_pre(g, actions) {
        assert(caps_closed_pre(g0, actions));
        let w = choose|w: int| 0 <= w < actions.len() && (#[trigger] actions[w]).1@ == action_entity;
        assert(g0.has_entity(actions[w].1@));
        assert(g1.has_entity(action_entity));
        assert(graph_closed(g2));
        lemma_same_entities(g2, g1);
        assert forall|w2: int| 0 <= w2 < actions.len() implies g2.has_entity((#[trigger] actions[w2]).1@) by {
            assert(g0.has_entity(actions[w2].1@));
            assert(g1.has_entity(actions[w2].1@));
            let k = choose|k: int| 0 <= k < g1.entities@.len() && #[trigger] g1.entities@[k].id@ == actions[w2].1@;
            assert(g2.entities@[k].id@ == actions[w2].1@);
        }
    }
}

/// Adds a capability entity per distinct name, linked to the action of that
/// name; refused where no action has the name.
fn add_capabilities(
    graph: &mut GraphBuilder,
    names: &Vec<String>,
    controlled: bool,
    actions: &Vec<(String, EntityId)>,
) -> (r: Result<Vec<(String, EntityId)>, IntelligenceError>)
    requires
        forall|i: int| 0 <= i < actions@.len() ==> (#[trigger] actions@[i]).1@ == action_entity_id(actions@[i].0@),
    ensures
        entity_ids_unique(*old(graph)) ==> entity_ids_unique(*final(graph)),
        r matches Ok(v) ==> capabilities_recorded(v@, names@, controlled),
        r is Ok ==> forall|j: int| 0 <= j < names@.len() ==> name_recorded(actions@, (#[trigger] names@[j])@),
        r is Ok ==> graph_grows(*old(graph), *final(graph)),
        r is Ok ==> entities_within(*old(graph), *final(graph), cap_entities_set(names@, controlled)),
        r is Ok ==> relationships_within(*old(graph), *final(graph), cap_links_set(names@, controlled)),
        r is Ok && caps_closed_pre(*old(graph), actions@) ==> graph_closed(*final(graph)),
        r is Ok ==> forall|j: int|
            0 <= j < names@.len() ==> capability_present(*final(graph), controlled, (#[trigger] names@[j])@),
        caps_fresh(*old(graph), names@, controlled, actions@) ==> {
            &&& r is Ok
            &&& forall|x: Seq<char>| #[trigger] final(graph).has_entity(x) ==> old(graph).has_entity(x) || is_capability_of(names@, controlled, x)
            &&& forall|x: Seq<char>| #[trigger] final(graph).has_relationship(x) ==> old(graph).has_relationship(x)
                || is_capability_link_of(names@, controlled, x)
        },
{
    let ghost fresh = caps_fresh(*old(graph), names@, controlled, actions@);
    proof {
        lemma_within_start(*graph, cap_entities_set(names@, controlled), cap_links_set(names@, controlled));
    }
    proof {
        reveal_strlit(":");
        reveal_strlit("controlled execution: ");
        reveal_strlit("dry run only: ");
    }
    let kind = if controlled {
        ProjectRelationshipKind::CapabilityAllowedForControlledExecution
    } else {
        ProjectRelationshipKind::CapabilityRestrictedToDryRun
    };
    let set = sorted_set(names);
    let mut out: Vec<(String, EntityId)> = Vec::new();
    let mut k: usize = 0;
    while k < set.len()
        invariant
            entity_ids_unique(*old(graph)) ==> entity_ids_unique(*graph),
            k <= set@.len(),
            kind == capability_link_kind(controlled),
            sorted_unique_of(set@, names@),
            forall|i: int| 0 <= i < actions@.len() ==> (#[trigger] actions@[i]).1@ == action_entity_id(actions@[i].0@),
            pair_names(out@) == set@.take(k as int),
            forall|q: int| 0 <= q < out@.len() ==> (#[trigger] out@[q]).1@ == capability_entity_id(controlled, out@[q].0@),
            forall|q: int| 0 <= q < k ==> name_recorded(actions@, (#[trigger] set@[q])@),
            graph_grows(*old(graph), *graph),
            forall|q: int| 0 <= q < k ==> capability_present(*graph, controlled, (#[trigger] set@[q])@),
            fresh == caps_fresh(*old(graph), names@, controlled, actions@),
            entities_within(*old(graph), *graph, cap_entities_set(names@, controlled)),
            relationships_within(*old(graph), *graph, cap_links_set(names@, controlled)),
            caps_closed_pre(*old(graph), actions@) ==> caps_closed_pre(*graph, actions@),
            fresh ==> forall|q: int|
                k <= q < set@.len() ==> !graph.has_entity(capability_entity_id(controlled, (#[trigger] set@[q])@))
                    && !graph.has_relationship(capability_link_id(controlled, set@[q]@)),
            fresh ==> forall|x: Seq<char>| #[trigger] graph.has_entity(x) ==> old(graph).has_entity(x) || is_capability_of(names@, controlled, x),
            fresh ==> forall|x: Seq<char>| #[trigger] graph.has_relationship(x) ==> old(graph).has_relationship(x)
                || is_capability_link_of(names@, controlled, x),
        decreases set@.len() - k,
    {
        let action = &set[k];
        proof {
            reveal_strlit(":");
            reveal_strlit("controlled execution: ");
            reveal_strlit("dry run only: ");
            assert(names@.contains(set@[k as int]));
        }
        let ghost g0 = *graph;
        let name = if controlled {
            concat2("controlled execution: ", action.as_str())
        } else {
            concat2("dry run only: ", action.as_str())
        };
        let entity = ProjectEntity::new(
            EntityKind::ExecutionCapability,
            join2(kind.as_str(), action.as_str()),
            name,
            InformationClassification::Observed,
            IntelligenceConfidence::Certain,
            one_ref(IntelligenceEvidenceRef::ExecutionCapability { action_id: action.clone() }),
        )?;
        assert(entity.id@ == capability_entity_id(controlled, action@));
        let ghost e0 = entity;
        let capability = graph.entity(entity)?;
        let ghost g1 = *graph;
        let action_entity = match lookup(actions, action.as_str()) {
            Some(id) => id,
            None => {
                return Err(
                    IntelligenceError::InconsistentCapability(
                        concat2("capability action is not discovered: ", action.as_str()),
                    ),
                );
            },
        };
        assert(action_entity@ == action_entity_id(action@));
        let rel = ProjectRelationship::new(
            kind,
            capability.duplicate(),
            action_entity,
            InformationClassification::Observed,
            IntelligenceConfidence::Certain,
            one_ref(IntelligenceEvidenceRef::ExecutionCapability { action_id: action.clone() }),
        )?;
        let ghost x0 = rel;
        graph.relationship(rel)?;
        proof {
            let q = choose|q: int| 0 <= q < names@.len() && names@[q] == set@[k as int];
            lemma_cap_step(*old(graph), g0, g1, *graph, names@, controlled, actions@, q, action_entity@, x0);
            lemma_grows_trans(g0, g1, *graph);
            lemma_grows_trans(*old(graph), g0, *graph);
            lemma_same_entities(*graph, g1);
            if fresh {
                let jj = choose|jj: int| 0 <= jj < names@.len() && names@[jj] == set@[k as int];
                lemma_entity_pushed(g0, g1, e0);
                lemma_same_relationships(g0, g1);
                lemma_relationship_pushed(g1, *graph, x0);
                assert forall|x: Seq<char>| #[trigger] graph.has_entity(x) implies old(graph).has_entity(x) || is_capability_of(
                    names@,
                    controlled,
                    x,
                ) by {
                    assert(g1.has_entity(x));
                    if x == e0.id@ {
                        assert(names@[jj] == set@[k as int]);
                    } else {
                        assert(g0.has_entity(x));
                    }
                }
                assert forall|x: Seq<char>| #[trigger] graph.has_relationship(x) implies old(graph).has_relationship(x)
                    || is_capability_link_of(names@, controlled, x) by {
                    if x == x0.id@ {
                        assert(names@[jj] == set@[k as int]);
                    } else {
                        assert(g1.has_relationship(x));
                        assert(g0.has_relationship(x));
                    }
                }
                assert forall|q: int| k + 1 <= q < set@.len() implies !graph.has_entity(
                    capability_entity_id(controlled, (#[trigger] set@[q])@),
                ) && !graph.has_relationship(capability_link_id(controlled, set@[q]@)) by {
                    assert(names@.contains(set@[q]));
                    let m = choose|m: int| 0 <= m < names@.len() && names@[m] == set@[q];
                    assert(key_lt(set@[k as int].sort_key(), set@[q].sort_key()));
                    if set@[q]@ == set@[k as int]@ {
                        lemma_key_lt_irreflexive(set@[q].sort_key());
                    }
                    assert(names@[m]@ != names@[jj]@);
                    assert(g1.has_entity(capability_entity_id(controlled, set@[q]@)) ==> g0.has_entity(
                        capability_entity_id(controlled, set@[q]@),
                    ));
                    assert(g1.has_relationship(capability_link_id(controlled, set@[q]@)) ==> g0.has_relationship(
                        capability_link_id(controlled, set@[q]@),
                    ));
                }
            }
            assert(g1.has_entity(capability_entity_id(controlled, action@)));
            assert forall|q: int| 0 <= q < k + 1 implies capability_present(*graph, controlled, (#[trigger] set@[q])@) by {
                if q < k {
                    assert(capability_present(g0, controlled, set@[q]@));
                }
            }
        }
        let ghost before = out@;
        out.push((action.clone(), capability));
        proof {
            assert(pair_names(out@) =~= pair_names(before).push(set@[k as int]));
            assert(set@.take(k + 1) =~= set@.take(k as int).push(set@[k as int]));
        }
        k = k + 1;
    }
    proof {
        assert(set@.take(set@.len() as int) =~= set@);
        assert forall|j: int| 0 <= j < names@.len() implies name_recorded(actions@, (#[trigger] names@[j])@)
            && capability_present(*graph, controlled, names@[j]@) by {
            assert(has_key(set@, names@[j].sort_key()));
            let q = choose|q: int| 0 <= q < set@.len() && #[trigger] set@[q].sort_key() == names@[j].sort_key();
            lemma_str_key_injective(set@[q]@, names@[j]@);
            assert(name_recorded(actions@, set@[q]@));
            assert(capability_present(*graph, controlled, set@[q]@));
        }
    }
    Ok(out)
}

/// The link by which the project provides an action.
pub open spec fn provides_link_id(project: Seq<char>, e: Seq<char>) -> Seq<char> {
    relationship_id(ProjectRelationshipKind::ProvidesAction, project, e)
}

/// The link by which an action validates the project.
pub open spec fn validates_link_id(e: Seq<char>, project: Seq<char>) -> Seq<char> {
    relationship_id(ProjectRelationshipKind::ActionValidatesProject, e, project)
}

/// The first entity with the action's identifier, if any, is the action's,
/// and so are the first links with the project under its links' identifiers.
pub open spec fn action_slot_ok(g: GraphBuilder, a: ActionInput, project: Seq<char>) -> bool {
    let e = action_entity_id(a.id@);
    &&& first_like(g.entities@, e, EntityKind::Action, a.id@, InformationClassification::Observed, a.id@)
    &&& first_rel_like(
        g.relationships@,
        provides_link_id(project, e),
        ProjectRelationshipKind::ProvidesAction,
        project,
        e,
        InformationClassification::Observed,
    )
    &&& first_rel_like(
        g.relationships@,
        validates_link_id(e, project),
        ProjectRelationshipKind::ActionValidatesProject,
        e,
        project,
        InformationClassification::Observed,
    )
}

/// Adding action `i` and its two links keeps every action's slot.
proof fn lemma_action_slots(
    start: GraphBuilder,
    g0: GraphBuilder,
    g1: GraphBuilder,
    g2: GraphBuilder,
    actions: Seq<ActionInput>,
    i: int,
    project: Seq<char>,
)
    requires
        0 <= i < actions.len(),
        action_ids_fresh(start, actions, project),
        forall|k: int| 0 <= k < actions.len() ==> action_slot_ok(g0, #[trigger] actions[k], project),
        firsts_kept_except(g0.entities@, g1.entities@, action_entity_id(actions[i].id@)),
        first_like(
            g1.entities@,
            action_entity_id(actions[i].id@),
            EntityKind::Action,
            actions[i].id@,
            InformationClassification::Observed,
            actions[i].id@,
        ),
        rel_firsts_kept_except(g0.relationships@, g1.relationships@, provides_link_id(project, action_entity_id(actions[i].id@))),
        first_rel_like(
            g1.relationships@,
            provides_link_id(project, action_entity_id(actions[i].id@)),
            ProjectRelationshipKind::ProvidesAction,
            project,
            action_entity_id(actions[i].id@),
            InformationClassification::Observed,
        ),
        g2.entities@ == g1.entities@,
        rel_firsts_kept_except(g1.relationships@, g2.relationships@, validates_link_id(action_entity_id(actions[i].id@), project)),
        first_rel_like(
            g2.relationships@,
            validates_link_id(action_entity_id(actions[i].id@), project),
            ProjectRelationshipKind::ActionValidatesProject,
            action_entity_id(actions[i].id@),
            project,
            InformationClassification::Observed,
        ),
    ensures
        forall|k: int| 0 <= k < actions.len() ==> action_slot_ok(g2, #[trigger] actions[k], project),
{
    let ai = actions[i];
    let ei = action_entity_id(ai.id@);
    assert(provides_link_id(project, ei) != validates_link_id(ei, project));
    assert forall|k: int| 0 <= k < actions.len() implies action_slot_ok(g2, #[trigger] actions[k], project) by {
        let ak = actions[k];
        let ek = action_entity_id(ak.id@);
        assert(action_slot_ok(g0, ak, project));
        if k < i {
            assert(actions[k].id@ == actions[i].id@ || actions[k].id@ != actions[i].id@);
        }
        if ak.id@ != ai.id@ {
            if k < i {
                assert(ak.id@ == ai.id@ || {
                    &&& ek != ei
                    &&& provides_link_id(project, ek) != provides_link_id(project, ei)
                    &&& validates_link_id(ek, project) != validates_link_id(ei, project)
                    &&& provides_link_id(project, ek) != validates_link_id(ei, project)
                    &&& validates_link_id(ek, project) != provides_link_id(project, ei)
                });
            } else {
                assert(ai.id@ == ak.id@ || {
                    &&& ei != ek
                    &&& provides_link_id(project, ei) != provides_link_id(project, ek)
                    &&& validates_link_id(ei, project) != validates_link_id(ek, project)
                    &&& provides_link_id(project, ei) != validates_link_id(ek, project)
                    &&& validates_link_id(ei, project) != provides_link_id(project, ek)
                });
            }
            assert forall|j: int| #[trigger] first_entity(g2.entities@, ek, j) implies g2.entities@[j].kind == EntityKind::Action
                && g2.entities@[j].name@ == ak.id@ && g2.entities@[j].classification == InformationClassification::Observed
                && g2.entities@[j].semantic_key@ == ak.id@ by {
                assert(first_entity(g1.entities@, ek, j));
                assert(first_entity(g0.entities@, ek, j));
            }
            let pk = provides_link_id(project, ek);
            assert forall|j: int| #[trigger] first_relationship(g2.relationships@, pk, j) implies g2.relationships@[j].kind
                == ProjectRelationshipKind::ProvidesAction && g2.relationships@[j].source@ == project
                && g2.relationships@[j].target@ == ek && g2.relationships@[j].classification
                == InformationClassification::Observed by {
                assert(first_relationship(g1.relationships@, pk, j));
                assert(first_relationship(g0.relationships@, pk, j));
            }
            let vk = validates_link_id(ek, project);
            assert forall|j: int| #[trigger] first_relationship(g2.relationships@, vk, j) implies g2.relationships@[j].kind
                == ProjectRelationshipKind::ActionValidatesProject && g2.relationships@[j].source@ == ek
                && g2.relationships@[j].target@ == project && g2.relationships@[j].classification
                == InformationClassification::Observed by {
                assert(first_relationship(g1.relationships@, vk, j));
                assert(first_relationship(g0.relationships@, vk, j));
            }
        } else {
            let pk = provides_link_id(project, ek);
            assert forall|j: int| #[trigger] first_relationship(g2.relationships@, pk, j) implies g2.relationships@[j].kind
                == ProjectRelationshipKind::ProvidesAction && g2.relationships@[j].source@ == project
                && g2.relationships@[j].target@ == ek && g2.relationships@[j].classification
                == InformationClassification::Observed by {
                assert(first_relationship(g1.relationships@, pk, j));
            }
        }
    }
}

/// Every action has an identifier and evidence, and none is named twice; no
/// action's entity is the project or in the graph, nor are its links; no two
/// actions share an entity or a link.
pub open spec fn action_ids_fresh(g: GraphBuilder, actions: Seq<ActionInput>, project: Seq<char>) -> bool {
    &&& forall|i: int|
        0 <= i < actions.len() ==> {
            let e = action_entity_id((#[trigger] actions[i]).id@);
            &&& actions[i].id@.len() > 0
            &&& actions[i].evidence@.len() > 0
            &&& e != project
            &&& !g.has_entity(e)
            &&& !g.has_relationship(provides_link_id(project, e))
            &&& !g.has_relationship(validates_link_id(e, project))
            &&& provides_link_id(project, e) != validates_link_id(e, project)
        }
    &&& forall|i: int, j: int|
        0 <= i < j < actions.len() ==> (#[trigger] actions[i]).id@ == (#[trigger] actions[j]).id@ || {
            let a = action_entity_id(actions[i].id@);
            let b = action_entity_id(actions[j].id@);
            &&& a != b
            &&& provides_link_id(project, a) != provides_link_id(project, b)
            &&& validates_link_id(a, project) != validates_link_id(b, project)
            &&& provides_link_id(project, a) != validates_link_id(b, project)
            &&& validates_link_id(a, project) != provides_link_id(project, b)
        }
}

/// Every capability names an action; no capability entity or link is in the
/// graph or is an action's entity or link; different names give different
/// capability entities and links.
pub open spec fn capabilities_clear(
    g: GraphBuilder,
    names: Seq<String>,
    controlled: bool,
    actions: Seq<ActionInput>,
    project: Seq<char>,
) -> bool {
    &&& forall|j: int|
        0 <= j < names.len() ==> {
            let n = (#[trigger] names[j])@;
            &&& exists|i: int| 0 <= i < actions.len() && (#[trigger] actions[i]).id@ == n
            &&& !g.has_entity(capability_entity_id(controlled, n))
            &&& !g.has_relationship(capability_link_id(controlled, n))
            &&& capability_entity_id(controlled, n) != action_entity_id(n)
            &&& forall|i: int|
                0 <= i < actions.len() ==> {
                    let e = action_entity_id((#[trigger] actions[i]).id@);
                    &&& capability_entity_id(controlled, n) != e
                    &&& capability_link_id(controlled, n) != provides_link_id(project, e)
                    &&& capability_link_id(controlled, n) != validates_link_id(e, project)
                }
        }
    &&& forall|j: int, m: int|
        0 <= j < names.len() && 0 <= m < names.len() && (#[trigger] names[j])@ != (#[trigger] names[m])@ ==> {
            &&& capability_entity_id(controlled, names[j]@) != capability_entity_id(controlled, names[m]@)
            &&& capability_link_id(controlled, names[j]@) != capability_link_id(controlled, names[m]@)
        }
}

/// No controlled capability shares an entity or a link with a dry-run-only one.
pub open spec fn capabilities_apart(controlled: Seq<String>, dry: Seq<String>) -> bool {
    forall|j: int, m: int|
        0 <= j < controlled.len() && 0 <= m < dry.len() ==> {
            &&& capability_entity_id(true, (#[trigger] controlled[j])@) != capability_entity_id(false, (#[trigger] dry[m])@)
            &&& capability_link_id(true, controlled[j]@) != capability_link_id(false, dry[m]@)
        }
}

/// Nothing the actions and capabilities add is in the graph or shared, and
/// every capability names an action.
pub open spec fn actions_fresh(g: GraphBuilder, input: ProjectIntelligenceInput, project: Seq<char>) -> bool {
    let caps = input.execution_capabilities;
    &&& action_ids_fresh(g, input.actions@, project)
    &&& capabilities_clear(g, caps.controlled_actions@, true, input.actions@, project)
    &&& capabilities_clear(g, caps.dry_run_only_actions@, false, input.actions@, project)
    &&& capabilities_apart(caps.controlled_actions@, caps.dry_run_only_actions@)
}

/// Some action has the entity.
pub open spec fn is_action_entity_of(actions: Seq<ActionInput>, x: Seq<char>) -> bool {
    exists|q: int| 0 <= q < actions.len() && x == action_entity_id((#[trigger] actions[q]).id@)
}

/// Some action has the link.
pub open spec fn is_action_link_of(actions: Seq<ActionInput>, project: Seq<char>, x: Seq<char>) -> bool {
    exists|q: int|
        0 <= q < actions.len() && (x == provides_link_id(project, action_entity_id((#[trigger] actions[q]).id@))
            || x == validates_link_id(action_entity_id(actions[q].id@), project))
}

proof fn lemma_actions_to_caps(
    g: GraphBuilder,
    g2: GraphBuilder,
    input: ProjectIntelligenceInput,
    project: Seq<char>,
    actions: Seq<(String, EntityId)>,
    controlled: bool,
)
    requires
        actions_fresh(g, input, project),
        actions.len() == input.actions@.len(),
        forall|q: int| 0 <= q < actions.len() ==> (#[trigger] actions[q]).0@ == input.actions@[q].id@,
        forall|x: Seq<char>| #[trigger] g2.has_entity(x) ==> g.has_entity(x) || is_action_entity_of(input.actions@, x),
        forall|x: Seq<char>| #[trigger] g2.has_relationship(x) ==> g.has_relationship(x) || is_action_link_of(input.actions@, project, x),
    ensures
        caps_fresh(
            g2,
            if controlled {
                input.execution_capabilities.controlled_actions@
            } else {
                input.execution_capabilities.dry_run_only_actions@
            },
            controlled,
            actions,
        ),
{
    let names = if controlled {
        input.execution_capabilities.controlled_actions@
    } else {
        input.execution_capabilities.dry_run_only_actions@
    };
    assert(capabilities_clear(g, names, controlled, input.actions@, project));
    assert forall|j: int| 0 <= j < names.len() implies {
        let n = (#[trigger] names[j])@;
        &&& name_recorded(actions, n)
        &&& !g2.has_entity(capability_entity_id(controlled, n))
        &&& !g2.has_relationship(capability_link_id(controlled, n))
        &&& capability_entity_id(controlled, n) != action_entity_id(n)
    } by {
        let n = names[j]@;
        let i = choose|i: int| 0 <= i < input.actions@.len() && (#[trigger] input.actions@[i]).id@ == n;
        assert(actions[i].0@ == n);
        let c = capability_entity_id(controlled, n);
        let l = capability_link_id(controlled, n);
        if g2.has_entity(c) {
            if !g.has_entity(c) {
                let q = choose|q: int| 0 <= q < input.actions@.len() && c == action_entity_id((#[trigger] input.actions@[q]).id@);
                assert(c != action_entity_id(input.actions@[q].id@));
            }
        }
        if g2.has_relationship(l) {
            if !g.has_relationship(l) {
                let q = choose|q: int|
                    0 <= q < input.actions@.len() && (l == provides_link_id(project, action_entity_id((#[trigger] input.actions@[q]).id@))
                        || l == validates_link_id(action_entity_id(input.actions@[q].id@), project));
                let e = action_entity_id(input.actions@[q].id@);
                assert(l != provides_link_id(project, e) && l != validates_link_id(e, project));
            }
        }
    }
}

proof fn lemma_dry_after_controlled(
    g2: GraphBuilder,
    g3: GraphBuilder,
    input: ProjectIntelligenceInput,
    actions: Seq<(String, EntityId)>,
)
    requires
        caps_fresh(g2, input.execution_capabilities.dry_run_only_actions@, false, actions),
        capabilities_apart(input.execution_capabilities.controlled_actions@, input.execution_capabilities.dry_run_only_actions@),
        forall|x: Seq<char>| #[trigger] g3.has_entity(x) ==> g2.has_entity(x) || is_capability_of(input.execution_capabilities.controlled_actions@, true, x),
        forall|x: Seq<char>| #[trigger] g3.has_relationship(x) ==> g2.has_relationship(x) || is_capability_link_of(
            input.execution_capabilities.controlled_actions@,
            true,
            x,
        ),
    ensures
        caps_fresh(g3, input.execution_capabilities.dry_run_only_actions@, false, actions),
{
    let ctrl = input.execution_capabilities.controlled_actions@;
    let dry = input.execution_capabilities.dry_run_only_actions@;
    assert forall|m: int| 0 <= m < dry.len() implies {
        let n = (#[trigger] dry[m])@;
        &&& name_recorded(actions, n)
        &&& !g3.has_entity(capability_entity_id(false, n))
        &&& !g3.has_relationship(capability_link_id(false, n))
        &&& capability_entity_id(false, n) != action_entity_id(n)
    } by {
        let n = dry[m]@;
        if g3.has_entity(capability_entity_id(false, n)) && !g2.has_entity(capability_entity_id(false, n)) {
            let j = choose|j: int| 0 <= j < ctrl.len() && capability_entity_id(false, n) == capability_entity_id(true, (#[trigger] ctrl[j])@);
            assert(capability_entity_id(true, ctrl[j]@) != capability_entity_id(false, dry[m]@));
        }
        if g3.has_relationship(capability_link_id(false, n)) && !g2.has_relationship(capability_link_id(false, n)) {
            let j = choose|j: int| 0 <= j < ctrl.len() && capability_link_id(false, n) == capability_link_id(true, (#[trigger] ctrl[j])@);
            assert(capability_link_id(true, ctrl[j]@) != capability_link_id(false, dry[m]@));
        }
    }
}

/// The entities the actions and their capabilities add.
pub open spec fn action_entities_all(input: ProjectIntelligenceInput) -> Set<Seq<char>> {
    Set::new(|x: Seq<char>| is_action_entity_of(input.actions@, x))
        + cap_entities_set(input.execution_capabilities.controlled_actions@, true)
        + cap_entities_set(input.execution_capabilities.dry_run_only_actions@, false)
}

/// The links the actions and their capabilities add.
pub open spec fn action_links_all(input: ProjectIntelligenceInput, project: Seq<char>) -> Set<Seq<char>> {
    Set::new(|x: Seq<char>| is_action_link_of(input.actions@, project, x))
        + cap_links_set(input.execution_capabilities.controlled_actions@, true)
        + cap_links_set(input.execution_capabilities.dry_run_only_actions@, false)
}

proof fn lemma_action_step(
    g: GraphBuilder,
    g0: GraphBuilder,
    g1: GraphBuilder,
    g2: GraphBuilder,
    input: ProjectIntelligenceInput,
    project: Seq<char>,
    i: int,
    x0: ProjectRelationship,
)
    requires
        0 <= i < input.actions@.len(),
        x0.id@ == validates_link_id(action_entity_id(input.actions@[i].id@), project),
        x0.source@ == action_entity_id(input.actions@[i].id@),
        x0.target@ == project,
        entities_within(g, g0, action_entities_all(input)),
        relationships_within(g, g0, action_links_all(input, project)),
        entities_within(g0, g1, set![action_entity_id(input.actions@[i].id@)]),
        relationships_within(g0, g1, set![provides_link_id(project, action_entity_id(input.actions@[i].id@))]),
        relationships_within(g1, g2, set![x0.id@]),
        g2.entities@ == g1.entities@,
        g1.has_entity(action_entity_id(input.actions@[i].id@)),
        graph_grows(g, g0),
        graph_grows(g0, g1),
        graph_closed(g) && g.has_entity(project) ==> graph_closed(g0),
        graph_closed(g0) && g0.has_entity(project) ==> graph_closed(g1),
        graph_closed(g1) && g1.has_entity(x0.source@) && g1.has_entity(x0.target@) ==> graph_closed(g2),
    ensures
        entities_within(g, g2, action_entities_all(input)),
        relationships_within(g, g2, action_links_all(input, project)),
        graph_closed(g) && g.has_entity(project) ==> graph_closed(g2),
{
    let e = action_entity_id(input.actions@[i].id@);
    assert(entities_within(g1, g2, Set::empty())) by {
        reveal(entities_within);
        lemma_same_entities(g2, g1);
    }
    lemma_within_trans(g0, g1, g2, set![e], Set::empty(), set![provides_link_id(project, e)], set![x0.id@]);
    assert(action_entities_all(input).contains(e)) by {
        assert(is_action_entity_of(input.actions@, e));
    }
    assert(action_links_all(input, project).contains(provides_link_id(project, e))) by {
        assert(is_action_link_of(input.actions@, project, provides_link_id(project, e)));
    }
    assert(action_links_all(input, project).contains(x0.id@)) by {
        assert(is_action_link_of(input.actions@, project, x0.id@));
    }
    lemma_within_trans(g, g0, g2, action_entities_all(input), set![e] + Set::empty(), action_links_all(input, project), set![provides_link_id(project, e)] + set![x0.id@]);
    lemma_within_weaken(g, g2, action_entities_all(input) + (set![e] + Set::empty()), action_entities_all(input), action_links_all(input, project) + (set![provides_link_id(project, e)] + set![x0.id@]), action_links_all(input, project));
    if graph_closed(g) && g.has_entity(project) {
        assert(g0.has_entity(project));
        assert(g1.has_entity(project));
    }
}

proof fn lemma_actions_within(
    g: GraphBuilder,
    g2: GraphBuilder,
    g3: GraphBuilder,
    g4: GraphBuilder,
    input: ProjectIntelligenceInput,
    project: Seq<char>,
)
    requires
        entities_within(g, g2, action_entities_all(input)),
        relationships_within(g, g2, action_links_all(input, project)),
        entities_within(g2, g3, cap_entities_set(input.execution_capabilities.controlled_actions@, true)),
        relationships_within(g2, g3, cap_links_set(input.execution_capabilities.controlled_actions@, true)),
        entities_within(g3, g4, cap_entities_set(input.execution_capabilities.dry_run_only_actions@, false)),
        relationships_within(g3, g4, cap_links_set(input.execution_capabilities.dry_run_only_actions@, false)),
    ensures
        entities_within(g, g4, action_entities_all(input)),
        relationships_within(g, g4, action_links_all(input, project)),
{
    let ae = action_entities_all(input);
    let al = action_links_all(input, project);
    let c1 = cap_entities_set(input.execution_capabilities.controlled_actions@, true);
    let l1 = cap_links_set(input.execution_capabilities.controlled_actions@, true);
    let c2 = cap_entities_set(input.execution_capabilities.dry_run_only_actions@, false);
    let l2 = cap_links_set(input.execution_capabilities.dry_run_only_actions@, false);
    lemma_within_trans(g, g2, g3, ae, c1, al, l1);
    lemma_within_trans(g, g3, g4, ae + c1, c2, al + l1, l2);
    lemma_within_weaken(g, g4, ae + c1 + c2, ae, al + l1 + l2, al);
}

/// The action and capability entities recorded by name: one per action, in
/// order, and one per distinct controlled or dry-run-only action; every
/// capability's action is among the actions.
pub open spec fn references_recorded(input: ProjectIntelligenceInput, refs: ActionEntityReferences) -> bool {
    let caps = input.execution_capabilities;
    &&& refs.actions@.len() == input.actions@.len()
    &&& forall|i: int|
        0 <= i < input.actions@.len() ==> (#[trigger] refs.actions@[i]).0@ == input.actions@[i].id@
            && refs.actions@[i].1@ == action_entity_id(input.actions@[i].id@)
    &&& capabilities_recorded(refs.controlled_execution_capabilities@, caps.controlled_actions@, true)
    &&& capabilities_recorded(refs.dry_run_only_capabilities@, caps.dry_run_only_actions@, false)
    &&& forall|j: int|
        0 <= j < caps.controlled_actions@.len() ==> name_recorded(refs.actions@, (#[trigger] caps.controlled_actions@[j])@)
    &&& forall|j: int|
        0 <= j < caps.dry_run_only_actions@.len() ==> name_recorded(refs.actions@, (#[trigger] caps.dry_run_only_actions@[j])@)
}

/// Adds an entity per action, linked both ways with the project, then the
/// controlled and dry-run-only capabilities, each linked to its action.
fn build_actions_and_capabilities(
    graph: &mut GraphBuilder,
    input: &ProjectIntelligenceInput,
    project: &EntityId,
) -> (r: Result<ActionEntityReferences, IntelligenceError>)
    ensures
        entity_ids_unique(*old(graph)) ==> entity_ids_unique(*final(graph)),
        r matches Ok(refs) ==> references_recorded(*input, refs),
        r is Ok ==> graph_grows(*old(graph), *final(graph)),
        r is Ok ==> forall|i: int| 0 <= i < input.actions@.len() ==> action_present(*final(graph), #[trigger] input.actions@[i], project@),
        r is Ok ==> forall|j: int|
            0 <= j < input.execution_capabilities.controlled_actions@.len() ==> capability_present(
                *final(graph),
                true,
                (#[trigger] input.execution_capabilities.controlled_actions@[j])@,
            ),
        r is Ok ==> forall|j: int|
            0 <= j < input.execution_capabilities.dry_run_only_actions@.len() ==> capability_present(
                *final(graph),
                false,
                (#[trigger] input.execution_capabilities.dry_run_only_actions@[j])@,
            ),
        actions_fresh(*old(graph), *input, project@) ==> r is Ok,
        r is Ok ==> entities_within(*old(graph), *final(graph), action_entities_all(*input)),
        r is Ok ==> relationships_within(*old(graph), *final(graph), action_links_all(*input, project@)),
        r is Ok && graph_closed(*old(graph)) && old(graph).has_entity(project@) ==> graph_closed(*final(graph)),
{
    let ghost fresh = actions_fresh(*old(graph), *input, project@);
    proof {
        lemma_within_start(*graph, action_entities_all(*input), action_links_all(*input, project@));
    }
    let mut actions: Vec<(String, EntityId)> = Vec::new();
    let mut i: usize = 0;
    while i < input.actions.len()
        invariant
            entity_ids_unique(*old(graph)) ==> entity_ids_unique(*graph),
            i <= input.actions@.len(),
            actions@.len() == i,
            forall|q: int|
                0 <= q < i ==> (#[trigger] actions@[q]).0@ == input.actions@[q].id@ && actions@[q].1@
                    == action_entity_id(input.actions@[q].id@),
            graph_grows(*old(graph), *graph),
            forall|q: int| 0 <= q < i ==> action_present(*graph, #[trigger] input.actions@[q], project@),
            fresh == actions_fresh(*old(graph), *input, project@),
            entities_within(*old(graph), *graph, action_entities_all(*input)),
            relationships_within(*old(graph), *graph, action_links_all(*input, project@)),
            graph_closed(*old(graph)) && old(graph).has_entity(project@) ==> graph_closed(*graph),
            fresh ==> forall|q: int| 0 <= q < input.actions@.len() ==> action_slot_ok(*graph, #[trigger] input.actions@[q], project@),
            fresh ==> forall|x: Seq<char>| #[trigger] graph.has_entity(x) ==> old(graph).has_entity(x) || is_action_entity_of(input.actions@, x),
            fresh ==> forall|x: Seq<char>| #[trigger] graph.has_relationship(x) ==> old(graph).has_relationship(x)
                || is_action_link_of(input.actions@, project@, x),
        decreases input.actions@.len() - i,
    {
        let action = &input.actions[i];
        let ghost g0 = *graph;
        let entity = ProjectEntity::new(
            EntityKind::Action,
            action.id.clone(),
            action.id.clone(),
            InformationClassification::Observed,
            action.confidence,
            clone_evidence(&action.evidence),
        );
        let action_entity = match add_linked(
            graph,
            entity,
            ProjectRelationshipKind::ProvidesAction,
            project,
            false,
            InformationClassification::Observed,
            action.confidence,
            clone_evidence(&action.evidence),
        ) {
            Ok(id) => id,
            Err(e) => {
                return Err(e);
            },
        };
        let ghost g1 = *graph;
        let ghost e = action_entity_id(action.id@);
        proof {
            if fresh {
                assert(action_entity@ == e);
                assert(action_slot_ok(g0, input.actions@[i as int], project@));
                assert(provides_link_id(project@, e) != validates_link_id(e, project@));
                let v = validates_link_id(e, project@);
                assert forall|j: int| #[trigger] first_relationship(g1.relationships@, v, j) implies g1.relationships@[j].kind
                    == ProjectRelationshipKind::ActionValidatesProject && g1.relationships@[j].source@ == e
                    && g1.relationships@[j].target@ == project@ && g1.relationships@[j].classification
                    == InformationClassification::Observed by {
                    assert(first_relationship(g0.relationships@, v, j));
                }
            }
        }
        let validates = ProjectRelationship::new(
            ProjectRelationshipKind::ActionValidatesProject,
            action_entity.duplicate(),
            project.duplicate(),
            InformationClassification::Observed,
            action.confidence,
            clone_evidence(&action.evidence),
        )?;
        let ghost x0 = validates;
        let linked = graph.relationship(validates);
        proof {
            lemma_relationship_firsts(g1.relationships@, graph.relationships@, x0, linked is Ok);
        }
        linked?;
        proof {
            lemma_action_step(*old(graph), g0, g1, *graph, *input, project@, i as int, x0);
            if fresh {
                lemma_same_entities(g1, *graph);
                reveal(entities_within);
                reveal(relationships_within);
                assert forall|x: Seq<char>| #[trigger] graph.has_entity(x) implies old(graph).has_entity(x)
                    || is_action_entity_of(input.actions@, x) by {
                    assert(g1.has_entity(x));
                    if x != e {
                        assert(g0.has_entity(x));
                    }
                }
                assert forall|x: Seq<char>| #[trigger] graph.has_relationship(x) implies old(graph).has_relationship(x)
                    || is_action_link_of(input.actions@, project@, x) by {
                    if x != x0.id@ {
                        assert(g1.has_relationship(x));
                        if x != provides_link_id(project@, e) {
                            assert(g0.has_relationship(x));
                        }
                    }
                }
                lemma_action_slots(*old(graph), g0, g1, *graph, input.actions@, i as int, project@);
            }
            lemma_grows_trans(g0, g1, *graph);
            lemma_grows_trans(*old(graph), g0, *graph);
            lemma_same_entities(*graph, g1);
            let e = action_entity_id(action.id@);
            assert(g1.has_entity(e));
            assert(g1.has_relationship(relationship_id(ProjectRelationshipKind::ProvidesAction, project@, e)));
            assert forall|q: int| 0 <= q < i + 1 implies action_present(*graph, #[trigger] input.actions@[q], project@) by {
                if q < i {
                    assert(action_present(g0, input.actions@[q], project@));
                }
            }
        }
        actions.push((action.id.clone(), action_entity));
        i = i + 1;
    }
    let ghost g2 = *graph;
    proof {
        if graph_closed(*old(graph)) && old(graph).has_entity(project@) {
            assert forall|w: int| 0 <= w < actions@.len() implies g2.has_entity((#[trigger] actions@[w]).1@) by {
                assert(action_present(g2, input.actions@[w], project@));
            }
        }
        if fresh {
            lemma_actions_to_caps(*old(graph), g2, *input, project@, actions@, true);
        }
    }
    let controlled = add_capabilities(graph, &input.execution_capabilities.controlled_actions, true, &actions)?;
    let ghost g3 = *graph;
    proof {
        if fresh {
            lemma_actions_to_caps(*old(graph), g2, *input, project@, actions@, false);
            lemma_dry_after_controlled(g2, g3, *input, actions@);
        }
    }
    let dry = add_capabilities(graph, &input.execution_capabilities.dry_run_only_actions, false, &actions)?;
    proof {
        lemma_grows_trans(g2, g3, *graph);
        lemma_grows_trans(*old(graph), g2, *graph);
        lemma_actions_within(*old(graph), g2, g3, *graph, *input, project@);
        if graph_closed(*old(graph)) && old(graph).has_entity(project@) {
            assert forall|w: int| 0 <= w < actions@.len() implies g3.has_entity((#[trigger] actions@[w]).1@) by {
                assert(g2.has_entity(actions@[w].1@));
            }
        }
        assert forall|q: int| 0 <= q < input.actions@.len() implies action_present(*graph, #[trigger] input.actions@[q], project@) by {
            assert(action_present(g2, input.actions@[q], project@));
        }
        let caps = input.execution_capabilities;
        assert forall|j: int| 0 <= j < caps.controlled_actions@.len() implies capability_present(
            *graph,
            true,
            (#[trigger] caps.controlled_actions@[j])@,
        ) by {
            assert(capability_present(g3, true, caps.controlled_actions@[j]@));
        }
    }
    Ok(ActionEntityReferences { actions, controlled_execution_capabilities: controlled, dry_run_only_capabilities: dry })
}

/// How many claims of the list have the category.
pub open spec fn category_count(claims: Seq<KnowledgeClaimInput>, c: KnowledgeCategoryInput) -> nat
    decreases claims.len(),
{
    if claims.len() == 0 {
        0
    } else {
        category_count(claims.drop_last(), c) + if claims.last().category == c {
            1nat
        } else {
            0nat
        }
    }
}

proof fn lemma_category_count_bound(claims: Seq<KnowledgeClaimInput>, c: KnowledgeCategoryInput)
    ensures
        category_count(claims, c) <= claims.len(),
    decreases claims.len(),
{
    if claims.len() > 0 {
        lemma_category_count_bound(claims.drop_last(), c);
    }
}

/// Verification claims are ordered by creation time, then identifier.
pub open spec fn claim_order_key(c: KnowledgeClaimInput) -> Seq<u32> {
    str_key(c.created_at@) + str_key(c.id@)
}

pub open spec fn is_verification(c: KnowledgeClaimInput) -> bool {
    c.category == KnowledgeCategoryInput::Verification
}

pub open spec fn has_verification(claims: Seq<KnowledgeClaimInput>) -> bool {
    exists|j: int| 0 <= j < claims.len() && is_verification(#[trigger] claims[j])
}

/// Claim `k` is the latest verification: no verification orders after it, and
/// of two that order alike the later in the list wins.
pub open spec fn is_latest_verification(claims: Seq<KnowledgeClaimInput>, k: int) -> bool {
    &&& 0 <= k < claims.len()
    &&& is_verification(claims[k])
    &&& forall|j: int|
        0 <= j < claims.len() && j != k && is_verification(#[trigger] claims[j]) ==> if j < k {
            !key_lt(claim_order_key(claims[k]), claim_order_key(claims[j]))
        } else {
            key_lt(claim_order_key(claims[j]), claim_order_key(claims[k]))
        }
}

/// What the knowledge claims contribute to the report.
pub struct KnowledgeBuild {
    pub summary: KnowledgeSummary,
    pub latest: Option<usize>,
    pub latest_verification: Option<VerificationRuleInput>,
    pub decision_count: usize,
}

fn claim_key(c: &KnowledgeClaimInput) -> (k: Vec<u32>)
    ensures
        k@ == claim_order_key(*c),
{
    let mut k = Vec::new();
    crate::order::push_str_key(&mut k, c.created_at.as_str());
    crate::order::push_str_key(&mut k, c.id.as_str());
    assert(k@ =~= claim_order_key(*c));
    k
}

proof fn lemma_latest_step(claims: Seq<KnowledgeClaimInput>, b: int, i: int, take_new: bool)
    requires
        0 <= i < claims.len(),
        is_latest_verification(claims.take(i), b),
        is_verification(claims[i]),
        take_new <==> !key_lt(claim_order_key(claims[i]), claim_order_key(claims[b])),
    ensures
        is_latest_verification(claims.take(i + 1), if take_new { i } else { b }),
{
    let t = claims.take(i);
    let u = claims.take(i + 1);
    assert(t[b] == claims[b]);
    let kb = claim_order_key(claims[b]);
    let ki = claim_order_key(claims[i]);
    if take_new {
        assert forall|j: int| 0 <= j < u.len() && j != i && is_verification(#[trigger] u[j]) implies !key_lt(ki, claim_order_key(u[j])) by {
            assert(u[j] == t[j]);
            let kj = claim_order_key(u[j]);
            if j == b {
            } else if j < b {
                // kj <= kb <= ki
                lemma_key_lt_total(kb, ki);
                lemma_key_lt_total(kj, kb);
                if key_lt(ki, kj) {
                    if key_lt(kb, ki) {
                        lemma_key_lt_transitive(kb, ki, kj);
                    }
                    if kj == kb {
                    } else {
                        assert(key_lt(kj, kb));
                        if kb == ki {
                            lemma_key_lt_asymmetric(kj, kb);
                        } else {
                            lemma_key_lt_transitive(kj, kb, ki);
                            lemma_key_lt_asymmetric(kj, ki);
                        }
                    }
                }
            } else {
                // kj < kb <= ki
                assert(key_lt(kj, kb));
                lemma_key_lt_total(kb, ki);
                if kb == ki {
                    lemma_key_lt_asymmetric(kj, ki);
                } else {
                    assert(key_lt(kb, ki));
                    lemma_key_lt_transitive(kj, kb, ki);
                    lemma_key_lt_asymmetric(kj, ki);
                }
            }
        }
    } else {
        assert forall|j: int| 0 <= j < u.len() && j != b && is_verification(#[trigger] u[j]) implies (if j < b {
            !key_lt(kb, claim_order_key(u[j]))
        } else {
            key_lt(claim_order_key(u[j]), kb)
        }) by {
            if j < i {
                assert(u[j] == t[j]);
            }
        }
    }
}

proof fn lemma_latest_first(claims: Seq<KnowledgeClaimInput>, i: int)
    requires
        0 <= i < claims.len(),
        !has_verification(claims.take(i)),
        is_verification(claims[i]),
    ensures
        is_latest_verification(claims.take(i + 1), i),
{
    let u = claims.take(i + 1);
    assert forall|j: int| 0 <= j < u.len() && j != i && is_verification(#[trigger] u[j]) implies false by {
        assert(claims.take(i)[j] == u[j]);
    }
}

/// The kind of entity a claim of the category becomes.
pub open spec fn claim_entity_kind(c: KnowledgeCategoryInput) -> EntityKind {
    match c {
        KnowledgeCategoryInput::Decision => EntityKind::Decision,
        KnowledgeCategoryInput::Verification => EntityKind::Verification,
        _ => EntityKind::KnowledgeClaim,
    }
}

/// The kind of link from a claim's entity to the project.
pub open spec fn claim_link_kind(c: KnowledgeCategoryInput) -> ProjectRelationshipKind {
    match c {
        KnowledgeCategoryInput::Decision => ProjectRelationshipKind::DecisionGovernsEntity,
        KnowledgeCategoryInput::Verification => ProjectRelationshipKind::VerificationAppliesToProject,
        _ => ProjectRelationshipKind::ClaimSupportsEntity,
    }
}

/// The identifier of a claim's entity.
/// The classification of a claim's entity: an operator's decision, or
/// observed.
pub open spec fn claim_classification(c: KnowledgeCategoryInput) -> InformationClassification {
    match c {
        KnowledgeCategoryInput::Decision => InformationClassification::OperatorDecided,
        _ => InformationClassification::Observed,
    }
}

/// The claim's entity, with its kind, predicate as name and classification,
/// is in the graph.
pub open spec fn claim_shown(g: GraphBuilder, c: KnowledgeClaimInput) -> bool {
    entity_like(g, claim_entity_id(c), claim_entity_kind(c.category), c.predicate@, claim_classification(c.category))
}

pub open spec fn claim_entity_id(c: KnowledgeClaimInput) -> Seq<char> {
    entity_id(claim_entity_kind(c.category), c.id@, c.predicate@)
}

/// The identifier of the link from a claim's entity to the project.
pub open spec fn claim_link_id(c: KnowledgeClaimInput, project: Seq<char>) -> Seq<char> {
    relationship_id(claim_link_kind(c.category), claim_entity_id(c), project)
}

/// Two claims of the same category, identifier and predicate: their
/// entities and links are merged.
pub open spec fn same_claim(a: KnowledgeClaimInput, b: KnowledgeClaimInput) -> bool {
    &&& a.category == b.category
    &&& a.id@ == b.id@
    &&& a.predicate@ == b.predicate@
}

/// Every claim has an identifier and a predicate; no claim's entity is the
/// project or is in the graph, nor is its link; two claims share neither
/// unless they are the same claim.
pub open spec fn knowledge_fresh(g: GraphBuilder, claims: Seq<KnowledgeClaimInput>, project: Seq<char>) -> bool {
    &&& forall|i: int|
        0 <= i < claims.len() ==> {
            &&& (#[trigger] claims[i]).id@.len() > 0
            &&& claims[i].predicate@.len() > 0
            &&& claim_entity_id(claims[i]) != project
            &&& !g.has_entity(claim_entity_id(claims[i]))
            &&& !g.has_relationship(claim_link_id(claims[i], project))
        }
    &&& forall|i: int, j: int|
        0 <= i < j < claims.len() ==> same_claim(#[trigger] claims[i], #[trigger] claims[j]) || {
            &&& claim_entity_id(claims[i]) != claim_entity_id(claims[j])
            &&& claim_link_id(claims[i], project) != claim_link_id(claims[j], project)
        }
}

/// The first entity with the claim's identifier, if any, is the claim's, and
/// so is the first link with its link's identifier.
pub open spec fn claim_slot_ok(g: GraphBuilder, c: KnowledgeClaimInput, project: Seq<char>) -> bool {
    &&& first_like(
        g.entities@,
        claim_entity_id(c),
        claim_entity_kind(c.category),
        c.predicate@,
        claim_classification(c.category),
        c.id@,
    )
    &&& first_rel_like(
        g.relationships@,
        claim_link_id(c, project),
        claim_link_kind(c.category),
        claim_entity_id(c),
        project,
        claim_classification(c.category),
    )
}

/// Adding claim `i` keeps every claim's slot.
proof fn lemma_claim_slots(
    start: GraphBuilder,
    g0: GraphBuilder,
    g: GraphBuilder,
    claims: Seq<KnowledgeClaimInput>,
    i: int,
    project: Seq<char>,
)
    requires
        0 <= i < claims.len(),
        knowledge_fresh(start, claims, project),
        forall|k: int| 0 <= k < claims.len() ==> claim_slot_ok(g0, #[trigger] claims[k], project),
        firsts_kept_except(g0.entities@, g.entities@, claim_entity_id(claims[i])),
        first_like(
            g.entities@,
            claim_entity_id(claims[i]),
            claim_entity_kind(claims[i].category),
            claims[i].predicate@,
            claim_classification(claims[i].category),
            claims[i].id@,
        ),
        rel_firsts_kept_except(g0.relationships@, g.relationships@, claim_link_id(claims[i], project)),
        first_rel_like(
            g.relationships@,
            claim_link_id(claims[i], project),
            claim_link_kind(claims[i].category),
            claim_entity_id(claims[i]),
            project,
            claim_classification(claims[i].category),
        ),
    ensures
        forall|k: int| 0 <= k < claims.len() ==> claim_slot_ok(g, #[trigger] claims[k], project),
{
    let ci = claims[i];
    assert forall|k: int| 0 <= k < claims.len() implies claim_slot_ok(g, #[trigger] claims[k], project) by {
        let ck = claims[k];
        assert(claim_slot_ok(g0, ck, project));
        if k < i {
            assert(same_claim(ck, ci) || {
                &&& claim_entity_id(ck) != claim_entity_id(ci)
                &&& claim_link_id(ck, project) != claim_link_id(ci, project)
            });
        } else if k > i {
            assert(same_claim(ci, ck) || {
                &&& claim_entity_id(ci) != claim_entity_id(ck)
                &&& claim_link_id(ci, project) != claim_link_id(ck, project)
            });
        }
        if claim_entity_id(ck) != claim_entity_id(ci) {
            let x = claim_entity_id(ck);
            assert forall|j: int| #[trigger] first_entity(g.entities@, x, j) implies g.entities@[j].kind == claim_entity_kind(ck.category)
                && g.entities@[j].name@ == ck.predicate@ && g.entities@[j].classification == claim_classification(ck.category)
                && g.entities@[j].semantic_key@ == ck.id@ by {
                assert(first_entity(g0.entities@, x, j));
            }
        }
        if claim_link_id(ck, project) != claim_link_id(ci, project) {
            let x = claim_link_id(ck, project);
            assert forall|j: int| #[trigger] first_relationship(g.relationships@, x, j) implies g.relationships@[j].kind
                == claim_link_kind(ck.category) && g.relationships@[j].source@ == claim_entity_id(ck)
                && g.relationships@[j].target@ == project && g.relationships@[j].classification == claim_classification(
                ck.category,
            ) by {
                assert(first_relationship(g0.relationships@, x, j));
            }
        }
    }
}

/// The entity identifiers of the claims.
pub open spec fn claim_entities_set(claims: Seq<KnowledgeClaimInput>) -> Set<Seq<char>> {
    Set::new(|x: Seq<char>| exists|j: int| 0 <= j < claims.len() && x == claim_entity_id(#[trigger] claims[j]))
}

/// The links from the claims' entities to the project.
pub open spec fn claim_links_set(claims: Seq<KnowledgeClaimInput>, project: Seq<char>) -> Set<Seq<char>> {
    Set::new(|x: Seq<char>| exists|j: int| 0 <= j < claims.len() && x == claim_link_id(#[trigger] claims[j], project))
}

/// The claim's entity and its link to the project are in the graph.
pub open spec fn claim_present(g: GraphBuilder, c: KnowledgeClaimInput, project: Seq<char>) -> bool {
    g.has_entity(claim_entity_id(c)) && g.has_relationship(claim_link_id(c, project))
}

#[verifier::rlimit(80)]
#[verifier::spinoff_prover]
fn build_knowledge(
    graph: &mut GraphBuilder,
    input: &ProjectIntelligenceInput,
    project: &EntityId,
) -> (r: Result<KnowledgeBuild, IntelligenceError>)
    ensures
        r is Ok ==> forall|j: int| 0 <= j < input.knowledge.claims@.len() ==> claim_shown(*final(graph), #[trigger] input.knowledge.claims@[j]),
        entity_ids_unique(*old(graph)) ==> entity_ids_unique(*final(graph)),
        r matches Ok(b) ==> {
            let claims = input.knowledge.claims@;
            &&& b.summary.facts == category_count(claims, KnowledgeCategoryInput::Fact)
            &&& b.summary.decisions == category_count(claims, KnowledgeCategoryInput::Decision)
            &&& b.summary.verifications == category_count(claims, KnowledgeCategoryInput::Verification)
            &&& b.summary.goals == category_count(claims, KnowledgeCategoryInput::Goal)
            &&& b.decision_count == b.summary.decisions
            &&& (b.latest is None <==> !has_verification(claims))
            &&& (b.latest is None <==> b.latest_verification is None)
            &&& b.latest matches Some(k) ==> (is_latest_verification(claims, k as int)
                && (b.latest_verification matches Some(v) && v.claim_id@ == claims[k as int].id@
                && v.validity == claims[k as int].validity && v.entity@ == claim_entity_id(claims[k as int])))
        },
        knowledge_fresh(*old(graph), input.knowledge.claims@, project@) ==> r is Ok,
        r is Ok ==> graph_grows(*old(graph), *final(graph)),
        r is Ok ==> entities_within(*old(graph), *final(graph), claim_entities_set(input.knowledge.claims@)),
        r is Ok ==> relationships_within(*old(graph), *final(graph), claim_links_set(input.knowledge.claims@, project@)),
        r is Ok && graph_closed(*old(graph)) && old(graph).has_entity(project@) ==> graph_closed(*final(graph)),
        r is Ok ==> forall|j: int|
            0 <= j < input.knowledge.claims@.len() ==> claim_present(
                *final(graph),
                #[trigger] input.knowledge.claims@[j],
                project@,
            ),
{
    let ghost fresh = knowledge_fresh(*old(graph), input.knowledge.claims@, project@);
    proof {
        lemma_within_start(*graph, claim_entities_set(input.knowledge.claims@), claim_links_set(input.knowledge.claims@, project@));
    }
    let claims = &input.knowledge.claims;
    let mut summary = KnowledgeSummary { facts: 0, decisions: 0, verifications: 0, goals: 0 };
    let mut latest: Option<usize> = None;
    let mut latest_verification: Option<VerificationRuleInput> = None;
    let mut i: usize = 0;
    while i < claims.len()
        invariant
            entity_ids_unique(*old(graph)) ==> entity_ids_unique(*graph),
            i <= claims@.len(),
            claims@ == input.knowledge.claims@,
            summary.facts == category_count(claims@.take(i as int), KnowledgeCategoryInput::Fact),
            summary.decisions == category_count(claims@.take(i as int), KnowledgeCategoryInput::Decision),
            summary.verifications == category_count(claims@.take(i as int), KnowledgeCategoryInput::Verification),
            summary.goals == category_count(claims@.take(i as int), KnowledgeCategoryInput::Goal),
            latest is None <==> !has_verification(claims@.take(i as int)),
            latest is None <==> latest_verification is None,
            latest matches Some(k) ==> (k < i && is_latest_verification(claims@.take(i as int), k as int)
                && (latest_verification matches Some(v) && v.claim_id@ == claims@[k as int].id@
                && v.validity == claims@[k as int].validity && v.entity@ == claim_entity_id(claims@[k as int]))),
            fresh == knowledge_fresh(*old(graph), claims@, project@),
            entities_within(*old(graph), *graph, claim_entities_set(claims@)),
            relationships_within(*old(graph), *graph, claim_links_set(claims@, project@)),
            graph_closed(*old(graph)) && old(graph).has_entity(project@) ==> graph_closed(*graph),
            graph_grows(*old(graph), *graph),
            forall|k: int| 0 <= k < i ==> claim_present(*graph, #[trigger] claims@[k], project@),
            forall|k: int| 0 <= k < i ==> claim_shown(*graph, #[trigger] claims@[k]),
            fresh ==> forall|k: int| 0 <= k < claims@.len() ==> claim_slot_ok(*graph, #[trigger] claims@[k], project@),
        decreases claims@.len() - i,
    {
        let claim = &claims[i];
        let ghost g0 = *graph;
        proof {
            let t = claims@.take(i as int);
            let u = claims@.take(i + 1);
            assert(u.drop_last() =~= t);
            assert(u.last() == claims@[i as int]);
            lemma_category_count_bound(t, claim.category);
            lemma_category_count_bound(t, KnowledgeCategoryInput::Fact);
            lemma_category_count_bound(t, KnowledgeCategoryInput::Decision);
            lemma_category_count_bound(t, KnowledgeCategoryInput::Verification);
            lemma_category_count_bound(t, KnowledgeCategoryInput::Goal);
        }
        match claim.category {
            KnowledgeCategoryInput::Fact => summary.facts = summary.facts + 1,
            KnowledgeCategoryInput::Decision => summary.decisions = summary.decisions + 1,
            KnowledgeCategoryInput::Verification => summary.verifications = summary.verifications + 1,
            KnowledgeCategoryInput::Goal => summary.goals = summary.goals + 1,
        }
        let kind = match claim.category {
            KnowledgeCategoryInput::Decision => EntityKind::Decision,
            KnowledgeCategoryInput::Verification => EntityKind::Verification,
            _ => EntityKind::KnowledgeClaim,
        };
        let classification = match claim.category {
            KnowledgeCategoryInput::Decision => InformationClassification::OperatorDecided,
            _ => InformationClassification::Observed,
        };
        let entity = ProjectEntity::new(
            kind,
            claim.id.clone(),
            claim.predicate.clone(),
            classification,
            claim.confidence,
            one_ref(IntelligenceEvidenceRef::KnowledgeClaim { claim_id: claim.id.clone() }),
        );
        let relationship_kind = match kind {
            EntityKind::Decision => ProjectRelationshipKind::DecisionGovernsEntity,
            EntityKind::Verification => ProjectRelationshipKind::VerificationAppliesToProject,
            _ => ProjectRelationshipKind::ClaimSupportsEntity,
        };
        assert(kind == claim_entity_kind(claim.category));
        assert(relationship_kind == claim_link_kind(claim.category));
        assert(classification == claim_classification(claim.category));
        let id = match add_linked(
            graph,
            entity,
            relationship_kind,
            project,
            true,
            classification,
            claim.confidence,
            one_ref(IntelligenceEvidenceRef::KnowledgeClaim { claim_id: claim.id.clone() }),
        ) {
            Ok(id) => id,
            Err(e) => {
                return Err(e);
            },
        };
        proof {
            lemma_grows_trans(*old(graph), g0, *graph);
            assert(claim_entities_set(claims@).contains(claim_entity_id(claims@[i as int])));
            assert(claim_links_set(claims@, project@).contains(claim_link_id(claims@[i as int], project@)));
            lemma_within_step(*old(graph), g0, *graph, claim_entities_set(claims@), claim_links_set(claims@, project@), claim_entity_id(claims@[i as int]), claim_link_id(claims@[i as int], project@));
            if graph_closed(*old(graph)) && old(graph).has_entity(project@) {
                assert(g0.has_entity(project@));
            }
            assert forall|k: int| 0 <= k < i + 1 implies claim_present(*graph, #[trigger] claims@[k], project@) by {
                if k < i {
                    assert(claim_present(g0, claims@[k], project@));
                }
            }
            assert forall|k: int| 0 <= k < i + 1 implies claim_shown(*graph, #[trigger] claims@[k]) by {
                if k < i {
                    assert(claim_shown(g0, claims@[k]));
                    lemma_like_kept(g0, *graph, claim_entity_id(claims@[k]), claim_entity_kind(claims@[k].category),
                        claims@[k].predicate@, claim_classification(claims@[k].category));
                }
            }
            if fresh {
                lemma_claim_slots(*old(graph), g0, *graph, claims@, i as int, project@);
            }
        }
        let ghost before = latest;
        if claim.category == KnowledgeCategoryInput::Verification {
            let take_new = match latest {
                None => true,
                Some(b) => compare_keys(&claim_key(claim), &claim_key(&claims[b])) >= 0,
            };
            proof {
                match latest {
                    None => {
                        lemma_latest_first(claims@, i as int);
                    },
                    Some(b) => {
                        lemma_latest_step(claims@, b as int, i as int, take_new);
                    },
                }
            }
            if take_new {
                latest = Some(i);
                latest_verification = Some(
                    VerificationRuleInput {
                        claim_id: claim.id.clone(),
                        validity: claim.validity,
                        entity: id,
                    },
                );
            }
        } else {
            proof {
                let u = claims@.take(i + 1);
                let t = claims@.take(i as int);
                match latest {
                    None => {
                        assert forall|j: int| 0 <= j < u.len() implies !is_verification(#[trigger] u[j]) by {
                            if j < i {
                                assert(u[j] == t[j]);
                            }
                        }
                    },
                    Some(b) => {
                        assert forall|j: int| 0 <= j < u.len() && j != b && is_verification(#[trigger] u[j]) implies (if j < b {
                            !key_lt(claim_order_key(u[b as int]), claim_order_key(u[j]))
                        } else {
                            key_lt(claim_order_key(u[j]), claim_order_key(u[b as int]))
                        }) by {
                            assert(u[j] == t[j]);
                            assert(u[b as int] == t[b as int]);
                        }
                    },
                }
            }
        }
        proof {
            let u = claims@.take(i + 1);
            let t = claims@.take(i as int);
            if latest is Some && before is None {
            }
            if latest is None {
                assert forall|j: int| 0 <= j < u.len() implies !is_verification(#[trigger] u[j]) by {
                    if j < i {
                        assert(u[j] == t[j]);
                    }
                }
            } else {
                let k = latest->0 as int;
                assert(is_verification(u[k]));
            }
        }
        i = i + 1;
    }
    proof {
        assert(claims@.take(claims@.len() as int) =~= claims@);
    }
    let decision_count = summary.decisions;
    Ok(KnowledgeBuild { summary, latest, latest_verification, decision_count })
}

/// `w` is the least of the values: present, and no value orders before it.
pub open spec fn least_text(values: Seq<String>, w: Seq<char>) -> bool {
    &&& has_text(values, w)
    &&& forall|i: int| 0 <= i < values.len() ==> !key_lt(str_key((#[trigger] values[i])@), str_key(w))
}

proof fn lemma_first_is_least(s: Seq<String>, values: Seq<String>)
    requires
        sorted_unique_of(s, values),
        s.len() > 0,
    ensures
        least_text(values, s[0]@),
{
    assert(values.contains(s[0]));
    let j = choose|j: int| 0 <= j < values.len() && values[j] == s[0];
    assert(values[j]@ == s[0]@);
    assert forall|i: int| 0 <= i < values.len() implies !key_lt(str_key((#[trigger] values[i])@), str_key(s[0]@)) by {
        assert(has_key(s, values[i].sort_key()));
        let x = choose|x: int| 0 <= x < s.len() && #[trigger] s[x].sort_key() == values[i].sort_key();
        if x == 0 {
            lemma_key_lt_irreflexive(str_key(s[0]@));
        } else {
            assert(key_lt(s[0].sort_key(), s[x].sort_key()));
            lemma_key_lt_asymmetric(s[0].sort_key(), s[x].sort_key());
        }
    }
}

pub open spec fn text_available(a: Availability<String>, t: Seq<char>) -> bool {
    a matches Availability::Available(x) && x@ == t
}

/// An optional text as available, or as the given status when absent.
pub open spec fn optional_text(a: Availability<String>, o: Option<String>, absent: Availability<String>) -> bool {
    match o {
        Some(t) => text_available(a, t@),
        None => a == absent,
    }
}

fn optional_availability(o: &Option<String>, unknown: bool) -> (r: Availability<String>)
    ensures
        optional_text(r, *o, if unknown { Availability::Unknown } else { Availability::Unavailable }),
{
    match o {
        Some(t) => Availability::Available(t.clone()),
        None => if unknown {
            Availability::Unknown
        } else {
            Availability::Unavailable
        },
    }
}

/// The identity section of the report for an input.
pub open spec fn identity_spec(input: ProjectIntelligenceInput, m: IdentityModel) -> bool {
    &&& optional_text(m.project_type, input.project.project_type, Availability::Unknown)
    &&& sorted_unique_of(m.languages@, input.context.languages@)
    &&& sorted_unique_of(m.build_systems@, input.context.build_systems@)
    &&& (input.context.workspace_kinds@.len() == 0 <==> m.workspace is Unavailable)
    &&& m.workspace matches Availability::Available(w) ==> least_text(
        input.context.workspace_kinds@,
        w@,
    )
    &&& m.workspace !is Unknown
    &&& m.package_count == input.context.packages@.len()
}

fn identity_model(input: &ProjectIntelligenceInput) -> (m: IdentityModel)
    ensures
        identity_spec(*input, m),
{
    let kinds = sorted_set(&input.context.workspace_kinds);
    let workspace = if kinds.len() == 0 {
        proof {
            if input.context.workspace_kinds@.len() > 0 {
                assert(has_key(kinds@, input.context.workspace_kinds@[0].sort_key()));
            }
        }
        Availability::Unavailable
    } else {
        proof {
            lemma_first_is_least(kinds@, input.context.workspace_kinds@);
            let j = choose|j: int| 0 <= j < input.context.workspace_kinds@.len() && #[trigger] input.context.workspace_kinds@[j]@ == kinds@[0]@;
        }
        Availability::Available(kinds[0].clone())
    };
    IdentityModel {
        project_type: optional_availability(&input.project.project_type, true),
        languages: sorted_set(&input.context.languages),
        build_systems: sorted_set(&input.context.build_systems),
        workspace,
        package_count: input.context.packages.len(),
    }
}

/// Two packages of the input have different entity identifiers.
pub open spec fn distinct_packages(packages: Seq<WorkspacePackageInput>) -> bool {
    exists|a: int, b: int|
        0 <= a < packages.len() && 0 <= b < packages.len() && package_entity_id(#[trigger] packages[a])
            != package_entity_id(#[trigger] packages[b])
}

proof fn lemma_distinct_packages(ids: Seq<EntityId>, packages: Seq<WorkspacePackageInput>)
    requires
        keys_strictly_sorted(ids),
        forall|i: int| 0 <= i < ids.len() ==> from_some_package(#[trigger] ids[i]@, packages),
        forall|j: int| 0 <= j < packages.len() ==> package_listed(ids, #[trigger] packages[j]),
    ensures
        ids.len() > 1 <==> distinct_packages(packages),
{
    if ids.len() > 1 {
        assert(key_lt(ids[0].sort_key(), ids[1].sort_key()));
        lemma_key_lt_irreflexive(ids[0].sort_key());
        assert(ids[0]@ != ids[1]@);
        assert(from_some_package(ids[0]@, packages));
        assert(from_some_package(ids[1]@, packages));
        let a = choose|a: int| 0 <= a < packages.len() && package_entity_id(#[trigger] packages[a]) == ids[0]@;
        let b = choose|b: int| 0 <= b < packages.len() && package_entity_id(#[trigger] packages[b]) == ids[1]@;
        assert(package_entity_id(packages[a]) != package_entity_id(packages[b]));
    }
    if distinct_packages(packages) {
        let (a, b) = choose|a: int, b: int|
            0 <= a < packages.len() && 0 <= b < packages.len() && package_entity_id(#[trigger] packages[a])
                != package_entity_id(#[trigger] packages[b]);
        assert(package_listed(ids, packages[a]));
        assert(package_listed(ids, packages[b]));
        let x = choose|x: int| 0 <= x < ids.len() && (#[trigger] ids[x])@ == package_entity_id(packages[a]);
        let y = choose|y: int| 0 <= y < ids.len() && (#[trigger] ids[y])@ == package_entity_id(packages[b]);
        assert(x != y);
    }
}

pub open spec fn architecture_spec(input: ProjectIntelligenceInput, m: ArchitectureModel) -> bool {
    let detected = input.context.workspace_kinds@.len() > 0;
    &&& m.workspace_detected == if detected {
        Availability::Available(true)
    } else {
        Availability::Unavailable
    }
    &&& if detected && distinct_packages(input.context.packages@) {
        text_available(m.package_structure, "workspace packages detected"@)
    } else {
        m.package_structure is Unavailable
    }
}

fn architecture_model(workspace_detected: bool, package_structure: bool) -> (m: ArchitectureModel)
    ensures
        m.workspace_detected == if workspace_detected {
            Availability::Available(true)
        } else {
            Availability::Unavailable
        },
        if package_structure {
            text_available(m.package_structure, "workspace packages detected"@)
        } else {
            m.package_structure is Unavailable
        },
{
    ArchitectureModel {
        workspace_detected: if workspace_detected {
            Availability::Available(true)
        } else {
            Availability::Unavailable
        },
        package_structure: if package_structure {
            Availability::Available(owned("workspace packages detected"))
        } else {
            Availability::Unavailable
        },
    }
}

pub open spec fn capability_spec(input: ProjectIntelligenceInput, m: CapabilityModel) -> bool {
    let c = input.execution_capabilities;
    &&& sorted_unique_of(m.discovered_actions@, c.discovered_actions@)
    &&& sorted_unique_of(m.controlled_execution_actions@, c.controlled_actions@)
    &&& sorted_unique_of(m.dry_run_only_actions@, c.dry_run_only_actions@)
    &&& sorted_unique_of(m.unsupported_actions@, c.unsupported_actions@)
}

fn capability_model(input: &ProjectIntelligenceInput) -> (m: CapabilityModel)
    ensures
        capability_spec(*input, m),
{
    let c = &input.execution_capabilities;
    CapabilityModel {
        discovered_actions: sorted_set(&c.discovered_actions),
        controlled_execution_actions: sorted_set(&c.controlled_actions),
        dry_run_only_actions: sorted_set(&c.dry_run_only_actions),
        unsupported_actions: sorted_set(&c.unsupported_actions),
    }
}

/// The verification section: the latest verification claim, if any.
pub open spec fn verification_spec(claims: Seq<KnowledgeClaimInput>, m: VerificationModel) -> bool {
    if has_verification(claims) {
        exists|k: int|
            is_latest_verification(claims, k) && {
                let c = #[trigger] claims[k];
                &&& text_available(m.availability, "verification_knowledge"@)
                &&& optional_text(m.latest_action, c.verification_action, Availability::Unavailable)
                &&& optional_text(m.verdict, c.verification_verdict, Availability::Unavailable)
                &&& m.validity == Availability::Available(c.validity)
            }
    } else {
        &&& m.availability is Unavailable
        &&& m.latest_action is Unavailable
        &&& m.verdict is Unavailable
        &&& m.validity is Unavailable
    }
}

fn verification_model(input: &ProjectIntelligenceInput, latest: Option<usize>) -> (m: VerificationModel)
    requires
        latest is None <==> !has_verification(input.knowledge.claims@),
        latest matches Some(k) ==> is_latest_verification(input.knowledge.claims@, k as int),
    ensures
        verification_spec(input.knowledge.claims@, m),
{
    match latest {
        Some(k) => {
            let c = &input.knowledge.claims[k];
            let m = VerificationModel {
                availability: Availability::Available(owned("verification_knowledge")),
                latest_action: optional_availability(&c.verification_action, false),
                verdict: optional_availability(&c.verification_verdict, false),
                validity: Availability::Available(c.validity),
            };
            assert(is_latest_verification(input.knowledge.claims@, k as int));
            m
        },
        None => VerificationModel {
            availability: Availability::Unavailable,
            latest_action: Availability::Unavailable,
            verdict: Availability::Unavailable,
            validity: Availability::Unavailable,
        },
    }
}

pub open spec fn repository_spec(context: ProjectContextInput, m: RepositoryStatus) -> bool {
    &&& optional_text(m.state, context.repository.state, Availability::Unknown)
    &&& m.clean == match context.repository.clean {
        Some(b) => Availability::Available(b),
        None => Availability::Unknown,
    }
    &&& if context.continuous_integration@.len() == 0 {
        m.continuous_integration is Unavailable
    } else {
        m.continuous_integration matches Availability::Available(v) && sorted_unique_of(
            v@,
            context.continuous_integration@,
        )
    }
}

fn repository_model(context: &ProjectContextInput) -> (m: RepositoryStatus)
    ensures
        repository_spec(*context, m),
{
    RepositoryStatus {
        state: optional_availability(&context.repository.state, true),
        clean: match context.repository.clean {
            Some(b) => Availability::Available(b),
            None => Availability::Unknown,
        },
        continuous_integration: if context.continuous_integration.len() == 0 {
            Availability::Unavailable
        } else {
            Availability::Available(sorted_set(&context.continuous_integration))
        },
    }
}

pub const NO_DECISIONS_LIMITATION: &'static str = "No operator-owned decision claims are currently available to the intelligence model.";

/// One limitation when no decision claim exists, none otherwise.
fn limitations(decision_count: usize) -> (r: Vec<ProjectLimitation>)
    ensures
        decision_count != 0 ==> r@.len() == 0,
        decision_count == 0 ==> r@.len() == 1 && r@[0].statement@ == NO_DECISIONS_LIMITATION@,
{
    let mut r = Vec::new();
    if decision_count != 0 {
        return r;
    }
    proof {
        reveal_strlit("No operator-owned decision claims are currently available to the intelligence model.");
    }
    let statement = owned(NO_DECISIONS_LIMITATION);
    match ProjectLimitation::new(
        statement,
        one_ref(IntelligenceEvidenceRef::Input { field: owned("knowledge.decisions") }),
    ) {
        Ok(l) => {
            r.push(l);
        },
        Err(_) => {},
    }
    r
}

/// Some entity of the list has this identifier.
pub open spec fn lists_entity(entities: Seq<ProjectEntity>, id: Seq<char>) -> bool {
    exists|i: int| 0 <= i < entities.len() && (#[trigger] entities[i]).id@ == id
}

fn entities_contain(entities: &Vec<ProjectEntity>, id: &EntityId) -> (r: bool)
    ensures
        r == lists_entity(entities@, id@),
{
    let mut i: usize = 0;
    while i < entities.len()
        invariant
            i <= entities@.len(),
            forall|j: int| 0 <= j < i ==> (#[trigger] entities@[j]).id@ != id@,
        decreases entities@.len() - i,
    {
        if entities[i].id.same(id) {
            return true;
        }
        i = i + 1;
    }
    false
}

/// An insight emitted by one of the rules: derived, with that rule's identifier and statement.
pub open spec fn rule_insight(x: ProjectInsight) -> bool {
    &&& x.classification == InformationClassification::Derived
    &&& exists|r: InsightRule| x.rule_id@ == r.rule_id_spec() && x.statement@ == #[trigger] r.statement()
}

/// The latest verification claim exists and is stale.
pub open spec fn latest_is_stale(claims: Seq<KnowledgeClaimInput>) -> bool {
    exists|k: int|
        is_latest_verification(claims, k) && (#[trigger] claims[k]).validity == VerificationValidity::Stale
}

pub const STALE_RISK: &'static str = "The latest verification is stale for the current project state.";

/// Some insight of the list is the rule's.
pub open spec fn has_rule_insight(v: Seq<ProjectInsight>, rule: InsightRule) -> bool {
    exists|i: int| 0 <= i < v.len() && (#[trigger] v[i]).rule_id@ == rule.rule_id_spec()
}

/// Some action has the identifier.
pub open spec fn action_named(actions: Seq<ActionInput>, id: Seq<char>) -> bool {
    exists|i: int| 0 <= i < actions.len() && (#[trigger] actions[i]).id@ == id
}

/// When each rule gives its insight, in terms of the input: a workspace
/// with packages of more than one identity; a verification together with a
/// discovered and controlled `check` action; a dry-run-only action; a stale
/// latest verification; the operator-decision rule never.
pub open spec fn rule_applies(input: ProjectIntelligenceInput, rule: InsightRule) -> bool {
    let caps = input.execution_capabilities;
    match rule {
        InsightRule::MultiPackageWorkspace => input.context.workspace_kinds@.len() > 0 && distinct_packages(
            input.context.packages@,
        ),
        InsightRule::ControlledVerification => has_verification(input.knowledge.claims@) && action_named(
            input.actions@,
            "check"@,
        ) && has_text(caps.controlled_actions@, "check"@),
        InsightRule::RestrictedActions => caps.dry_run_only_actions@.len() > 0,
        InsightRule::StaleVerification => latest_is_stale(input.knowledge.claims@),
        InsightRule::OperatorDecisionAvailability => false,
        InsightRule::ModularPackageStructure => input.context.workspace_kinds@.len() > 0 && distinct_packages(
            input.context.packages@,
        ),
    }
}

/// The identifier of the latest verification claim.
pub open spec fn latest_claim_id(claims: Seq<KnowledgeClaimInput>) -> Seq<char> {
    claims[choose|k: int| is_latest_verification(claims, k)].id@
}

/// The evidence keys of the dry-run-only actions: each action, and its
/// execution capability.
pub open spec fn dry_evidence_keys(dry: Seq<String>) -> Set<Seq<u32>> {
    Set::new(
        |k: Seq<u32>| exists|a: Seq<char>| #[trigger] has_text(dry, a) && (k == ref_key(2, a) || k == ref_key(3, a)),
    )
}

/// What each rule's insight cites, in terms of the input: the workspace
/// kinds; the `check` action, its capability and the latest verification;
/// each dry-run-only action and its capability; the latest verification;
/// nothing; the workspace packages.
pub open spec fn insight_evidence(input: ProjectIntelligenceInput, rule: InsightRule) -> Set<Seq<u32>> {
    let latest = latest_claim_id(input.knowledge.claims@);
    match rule {
        InsightRule::MultiPackageWorkspace => set![ref_key(0, "workspace.kinds"@)],
        InsightRule::ControlledVerification => set![ref_key(2, "check"@), ref_key(3, "check"@), ref_key(5, latest)],
        InsightRule::RestrictedActions => dry_evidence_keys(input.execution_capabilities.dry_run_only_actions@),
        InsightRule::StaleVerification => set![ref_key(5, latest)],
        InsightRule::OperatorDecisionAvailability => Set::empty(),
        InsightRule::ModularPackageStructure => set![ref_key(0, "workspace.packages"@)],
    }
}

/// The least workspace kind, after which the workspace entity is named.
pub open spec fn least_workspace_kind(input: ProjectIntelligenceInput) -> Seq<char> {
    choose|k: Seq<char>| least_text(input.context.workspace_kinds@, k)
}

/// The keys of the package entities of the input.
pub open spec fn package_keys(input: ProjectIntelligenceInput) -> Set<Seq<u32>> {
    Set::new(
        |k: Seq<u32>|
            exists|j: int|
                0 <= j < input.context.packages@.len() && k == str_key(
                    package_entity_id(#[trigger] input.context.packages@[j]),
                ),
    )
}

/// The key of the entity of the latest verification claim.
pub open spec fn latest_claim_entity_key(claims: Seq<KnowledgeClaimInput>) -> Seq<u32> {
    str_key(claim_entity_id(claims[choose|k: int| is_latest_verification(claims, k)]))
}

/// The entities related to each rule's insight, in terms of the input: the
/// workspace and its packages; the packages; the latest verification; that
/// verification with the `check` action and its controlled capability; each
/// dry-run-only action and its capability; none.
pub open spec fn insight_related_stated(input: ProjectIntelligenceInput, rule: InsightRule, related: Seq<EntityId>) -> bool {
    match rule {
        InsightRule::MultiPackageWorkspace => sorted_with_keys(
            related,
            set![str_key(workspace_entity_id(input, least_workspace_kind(input)))].union(package_keys(input)),
        ),
        InsightRule::ModularPackageStructure => sorted_with_keys(related, package_keys(input)),
        InsightRule::StaleVerification => sorted_with_keys(
            related,
            set![latest_claim_entity_key(input.knowledge.claims@)],
        ),
        InsightRule::ControlledVerification => sorted_with_keys(
            related,
            set![
                latest_claim_entity_key(input.knowledge.claims@),
                str_key(action_entity_id("check"@)),
                str_key(capability_entity_id(true, "check"@)),
            ],
        ),
        InsightRule::RestrictedActions => sorted_with_keys(
            related,
            dry_related_keys(input.execution_capabilities.dry_run_only_actions@),
        ),
        InsightRule::OperatorDecisionAvailability => sorted_with_keys(related, Set::empty()),
    }
}

/// The insight is the one of a rule that applies to the input: its rule,
/// statement, classification, certain confidence, evidence in order, the
/// identifier derived from them, and its related entities.
pub open spec fn insight_reported(input: ProjectIntelligenceInput, x: ProjectInsight) -> bool {
    exists|r: InsightRule|
        #[trigger] rule_applies(input, r) && {
            &&& x.rule_id@ == r.rule_id_spec()
            &&& x.statement@ == r.statement()
            &&& x.classification == InformationClassification::Derived
            &&& x.confidence == IntelligenceConfidence::Certain
            &&& sorted_with_keys(x.evidence@, insight_evidence(input, r))
            &&& x.id@ == insight_id(r.rule_id_spec(), r.statement(), x.evidence@)
            &&& insight_related_stated(input, r, x.related_entities@)
        }
}

proof fn lemma_package_keys(input: ProjectIntelligenceInput, ids: Seq<EntityId>)
    requires
        forall|i: int| 0 <= i < ids.len() ==> from_some_package(#[trigger] ids[i]@, input.context.packages@),
        forall|j: int| 0 <= j < input.context.packages@.len() ==> package_listed(ids, #[trigger] input.context.packages@[j]),
    ensures
        key_set(ids) == package_keys(input),
{
    let pkgs = input.context.packages@;
    assert forall|k: Seq<u32>| key_set(ids).contains(k) <==> package_keys(input).contains(k) by {
        if key_set(ids).contains(k) {
            let i = choose|i: int| 0 <= i < ids.len() && #[trigger] ids[i].sort_key() == k;
            assert(from_some_package(ids[i]@, pkgs));
            let j = choose|j: int| 0 <= j < pkgs.len() && package_entity_id(#[trigger] pkgs[j]) == ids[i]@;
            assert(k == str_key(package_entity_id(pkgs[j])));
        }
        if package_keys(input).contains(k) {
            let j = choose|j: int| 0 <= j < pkgs.len() && k == str_key(package_entity_id(#[trigger] pkgs[j]));
            assert(package_listed(ids, pkgs[j]));
            let i = choose|i: int| 0 <= i < ids.len() && (#[trigger] ids[i])@ == package_entity_id(pkgs[j]);
            assert(has_key(ids, ids[i].sort_key()));
        }
    }
    assert(key_set(ids) =~= package_keys(input));
}

proof fn lemma_workspace_keys(input: ProjectIntelligenceInput, ws: Option<EntityId>)
    requires
        workspace_consistent(input, ws),
        ws is Some,
    ensures
        crate::intelligence::rule::opt_keys(ws) == set![str_key(workspace_entity_id(input, least_workspace_kind(input)))],
{
    let w = ws->0;
    let kk = choose|kk: Seq<char>| #[trigger] least_text(input.context.workspace_kinds@, kk) && w@ == workspace_entity_id(input, kk);
    lemma_least_unique(input.context.workspace_kinds@, kk, least_workspace_kind(input));
}

#[verifier::rlimit(30)]
proof fn lemma_insight_reported(
    input: ProjectIntelligenceInput,
    ctx: RuleContext,
    latest: Option<usize>,
    x: ProjectInsight,
)
    requires
        rule_output_insight(ctx, x),
        forall|r: InsightRule| #[trigger] r.fires(ctx) <==> rule_applies(input, r),
        restricted_evidence_keys(ctx.restricted_actions@) == dry_evidence_keys(
            input.execution_capabilities.dry_run_only_actions@,
        ),
        ctx.verification is Some ==> (latest matches Some(k) && is_latest_verification(
            input.knowledge.claims@,
            k as int,
        ) && ctx.verification->0.claim_id@ == input.knowledge.claims@[k as int].id@
            && ctx.verification->0.entity@ == claim_entity_id(input.knowledge.claims@[k as int])),
        workspace_consistent(input, ctx.workspace_entity),
        key_set(ctx.package_entities@) == package_keys(input),
        action_named(input.actions@, "check"@) ==> (ctx.check_action_entity matches Some(e) && e@ == action_entity_id(
            "check"@,
        )),
        has_text(input.execution_capabilities.controlled_actions@, "check"@) ==> (
        ctx.check_controlled_execution_capability_entity matches Some(e) && e@ == capability_entity_id(true, "check"@)),
        restricted_related_keys(ctx.restricted_actions@) == dry_related_keys(
            input.execution_capabilities.dry_run_only_actions@,
        ),
    ensures
        insight_reported(input, x),
{
    let claims = input.knowledge.claims@;
    let r = choose|r: InsightRule|
        #[trigger] r.fires(ctx) && crate::intelligence::rule::insight_matches(
            x,
            r.rule_id_spec(),
            r.statement(),
            r.evidence_keys(ctx),
            r.related_keys(ctx),
        );
    assert(rule_applies(input, r));
    if ctx.verification is Some {
        let k = latest->0 as int;
        let c = choose|c: int| is_latest_verification(claims, c);
        lemma_latest_unique(claims, k, c);
        assert(latest_claim_id(claims) == ctx.verification->0.claim_id@);
        assert(latest_claim_entity_key(claims) == ctx.verification->0.entity.sort_key());
    }
    match r {
        InsightRule::MultiPackageWorkspace => {
            lemma_workspace_keys(input, ctx.workspace_entity);
            assert(r.evidence_keys(ctx) =~= insight_evidence(input, r));
            assert(r.related_keys(ctx) =~= set![str_key(workspace_entity_id(input, least_workspace_kind(input)))].union(
                package_keys(input),
            ));
        },
        InsightRule::ModularPackageStructure => {
            assert(r.evidence_keys(ctx) =~= insight_evidence(input, r));
        },
        InsightRule::ControlledVerification => {
            assert(r.evidence_keys(ctx) =~= insight_evidence(input, r));
            assert(r.related_keys(ctx) =~= set![
                latest_claim_entity_key(claims),
                str_key(action_entity_id("check"@)),
                str_key(capability_entity_id(true, "check"@)),
            ]);
        },
        InsightRule::StaleVerification => {
            assert(r.evidence_keys(ctx) =~= insight_evidence(input, r));
            assert(r.related_keys(ctx) =~= set![latest_claim_entity_key(claims)]);
        },
        InsightRule::RestrictedActions => {
            assert(r.evidence_keys(ctx) =~= insight_evidence(input, r));
        },
        InsightRule::OperatorDecisionAvailability => {
            assert(r.evidence_keys(ctx) =~= insight_evidence(input, r));
            assert(r.related_keys(ctx) =~= Set::empty());
        },
    }
}

proof fn lemma_text_in_set(set: Seq<String>, values: Seq<String>, w: Seq<char>)
    requires
        sorted_unique_of(set, values),
    ensures
        has_text(set, w) <==> has_text(values, w),
{
    if has_text(set, w) {
        let i = choose|i: int| 0 <= i < set.len() && #[trigger] set[i]@ == w;
        assert(values.contains(set[i]));
        let j = choose|j: int| 0 <= j < values.len() && values[j] == set[i];
        assert(values[j]@ == w);
    }
    if has_text(values, w) {
        let j = choose|j: int| 0 <= j < values.len() && #[trigger] values[j]@ == w;
        assert(has_key(set, values[j].sort_key()));
        let i = choose|i: int| 0 <= i < set.len() && #[trigger] set[i].sort_key() == values[j].sort_key();
        lemma_str_key_injective(set[i]@, values[j]@);
    }
}

/// Each rule fires on the context exactly where it applies to the input.
proof fn lemma_rules_apply(input: ProjectIntelligenceInput, ctx: RuleContext)
    requires
        ctx.workspace_detected <==> input.context.workspace_kinds@.len() > 0,
        ctx.workspace_entity is Some <==> input.context.workspace_kinds@.len() > 0,
        ctx.package_entities@.len() > 1 <==> distinct_packages(input.context.packages@),
        ctx.package_structure_evidence == (ctx.workspace_detected && ctx.package_entities@.len() > 1),
        ctx.verification is Some <==> has_verification(input.knowledge.claims@),
        ctx.verification is Some ==> (ctx.verification->0.validity == VerificationValidity::Stale <==> latest_is_stale(
            input.knowledge.claims@,
        )),
        ctx.discovered_actions@.len() == input.actions@.len(),
        forall|q: int| 0 <= q < ctx.discovered_actions@.len() ==> (#[trigger] ctx.discovered_actions@[q])@ == input.actions@[q].id@,
        sorted_unique_of(ctx.controlled_actions@, input.execution_capabilities.controlled_actions@),
        ctx.restricted_actions@.len() > 0 <==> input.execution_capabilities.dry_run_only_actions@.len() > 0,
    ensures
        forall|r: InsightRule| #[trigger] r.fires(ctx) <==> rule_applies(input, r),
{
    lemma_text_in_set(ctx.controlled_actions@, input.execution_capabilities.controlled_actions@, "check"@);
    if has_text(ctx.discovered_actions@, "check"@) {
        let q = choose|q: int| 0 <= q < ctx.discovered_actions@.len() && #[trigger] ctx.discovered_actions@[q]@ == "check"@;
        assert(input.actions@[q].id@ == "check"@);
    }
    if action_named(input.actions@, "check"@) {
        let q = choose|q: int| 0 <= q < input.actions@.len() && (#[trigger] input.actions@[q]).id@ == "check"@;
        assert(ctx.discovered_actions@[q]@ == "check"@);
    }
    if latest_is_stale(input.knowledge.claims@) {
        let k = choose|k: int|
            is_latest_verification(input.knowledge.claims@, k) && (#[trigger] input.knowledge.claims@[k]).validity
                == VerificationValidity::Stale;
        assert(is_verification(input.knowledge.claims@[k]));
    }
}

/// The insights, sorted, keep each rule's insight.
proof fn lemma_rule_insights_sorted(all: Seq<ProjectInsight>, sorted: Seq<ProjectInsight>)
    requires
        sorted_unique_of(sorted, all),
    ensures
        forall|r: InsightRule| #[trigger] has_rule_insight(sorted, r) <==> has_rule_insight(all, r),
{
    assert forall|r: InsightRule| #[trigger] has_rule_insight(sorted, r) <==> has_rule_insight(all, r) by {
        if has_rule_insight(sorted, r) {
            let i = choose|i: int| 0 <= i < sorted.len() && (#[trigger] sorted[i]).rule_id@ == r.rule_id_spec();
            assert(all.contains(sorted[i]));
            let j = choose|j: int| 0 <= j < all.len() && all[j] == sorted[i];
            assert(all[j].rule_id@ == r.rule_id_spec());
        }
        if has_rule_insight(all, r) {
            let j = choose|j: int| 0 <= j < all.len() && (#[trigger] all[j]).rule_id@ == r.rule_id_spec();
            assert(has_key(sorted, all[j].sort_key()));
            let i = choose|i: int| 0 <= i < sorted.len() && #[trigger] sorted[i].sort_key() == all[j].sort_key();
            crate::order::lemma_str_key_split(sorted[i].rule_id@, all[j].rule_id@, sorted[i].id.sort_key(), all[j].id.sort_key());
            assert(sorted[i].rule_id@ == r.rule_id_spec());
        }
    }
}

/// What a successful analysis reports of its input.
pub open spec fn report_spec(input: ProjectIntelligenceInput, p: ProjectIntelligence) -> bool {
    let claims = input.knowledge.claims@;
    &&& p.schema_version == PROJECT_INTELLIGENCE_SCHEMA_VERSION
    &&& p.project.name@ == input.project.name@
    &&& identity_spec(input, p.identity)
    &&& architecture_spec(input, p.architecture)
    &&& capability_spec(input, p.capabilities)
    &&& verification_spec(claims, p.verification)
    &&& p.knowledge.facts == category_count(claims, KnowledgeCategoryInput::Fact)
    &&& p.knowledge.decisions == category_count(claims, KnowledgeCategoryInput::Decision)
    &&& p.knowledge.verifications == category_count(claims, KnowledgeCategoryInput::Verification)
    &&& p.knowledge.goals == category_count(claims, KnowledgeCategoryInput::Goal)
    &&& repository_spec(input.context, p.repository)
    &&& keys_strictly_sorted(p.entities@)
    &&& keys_strictly_sorted(p.relationships@)
    &&& forall|i: int|
        0 <= i < p.relationships@.len() ==> lists_entity(
            p.entities@,
            (#[trigger] p.relationships@[i]).source@,
        ) && lists_entity(p.entities@, p.relationships@[i].target@)
    &&& keys_strictly_sorted(p.insights@)
    &&& forall|i: int| 0 <= i < p.insights@.len() ==> rule_insight(#[trigger] p.insights@[i])
    &&& forall|r: InsightRule| #[trigger] has_rule_insight(p.insights@, r) <==> rule_applies(input, r)
    &&& keys_strictly_sorted(p.risks@)
    &&& p.risks@.len() == if latest_is_stale(claims) {
        1int
    } else {
        0int
    }
    &&& forall|i: int|
        0 <= i < p.risks@.len() ==> (#[trigger] p.risks@[i]).statement@ == STALE_RISK@
            && p.risks@[i].classification == InformationClassification::Derived
    &&& if category_count(claims, KnowledgeCategoryInput::Decision) == 0 {
        p.limitations@.len() == 1 && p.limitations@[0].statement@ == NO_DECISIONS_LIMITATION@
    } else {
        p.limitations@.len() == 0
    }
}

/// `y` is `x` with its actions and its packages given in another order: as
/// many of each, each one of one found in the other, and all else the same.
pub open spec fn reorders_actions_and_packages(x: ProjectIntelligenceInput, y: ProjectIntelligenceInput) -> bool {
    &&& y.project == x.project
    &&& y.execution_capabilities == x.execution_capabilities
    &&& y.knowledge == x.knowledge
    &&& y.context.workspace_kinds == x.context.workspace_kinds
    &&& y.context.languages == x.context.languages
    &&& y.context.build_systems == x.context.build_systems
    &&& y.context.continuous_integration == x.context.continuous_integration
    &&& y.context.repository == x.context.repository
    &&& y.actions@.len() == x.actions@.len()
    &&& y.context.packages@.len() == x.context.packages@.len()
    &&& forall|i: int| 0 <= i < x.actions@.len() ==> y.actions@.contains(#[trigger] x.actions@[i])
    &&& forall|i: int| 0 <= i < y.actions@.len() ==> x.actions@.contains(#[trigger] y.actions@[i])
    &&& forall|i: int| 0 <= i < x.context.packages@.len() ==> y.context.packages@.contains(#[trigger] x.context.packages@[i])
    &&& forall|i: int| 0 <= i < y.context.packages@.len() ==> x.context.packages@.contains(#[trigger] y.context.packages@[i])
}

proof fn lemma_reordered_facts(x: ProjectIntelligenceInput, y: ProjectIntelligenceInput)
    requires
        reorders_actions_and_packages(x, y),
    ensures
        distinct_packages(x.context.packages@) ==> distinct_packages(y.context.packages@),
        forall|id: Seq<char>| action_named(x.actions@, id) ==> #[trigger] action_named(y.actions@, id),
{
    let xp = x.context.packages@;
    let yp = y.context.packages@;
    if distinct_packages(xp) {
        let (a, b) = choose|a: int, b: int|
            0 <= a < xp.len() && 0 <= b < xp.len() && package_entity_id(#[trigger] xp[a]) != package_entity_id(#[trigger] xp[b]);
        assert(yp.contains(xp[a]) && yp.contains(xp[b]));
        let c = choose|c: int| 0 <= c < yp.len() && yp[c] == xp[a];
        let d = choose|d: int| 0 <= d < yp.len() && yp[d] == xp[b];
        assert(package_entity_id(yp[c]) != package_entity_id(yp[d]));
    }
    assert forall|id: Seq<char>| action_named(x.actions@, id) implies #[trigger] action_named(y.actions@, id) by {
        let i = choose|i: int| 0 <= i < x.actions@.len() && (#[trigger] x.actions@[i]).id@ == id;
        assert(y.actions@.contains(x.actions@[i]));
        let j = choose|j: int| 0 <= j < y.actions@.len() && y.actions@[j] == x.actions@[i];
        assert(y.actions@[j].id@ == id);
    }
}

proof fn lemma_reordered_sets(x: ProjectIntelligenceInput, y: ProjectIntelligenceInput)
    requires
        reorders_actions_and_packages(x, y),
    ensures
        package_entities_set(x.context.packages@).subset_of(package_entities_set(y.context.packages@)),
        package_links_for(x).subset_of(package_links_for(y)),
        package_keys(x).subset_of(package_keys(y)),
        forall|s: Seq<char>| is_action_entity_of(x.actions@, s) ==> #[trigger] is_action_entity_of(y.actions@, s),
        forall|pr: Seq<char>, s: Seq<char>|
            is_action_link_of(x.actions@, pr, s) ==> #[trigger] is_action_link_of(y.actions@, pr, s),
{
    let xp = x.context.packages@;
    let yp = y.context.packages@;
    assert forall|s: Seq<char>| package_entities_set(xp).contains(s) implies package_entities_set(yp).contains(s) by {
        let j = choose|j: int| 0 <= j < xp.len() && s == package_entity_id(#[trigger] xp[j]);
        assert(yp.contains(xp[j]));
        let c = choose|c: int| 0 <= c < yp.len() && yp[c] == xp[j];
        assert(s == package_entity_id(yp[c]));
    }
    assert forall|s: Seq<char>| package_links_for(x).contains(s) implies package_links_for(y).contains(s) by {
        let (k, j) = choose|k: Seq<char>, j: int|
            #[trigger] least_text(x.context.workspace_kinds@, k) && 0 <= j < xp.len() && s
                == package_link_id(workspace_entity_id(x, k), #[trigger] xp[j]);
        assert(yp.contains(xp[j]));
        let c = choose|c: int| 0 <= c < yp.len() && yp[c] == xp[j];
        assert(least_text(y.context.workspace_kinds@, k));
        assert(s == package_link_id(workspace_entity_id(y, k), yp[c]));
    }
    assert forall|k: Seq<u32>| package_keys(x).contains(k) implies package_keys(y).contains(k) by {
        let j = choose|j: int| 0 <= j < xp.len() && k == str_key(package_entity_id(#[trigger] xp[j]));
        assert(yp.contains(xp[j]));
        let c = choose|c: int| 0 <= c < yp.len() && yp[c] == xp[j];
        assert(k == str_key(package_entity_id(yp[c])));
    }
    assert forall|s: Seq<char>| is_action_entity_of(x.actions@, s) implies #[trigger] is_action_entity_of(y.actions@, s) by {
        let q = choose|q: int| 0 <= q < x.actions@.len() && s == action_entity_id((#[trigger] x.actions@[q]).id@);
        assert(y.actions@.contains(x.actions@[q]));
        let c = choose|c: int| 0 <= c < y.actions@.len() && y.actions@[c] == x.actions@[q];
        assert(s == action_entity_id(y.actions@[c].id@));
    }
    assert forall|pr: Seq<char>, s: Seq<char>| is_action_link_of(x.actions@, pr, s) implies #[trigger] is_action_link_of(
        y.actions@,
        pr,
        s,
    ) by {
        let q = choose|q: int|
            0 <= q < x.actions@.len() && (s == provides_link_id(pr, action_entity_id((#[trigger] x.actions@[q]).id@))
                || s == validates_link_id(action_entity_id(x.actions@[q].id@), pr));
        assert(y.actions@.contains(x.actions@[q]));
        let c = choose|c: int| 0 <= c < y.actions@.len() && y.actions@[c] == x.actions@[q];
        assert(y.actions@[c].id@ == x.actions@[q].id@);
    }
}

proof fn lemma_reordered_ids(x: ProjectIntelligenceInput, y: ProjectIntelligenceInput)
    requires
        reorders_actions_and_packages(x, y),
    ensures
        analysis_entity_ids(x) == analysis_entity_ids(y),
        analysis_link_ids(x) == analysis_link_ids(y),
{
    assert(reorders_actions_and_packages(y, x));
    lemma_reordered_sets(x, y);
    lemma_reordered_sets(y, x);
    assert(package_entities_set(x.context.packages@) =~= package_entities_set(y.context.packages@));
    assert(package_links_for(x) =~= package_links_for(y));
    assert(Set::new(|s: Seq<char>| is_action_entity_of(x.actions@, s)) =~= Set::new(
        |s: Seq<char>| is_action_entity_of(y.actions@, s),
    ));
    let pr = project_entity_id(x);
    assert(Set::new(|s: Seq<char>| is_action_link_of(x.actions@, pr, s)) =~= Set::new(
        |s: Seq<char>| is_action_link_of(y.actions@, pr, s),
    ));
    assert(entities_before_packages(x) == entities_before_packages(y));
    assert(links_before_packages(x) == links_before_packages(y));
    assert(entities_before_knowledge(x) =~= entities_before_knowledge(y));
    assert(links_before_knowledge(x) =~= links_before_knowledge(y));
    assert(analysis_entity_ids(x) =~= analysis_entity_ids(y));
    assert(analysis_link_ids(x) =~= analysis_link_ids(y));
}

proof fn lemma_reordered_insights(x: ProjectIntelligenceInput, y: ProjectIntelligenceInput)
    requires
        reorders_actions_and_packages(x, y),
        forall|r: InsightRule| rule_applies(x, r) <==> #[trigger] rule_applies(y, r),
    ensures
        forall|i: ProjectInsight| insight_reported(x, i) <==> #[trigger] insight_reported(y, i),
{
    assert(reorders_actions_and_packages(y, x));
    lemma_reordered_sets(x, y);
    lemma_reordered_sets(y, x);
    assert(package_keys(x) =~= package_keys(y));
    assert(least_workspace_kind(x) == least_workspace_kind(y));
    assert(workspace_entity_id(x, least_workspace_kind(x)) == workspace_entity_id(y, least_workspace_kind(y)));
    assert forall|r: InsightRule| #[trigger] insight_evidence(x, r) == insight_evidence(y, r) by {}
    assert forall|r: InsightRule, rel: Seq<EntityId>|
        #[trigger] insight_related_stated(x, r, rel) == insight_related_stated(y, r, rel) by {}
    assert forall|i: ProjectInsight| insight_reported(x, i) implies #[trigger] insight_reported(y, i) by {
        let r = choose|r: InsightRule| #[trigger] rule_applies(x, r) && {
            &&& i.rule_id@ == r.rule_id_spec()
            &&& i.statement@ == r.statement()
            &&& i.classification == InformationClassification::Derived
            &&& i.confidence == IntelligenceConfidence::Certain
            &&& sorted_with_keys(i.evidence@, insight_evidence(x, r))
            &&& i.id@ == insight_id(r.rule_id_spec(), r.statement(), i.evidence@)
            &&& insight_related_stated(x, r, i.related_entities@)
        };
        assert(rule_applies(y, r));
        assert(insight_evidence(x, r) == insight_evidence(y, r));
        assert(insight_related_stated(x, r, i.related_entities@) == insight_related_stated(y, r, i.related_entities@));
    }
    assert forall|i: ProjectInsight| insight_reported(y, i) implies #[trigger] insight_reported(x, i) by {
        let r = choose|r: InsightRule| #[trigger] rule_applies(y, r) && {
            &&& i.rule_id@ == r.rule_id_spec()
            &&& i.statement@ == r.statement()
            &&& i.classification == InformationClassification::Derived
            &&& i.confidence == IntelligenceConfidence::Certain
            &&& sorted_with_keys(i.evidence@, insight_evidence(y, r))
            &&& i.id@ == insight_id(r.rule_id_spec(), r.statement(), i.evidence@)
            &&& insight_related_stated(y, r, i.related_entities@)
        };
        assert(rule_applies(x, r));
        assert(insight_evidence(x, r) == insight_evidence(y, r));
        assert(insight_related_stated(x, r, i.related_entities@) == insight_related_stated(y, r, i.related_entities@));
    }
}

/// Which rules give insights, everything the report states of the input,
/// the identifiers of its entities and relationships, and what each insight
/// reports, do not depend on the order of the actions or of the packages.
pub proof fn law_report_ignores_action_and_package_order(
    x: ProjectIntelligenceInput,
    y: ProjectIntelligenceInput,
    p: ProjectIntelligence,
)
    requires
        reorders_actions_and_packages(x, y),
    ensures
        forall|r: InsightRule| rule_applies(x, r) <==> #[trigger] rule_applies(y, r),
        report_spec(x, p) <==> report_spec(y, p),
        analysis_entity_ids(x) == analysis_entity_ids(y),
        analysis_link_ids(x) == analysis_link_ids(y),
        forall|i: ProjectInsight| insight_reported(x, i) <==> #[trigger] insight_reported(y, i),
{
    lemma_reordered_facts(x, y);
    assert(reorders_actions_and_packages(y, x));
    lemma_reordered_facts(y, x);
    assert forall|r: InsightRule| rule_applies(x, r) <==> #[trigger] rule_applies(y, r) by {
        assert(action_named(x.actions@, "check"@) <==> action_named(y.actions@, "check"@));
    }
    assert(identity_spec(x, p.identity) <==> identity_spec(y, p.identity));
    assert(architecture_spec(x, p.architecture) <==> architecture_spec(y, p.architecture));
    lemma_reordered_ids(x, y);
    lemma_reordered_insights(x, y);
}

/// `y` is `x` with only the creation times of its claims changed.
pub open spec fn differs_in_claim_times(x: ProjectIntelligenceInput, y: ProjectIntelligenceInput) -> bool {
    &&& y.project == x.project
    &&& y.context == x.context
    &&& y.actions == x.actions
    &&& y.execution_capabilities == x.execution_capabilities
    &&& y.knowledge.claims@.len() == x.knowledge.claims@.len()
    &&& forall|i: int|
        0 <= i < x.knowledge.claims@.len() ==> {
            let a = #[trigger] x.knowledge.claims@[i];
            let b = y.knowledge.claims@[i];
            &&& b.id@ == a.id@
            &&& b.category == a.category
            &&& b.predicate@ == a.predicate@
        }
}

/// The creation time of a claim shapes no entity or relationship: the
/// report's graph has the same identifiers whatever the claims' times.
pub proof fn law_graph_ignores_claim_times(x: ProjectIntelligenceInput, y: ProjectIntelligenceInput)
    requires
        differs_in_claim_times(x, y),
    ensures
        analysis_entity_ids(x) == analysis_entity_ids(y),
        analysis_link_ids(x) == analysis_link_ids(y),
{
    let xc = x.knowledge.claims@;
    let yc = y.knowledge.claims@;
    assert forall|s: Seq<char>| claim_entities_set(xc).contains(s) <==> claim_entities_set(yc).contains(s) by {
        if claim_entities_set(xc).contains(s) {
            let j = choose|j: int| 0 <= j < xc.len() && s == claim_entity_id(#[trigger] xc[j]);
            assert(claim_entity_id(yc[j]) == claim_entity_id(xc[j]));
        }
        if claim_entities_set(yc).contains(s) {
            let j = choose|j: int| 0 <= j < yc.len() && s == claim_entity_id(#[trigger] yc[j]);
            assert(claim_entity_id(yc[j]) == claim_entity_id(xc[j]));
        }
    }
    let pr = project_entity_id(x);
    assert forall|s: Seq<char>| claim_links_set(xc, pr).contains(s) <==> claim_links_set(yc, pr).contains(s) by {
        if claim_links_set(xc, pr).contains(s) {
            let j = choose|j: int| 0 <= j < xc.len() && s == claim_link_id(#[trigger] xc[j], pr);
            assert(claim_link_id(yc[j], pr) == claim_link_id(xc[j], pr));
        }
        if claim_links_set(yc, pr).contains(s) {
            let j = choose|j: int| 0 <= j < yc.len() && s == claim_link_id(#[trigger] yc[j], pr);
            assert(claim_link_id(yc[j], pr) == claim_link_id(xc[j], pr));
        }
    }
    assert(claim_entities_set(xc) =~= claim_entities_set(yc));
    assert(claim_links_set(xc, pr) =~= claim_links_set(yc, pr));
    assert(entities_before_knowledge(x) == entities_before_knowledge(y));
    assert(links_before_knowledge(x) == links_before_knowledge(y));
    assert(analysis_entity_ids(x) =~= analysis_entity_ids(y));
    assert(analysis_link_ids(x) =~= analysis_link_ids(y));
}

/// A pure, deterministic analyzer of a project's explicit input.
pub trait ProjectIntelligenceAnalyzer {
    fn analyze(&self, input: &ProjectIntelligenceInput) -> Result<ProjectIntelligence, IntelligenceError>;
}

#[derive(Debug, Default, Clone, Copy)]
pub struct DeterministicProjectIntelligenceAnalyzer;

proof fn lemma_single_sorted<T: SortKey>(r: Seq<T>, v: Seq<T>)
    requires
        sorted_unique_of(r, v),
        v.len() <= 1,
    ensures
        r.len() == v.len(),
        r.len() == 1 ==> r[0] == v[0],
{
    if v.len() == 1 {
        assert(has_key(r, v[0].sort_key()));
        if r.len() > 1 {
            assert(v.contains(r[0]) && v.contains(r[1]));
            assert(key_lt(r[0].sort_key(), r[1].sort_key()));
            lemma_key_lt_irreflexive(r[0].sort_key());
        }
        assert(v.contains(r[0]));
    } else {
        if r.len() > 0 {
            assert(v.contains(r[0]));
        }
    }
}

/// What building the knowledge entities reports of the claims.
pub open spec fn knowledge_build_spec(input: ProjectIntelligenceInput, b: KnowledgeBuild) -> bool {
    let claims = input.knowledge.claims@;
    &&& b.summary.facts == category_count(claims, KnowledgeCategoryInput::Fact)
    &&& b.summary.decisions == category_count(claims, KnowledgeCategoryInput::Decision)
    &&& b.summary.verifications == category_count(claims, KnowledgeCategoryInput::Verification)
    &&& b.summary.goals == category_count(claims, KnowledgeCategoryInput::Goal)
    &&& b.decision_count == b.summary.decisions
    &&& (b.latest is None <==> !has_verification(claims))
    &&& (b.latest is None <==> b.latest_verification is None)
    &&& b.latest matches Some(k) ==> (is_latest_verification(claims, k as int) && (b.latest_verification matches Some(v)
        && v.claim_id@ == claims[k as int].id@ && v.validity == claims[k as int].validity
        && v.entity@ == claim_entity_id(claims[k as int])))
}

/// The identifier of the project's entity.
pub open spec fn project_entity_id(input: ProjectIntelligenceInput) -> Seq<char> {
    entity_id(EntityKind::Project, input.project.name@, input.project.name@)
}

/// The graph holds no entity or relationship but with the given identifiers.
#[verifier::opaque]
pub open spec fn ids_among(g: GraphBuilder, es: Set<Seq<char>>, rs: Set<Seq<char>>) -> bool {
    &&& forall|x: Seq<char>| #[trigger] g.has_entity(x) ==> es.contains(x)
    &&& forall|x: Seq<char>| #[trigger] g.has_relationship(x) ==> rs.contains(x)
}

/// The workspace identifier is that of the least workspace kind, present
/// exactly where a kind is given.
pub open spec fn workspace_consistent(input: ProjectIntelligenceInput, ws: Option<EntityId>) -> bool {
    &&& (ws is Some <==> input.context.workspace_kinds@.len() > 0)
    &&& (ws matches Some(w) ==> exists|k: Seq<char>| #[trigger] least_text(input.context.workspace_kinds@, k) && w@ == workspace_entity_id(input, k))
}

/// The containments of the packages in the workspace of the least kind.
pub open spec fn package_links_for(input: ProjectIntelligenceInput) -> Set<Seq<char>> {
    Set::new(
        |x: Seq<char>|
            exists|k: Seq<char>, j: int|
                #[trigger] least_text(input.context.workspace_kinds@, k) && 0 <= j < input.context.packages@.len() && x
                    == package_link_id(workspace_entity_id(input, k), #[trigger] input.context.packages@[j]),
    )
}

pub open spec fn entities_before_packages(input: ProjectIntelligenceInput) -> Set<Seq<char>> {
    set![project_entity_id(input)] + workspace_entities_set(input)
}

pub open spec fn links_before_packages(input: ProjectIntelligenceInput) -> Set<Seq<char>> {
    Set::<Seq<char>>::empty() + workspace_links_set(input, project_entity_id(input))
}

pub open spec fn entities_before_languages(input: ProjectIntelligenceInput) -> Set<Seq<char>> {
    entities_before_packages(input) + package_entities_set(input.context.packages@)
}

pub open spec fn links_before_languages(input: ProjectIntelligenceInput) -> Set<Seq<char>> {
    links_before_packages(input) + package_links_for(input)
}

pub open spec fn entities_before_build_systems(input: ProjectIntelligenceInput) -> Set<Seq<char>> {
    entities_before_languages(input) + named_entities_set(input.context.languages@, EntityKind::Language)
}

pub open spec fn links_before_build_systems(input: ProjectIntelligenceInput) -> Set<Seq<char>> {
    links_before_languages(input) + named_links_set(
        input.context.languages@,
        EntityKind::Language,
        ProjectRelationshipKind::UsesLanguage,
        project_entity_id(input),
    )
}

pub open spec fn entities_before_ci(input: ProjectIntelligenceInput) -> Set<Seq<char>> {
    entities_before_build_systems(input) + named_entities_set(input.context.build_systems@, EntityKind::BuildSystem)
}

pub open spec fn links_before_ci(input: ProjectIntelligenceInput) -> Set<Seq<char>> {
    links_before_build_systems(input) + named_links_set(
        input.context.build_systems@,
        EntityKind::BuildSystem,
        ProjectRelationshipKind::UsesBuildSystem,
        project_entity_id(input),
    )
}

pub open spec fn entities_before_actions(input: ProjectIntelligenceInput) -> Set<Seq<char>> {
    entities_before_ci(input) + named_entities_set(input.context.continuous_integration@, EntityKind::ContinuousIntegration)
}

pub open spec fn links_before_actions(input: ProjectIntelligenceInput) -> Set<Seq<char>> {
    links_before_ci(input) + named_links_set(
        input.context.continuous_integration@,
        EntityKind::ContinuousIntegration,
        ProjectRelationshipKind::Contains,
        project_entity_id(input),
    )
}

pub open spec fn entities_before_knowledge(input: ProjectIntelligenceInput) -> Set<Seq<char>> {
    entities_before_actions(input) + action_entities_all(input)
}

pub open spec fn links_before_knowledge(input: ProjectIntelligenceInput) -> Set<Seq<char>> {
    links_before_actions(input) + action_links_all(input, project_entity_id(input))
}

/// No identifier the analysis builds collides with one built before it:
/// each step of the graph's construction is fresh on every graph that holds
/// only the identifiers of the steps before it.
#[verifier::opaque]
pub open spec fn analysis_fresh(input: ProjectIntelligenceInput) -> bool {
    let p = project_entity_id(input);
    let c = input.context;
    &&& forall|g: GraphBuilder|
        #[trigger] ids_among(g, set![p], Set::empty()) ==> forall|k: Seq<char>|
            #[trigger] least_text(c.workspace_kinds@, k) ==> {
                let w = workspace_entity_id(input, k);
                &&& k.len() > 0
                &&& p != w
                &&& !g.has_entity(w)
                &&& !g.has_relationship(relationship_id(ProjectRelationshipKind::Contains, p, w))
            }
    &&& forall|g: GraphBuilder, ws: Option<EntityId>|
        #[trigger] ids_among(g, entities_before_packages(input), links_before_packages(input)) && #[trigger] workspace_consistent(input, ws)
            ==> packages_fresh(g, c.packages@, ws)
    &&& forall|g: GraphBuilder|
        #[trigger] ids_among(g, entities_before_languages(input), links_before_languages(input)) ==> named_fresh(
            g,
            c.languages@,
            EntityKind::Language,
            ProjectRelationshipKind::UsesLanguage,
            p,
        )
    &&& forall|g: GraphBuilder|
        #[trigger] ids_among(g, entities_before_build_systems(input), links_before_build_systems(input)) ==> named_fresh(
            g,
            c.build_systems@,
            EntityKind::BuildSystem,
            ProjectRelationshipKind::UsesBuildSystem,
            p,
        )
    &&& forall|g: GraphBuilder|
        #[trigger] ids_among(g, entities_before_ci(input), links_before_ci(input)) ==> named_fresh(
            g,
            c.continuous_integration@,
            EntityKind::ContinuousIntegration,
            ProjectRelationshipKind::Contains,
            p,
        )
    &&& forall|g: GraphBuilder|
        #[trigger] ids_among(g, entities_before_actions(input), links_before_actions(input)) ==> actions_fresh(g, input, p)
    &&& forall|g: GraphBuilder|
        #[trigger] ids_among(g, entities_before_knowledge(input), links_before_knowledge(input)) ==> knowledge_fresh(
            g,
            input.knowledge.claims@,
            p,
        )
}

proof fn lemma_fresh_workspace(input: ProjectIntelligenceInput, g: GraphBuilder)
    requires
        analysis_fresh(input),
        ids_among(g, set![project_entity_id(input)], Set::empty()),
    ensures
        forall|k: Seq<char>|
            #[trigger] least_text(input.context.workspace_kinds@, k) ==> {
                let w = workspace_entity_id(input, k);
                &&& k.len() > 0
                &&& project_entity_id(input) != w
                &&& !g.has_entity(w)
                &&& !g.has_relationship(relationship_id(ProjectRelationshipKind::Contains, project_entity_id(input), w))
            },
{
    reveal(analysis_fresh);
}

proof fn lemma_fresh_packages(input: ProjectIntelligenceInput, g: GraphBuilder, ws: Option<EntityId>)
    requires
        analysis_fresh(input),
        ids_among(g, entities_before_packages(input), links_before_packages(input)),
        workspace_consistent(input, ws),
    ensures
        packages_fresh(g, input.context.packages@, ws),
{
    reveal(analysis_fresh);
}

proof fn lemma_fresh_named(input: ProjectIntelligenceInput, g: GraphBuilder, step: int)
    requires
        analysis_fresh(input),
        step == 0 ==> ids_among(g, entities_before_languages(input), links_before_languages(input)),
        step == 1 ==> ids_among(g, entities_before_build_systems(input), links_before_build_systems(input)),
        step == 2 ==> ids_among(g, entities_before_ci(input), links_before_ci(input)),
    ensures
        step == 0 ==> named_fresh(g, input.context.languages@, EntityKind::Language, ProjectRelationshipKind::UsesLanguage, project_entity_id(input)),
        step == 1 ==> named_fresh(g, input.context.build_systems@, EntityKind::BuildSystem, ProjectRelationshipKind::UsesBuildSystem, project_entity_id(input)),
        step == 2 ==> named_fresh(g, input.context.continuous_integration@, EntityKind::ContinuousIntegration, ProjectRelationshipKind::Contains, project_entity_id(input)),
{
    reveal(analysis_fresh);
}

proof fn lemma_fresh_actions(input: ProjectIntelligenceInput, g: GraphBuilder)
    requires
        analysis_fresh(input),
        ids_among(g, entities_before_actions(input), links_before_actions(input)),
    ensures
        actions_fresh(g, input, project_entity_id(input)),
{
    reveal(analysis_fresh);
}

proof fn lemma_fresh_knowledge(input: ProjectIntelligenceInput, g: GraphBuilder)
    requires
        analysis_fresh(input),
        ids_among(g, entities_before_knowledge(input), links_before_knowledge(input)),
    ensures
        knowledge_fresh(g, input.knowledge.claims@, project_entity_id(input)),
{
    reveal(analysis_fresh);
}

proof fn lemma_among(start: GraphBuilder, g: GraphBuilder, es: Set<Seq<char>>, rs: Set<Seq<char>>)
    requires
        start.entities@.len() == 0,
        start.relationships@.len() == 0,
        entities_within(start, g, es),
        relationships_within(start, g, rs),
    ensures
        ids_among(g, es, rs),
{
    reveal(ids_among);
    reveal(entities_within);
    reveal(relationships_within);
}

/// Every identifier of the set names an entity of the graph.
#[verifier::opaque]
pub open spec fn holds_entities(g: GraphBuilder, ids: Set<Seq<char>>) -> bool {
    forall|x: Seq<char>| ids.contains(x) ==> #[trigger] g.has_entity(x)
}

/// Every identifier of the set names a relationship of the graph.
#[verifier::opaque]
pub open spec fn holds_links(g: GraphBuilder, ids: Set<Seq<char>>) -> bool {
    forall|x: Seq<char>| ids.contains(x) ==> #[trigger] g.has_relationship(x)
}

/// After the packages: the graph holds exactly the identifiers of the
/// project, its workspace and its packages.
#[verifier::opaque]
pub open spec fn graph_at_languages(g: GraphBuilder, input: ProjectIntelligenceInput) -> bool {
    &&& ids_among(g, entities_before_languages(input), links_before_languages(input))
    &&& holds_entities(g, entities_before_languages(input))
    &&& holds_links(g, links_before_languages(input))
}

/// The graph holds exactly the identifiers the analysis builds.
#[verifier::opaque]
pub open spec fn graph_complete(g: GraphBuilder, input: ProjectIntelligenceInput) -> bool {
    &&& ids_among(g, analysis_entity_ids(input), analysis_link_ids(input))
    &&& holds_entities(g, analysis_entity_ids(input))
    &&& holds_links(g, analysis_link_ids(input))
}

/// The identifiers of the entities the analysis builds: the project, its
/// workspace, packages, languages, build systems, continuous integration,
/// actions and their capabilities, and knowledge claims.
pub open spec fn analysis_entity_ids(input: ProjectIntelligenceInput) -> Set<Seq<char>> {
    entities_before_knowledge(input) + claim_entities_set(input.knowledge.claims@)
}

/// The identifiers of the relationships the analysis builds.
pub open spec fn analysis_link_ids(input: ProjectIntelligenceInput) -> Set<Seq<char>> {
    links_before_knowledge(input) + claim_links_set(input.knowledge.claims@, project_entity_id(input))
}

proof fn lemma_holds_grow(a: GraphBuilder, b: GraphBuilder, es: Set<Seq<char>>, rs: Set<Seq<char>>)
    requires
        holds_entities(a, es),
        holds_links(a, rs),
        graph_grows(a, b),
    ensures
        holds_entities(b, es),
        holds_links(b, rs),
{
    reveal(holds_entities);
    reveal(holds_links);
    assert forall|x: Seq<char>| es.contains(x) implies #[trigger] b.has_entity(x) by {
        assert(a.has_entity(x));
    }
    assert forall|x: Seq<char>| rs.contains(x) implies #[trigger] b.has_relationship(x) by {
        assert(a.has_relationship(x));
    }
}

proof fn lemma_named_holds(
    a: GraphBuilder,
    b: GraphBuilder,
    values: Seq<String>,
    kind: EntityKind,
    rk: ProjectRelationshipKind,
    p: Seq<char>,
    es: Set<Seq<char>>,
    rs: Set<Seq<char>>,
)
    requires
        holds_entities(a, es),
        holds_links(a, rs),
        graph_grows(a, b),
        forall|j: int| 0 <= j < values.len() ==> named_present(b, (#[trigger] values[j])@, kind, rk, p),
    ensures
        holds_entities(b, es + named_entities_set(values, kind)),
        holds_links(b, rs + named_links_set(values, kind, rk, p)),
{
    reveal(holds_entities);
    reveal(holds_links);
    lemma_holds_grow(a, b, es, rs);
    assert forall|x: Seq<char>| (es + named_entities_set(values, kind)).contains(x) implies #[trigger] b.has_entity(x) by {
        if !es.contains(x) {
            let j = choose|j: int| 0 <= j < values.len() && x == named_entity_id(kind, (#[trigger] values[j])@);
            assert(named_present(b, values[j]@, kind, rk, p));
        }
    }
    assert forall|x: Seq<char>| (rs + named_links_set(values, kind, rk, p)).contains(x) implies #[trigger] b.has_relationship(x) by {
        if !rs.contains(x) {
            let j = choose|j: int| 0 <= j < values.len() && x == relationship_id(rk, p, named_entity_id(kind, (#[trigger] values[j])@));
            assert(named_present(b, values[j]@, kind, rk, p));
        }
    }
}

proof fn lemma_actions_holds(
    a: GraphBuilder,
    b: GraphBuilder,
    input: ProjectIntelligenceInput,
    p: Seq<char>,
    es: Set<Seq<char>>,
    rs: Set<Seq<char>>,
)
    requires
        holds_entities(a, es),
        holds_links(a, rs),
        graph_grows(a, b),
        forall|i: int| 0 <= i < input.actions@.len() ==> action_present(b, #[trigger] input.actions@[i], p),
        forall|j: int|
            0 <= j < input.execution_capabilities.controlled_actions@.len() ==> capability_present(
                b,
                true,
                (#[trigger] input.execution_capabilities.controlled_actions@[j])@,
            ),
        forall|j: int|
            0 <= j < input.execution_capabilities.dry_run_only_actions@.len() ==> capability_present(
                b,
                false,
                (#[trigger] input.execution_capabilities.dry_run_only_actions@[j])@,
            ),
    ensures
        holds_entities(b, es + action_entities_all(input)),
        holds_links(b, rs + action_links_all(input, p)),
{
    reveal(holds_entities);
    reveal(holds_links);
    lemma_holds_grow(a, b, es, rs);
    let acts = input.actions@;
    let ctl = input.execution_capabilities.controlled_actions@;
    let dry = input.execution_capabilities.dry_run_only_actions@;
    assert forall|x: Seq<char>| (es + action_entities_all(input)).contains(x) implies #[trigger] b.has_entity(x) by {
        if !es.contains(x) {
            if is_action_entity_of(acts, x) {
                let q = choose|q: int| 0 <= q < acts.len() && x == action_entity_id((#[trigger] acts[q]).id@);
                assert(action_present(b, acts[q], p));
            } else if cap_entities_set(ctl, true).contains(x) {
                let j = choose|j: int| 0 <= j < ctl.len() && x == capability_entity_id(true, (#[trigger] ctl[j])@);
                assert(capability_present(b, true, ctl[j]@));
            } else {
                let j = choose|j: int| 0 <= j < dry.len() && x == capability_entity_id(false, (#[trigger] dry[j])@);
                assert(capability_present(b, false, dry[j]@));
            }
        }
    }
    assert forall|x: Seq<char>| (rs + action_links_all(input, p)).contains(x) implies #[trigger] b.has_relationship(x) by {
        if !rs.contains(x) {
            if is_action_link_of(acts, p, x) {
                let q = choose|q: int|
                    0 <= q < acts.len() && (x == provides_link_id(p, action_entity_id((#[trigger] acts[q]).id@))
                        || x == validates_link_id(action_entity_id(acts[q].id@), p));
                assert(action_present(b, acts[q], p));
            } else if cap_links_set(ctl, true).contains(x) {
                let j = choose|j: int| 0 <= j < ctl.len() && x == capability_link_id(true, (#[trigger] ctl[j])@);
                assert(capability_present(b, true, ctl[j]@));
            } else {
                let j = choose|j: int| 0 <= j < dry.len() && x == capability_link_id(false, (#[trigger] dry[j])@);
                assert(capability_present(b, false, dry[j]@));
            }
        }
    }
}

proof fn lemma_claims_holds(
    a: GraphBuilder,
    b: GraphBuilder,
    claims: Seq<KnowledgeClaimInput>,
    p: Seq<char>,
    es: Set<Seq<char>>,
    rs: Set<Seq<char>>,
)
    requires
        holds_entities(a, es),
        holds_links(a, rs),
        graph_grows(a, b),
        forall|j: int| 0 <= j < claims.len() ==> claim_present(b, #[trigger] claims[j], p),
    ensures
        holds_entities(b, es + claim_entities_set(claims)),
        holds_links(b, rs + claim_links_set(claims, p)),
{
    reveal(holds_entities);
    reveal(holds_links);
    lemma_holds_grow(a, b, es, rs);
    assert forall|x: Seq<char>| (es + claim_entities_set(claims)).contains(x) implies #[trigger] b.has_entity(x) by {
        if !es.contains(x) {
            let j = choose|j: int| 0 <= j < claims.len() && x == claim_entity_id(#[trigger] claims[j]);
            assert(claim_present(b, claims[j], p));
        }
    }
    assert forall|x: Seq<char>| (rs + claim_links_set(claims, p)).contains(x) implies #[trigger] b.has_relationship(x) by {
        if !rs.contains(x) {
            let j = choose|j: int| 0 <= j < claims.len() && x == claim_link_id(#[trigger] claims[j], p);
            assert(claim_present(b, claims[j], p));
        }
    }
}

proof fn lemma_among_grow(
    a: GraphBuilder,
    b: GraphBuilder,
    es: Set<Seq<char>>,
    rs: Set<Seq<char>>,
    es2: Set<Seq<char>>,
    rs2: Set<Seq<char>>,
)
    requires
        ids_among(a, es, rs),
        entities_within(a, b, es2),
        relationships_within(a, b, rs2),
    ensures
        ids_among(b, es + es2, rs + rs2),
{
    reveal(ids_among);
    reveal(entities_within);
    reveal(relationships_within);
}

/// A graph that holds the project alone.
fn project_graph(input: &ProjectIntelligenceInput) -> (r: Result<(GraphBuilder, EntityId), IntelligenceError>)
    ensures
        r matches Ok((g, project)) ==> {
            &&& project@ == project_entity_id(*input)
            &&& g.has_entity(project@)
            &&& graph_closed(g)
            &&& ids_among(g, set![project@], Set::empty())
            &&& entity_ids_unique(g)
            &&& holds_entities(g, set![project@])
            &&& holds_links(g, Set::empty())
        },
        input.project.name@.len() > 0 ==> r is Ok,
{
    let mut graph = GraphBuilder::new();
    let ghost start = graph;
    let project_entity = ProjectEntity::new(
        EntityKind::Project,
        input.project.name.clone(),
        input.project.name.clone(),
        InformationClassification::Observed,
        IntelligenceConfidence::Certain,
        one_ref(IntelligenceEvidenceRef::Input { field: owned("project.name") }),
    )?;
    proof {
        assert(!graph.has_entity(project_entity.id@));
    }
    let project = graph.entity(project_entity)?;
    proof {
        assert(relationships_within(start, graph, Set::empty())) by {
            reveal(relationships_within);
        }
        lemma_among(start, graph, set![project@], Set::empty());
        reveal(holds_entities);
        reveal(holds_links);
    }
    Ok((graph, project))
}

/// Builds the project and its workspace on an empty graph.
fn build_graph_start(input: &ProjectIntelligenceInput) -> (r: Result<(GraphBuilder, EntityId, Option<EntityId>), IntelligenceError>)
    ensures
        r matches Ok((g, project, workspace)) ==> {
            &&& project@ == project_entity_id(*input)
            &&& g.has_entity(project@)
            &&& graph_closed(g)
            &&& ids_among(g, entities_before_packages(*input), links_before_packages(*input))
            &&& entity_ids_unique(g)
            &&& holds_entities(g, entities_before_packages(*input))
            &&& holds_links(g, links_before_packages(*input))
            &&& workspace_consistent(*input, workspace)
            &&& (workspace matches Some(w) ==> g.has_entity(w@))
        },
        input.project.name@.len() > 0 && analysis_fresh(*input) ==> r is Ok,
{
    let ghost fresh = analysis_fresh(*input);
    let ghost p = project_entity_id(*input);
    let (mut graph, project) = project_graph(input)?;
    let ghost g0 = graph;
    let r = build_workspace(&mut graph, input, &project);
    let ghost g1 = graph;
    proof {
        if input.context.workspace_kinds@.len() > 0 {
            let kinds = input.context.workspace_kinds@;
            let k = choose|k: Seq<char>| #[trigger] least_text(kinds, k);
            assert(workspace_built(*input, p, g0, g1, k, r));
            if fresh {
                lemma_fresh_workspace(*input, g0);
                assert(r is Ok);
            }
        }
    }
    let workspace = r?;
    proof {
        lemma_among_grow(g0, g1, set![p], Set::empty(), workspace_entities_set(*input), workspace_links_set(*input, p));
        assert(workspace_consistent(*input, workspace));
        lemma_holds_grow(g0, g1, set![p], Set::empty());
        reveal(holds_entities);
        reveal(holds_links);
        let kinds = input.context.workspace_kinds@;
        assert forall|x: Seq<char>| entities_before_packages(*input).contains(x) implies #[trigger] g1.has_entity(x) by {
            if x != p {
                let k2 = choose|k: Seq<char>| #[trigger] least_text(kinds, k) && x == workspace_entity_id(*input, k);
                let k = choose|k: Seq<char>| #[trigger] least_text(kinds, k);
                lemma_least_unique(kinds, k, k2);
                assert(workspace_built(*input, p, g0, g1, k, r));
            }
        }
        assert forall|x: Seq<char>| links_before_packages(*input).contains(x) implies #[trigger] g1.has_relationship(x) by {
            let k2 = choose|k: Seq<char>|
                #[trigger] least_text(kinds, k) && x == relationship_id(ProjectRelationshipKind::Contains, p, workspace_entity_id(*input, k));
            let k = choose|k: Seq<char>| #[trigger] least_text(kinds, k);
            lemma_least_unique(kinds, k, k2);
            assert(workspace_built(*input, p, g0, g1, k, r));
        }
    }
    Ok((graph, project, workspace))
}

/// Builds the project, its workspace and its packages on an empty graph.
fn build_graph_base(input: &ProjectIntelligenceInput) -> (r: Result<
    (GraphBuilder, EntityId, Option<EntityId>, Vec<EntityId>),
    IntelligenceError,
>)
    ensures
        r matches Ok((g, project, workspace, packages)) ==> {
            &&& project@ == project_entity_id(*input)
            &&& g.has_entity(project@)
            &&& graph_closed(g)
            &&& graph_at_languages(g, *input)
            &&& (workspace is Some <==> input.context.workspace_kinds@.len() > 0)
            &&& workspace_consistent(*input, workspace)
            &&& entity_ids_unique(g)
            &&& keys_strictly_sorted(packages@)
            &&& forall|i: int| 0 <= i < packages@.len() ==> from_some_package(#[trigger] packages@[i]@, input.context.packages@)
            &&& forall|j: int|
                0 <= j < input.context.packages@.len() ==> package_listed(packages@, #[trigger] input.context.packages@[j])
        },
        input.project.name@.len() > 0 && analysis_fresh(*input) ==> r is Ok,
{
    let ghost fresh = analysis_fresh(*input);
    let ghost p = project_entity_id(*input);
    let (mut graph, project, workspace) = build_graph_start(input)?;
    let ghost g1 = graph;
    proof {
        if fresh {
            lemma_fresh_packages(*input, g1, workspace);
        }
        assert(package_links_set(input.context.packages@, workspace).subset_of(package_links_for(*input))) by {
            match workspace {
                Some(w) => {
                    let k = choose|k: Seq<char>| #[trigger] least_text(input.context.workspace_kinds@, k) && w@ == workspace_entity_id(*input, k);
                    assert forall|x: Seq<char>| package_links_set(input.context.packages@, workspace).contains(x) implies package_links_for(*input).contains(x) by {
                        let j = choose|j: int| 0 <= j < input.context.packages@.len() && x == package_link_id(w@, #[trigger] input.context.packages@[j]);
                        assert(least_text(input.context.workspace_kinds@, k) && 0 <= j < input.context.packages@.len() && x
                            == package_link_id(workspace_entity_id(*input, k), input.context.packages@[j]));
                    }
                },
                None => {},
            }
        }
    }
    let package_entities = build_packages(&mut graph, &input.context, &workspace)?;
    let ghost g2 = graph;
    proof {
        lemma_within_weaken(g1, g2, package_entities_set(input.context.packages@), package_entities_set(input.context.packages@), package_links_set(input.context.packages@, workspace), package_links_for(*input));
        lemma_among_grow(g1, g2, entities_before_packages(*input), links_before_packages(*input), package_entities_set(input.context.packages@), package_links_for(*input));
        assert(g2.has_entity(p));
        lemma_holds_grow(g1, g2, entities_before_packages(*input), links_before_packages(*input));
        reveal(holds_entities);
        reveal(holds_links);
        let packages = input.context.packages@;
        let kinds = input.context.workspace_kinds@;
        assert forall|x: Seq<char>| entities_before_languages(*input).contains(x) implies #[trigger] g2.has_entity(x) by {
            if !entities_before_packages(*input).contains(x) {
                let j = choose|j: int| 0 <= j < packages.len() && x == package_entity_id(#[trigger] packages[j]);
                assert(package_present(g2, packages[j], workspace));
            }
        }
        assert forall|x: Seq<char>| links_before_languages(*input).contains(x) implies #[trigger] g2.has_relationship(x) by {
            if !links_before_packages(*input).contains(x) {
                let (k, j) = choose|k: Seq<char>, j: int|
                    #[trigger] least_text(kinds, k) && 0 <= j < packages.len() && x == package_link_id(
                        workspace_entity_id(*input, k),
                        #[trigger] packages[j],
                    );
                assert(has_text(kinds, k));
                let w = workspace->0;
                let k0 = choose|k0: Seq<char>| #[trigger] least_text(kinds, k0) && w@ == workspace_entity_id(*input, k0);
                lemma_least_unique(kinds, k, k0);
                assert(package_present(g2, packages[j], workspace));
            }
        }
    }
    proof {
        reveal(graph_at_languages);
    }
    Ok((graph, project, workspace, package_entities))
}

/// Adds languages, build systems, continuous integration, actions and
/// capabilities, and knowledge claims to the graph of the project.
fn build_graph_rest(graph: &mut GraphBuilder, input: &ProjectIntelligenceInput, project: &EntityId) -> (r: Result<
    (ActionEntityReferences, KnowledgeBuild),
    IntelligenceError,
>)
    requires
        project@ == project_entity_id(*input),
        old(graph).has_entity(project@),
        graph_closed(*old(graph)),
        graph_at_languages(*old(graph), *input),
    ensures
        r matches Ok((refs, kb)) ==> knowledge_build_spec(*input, kb) && graph_closed(*final(graph))
            && references_recorded(*input, refs),
        r is Ok ==> graph_complete(*final(graph), *input),
        r is Ok ==> forall|j: int| 0 <= j < input.knowledge.claims@.len() ==> claim_shown(*final(graph), #[trigger] input.knowledge.claims@[j]),
        entity_ids_unique(*old(graph)) ==> entity_ids_unique(*final(graph)),
        analysis_fresh(*input) ==> r is Ok,
{
    let ghost fresh = analysis_fresh(*input);
    let ghost p = project_entity_id(*input);
    let ghost g2 = *graph;
    proof {
        reveal(graph_at_languages);
        if fresh {
            lemma_fresh_named(*input, g2, 0);
        }
    }
    build_named_entities(
        graph,
        &input.context.languages,
        "languages.",
        EntityKind::Language,
        ProjectRelationshipKind::UsesLanguage,
        project,
    )?;
    let ghost g3 = *graph;
    proof {
        lemma_among_grow(g2, g3, entities_before_languages(*input), links_before_languages(*input),
            named_entities_set(input.context.languages@, EntityKind::Language),
            named_links_set(input.context.languages@, EntityKind::Language, ProjectRelationshipKind::UsesLanguage, p));
        lemma_named_holds(g2, g3, input.context.languages@, EntityKind::Language, ProjectRelationshipKind::UsesLanguage, p,
            entities_before_languages(*input), links_before_languages(*input));
        assert(g3.has_entity(p));
        if fresh {
            lemma_fresh_named(*input, g3, 1);
        }
    }
    build_named_entities(
        graph,
        &input.context.build_systems,
        "tooling.build_systems.",
        EntityKind::BuildSystem,
        ProjectRelationshipKind::UsesBuildSystem,
        project,
    )?;
    let ghost g4 = *graph;
    proof {
        lemma_among_grow(g3, g4, entities_before_build_systems(*input), links_before_build_systems(*input),
            named_entities_set(input.context.build_systems@, EntityKind::BuildSystem),
            named_links_set(input.context.build_systems@, EntityKind::BuildSystem, ProjectRelationshipKind::UsesBuildSystem, p));
        lemma_named_holds(g3, g4, input.context.build_systems@, EntityKind::BuildSystem, ProjectRelationshipKind::UsesBuildSystem, p,
            entities_before_build_systems(*input), links_before_build_systems(*input));
        assert(g4.has_entity(p));
        if fresh {
            lemma_fresh_named(*input, g4, 2);
        }
    }
    build_named_entities(
        graph,
        &input.context.continuous_integration,
        "ci.",
        EntityKind::ContinuousIntegration,
        ProjectRelationshipKind::Contains,
        project,
    )?;
    let ghost g5 = *graph;
    proof {
        lemma_among_grow(g4, g5, entities_before_ci(*input), links_before_ci(*input),
            named_entities_set(input.context.continuous_integration@, EntityKind::ContinuousIntegration),
            named_links_set(input.context.continuous_integration@, EntityKind::ContinuousIntegration, ProjectRelationshipKind::Contains, p));
        lemma_named_holds(g4, g5, input.context.continuous_integration@, EntityKind::ContinuousIntegration, ProjectRelationshipKind::Contains, p,
            entities_before_ci(*input), links_before_ci(*input));
        assert(g5.has_entity(p));
        if fresh {
            lemma_fresh_actions(*input, g5);
        }
    }
    let references = build_actions_and_capabilities(graph, input, project)?;
    let ghost g6 = *graph;
    proof {
        lemma_among_grow(g5, g6, entities_before_actions(*input), links_before_actions(*input),
            action_entities_all(*input), action_links_all(*input, p));
        lemma_actions_holds(g5, g6, *input, p, entities_before_actions(*input), links_before_actions(*input));
        assert(g6.has_entity(p));
        if fresh {
            lemma_fresh_knowledge(*input, g6);
        }
    }
    let knowledge = build_knowledge(graph, input, project)?;
    let ghost g7 = *graph;
    proof {
        lemma_among_grow(g6, g7, entities_before_knowledge(*input), links_before_knowledge(*input),
            claim_entities_set(input.knowledge.claims@), claim_links_set(input.knowledge.claims@, p));
        lemma_claims_holds(g6, g7, input.knowledge.claims@, p, entities_before_knowledge(*input), links_before_knowledge(*input));
        reveal(graph_complete);
    }
    Ok((references, knowledge))
}

/// Builds the graph: the project, its workspace and packages, languages,
/// build systems, continuous integration, actions and capabilities, and
/// knowledge claims.
#[verifier::rlimit(40)]
fn build_graph(input: &ProjectIntelligenceInput) -> (r: Result<
    (GraphBuilder, EntityId, Option<EntityId>, Vec<EntityId>, ActionEntityReferences, KnowledgeBuild),
    IntelligenceError,
>)
    ensures
        r matches Ok((g, project, workspace, packages, refs, kb)) ==> {
            &&& (workspace is Some <==> input.context.workspace_kinds@.len() > 0)
            &&& workspace_consistent(*input, workspace)
            &&& keys_strictly_sorted(packages@)
            &&& forall|i: int| 0 <= i < packages@.len() ==> from_some_package(#[trigger] packages@[i]@, input.context.packages@)
            &&& forall|j: int|
                0 <= j < input.context.packages@.len() ==> package_listed(packages@, #[trigger] input.context.packages@[j])
            &&& knowledge_build_spec(*input, kb)
            &&& references_recorded(*input, refs)
            &&& graph_closed(g)
            &&& entity_ids_unique(g)
            &&& graph_complete(g, *input)
            &&& forall|j: int| 0 <= j < input.knowledge.claims@.len() ==> claim_shown(g, #[trigger] input.knowledge.claims@[j])
        },
        input.project.name@.len() > 0 && analysis_fresh(*input) ==> r is Ok,
{
    let (mut graph, project, workspace, package_entities) = build_graph_base(input)?;
    let (references, knowledge) = build_graph_rest(&mut graph, input, &project)?;
    Ok((graph, project, workspace, package_entities, references, knowledge))
}

/// The keys of the entities of the dry-run-only actions: each action's
/// entity, and its dry-run-only capability.
pub open spec fn dry_related_keys(dry: Seq<String>) -> Set<Seq<u32>> {
    Set::new(
        |k: Seq<u32>|
            exists|a: Seq<char>|
                #[trigger] has_text(dry, a) && (k == str_key(action_entity_id(a)) || k == str_key(
                    capability_entity_id(false, a),
                )),
    )
}

/// What a lookup of a name found among recorded pairs.
pub open spec fn lookup_result(map: Seq<(String, EntityId)>, key: Seq<char>, r: Option<EntityId>) -> bool {
    &&& (r is None <==> !exists|i: int| 0 <= i < map.len() && (#[trigger] map[i]).0@ == key)
    &&& (r matches Some(id) ==> exists|i: int| 0 <= i < map.len() && (#[trigger] map[i]).0@ == key && map[i].1 == id)
}

proof fn lemma_action_found(input: ProjectIntelligenceInput, refs: ActionEntityReferences, name: Seq<char>, r: Option<EntityId>)
    requires
        references_recorded(input, refs),
        lookup_result(refs.actions@, name, r),
        name_recorded(refs.actions@, name),
    ensures
        r matches Some(e) && e@ == action_entity_id(name),
{
    let i = choose|i: int| 0 <= i < refs.actions@.len() && (#[trigger] refs.actions@[i]).0@ == name && refs.actions@[i].1 == r->0;
    assert(refs.actions@[i].1@ == action_entity_id(input.actions@[i].id@));
}

proof fn lemma_capability_found(v: Seq<(String, EntityId)>, names: Seq<String>, controlled: bool, name: Seq<char>, r: Option<EntityId>)
    requires
        capabilities_recorded(v, names, controlled),
        lookup_result(v, name, r),
        has_text(names, name),
    ensures
        r matches Some(e) && e@ == capability_entity_id(controlled, name),
{
    lemma_text_in_set(pair_names(v), names, name);
    let k = choose|k: int| 0 <= k < pair_names(v).len() && #[trigger] pair_names(v)[k]@ == name;
    assert(v[k].0@ == name);
    let i = choose|i: int| 0 <= i < v.len() && (#[trigger] v[i]).0@ == name && v[i].1 == r->0;
    assert(v[i].1@ == capability_entity_id(controlled, v[i].0@));
}

/// The context the rules read, built from the input and the graph.
fn rule_context(
    input: &ProjectIntelligenceInput,
    workspace: Option<EntityId>,
    package_entities: Vec<EntityId>,
    references: &ActionEntityReferences,
    verification: Option<VerificationRuleInput>,
    package_structure_evidence: bool,
) -> (context: RuleContext)
    requires
        workspace is Some <==> input.context.workspace_kinds@.len() > 0,
        package_entities@.len() > 1 <==> distinct_packages(input.context.packages@),
        package_structure_evidence == (workspace is Some && package_entities@.len() > 1),
        verification is Some <==> has_verification(input.knowledge.claims@),
        verification is Some ==> (verification->0.validity == VerificationValidity::Stale <==> latest_is_stale(
            input.knowledge.claims@,
        )),
        references_recorded(*input, *references),
    ensures
        forall|r: InsightRule| #[trigger] r.fires(context) <==> rule_applies(*input, r),
        action_named(input.actions@, "check"@) ==> (context.check_action_entity matches Some(e) && e@
            == action_entity_id("check"@)),
        has_text(input.execution_capabilities.controlled_actions@, "check"@) ==> (
        context.check_controlled_execution_capability_entity matches Some(e) && e@ == capability_entity_id(
            true,
            "check"@,
        )),
        restricted_related_keys(context.restricted_actions@) == dry_related_keys(
            input.execution_capabilities.dry_run_only_actions@,
        ),
        context.verification == verification,
        context.package_structure_evidence == package_structure_evidence,
        context.workspace_entity == workspace,
        context.package_entities == package_entities,
        restricted_evidence_keys(context.restricted_actions@) == dry_evidence_keys(
            input.execution_capabilities.dry_run_only_actions@,
        ),
{
    let workspace_detected = workspace.is_some();
        let mut discovered_actions: Vec<String> = Vec::new();
        let mut i: usize = 0;
        while i < input.actions.len()
            invariant
                i <= input.actions@.len(),
                discovered_actions@.len() == i,
                forall|q: int| 0 <= q < i ==> (#[trigger] discovered_actions@[q])@ == input.actions@[q].id@,
            decreases input.actions@.len() - i,
        {
            discovered_actions.push(input.actions[i].id.clone());
            i = i + 1;
        }
        let dry = sorted_set(&input.execution_capabilities.dry_run_only_actions);
        let mut restricted_actions: Vec<RestrictedActionRuleInput> = Vec::new();
        let mut i: usize = 0;
        while i < dry.len()
            invariant
                i <= dry@.len(),
                restricted_actions@.len() == i,
                sorted_unique_of(dry@, input.execution_capabilities.dry_run_only_actions@),
                references_recorded(*input, *references),
                forall|q: int| 0 <= q < i ==> (#[trigger] restricted_actions@[q]).action_id@ == dry@[q]@,
                forall|q: int|
                    0 <= q < i ==> ((#[trigger] restricted_actions@[q]).action_entity matches Some(e) && e@
                        == action_entity_id(dry@[q]@)) && (restricted_actions@[q].dry_run_only_capability_entity matches Some(
                        c,
                    ) && c@ == capability_entity_id(false, dry@[q]@)),
            decreases dry@.len() - i,
        {
            let action_entity = lookup(&references.actions, dry[i].as_str());
            let dry_run_only_capability_entity = lookup(&references.dry_run_only_capabilities, dry[i].as_str());
            proof {
                let dv = input.execution_capabilities.dry_run_only_actions@;
                assert(dv.contains(dry@[i as int]));
                let j = choose|j: int| 0 <= j < dv.len() && dv[j] == dry@[i as int];
                assert(has_text(dv, dry@[i as int]@));
                assert(name_recorded(references.actions@, dv[j]@));
                lemma_action_found(*input, *references, dry@[i as int]@, action_entity);
                lemma_capability_found(references.dry_run_only_capabilities@, dv, false, dry@[i as int]@, dry_run_only_capability_entity);
            }
            restricted_actions.push(
                RestrictedActionRuleInput {
                    action_id: dry[i].clone(),
                    action_entity,
                    dry_run_only_capability_entity,
                },
            );
            i = i + 1;
        }
        let check_action_entity = lookup(&references.actions, "check");
        let check_controlled_execution_capability_entity = lookup(
            &references.controlled_execution_capabilities,
            "check",
        );
        proof {
            if action_named(input.actions@, "check"@) {
                let q = choose|q: int| 0 <= q < input.actions@.len() && (#[trigger] input.actions@[q]).id@ == "check"@;
                assert(references.actions@[q].0@ == "check"@);
                lemma_action_found(*input, *references, "check"@, check_action_entity);
            }
            if has_text(input.execution_capabilities.controlled_actions@, "check"@) {
                lemma_capability_found(references.controlled_execution_capabilities@, input.execution_capabilities.controlled_actions@,
                    true, "check"@, check_controlled_execution_capability_entity);
            }
        }
        let context = RuleContext {
            workspace_detected,
            package_entities,
            workspace_entity: workspace,
            discovered_actions,
            controlled_actions: sorted_set(&input.execution_capabilities.controlled_actions),
            check_action_entity,
            check_controlled_execution_capability_entity,
            restricted_actions,
            verification,
            package_structure_evidence,
        };
        proof {
            let dv = input.execution_capabilities.dry_run_only_actions@;
            if dv.len() > 0 {
                assert(has_key(dry@, dv[0].sort_key()));
            }
            if dry@.len() > 0 {
                assert(dv.contains(dry@[0]));
            }
            lemma_rules_apply(*input, context);
            let ra = context.restricted_actions@;
            assert forall|k: Seq<u32>| restricted_evidence_keys(ra).contains(k) <==> dry_evidence_keys(dv).contains(k) by {
                if restricted_evidence_keys(ra).contains(k) {
                    let q = choose|q: int|
                        0 <= q < ra.len() && (k == ref_key(2, #[trigger] ra[q].action_id@) || k == ref_key(3, ra[q].action_id@));
                    let a = ra[q].action_id@;
                    assert(dry@[q]@ == a);
                    assert(has_text(dry@, a));
                    lemma_text_in_set(dry@, dv, a);
                }
                if dry_evidence_keys(dv).contains(k) {
                    let a = choose|a: Seq<char>| #[trigger] has_text(dv, a) && (k == ref_key(2, a) || k == ref_key(3, a));
                    lemma_text_in_set(dry@, dv, a);
                    let q = choose|q: int| 0 <= q < dry@.len() && #[trigger] dry@[q]@ == a;
                    assert(ra[q].action_id@ == a);
                }
            }
            assert(restricted_evidence_keys(ra) =~= dry_evidence_keys(dv));
            lemma_restricted_related(ra, dry@, dv);
        }
    context
}

proof fn lemma_restricted_related(ra: Seq<RestrictedActionRuleInput>, dry: Seq<String>, dv: Seq<String>)
    requires
        sorted_unique_of(dry, dv),
        ra.len() == dry.len(),
        forall|q: int|
            0 <= q < ra.len() ==> ((#[trigger] ra[q]).action_entity matches Some(e) && e@ == action_entity_id(dry[q]@)) && (
            ra[q].dry_run_only_capability_entity matches Some(c) && c@ == capability_entity_id(false, dry[q]@)),
    ensures
        restricted_related_keys(ra) == dry_related_keys(dv),
{
    assert forall|k: Seq<u32>| restricted_related_keys(ra).contains(k) <==> dry_related_keys(dv).contains(k) by {
        if restricted_related_keys(ra).contains(k) {
            let q = choose|q: int|
                0 <= q < ra.len() && (crate::intelligence::rule::opt_keys(#[trigger] ra[q].action_entity).contains(k)
                    || crate::intelligence::rule::opt_keys(ra[q].dry_run_only_capability_entity).contains(k));
            let a = dry[q]@;
            assert(has_text(dry, a));
            lemma_text_in_set(dry, dv, a);
        }
        if dry_related_keys(dv).contains(k) {
            let a = choose|a: Seq<char>|
                #[trigger] has_text(dv, a) && (k == str_key(action_entity_id(a)) || k == str_key(capability_entity_id(false, a)));
            lemma_text_in_set(dry, dv, a);
            let q = choose|q: int| 0 <= q < dry.len() && #[trigger] dry[q]@ == a;
            assert(ra[q].action_entity matches Some(e) && e@ == action_entity_id(a));
        }
    }
    assert(restricted_related_keys(ra) =~= dry_related_keys(dv));
}

/// Evaluates the default rules in order, collecting insights and risks.
fn evaluate_rules(context: &RuleContext) -> (r: (Vec<ProjectInsight>, Vec<ProjectRisk>))
    ensures
        forall|j: int| 0 <= j < r.0@.len() ==> rule_insight(#[trigger] r.0@[j]),
        forall|j: int| 0 <= j < r.0@.len() ==> rule_output_insight(*context, #[trigger] r.0@[j]),
        forall|x: InsightRule| #[trigger] has_rule_insight(r.0@, x) <==> x.fires(*context),
        r.1@.len() == if InsightRule::StaleVerification.fires(*context) {
            1int
        } else {
            0int
        },
        forall|j: int|
            0 <= j < r.1@.len() ==> (#[trigger] r.1@[j]).statement@ == STALE_RISK@
                && r.1@[j].classification == InformationClassification::Derived,
{
        let rules = default_rules();
        let mut insights: Vec<ProjectInsight> = Vec::new();
        let mut risks: Vec<ProjectRisk> = Vec::new();
        let mut n: usize = 0;
        while n < rules.len()
            invariant
                n <= rules@.len(),
                rules@.len() == 6,
                rules@[3] == InsightRule::StaleVerification,
                forall|m: int| 0 <= m < rules@.len() && m != 3 ==> rules@[m] != InsightRule::StaleVerification,
                forall|j: int| 0 <= j < insights@.len() ==> rule_insight(#[trigger] insights@[j]),
                forall|j: int| 0 <= j < insights@.len() ==> rule_output_insight(*context, #[trigger] insights@[j]),
                forall|r: InsightRule|
                    #[trigger] has_rule_insight(insights@, r) <==> (r.fires(*context) && exists|m: int|
                        0 <= m < n && rules@[m] == r),
                rules@ == seq![
                    InsightRule::MultiPackageWorkspace,
                    InsightRule::ControlledVerification,
                    InsightRule::RestrictedActions,
                    InsightRule::StaleVerification,
                    InsightRule::OperatorDecisionAvailability,
                    InsightRule::ModularPackageStructure,
                ],
                risks@.len() == if n > 3 && InsightRule::StaleVerification.fires(*context) {
                    1int
                } else {
                    0int
                },
                forall|j: int|
                    0 <= j < risks@.len() ==> (#[trigger] risks@[j]).statement@ == STALE_RISK@
                        && risks@[j].classification == InformationClassification::Derived,
            decreases rules@.len() - n,
        {
            let rule = rules[n];
            let output = match rule.evaluate(context) {
                Ok(o) => o,
                Err(_) => {
                    proof {
                        assert(false);
                    }
                    RuleOutput { insights: Vec::new(), risks: Vec::new() }
                },
            };
            proof {
                reveal_strlit("The latest verification is stale for the current project state.");
                if output.insights@.len() > 0 {
                    assert(rule_insight(output.insights@[0]));
                    assert(rule.fires(*context));
                    assert(rule_output_insight(*context, output.insights@[0]));
                }
            }
            let mut out_insights = output.insights;
            let mut out_risks = output.risks;
            let ghost before_i = insights@;
            let ghost before_r = risks@;
            insights.append(&mut out_insights);
            risks.append(&mut out_risks);
            proof {
                assert(rule_index(rule) == n);
                lemma_rule_insights_append(before_i, output.insights@, insights@, rule, *context, rules@, n as int);
                assert forall|j: int| 0 <= j < insights@.len() implies rule_insight(#[trigger] insights@[j])
                    && rule_output_insight(*context, insights@[j]) by {
                    if j >= before_i.len() {
                        assert(insights@[j] == output.insights@[j - before_i.len()]);
                    } else {
                        assert(insights@[j] == before_i[j]);
                    }
                }
                assert forall|j: int| 0 <= j < risks@.len() implies (#[trigger] risks@[j]).statement@ == STALE_RISK@
                        && risks@[j].classification == InformationClassification::Derived by {
                    if j >= before_r.len() {
                        assert(risks@[j] == output.risks@[j - before_r.len()]);
                    } else {
                        assert(risks@[j] == before_r[j]);
                    }
                }
            }
            n = n + 1;
        }
    proof {
        assert forall|x: InsightRule| #[trigger] has_rule_insight(insights@, x) <==> x.fires(*context) by {
            assert(rule_index(x) < 6);
        }
    }
    (insights, risks)
}

impl ProjectIntelligenceAnalyzer for DeterministicProjectIntelligenceAnalyzer {
    /// Validates the input, builds the graph, evaluates the rules and sorts every list.
    fn analyze(&self, input: &ProjectIntelligenceInput) -> (r: Result<ProjectIntelligence, IntelligenceError>)
        ensures
            !input_valid(*input) ==> (r matches Err(e) && validation_error(*input, e)),
            r matches Ok(p) ==> input_valid(*input) && report_spec(*input, p),
            input_valid(*input) && analysis_fresh(*input) ==> r is Ok,
            r matches Ok(p) ==> forall|a: int, b: int|
                0 <= a < b < p.entities@.len() ==> (#[trigger] p.entities@[a]).id@ != (#[trigger] p.entities@[b]).id@,
            r matches Ok(p) ==> forall|x: Seq<char>| #[trigger] lists_entity(p.entities@, x) <==> analysis_entity_ids(*input).contains(x),
            r matches Ok(p) ==> forall|j: int|
                0 <= j < input.knowledge.claims@.len() ==> claim_listed(p.entities@, #[trigger] input.knowledge.claims@[j]),
            r matches Ok(p) ==> forall|x: Seq<char>|
                #[trigger] lists_relationship(p.relationships@, x) <==> analysis_link_ids(*input).contains(x),
            r matches Ok(p) ==> forall|i: int| 0 <= i < p.insights@.len() ==> insight_reported(*input, #[trigger] p.insights@[i]),
    {
        validate_input(input)?;
        proof {
            lemma_not_blank_nonempty(input.project.name@);
        }
        let (graph, _project, workspace, package_entities, references, knowledge) = build_graph(input)?;
        let workspace_detected = workspace.is_some();
        let package_structure_evidence = workspace_detected && package_entities.len() > 1;
        proof {
            lemma_distinct_packages(package_entities@, input.context.packages@);
        }
        let ghost latest_verification = knowledge.latest_verification;
        let KnowledgeBuild { summary, latest, latest_verification: verification, decision_count } =
            knowledge;
        let context = rule_context(input, workspace, package_entities, &references, verification, package_structure_evidence);
        let (insights, risks) = evaluate_rules(&context);
        let limitations = limitations(decision_count);

        let ghost closed_graph = graph;
        let entities = sort_unique(graph.entities);
        let relationships = sort_unique(graph.relationships);
        proof {
            lemma_endpoints_listed(closed_graph, entities@, relationships@);
            lemma_sorted_ids_distinct(closed_graph, entities@);
            lemma_report_ids(closed_graph, *input, entities@, relationships@);
            assert forall|j: int| 0 <= j < input.knowledge.claims@.len() implies claim_listed(entities@, #[trigger] input.knowledge.claims@[j]) by {
                let c = input.knowledge.claims@[j];
                assert(claim_shown(closed_graph, c));
                lemma_report_like(closed_graph, entities@, claim_entity_id(c), claim_entity_kind(c.category), c.predicate@, claim_classification(c.category));
            }
        }
        let mut i: usize = 0;
        while i < relationships.len()
            invariant
                i <= relationships@.len(),
                input_valid(*input),
                forall|j: int|
                    0 <= j < relationships@.len() ==> lists_entity(entities@, (#[trigger] relationships@[j]).source@)
                        && lists_entity(entities@, relationships@[j].target@),
            decreases relationships@.len() - i,
        {
            if !entities_contain(&entities, &relationships[i].source) {
                return Err(
                    IntelligenceError::MissingRelationshipEndpoint(relationships[i].source.to_text()),
                );
            }
            if !entities_contain(&entities, &relationships[i].target) {
                return Err(
                    IntelligenceError::MissingRelationshipEndpoint(relationships[i].target.to_text()),
                );
            }
            i = i + 1;
        }
        let ghost all_insights = insights@;
        let ghost all_risks = risks@;
        let insights = sort_unique(insights);
        let risks = sort_unique(risks);
        proof {
            lemma_package_keys(*input, context.package_entities@);
            assert forall|j: int| 0 <= j < insights@.len() implies rule_insight(#[trigger] insights@[j])
                && insight_reported(*input, insights@[j]) by {
                assert(all_insights.contains(insights@[j]));
                let m = choose|m: int| 0 <= m < all_insights.len() && all_insights[m] == insights@[j];
                assert(rule_output_insight(context, all_insights[m]));
                lemma_insight_reported(*input, context, latest, insights@[j]);
            }
            lemma_insights_per_rule(*input, context, all_insights, insights@);
            lemma_single_sorted(risks@, all_risks);
            if InsightRule::StaleVerification.fires(context) {
                let v = latest_verification->0;
                let k = latest->0 as int;
                assert(is_latest_verification(input.knowledge.claims@, k));
                assert(input.knowledge.claims@[k].validity == VerificationValidity::Stale);
                assert(latest_is_stale(input.knowledge.claims@));
            }
            if latest_is_stale(input.knowledge.claims@) {
                let k = choose|k: int|
                    is_latest_verification(input.knowledge.claims@, k) && (#[trigger] input.knowledge.claims@[k]).validity == VerificationValidity::Stale;
                assert(has_verification(input.knowledge.claims@)) by {
                    assert(is_verification(input.knowledge.claims@[k]));
                }
                let b = latest->0 as int;
                lemma_latest_unique(input.knowledge.claims@, k, b);
            }
        }
        let report = ProjectIntelligence {
            schema_version: PROJECT_INTELLIGENCE_SCHEMA_VERSION,
            project: ProjectIdentityModel { name: input.project.name.clone() },
            identity: identity_model(input),
            architecture: architecture_model(workspace_detected, package_structure_evidence),
            capabilities: capability_model(input),
            verification: verification_model(input, latest),
            knowledge: summary,
            repository: repository_model(&input.context),
            entities,
            relationships,
            insights,
            risks,
            limitations,
        };
        Ok(report)
    }
}

/// Sorting the entities of a graph whose identifiers are distinct keeps
/// them distinct.
proof fn lemma_sorted_ids_distinct(g: GraphBuilder, ents: Seq<ProjectEntity>)
    requires
        entity_ids_unique(g),
        sorted_unique_of(ents, g.entities@),
    ensures
        forall|a: int, b: int| 0 <= a < b < ents.len() ==> (#[trigger] ents[a]).id@ != (#[trigger] ents[b]).id@,
{
    assert forall|a: int, b: int| 0 <= a < b < ents.len() implies (#[trigger] ents[a]).id@ != (#[trigger] ents[b]).id@ by {
        assert(g.entities@.contains(ents[a]));
        assert(g.entities@.contains(ents[b]));
        let x = choose|x: int| 0 <= x < g.entities@.len() && g.entities@[x] == ents[a];
        let y = choose|y: int| 0 <= y < g.entities@.len() && g.entities@[y] == ents[b];
        if ents[a].id@ == ents[b].id@ {
            if x < y {
                assert(g.entities@[x].id@ != g.entities@[y].id@);
            } else if y < x {
                assert(g.entities@[y].id@ != g.entities@[x].id@);
            } else {
                assert(ents[a] == ents[b]);
                assert(key_lt(ents[a].sort_key(), ents[b].sort_key()));
                lemma_key_lt_irreflexive(ents[a].sort_key());
            }
        }
    }
}

/// Some relationship of the list has the identifier.
pub open spec fn lists_relationship(rels: Seq<ProjectRelationship>, id: Seq<char>) -> bool {
    exists|i: int| 0 <= i < rels.len() && (#[trigger] rels[i]).id@ == id
}

/// Two relationships with one key have one identifier.
proof fn lemma_relationship_key_id(a: ProjectRelationship, b: ProjectRelationship)
    requires
        a.sort_key() == b.sort_key(),
    ensures
        a.id@ == b.id@,
{
    let ka = a.sort_key();
    let kb = b.sort_key();
    assert(ka.skip(1) =~= str_key(a.source@) + (str_key(a.target@) + str_key(a.id@)));
    assert(kb.skip(1) =~= str_key(b.source@) + (str_key(b.target@) + str_key(b.id@)));
    crate::order::lemma_str_key_split(a.source@, b.source@, str_key(a.target@) + str_key(a.id@), str_key(b.target@) + str_key(b.id@));
    crate::order::lemma_str_key_split(a.target@, b.target@, str_key(a.id@), str_key(b.id@));
    assert(str_key(a.id@) + Seq::<u32>::empty() =~= str_key(a.id@));
    assert(str_key(b.id@) + Seq::<u32>::empty() =~= str_key(b.id@));
    crate::order::lemma_str_key_split(a.id@, b.id@, Seq::<u32>::empty(), Seq::<u32>::empty());
}

/// The sorted lists of a complete graph name exactly the identifiers the
/// analysis builds.
proof fn lemma_report_ids(
    g: GraphBuilder,
    input: ProjectIntelligenceInput,
    ents: Seq<ProjectEntity>,
    rels: Seq<ProjectRelationship>,
)
    requires
        graph_complete(g, input),
        sorted_unique_of(ents, g.entities@),
        sorted_unique_of(rels, g.relationships@),
    ensures
        forall|x: Seq<char>| #[trigger] lists_entity(ents, x) <==> analysis_entity_ids(input).contains(x),
        forall|x: Seq<char>| #[trigger] lists_relationship(rels, x) <==> analysis_link_ids(input).contains(x),
{
    reveal(graph_complete);
    reveal(ids_among);
    reveal(holds_entities);
    reveal(holds_links);
    assert forall|x: Seq<char>| #[trigger] lists_entity(ents, x) <==> analysis_entity_ids(input).contains(x) by {
        if lists_entity(ents, x) {
            let i = choose|i: int| 0 <= i < ents.len() && (#[trigger] ents[i]).id@ == x;
            assert(g.entities@.contains(ents[i]));
            let k = choose|k: int| 0 <= k < g.entities@.len() && g.entities@[k] == ents[i];
            assert(g.has_entity(x));
        }
        if analysis_entity_ids(input).contains(x) {
            assert(g.has_entity(x));
            let k = choose|k: int| 0 <= k < g.entities@.len() && #[trigger] g.entities@[k].id@ == x;
            assert(has_key(ents, g.entities@[k].sort_key()));
            let m = choose|m: int| 0 <= m < ents.len() && #[trigger] ents[m].sort_key() == g.entities@[k].sort_key();
            lemma_entity_key_id(ents[m], g.entities@[k]);
            assert(lists_entity(ents, x));
        }
    }
    assert forall|x: Seq<char>| #[trigger] lists_relationship(rels, x) <==> analysis_link_ids(input).contains(x) by {
        if lists_relationship(rels, x) {
            let i = choose|i: int| 0 <= i < rels.len() && (#[trigger] rels[i]).id@ == x;
            assert(g.relationships@.contains(rels[i]));
            let k = choose|k: int| 0 <= k < g.relationships@.len() && g.relationships@[k] == rels[i];
            assert(g.has_relationship(x));
        }
        if analysis_link_ids(input).contains(x) {
            assert(g.has_relationship(x));
            let k = choose|k: int| 0 <= k < g.relationships@.len() && #[trigger] g.relationships@[k].id@ == x;
            assert(has_key(rels, g.relationships@[k].sort_key()));
            let m = choose|m: int| 0 <= m < rels.len() && #[trigger] rels[m].sort_key() == g.relationships@[k].sort_key();
            lemma_relationship_key_id(rels[m], g.relationships@[k]);
            assert(lists_relationship(rels, x));
        }
    }
}

/// Some entity of the list has the identifier, kind, name and classification.
pub open spec fn lists_entity_like(
    ents: Seq<ProjectEntity>,
    id: Seq<char>,
    kind: EntityKind,
    name: Seq<char>,
    classification: InformationClassification,
) -> bool {
    exists|i: int|
        0 <= i < ents.len() && (#[trigger] ents[i]).id@ == id && ents[i].kind == kind && ents[i].name@ == name
            && ents[i].classification == classification
}

/// The claim's entity, with its kind, predicate as name and classification,
/// is listed.
pub open spec fn claim_listed(ents: Seq<ProjectEntity>, c: KnowledgeClaimInput) -> bool {
    lists_entity_like(ents, claim_entity_id(c), claim_entity_kind(c.category), c.predicate@, claim_classification(c.category))
}

proof fn lemma_report_like(
    g: GraphBuilder,
    ents: Seq<ProjectEntity>,
    id: Seq<char>,
    kind: EntityKind,
    name: Seq<char>,
    classification: InformationClassification,
)
    requires
        entity_ids_unique(g),
        sorted_unique_of(ents, g.entities@),
        entity_like(g, id, kind, name, classification),
    ensures
        lists_entity_like(ents, id, kind, name, classification),
{
    let k = choose|k: int|
        0 <= k < g.entities@.len() && (#[trigger] g.entities@[k]).id@ == id && g.entities@[k].kind == kind
            && g.entities@[k].name@ == name && g.entities@[k].classification == classification;
    assert(has_key(ents, g.entities@[k].sort_key()));
    let m = choose|m: int| 0 <= m < ents.len() && #[trigger] ents[m].sort_key() == g.entities@[k].sort_key();
    assert(g.entities@.contains(ents[m]));
    let k2 = choose|k2: int| 0 <= k2 < g.entities@.len() && g.entities@[k2] == ents[m];
    lemma_entity_key_id(ents[m], g.entities@[k]);
    if k2 < k {
        assert(g.entities@[k2].id@ != g.entities@[k].id@);
    } else if k < k2 {
        assert(g.entities@[k].id@ != g.entities@[k2].id@);
    }
    assert(ents[m] == g.entities@[k]);
}

/// Two entities with one key have one identifier.
proof fn lemma_entity_key_id(a: ProjectEntity, b: ProjectEntity)
    requires
        a.sort_key() == b.sort_key(),
    ensures
        a.id@ == b.id@,
{
    let ka = a.sort_key();
    let kb = b.sort_key();
    assert(ka.skip(1) =~= str_key(a.name@) + str_key(a.id@));
    assert(kb.skip(1) =~= str_key(b.name@) + str_key(b.id@));
    crate::order::lemma_str_key_split(a.name@, b.name@, str_key(a.id@), str_key(b.id@));
    assert(str_key(a.id@) + Seq::<u32>::empty() =~= str_key(a.id@));
    assert(str_key(b.id@) + Seq::<u32>::empty() =~= str_key(b.id@));
    crate::order::lemma_str_key_split(a.id@, b.id@, Seq::<u32>::empty(), Seq::<u32>::empty());
}

/// In a closed graph, the sorted entities list both ends of every sorted
/// relationship.
proof fn lemma_endpoints_listed(g: GraphBuilder, ents: Seq<ProjectEntity>, rels: Seq<ProjectRelationship>)
    requires
        graph_closed(g),
        sorted_unique_of(ents, g.entities@),
        sorted_unique_of(rels, g.relationships@),
    ensures
        forall|j: int|
            0 <= j < rels.len() ==> lists_entity(ents, (#[trigger] rels[j]).source@) && lists_entity(ents, rels[j].target@),
{
    assert forall|j: int| 0 <= j < rels.len() implies lists_entity(ents, (#[trigger] rels[j]).source@) && lists_entity(
        ents,
        rels[j].target@,
    ) by {
        assert(g.relationships@.contains(rels[j]));
        let i = choose|i: int| 0 <= i < g.relationships@.len() && g.relationships@[i] == rels[j];
        assert(g.has_entity(g.relationships@[i].source@));
        assert(g.has_entity(g.relationships@[i].target@));
        let ks = choose|k: int| 0 <= k < g.entities@.len() && #[trigger] g.entities@[k].id@ == rels[j].source@;
        let kt = choose|k: int| 0 <= k < g.entities@.len() && #[trigger] g.entities@[k].id@ == rels[j].target@;
        assert(has_key(ents, g.entities@[ks].sort_key()));
        assert(has_key(ents, g.entities@[kt].sort_key()));
        let ms = choose|m: int| 0 <= m < ents.len() && #[trigger] ents[m].sort_key() == g.entities@[ks].sort_key();
        let mt = choose|m: int| 0 <= m < ents.len() && #[trigger] ents[m].sort_key() == g.entities@[kt].sort_key();
        lemma_entity_key_id(ents[ms], g.entities@[ks]);
        lemma_entity_key_id(ents[mt], g.entities@[kt]);
    }
}

/// A name that is not blank is not empty.
proof fn lemma_not_blank_nonempty(s: Seq<char>)
    requires
        !is_blank(s),
    ensures
        s.len() > 0,
{
}

/// The position of a rule among the default rules.
pub open spec fn rule_index(r: InsightRule) -> int {
    match r {
        InsightRule::MultiPackageWorkspace => 0,
        InsightRule::ControlledVerification => 1,
        InsightRule::RestrictedActions => 2,
        InsightRule::StaleVerification => 3,
        InsightRule::OperatorDecisionAvailability => 4,
        InsightRule::ModularPackageStructure => 5,
    }
}

proof fn lemma_rule_index_unique(a: InsightRule, b: InsightRule)
    requires
        rule_index(a) == rule_index(b),
    ensures
        a == b,
{
}

proof fn lemma_rule_insights_append(
    before: Seq<ProjectInsight>,
    out: Seq<ProjectInsight>,
    after: Seq<ProjectInsight>,
    rule: InsightRule,
    ctx: RuleContext,
    rules: Seq<InsightRule>,
    n: int,
)
    requires
        0 <= n < rules.len(),
        rules[n] == rule,
        rule_index(rule) == n,
        after == before + out,
        out.len() == if rule.fires(ctx) { 1int } else { 0int },
        rule.fires(ctx) ==> out[0].rule_id@ == rule.rule_id_spec(),
        forall|r: InsightRule|
            #[trigger] has_rule_insight(before, r) <==> (r.fires(ctx) && rule_index(r) < n),
    ensures
        forall|r: InsightRule|
            #[trigger] has_rule_insight(after, r) <==> (r.fires(ctx) && rule_index(r) < n + 1),
{
    assert forall|r: InsightRule|
        #[trigger] has_rule_insight(after, r) <==> (r.fires(ctx) && rule_index(r) < n + 1) by {
        if has_rule_insight(after, r) {
            let i = choose|i: int| 0 <= i < after.len() && (#[trigger] after[i]).rule_id@ == r.rule_id_spec();
            if i < before.len() {
                assert(after[i] == before[i]);
                assert(has_rule_insight(before, r));
            } else {
                assert(after[i] == out[i - before.len()]);
                crate::intelligence::rule::lemma_rule_ids_distinct(r, rule);
            }
        }
        if r.fires(ctx) && rule_index(r) < n + 1 {
            if rule_index(r) < n {
                assert(has_rule_insight(before, r));
                let i = choose|i: int| 0 <= i < before.len() && (#[trigger] before[i]).rule_id@ == r.rule_id_spec();
                assert(after[i] == before[i]);
            } else {
                lemma_rule_index_unique(r, rule);
                assert(after[before.len() as int] == out[0]);
            }
        }
    }
}

proof fn lemma_insights_per_rule(
    input: ProjectIntelligenceInput,
    ctx: RuleContext,
    all: Seq<ProjectInsight>,
    sorted: Seq<ProjectInsight>,
)
    requires
        sorted_unique_of(sorted, all),
        forall|r: InsightRule| #[trigger] r.fires(ctx) <==> rule_applies(input, r),
        forall|r: InsightRule| #[trigger] has_rule_insight(all, r) <==> r.fires(ctx),
    ensures
        forall|r: InsightRule| #[trigger] has_rule_insight(sorted, r) <==> rule_applies(input, r),
{
    lemma_rule_insights_sorted(all, sorted);
    assert forall|r: InsightRule| #[trigger] has_rule_insight(sorted, r) <==> rule_applies(input, r) by {
        assert(has_rule_insight(all, r) <==> has_rule_insight(sorted, r));
        assert(r.fires(ctx) <==> rule_applies(input, r));
    }
}

proof fn lemma_latest_unique(claims: Seq<KnowledgeClaimInput>, a: int, b: int)
    requires
        is_latest_verification(claims, a),
        is_latest_verification(claims, b),
    ensures
        a == b,
{
    if a < b {
        assert(key_lt(claim_order_key(claims[b]), claim_order_key(claims[a])));
        assert(!key_lt(claim_order_key(claims[b]), claim_order_key(claims[a])));
    } else if b < a {
        assert(key_lt(claim_order_key(claims[a]), claim_order_key(claims[b])));
        assert(!key_lt(claim_order_key(claims[a]), claim_order_key(claims[b])));
    }
}

} // verus!
