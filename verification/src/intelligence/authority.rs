//! Operator targets: what an operator response binds to in the current report.
use vstd::prelude::*;
use crate::intelligence::entity::{InformationClassification, ProjectEntity};
use crate::intelligence::error::IntelligenceError;
use crate::intelligence::evidence::IntelligenceEvidenceRef;
use crate::intelligence::ids::EntityId;
use crate::intelligence::insight::ProjectInsight;
use crate::intelligence::model::ProjectIntelligence;
use crate::knowledge::operator::{
    identifier_valid, opt_view, target_fingerprint, views, OperatorTargetBinding,
    OperatorTargetClassification, OperatorTargetKind,
};
use crate::text::has_text;
use crate::order::{
    has_key, keys_sorted, keys_strictly_sorted, lemma_str_key_injective, sort_stable, sorted_of,
    sorted_unique_of, str_key, push_str_key, push_tag, SortKey,
};

verus! {

/// The operator-facing classification of an intelligence classification.
pub open spec fn target_classification_spec(c: InformationClassification) -> OperatorTargetClassification {
    match c {
        InformationClassification::Observed => OperatorTargetClassification::Observed,
        InformationClassification::Derived => OperatorTargetClassification::Derived,
        InformationClassification::OperatorDecided => OperatorTargetClassification::OperatorDecided,
    }
}

fn target_classification(c: InformationClassification) -> (r: OperatorTargetClassification)
    ensures
        r == target_classification_spec(c),
{
    match c {
        InformationClassification::Observed => OperatorTargetClassification::Observed,
        InformationClassification::Derived => OperatorTargetClassification::Derived,
        InformationClassification::OperatorDecided => OperatorTargetClassification::OperatorDecided,
    }
}

pub open spec fn canonical_texts(e: Seq<IntelligenceEvidenceRef>) -> Seq<Seq<char>> {
    e.map_values(|x: IntelligenceEvidenceRef| x.canonical())
}

pub open spec fn id_texts(ids: Seq<EntityId>) -> Seq<Seq<char>> {
    ids.map_values(|x: EntityId| x@)
}

/// `s` holds the texts of `src`, each once, in increasing order.
pub open spec fn sorted_texts_of(s: Seq<String>, src: Seq<Seq<char>>) -> bool {
    &&& keys_strictly_sorted(s)
    &&& forall|i: int| 0 <= i < s.len() ==> src.contains(#[trigger] s[i]@)
    &&& forall|j: int| 0 <= j < src.len() ==> has_text(s, #[trigger] src[j])
}

proof fn lemma_all_valid(v: Seq<String>, src: Seq<Seq<char>>)
    requires
        views(v) == src,
    ensures
        all_valid(src) == crate::knowledge::operator::all_identifiers_valid(v),
{
    assert forall|i: int| 0 <= i < v.len() implies #[trigger] src[i] == v[i]@ by {
        assert(views(v)[i] == v[i]@);
    }
    if all_valid(src) {
        assert forall|i: int| 0 <= i < v.len() implies identifier_valid(#[trigger] v[i]@) by {
            assert(src[i] == v[i]@);
        }
    }
    if crate::knowledge::operator::all_identifiers_valid(v) {
        assert forall|i: int| 0 <= i < src.len() implies identifier_valid(#[trigger] src[i]) by {
            assert(src[i] == v[i]@);
        }
    }
}

proof fn lemma_sorted_texts(r: Seq<String>, v: Seq<String>, src: Seq<Seq<char>>)
    requires
        sorted_unique_of(r, v),
        views(v) == src,
    ensures
        sorted_texts_of(r, src),
{
    assert forall|i: int| 0 <= i < r.len() implies src.contains(#[trigger] r[i]@) by {
        assert(v.contains(r[i]));
        let j = choose|j: int| 0 <= j < v.len() && v[j] == r[i];
        assert(src[j] == v[j]@);
    }
    assert forall|j: int| 0 <= j < src.len() implies has_text(r, #[trigger] src[j]) by {
        assert(src[j] == v[j]@);
        assert(has_key(r, v[j].sort_key()));
        let i = choose|i: int| 0 <= i < r.len() && #[trigger] r[i].sort_key() == v[j].sort_key();
        lemma_str_key_injective(r[i]@, v[j]@);
    }
}

fn canonical_keys(evidence: &Vec<IntelligenceEvidenceRef>) -> (r: Vec<String>)
    ensures
        views(r@) == canonical_texts(evidence@),
{
    let mut r: Vec<String> = Vec::new();
    let mut i: usize = 0;
    while i < evidence.len()
        invariant
            i <= evidence@.len(),
            r@.len() == i,
            forall|k: int| 0 <= k < i ==> (#[trigger] r@[k])@ == evidence@[k].canonical(),
        decreases evidence@.len() - i,
    {
        let k = evidence[i].canonical_key();
        r.push(k);
        i = i + 1;
    }
    assert(views(r@) =~= canonical_texts(evidence@));
    r
}

fn entity_texts(ids: &Vec<EntityId>) -> (r: Vec<String>)
    ensures
        views(r@) == id_texts(ids@),
{
    let mut r: Vec<String> = Vec::new();
    let mut i: usize = 0;
    while i < ids.len()
        invariant
            i <= ids@.len(),
            r@.len() == i,
            forall|k: int| 0 <= k < i ==> (#[trigger] r@[k])@ == ids@[k]@,
        decreases ids@.len() - i,
    {
        r.push(ids[i].to_text());
        i = i + 1;
    }
    assert(views(r@) =~= id_texts(ids@));
    r
}

pub open spec fn all_valid(texts: Seq<Seq<char>>) -> bool {
    forall|i: int| 0 <= i < texts.len() ==> identifier_valid(#[trigger] texts[i])
}

/// What a binding built from the given fields holds.
pub open spec fn binding_of(
    b: OperatorTargetBinding,
    target_id: Seq<char>,
    kind: OperatorTargetKind,
    classification: OperatorTargetClassification,
    rule_id: Option<Seq<char>>,
    statement: Seq<char>,
    evidence: Seq<Seq<char>>,
    related: Seq<Seq<char>>,
) -> bool {
    &&& b.target_id@ == target_id
    &&& b.target_kind == kind
    &&& b.classification == classification
    &&& opt_view(b.rule_id) == rule_id
    &&& b.statement@ == statement
    &&& sorted_texts_of(b.evidence_references@, evidence)
    &&& sorted_texts_of(b.related_entities@, related)
    &&& b.evidence_fingerprint@ == target_fingerprint(
        target_id,
        rule_id,
        statement,
        views(b.evidence_references@),
        views(b.related_entities@),
    )
}

/// The fields of an insight can be bound.
pub open spec fn insight_bindable(x: ProjectInsight) -> bool {
    &&& identifier_valid(x.id@)
    &&& identifier_valid(x.statement@)
    &&& identifier_valid(x.rule_id@)
    &&& x.evidence@.len() > 0
    &&& all_valid(canonical_texts(x.evidence@))
    &&& all_valid(id_texts(x.related_entities@))
}

#[verifier::opaque]
pub open spec fn insight_binding_spec(x: ProjectInsight, b: OperatorTargetBinding) -> bool {
    binding_of(
        b,
        x.id@,
        OperatorTargetKind::Insight,
        target_classification_spec(x.classification),
        Some(x.rule_id@),
        x.statement@,
        canonical_texts(x.evidence@),
        id_texts(x.related_entities@),
    )
}

/// The binding of an insight: its identifier, rule, statement, evidence and related entities.
pub fn insight_target_binding(insight: &ProjectInsight) -> (r: Result<OperatorTargetBinding, IntelligenceError>)
    ensures
        r is Ok <==> insight_bindable(*insight),
        r matches Ok(b) ==> insight_binding_spec(*insight, b),
        r matches Err(e) ==> e matches IntelligenceError::InvalidInput(m) && m@.len() > 0,
{
    let evidence = canonical_keys(&insight.evidence);
    let related = entity_texts(&insight.related_entities);
    let ghost ev = evidence@;
    let ghost rel = related@;
    proof {
        assert(canonical_texts(insight.evidence@).len() == ev.len());
        lemma_all_valid(ev, canonical_texts(insight.evidence@));
        lemma_all_valid(rel, id_texts(insight.related_entities@));
    }
    match OperatorTargetBinding::new(
        insight.id.to_text(),
        OperatorTargetKind::Insight,
        target_classification(insight.classification),
        Some(insight.rule_id.to_text()),
        insight.statement.clone(),
        evidence,
        related,
    ) {
        Ok(b) => {
            proof {
                lemma_sorted_texts(b.evidence_references@, ev, canonical_texts(insight.evidence@));
                lemma_sorted_texts(b.related_entities@, rel, id_texts(insight.related_entities@));
                reveal(insight_binding_spec);
            }
            Ok(b)
        },
        Err(e) => {
            let m = e.message();
            proof {
                reveal_strlit("invalid operator response: ");
            }
            Err(IntelligenceError::InvalidInput(m))
        },
    }
}

/// The fields of an entity can be bound.
pub open spec fn entity_bindable(x: ProjectEntity) -> bool {
    &&& identifier_valid(x.id@)
    &&& identifier_valid(x.name@)
    &&& x.evidence@.len() > 0
    &&& all_valid(canonical_texts(x.evidence@))
}

#[verifier::opaque]
pub open spec fn entity_binding_spec(x: ProjectEntity, b: OperatorTargetBinding) -> bool {
    binding_of(
        b,
        x.id@,
        OperatorTargetKind::Entity,
        target_classification_spec(x.classification),
        None,
        x.name@,
        canonical_texts(x.evidence@),
        Seq::empty(),
    )
}

/// The binding of an entity: its identifier, name and evidence, with no rule.
pub fn entity_target_binding(entity: &ProjectEntity) -> (r: Result<OperatorTargetBinding, IntelligenceError>)
    ensures
        r is Ok <==> entity_bindable(*entity),
        r matches Ok(b) ==> entity_binding_spec(*entity, b),
        r matches Err(e) ==> e matches IntelligenceError::InvalidInput(m) && m@.len() > 0,
{
    let evidence = canonical_keys(&entity.evidence);
    let ghost ev = evidence@;
    let related: Vec<String> = Vec::new();
    proof {
        assert(canonical_texts(entity.evidence@).len() == ev.len());
        lemma_all_valid(ev, canonical_texts(entity.evidence@));
        assert(views(related@) =~= Seq::<Seq<char>>::empty());
        lemma_all_valid(related@, Seq::empty());
    }
    match OperatorTargetBinding::new(
        entity.id.to_text(),
        OperatorTargetKind::Entity,
        target_classification(entity.classification),
        None,
        entity.name.clone(),
        evidence,
        related,
    ) {
        Ok(b) => {
            proof {
                lemma_sorted_texts(b.evidence_references@, ev, canonical_texts(entity.evidence@));
                lemma_sorted_texts(b.related_entities@, Seq::empty(), Seq::empty());
                reveal(entity_binding_spec);
            }
            Ok(b)
        },
        Err(e) => {
            let m = e.message();
            proof {
                reveal_strlit("invalid operator response: ");
            }
            Err(IntelligenceError::InvalidInput(m))
        },
    }
}

pub open spec fn target_kind_tag(k: OperatorTargetKind) -> u32 {
    match k {
        OperatorTargetKind::Insight => 0,
        OperatorTargetKind::Entity => 1,
    }
}

pub open spec fn optional_key(o: Option<String>) -> Seq<u32> {
    match o {
        None => seq![0u32],
        Some(s) => seq![1u32] + str_key(s@),
    }
}

/// Targets are listed by kind, then rule, then target identifier.
impl SortKey for OperatorTargetBinding {
    open spec fn sort_key(&self) -> Seq<u32> {
        seq![target_kind_tag(self.target_kind)] + optional_key(self.rule_id) + str_key(self.target_id@)
    }

    fn key(&self) -> (k: Vec<u32>) {
        let mut k = Vec::new();
        push_tag(&mut k, match self.target_kind {
            OperatorTargetKind::Insight => 0,
            OperatorTargetKind::Entity => 1,
        });
        match &self.rule_id {
            None => push_tag(&mut k, 0),
            Some(r) => {
                push_tag(&mut k, 1);
                push_str_key(&mut k, r.as_str());
            },
        }
        push_str_key(&mut k, self.target_id.as_str());
        assert(k@ =~= self.sort_key());
        k
    }
}

/// Every insight and entity of the report is bindable.
pub open spec fn all_bindable(p: ProjectIntelligence) -> bool {
    &&& forall|i: int| 0 <= i < p.insights@.len() ==> insight_bindable(#[trigger] p.insights@[i])
    &&& forall|i: int| 0 <= i < p.entities@.len() ==> entity_bindable(#[trigger] p.entities@[i])
}

/// A binding of one of the report's insights or entities.
pub open spec fn is_report_target(p: ProjectIntelligence, b: OperatorTargetBinding) -> bool {
    ||| exists|i: int| 0 <= i < p.insights@.len() && insight_binding_spec(#[trigger] p.insights@[i], b)
    ||| exists|i: int| 0 <= i < p.entities@.len() && entity_binding_spec(#[trigger] p.entities@[i], b)
}

/// Some target of the list is the insight's binding.
pub open spec fn insight_targeted(t: Seq<OperatorTargetBinding>, x: ProjectInsight) -> bool {
    exists|j: int| 0 <= j < t.len() && insight_binding_spec(x, #[trigger] t[j])
}

/// Some target of the list is the entity's binding.
pub open spec fn entity_targeted(t: Seq<OperatorTargetBinding>, x: ProjectEntity) -> bool {
    exists|j: int| 0 <= j < t.len() && entity_binding_spec(x, #[trigger] t[j])
}

/// One binding per insight, in the report's order, then one per entity.
pub open spec fn report_bindings(p: ProjectIntelligence, all: Seq<OperatorTargetBinding>) -> bool {
    &&& all.len() == p.insights@.len() + p.entities@.len()
    &&& forall|j: int| 0 <= j < p.insights@.len() ==> insight_binding_spec(p.insights@[j], #[trigger] all[j])
    &&& forall|j: int|
        0 <= j < p.entities@.len() ==> entity_binding_spec(p.entities@[j], #[trigger] all[p.insights@.len() + j])
}

proof fn lemma_targets(p: ProjectIntelligence, sorted: Seq<OperatorTargetBinding>, all: Seq<OperatorTargetBinding>)
    requires
        sorted_of(sorted, all),
        all.len() == p.insights@.len() + p.entities@.len(),
        forall|j: int| 0 <= j < p.insights@.len() ==> insight_binding_spec(p.insights@[j], #[trigger] all[j]),
        forall|j: int|
            0 <= j < p.entities@.len() ==> entity_binding_spec(p.entities@[j], #[trigger] all[p.insights@.len() + j]),
    ensures
        forall|i: int| 0 <= i < sorted.len() ==> is_report_target(p, #[trigger] sorted[i]),
        forall|i: int| 0 <= i < p.insights@.len() ==> insight_targeted(sorted, #[trigger] p.insights@[i]),
        forall|i: int| 0 <= i < p.entities@.len() ==> entity_targeted(sorted, #[trigger] p.entities@[i]),
{
    let ni = p.insights@.len() as int;
    assert forall|k: int| 0 <= k < sorted.len() implies is_report_target(p, #[trigger] sorted[k]) by {
        assert(all.contains(sorted[k]));
        let w = choose|w: int| 0 <= w < all.len() && all[w] == sorted[k];
        if w < ni {
            assert(insight_binding_spec(p.insights@[w], all[w]));
        } else {
            let q = w - ni;
            assert(entity_binding_spec(p.entities@[q], all[ni + q]));
        }
    }
    assert forall|x: int| 0 <= x < ni implies insight_targeted(sorted, #[trigger] p.insights@[x]) by {
        assert(sorted.contains(all[x]));
        let j = choose|j: int| 0 <= j < sorted.len() && sorted[j] == all[x];
        assert(insight_binding_spec(p.insights@[x], sorted[j]));
    }
    assert forall|x: int| 0 <= x < p.entities@.len() implies entity_targeted(sorted, #[trigger] p.entities@[x]) by {
        assert(sorted.contains(all[ni + x]));
        let j = choose|j: int| 0 <= j < sorted.len() && sorted[j] == all[ni + x];
        assert(entity_binding_spec(p.entities@[x], sorted[j]));
    }
}

/// The bindings of every insight and entity of the report, ordered by kind,
/// rule and target identifier.
pub fn authority_targets(intelligence: &ProjectIntelligence) -> (r: Result<Vec<OperatorTargetBinding>, IntelligenceError>)
    ensures
        r is Ok <==> all_bindable(*intelligence),
        r matches Ok(t) ==> t@.len() == intelligence.insights@.len() + intelligence.entities@.len(),
        r matches Ok(t) ==> keys_sorted(t@),
        r matches Ok(t) ==> exists|all: Seq<OperatorTargetBinding>|
            #[trigger] report_bindings(*intelligence, all) && t@.to_multiset() == all.to_multiset(),
        r matches Ok(t) ==> forall|i: int| 0 <= i < t@.len() ==> is_report_target(*intelligence, #[trigger] t@[i]),
        r matches Ok(t) ==> forall|i: int|
            0 <= i < intelligence.insights@.len() ==> insight_targeted(t@, #[trigger] intelligence.insights@[i]),
        r matches Ok(t) ==> forall|i: int|
            0 <= i < intelligence.entities@.len() ==> entity_targeted(t@, #[trigger] intelligence.entities@[i]),
        r matches Err(e) ==> e is InvalidInput,
{
    let mut targets: Vec<OperatorTargetBinding> = Vec::new();
    let ni = intelligence.insights.len();
    let mut i: usize = 0;
    while i < ni
        invariant
            i <= ni,
            ni == intelligence.insights@.len(),
            targets@.len() == i,
            forall|j: int| 0 <= j < i ==> insight_bindable(#[trigger] intelligence.insights@[j]),
            forall|j: int| 0 <= j < i ==> insight_binding_spec(intelligence.insights@[j], #[trigger] targets@[j]),
        decreases ni - i,
    {
        match insight_target_binding(&intelligence.insights[i]) {
            Ok(b) => targets.push(b),
            Err(e) => {
                proof {
                    assert(!all_bindable(*intelligence));
                }
                return Err(e);
            },
        }
        i = i + 1;
    }
    let ne = intelligence.entities.len();
    let mut i: usize = 0;
    while i < ne
        invariant
            i <= ne,
            ne == intelligence.entities@.len(),
            ni == intelligence.insights@.len(),
            targets@.len() == ni + i,
            forall|j: int| 0 <= j < ni ==> insight_bindable(#[trigger] intelligence.insights@[j]),
            forall|j: int| 0 <= j < ni ==> insight_binding_spec(intelligence.insights@[j], #[trigger] targets@[j]),
            forall|j: int| 0 <= j < i ==> entity_bindable(#[trigger] intelligence.entities@[j]),
            forall|j: int| 0 <= j < i ==> entity_binding_spec(intelligence.entities@[j], #[trigger] targets@[ni + j]),
        decreases ne - i,
    {
        match entity_target_binding(&intelligence.entities[i]) {
            Ok(b) => targets.push(b),
            Err(e) => {
                proof {
                    assert(!all_bindable(*intelligence));
                }
                return Err(e);
            },
        }
        i = i + 1;
    }
    let ghost all = targets@;
    let sorted = sort_stable(targets);
    proof {
        lemma_targets(*intelligence, sorted@, all);
        assert(report_bindings(*intelligence, all));
    }
    Ok(sorted)
}

} // verus!
