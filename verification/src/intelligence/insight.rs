//! Derived insights, risks and limitations.
use vstd::prelude::*;
use crate::intelligence::entity::InformationClassification;
use crate::intelligence::error::IntelligenceError;
use crate::intelligence::evidence::IntelligenceEvidenceRef;
use crate::intelligence::ids::{
    derived_id, EntityId, InsightId, LimitationId, RiskId, RuleId, INSIGHT_ID_PREFIX,
    LIMITATION_ID_PREFIX, RISK_ID_PREFIX,
};
use crate::intelligence::status::IntelligenceConfidence;
use crate::knowledge::operator::views;
use crate::order::{append_key, push_str_key, sort_unique, sorted_unique_of, str_key, SortKey};
use crate::text::{owned, push_str};

verus! {

/// The canonical keys of the evidence, joined by the unit separator U+001F.
pub open spec fn evidence_key(e: Seq<IntelligenceEvidenceRef>) -> Seq<char>
    decreases e.len(),
{
    if e.len() == 0 {
        seq![]
    } else if e.len() == 1 {
        e[0].canonical()
    } else {
        evidence_key(e.drop_last()) + seq!['\u{1f}'] + e.last().canonical()
    }
}

pub fn evidence_key_text(e: &Vec<IntelligenceEvidenceRef>) -> (r: String)
    ensures
        r@ == evidence_key(e@),
{
    let mut r = String::new();
    let mut i: usize = 0;
    while i < e.len()
        invariant
            i <= e@.len(),
            r@ == evidence_key(e@.take(i as int)),
        decreases e@.len() - i,
    {
        assert(e@.take(i + 1).drop_last() =~= e@.take(i as int));
        if i > 0 {
            r.push('\u{1f}');
        }
        let k = e[i].canonical_key();
        push_str(&mut r, k.as_str());
        i = i + 1;
        assert(r@ =~= evidence_key(e@.take(i as int)));
    }
    assert(e@.take(e@.len() as int) =~= e@);
    r
}

/// The identifier of an insight: its rule, statement and evidence.
pub open spec fn insight_id(rule: Seq<char>, statement: Seq<char>, evidence: Seq<IntelligenceEvidenceRef>) -> Seq<char> {
    derived_id(INSIGHT_ID_PREFIX@, "insight"@, seq![rule, statement, evidence_key(evidence)])
}

pub open spec fn risk_id(statement: Seq<char>, evidence: Seq<IntelligenceEvidenceRef>) -> Seq<char> {
    derived_id(RISK_ID_PREFIX@, "risk"@, seq![statement, evidence_key(evidence)])
}

pub open spec fn limitation_id(statement: Seq<char>, evidence: Seq<IntelligenceEvidenceRef>) -> Seq<char> {
    derived_id(LIMITATION_ID_PREFIX@, "limitation"@, seq![statement, evidence_key(evidence)])
}

/// A deterministic observation derived by a rule; never a recommendation.
#[derive(Debug, Clone, PartialEq, Eq)]
pub struct ProjectInsight {
    pub id: InsightId,
    pub rule_id: RuleId,
    pub statement: String,
    pub classification: InformationClassification,
    pub confidence: IntelligenceConfidence,
    pub evidence: Vec<IntelligenceEvidenceRef>,
    pub related_entities: Vec<EntityId>,
}

impl ProjectInsight {
    pub fn new(
        rule_id: RuleId,
        statement: String,
        confidence: IntelligenceConfidence,
        evidence: Vec<IntelligenceEvidenceRef>,
        related_entities: Vec<EntityId>,
    ) -> (r: Result<Self, IntelligenceError>)
        ensures
            r is Ok <==> statement@.len() > 0 && evidence@.len() > 0,
            r matches Err(e) ==> e matches IntelligenceError::InsightMissingEvidence(m) && m@
                == rule_id@,
            r matches Ok(x) ==> {
                &&& x.id@ == insight_id(rule_id@, statement@, x.evidence@)
                &&& x.rule_id == rule_id
                &&& x.statement == statement
                &&& x.classification == InformationClassification::Derived
                &&& x.confidence == confidence
                &&& sorted_unique_of(x.evidence@, evidence@)
                &&& sorted_unique_of(x.related_entities@, related_entities@)
            },
    {
        if statement.as_str().unicode_len() == 0 || evidence.len() == 0 {
            return Err(IntelligenceError::InsightMissingEvidence(rule_id.to_text()));
        }
        let evidence = sort_unique(evidence);
        let related_entities = sort_unique(related_entities);
        let mut fields: Vec<String> = Vec::new();
        fields.push(rule_id.to_text());
        fields.push(statement.clone());
        fields.push(evidence_key_text(&evidence));
        let id = InsightId::derive("insight", &fields);
        assert(views(fields@) =~= seq![rule_id@, statement@, evidence_key(evidence@)]);
        Ok(ProjectInsight {
            id,
            rule_id,
            statement,
            classification: InformationClassification::Derived,
            confidence,
            evidence,
            related_entities,
        })
    }
}

/// Insights are listed by rule, then identifier.
impl SortKey for ProjectInsight {
    open spec fn sort_key(&self) -> Seq<u32> {
        self.rule_id.sort_key() + self.id.sort_key()
    }

    fn key(&self) -> (k: Vec<u32>) {
        let mut k = self.rule_id.key();
        append_key(&mut k, &self.id.key());
        k
    }
}

/// A derived risk, stated with its evidence.
#[derive(Debug, Clone, PartialEq, Eq)]
pub struct ProjectRisk {
    pub id: RiskId,
    pub statement: String,
    pub classification: InformationClassification,
    pub evidence: Vec<IntelligenceEvidenceRef>,
}

impl ProjectRisk {
    pub fn new(statement: String, evidence: Vec<IntelligenceEvidenceRef>) -> (r: Result<Self, IntelligenceError>)
        ensures
            r is Ok <==> statement@.len() > 0 && evidence@.len() > 0,
            r matches Err(e) ==> e matches IntelligenceError::InvalidInput(m) && m@
                == "risks require a statement and evidence"@,
            r matches Ok(x) ==> {
                &&& x.id@ == risk_id(statement@, x.evidence@)
                &&& x.statement == statement
                &&& x.classification == InformationClassification::Derived
                &&& sorted_unique_of(x.evidence@, evidence@)
            },
    {
        if statement.as_str().unicode_len() == 0 || evidence.len() == 0 {
            return Err(IntelligenceError::InvalidInput(owned("risks require a statement and evidence")));
        }
        let evidence = sort_unique(evidence);
        let mut fields: Vec<String> = Vec::new();
        fields.push(statement.clone());
        fields.push(evidence_key_text(&evidence));
        let id = RiskId::derive("risk", &fields);
        assert(views(fields@) =~= seq![statement@, evidence_key(evidence@)]);
        Ok(ProjectRisk { id, statement, classification: InformationClassification::Derived, evidence })
    }
}

/// Risks are listed by statement, then identifier.
impl SortKey for ProjectRisk {
    open spec fn sort_key(&self) -> Seq<u32> {
        str_key(self.statement@) + self.id.sort_key()
    }

    fn key(&self) -> (k: Vec<u32>) {
        let mut k = Vec::new();
        push_str_key(&mut k, self.statement.as_str());
        append_key(&mut k, &self.id.key());
        k
    }
}

/// A known limit of what the model can say.
#[derive(Debug, Clone, PartialEq, Eq)]
pub struct ProjectLimitation {
    pub id: LimitationId,
    pub statement: String,
    pub evidence: Vec<IntelligenceEvidenceRef>,
}

impl ProjectLimitation {
    pub fn new(statement: String, evidence: Vec<IntelligenceEvidenceRef>) -> (r: Result<Self, IntelligenceError>)
        ensures
            r is Ok <==> statement@.len() > 0 && evidence@.len() > 0,
            r matches Err(e) ==> e matches IntelligenceError::InvalidInput(m) && m@
                == "limitations require a statement and evidence"@,
            r matches Ok(x) ==> {
                &&& x.id@ == limitation_id(statement@, x.evidence@)
                &&& x.statement == statement
                &&& sorted_unique_of(x.evidence@, evidence@)
            },
    {
        if statement.as_str().unicode_len() == 0 || evidence.len() == 0 {
            return Err(IntelligenceError::InvalidInput(owned("limitations require a statement and evidence")));
        }
        let evidence = sort_unique(evidence);
        let mut fields: Vec<String> = Vec::new();
        fields.push(statement.clone());
        fields.push(evidence_key_text(&evidence));
        let id = LimitationId::derive("limitation", &fields);
        assert(views(fields@) =~= seq![statement@, evidence_key(evidence@)]);
        Ok(ProjectLimitation { id, statement, evidence })
    }
}

} // verus!
