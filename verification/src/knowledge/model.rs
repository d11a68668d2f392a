//! The vocabulary of stored knowledge: categories, confidence, validity,
//! evidence, claim identifiers and relationships.
use vstd::prelude::*;
use crate::knowledge::error::KnowledgeError;
use crate::knowledge::operator::{OperatorResponse, OperatorResponseId, OperatorTransactionId};
use crate::knowledge::claim::{canonical, canonical_json, JsonValue};
use crate::digest::{digest_hex, lemma_hex_lower_digits, push_text_field, sha256_hex, field_bytes};
use crate::order::{sort_unique, sorted_unique_of};
use crate::text::{char_is_ascii_hexdigit, chars_of, owned, push_chars, chars_start_with, is_ascii_hexdigit, starts_with};

verus! {

/// Version of the persisted knowledge envelope and public claim contract.
pub const KNOWLEDGE_SCHEMA_VERSION: u32 = 1;

pub const KNOWLEDGE_ID_PREFIX: &'static str = "k1-";

#[derive(Debug, Clone, Copy, PartialEq, Eq, PartialOrd, Ord, Structural)]
pub enum Confidence {
    Certain,
    High,
    Medium,
    Low,
    Unknown,
}

impl Confidence {
    pub fn as_str(self) -> (r: &'static str)
        ensures
            r@ == match self {
                Confidence::Certain => "certain"@,
                Confidence::High => "high"@,
                Confidence::Medium => "medium"@,
                Confidence::Low => "low"@,
                Confidence::Unknown => "unknown"@,
            },
    {
        match self {
            Confidence::Certain => "certain",
            Confidence::High => "high",
            Confidence::Medium => "medium",
            Confidence::Low => "low",
            Confidence::Unknown => "unknown",
        }
    }
}

#[derive(Debug, Clone, Copy, PartialEq, Eq, PartialOrd, Ord, Structural)]
pub enum EvidenceKind {
    ContextFact,
    ManifestObservation,
    RepositoryObservation,
    AdrDecision,
    ExecutionResult,
    UserDecision,
    RoadmapGoal,
}

impl EvidenceKind {
    pub fn as_str(self) -> (r: &'static str)
        ensures
            r@ == match self {
                EvidenceKind::ContextFact => "context_fact"@,
                EvidenceKind::ManifestObservation => "manifest_observation"@,
                EvidenceKind::RepositoryObservation => "repository_observation"@,
                EvidenceKind::AdrDecision => "adr_decision"@,
                EvidenceKind::ExecutionResult => "execution_result"@,
                EvidenceKind::UserDecision => "user_decision"@,
                EvidenceKind::RoadmapGoal => "roadmap_goal"@,
            },
    {
        match self {
            EvidenceKind::ContextFact => "context_fact",
            EvidenceKind::ManifestObservation => "manifest_observation",
            EvidenceKind::RepositoryObservation => "repository_observation",
            EvidenceKind::AdrDecision => "adr_decision",
            EvidenceKind::ExecutionResult => "execution_result",
            EvidenceKind::UserDecision => "user_decision",
            EvidenceKind::RoadmapGoal => "roadmap_goal",
        }
    }
}

/// A reference to what supports a claim.
#[derive(Debug, Clone, PartialEq, Eq, PartialOrd, Ord)]
pub struct Evidence {
    pub kind: EvidenceKind,
    pub identifier: String,
    pub locator: Option<String>,
    pub fingerprints: Vec<String>,
}

impl Evidence {
    pub fn new(kind: EvidenceKind, identifier: String) -> (r: Self)
        ensures
            r.kind == kind,
            r.identifier == identifier,
            r.locator is None,
            r.fingerprints@.len() == 0,
    {
        Evidence { kind, identifier, locator: None, fingerprints: Vec::new() }
    }

    pub fn with_locator(self, locator: String) -> (r: Self)
        ensures
            r.kind == self.kind,
            r.identifier == self.identifier,
            r.locator == Some(locator),
            r.fingerprints == self.fingerprints,
    {
        let mut r = self;
        r.locator = Some(locator);
        r
    }

    /// Replaces the fingerprints, sorted and deduplicated.
    pub fn with_fingerprints(self, fingerprints: Vec<String>) -> (r: Self)
        ensures
            r.kind == self.kind,
            r.identifier == self.identifier,
            r.locator == self.locator,
            sorted_unique_of(r.fingerprints@, fingerprints@),
    {
        let mut r = self;
        r.fingerprints = sort_unique(fingerprints);
        r
    }
}

#[derive(Debug, Clone, Copy, PartialEq, Eq, PartialOrd, Ord, Structural)]
pub enum KnowledgeCategory {
    Fact,
    Decision,
    Verification,
    Goal,
}

/// The plural name of a category.
pub open spec fn category_name(c: KnowledgeCategory) -> Seq<char> {
    match c {
        KnowledgeCategory::Fact => "facts"@,
        KnowledgeCategory::Decision => "decisions"@,
        KnowledgeCategory::Verification => "verifications"@,
        KnowledgeCategory::Goal => "goals"@,
    }
}

impl KnowledgeCategory {
    /// The plural name, used for a category's storage.
    pub fn as_str(self) -> (r: &'static str)
        ensures
            r@ == category_name(self),
    {
        match self {
            KnowledgeCategory::Fact => "facts",
            KnowledgeCategory::Decision => "decisions",
            KnowledgeCategory::Verification => "verifications",
            KnowledgeCategory::Goal => "goals",
        }
    }

    pub fn singular(self) -> (r: &'static str)
        ensures
            r@ == match self {
                KnowledgeCategory::Fact => "fact"@,
                KnowledgeCategory::Decision => "decision"@,
                KnowledgeCategory::Verification => "verification"@,
                KnowledgeCategory::Goal => "goal"@,
            },
    {
        match self {
            KnowledgeCategory::Fact => "fact",
            KnowledgeCategory::Decision => "decision",
            KnowledgeCategory::Verification => "verification",
            KnowledgeCategory::Goal => "goal",
        }
    }
}

#[derive(Debug, Clone, PartialEq, Eq, PartialOrd, Ord)]
pub enum KnowledgeNamespace {
    Global,
    Project(String),
}

impl KnowledgeNamespace {
    pub fn project(name: String) -> (r: Self)
        ensures
            r == KnowledgeNamespace::Project(name),
    {
        KnowledgeNamespace::Project(name)
    }
}

#[derive(Debug, Clone, Copy, PartialEq, Eq, PartialOrd, Ord, Structural)]
pub enum Validity {
    Current,
    Stale,
    Invalidated,
    Unknown,
}

impl Validity {
    pub fn as_str(self) -> (r: &'static str)
        ensures
            r@ == match self {
                Validity::Current => "current"@,
                Validity::Stale => "stale"@,
                Validity::Invalidated => "invalidated"@,
                Validity::Unknown => "unknown"@,
            },
    {
        match self {
            Validity::Current => "current",
            Validity::Stale => "stale",
            Validity::Invalidated => "invalidated",
            Validity::Unknown => "unknown",
        }
    }
}

/// The state, action and plan a claim's validity is bound to.
#[derive(Debug, Clone, PartialEq, Eq, PartialOrd, Ord)]
pub struct ValidityCondition {
    pub state_fingerprint: Option<String>,
    pub action_fingerprint: Option<String>,
    pub plan_fingerprint: Option<String>,
}

impl ValidityCondition {
    pub fn state_bound(
        state_fingerprint: String,
        action_fingerprint: String,
        plan_fingerprint: String,
    ) -> (r: Self)
        ensures
            r.state_fingerprint == Some(state_fingerprint),
            r.action_fingerprint == Some(action_fingerprint),
            r.plan_fingerprint == Some(plan_fingerprint),
    {
        ValidityCondition {
            state_fingerprint: Some(state_fingerprint),
            action_fingerprint: Some(action_fingerprint),
            plan_fingerprint: Some(plan_fingerprint),
        }
    }
}

pub open spec fn is_lower_hex(c: char) -> bool {
    ('0' <= c && c <= '9') || ('a' <= c && c <= 'f')
}

/// `k1-` and 64 lower-case hexadecimal digits.
pub open spec fn knowledge_id_valid(value: Seq<char>) -> bool {
    &&& starts_with(value, KNOWLEDGE_ID_PREFIX@)
    &&& value.len() == KNOWLEDGE_ID_PREFIX@.len() + 64
    &&& forall|i: int| KNOWLEDGE_ID_PREFIX@.len() <= i < value.len() ==> is_lower_hex(#[trigger] value[i])
}


/// The framed message an identifier digests: the identifier version, then
/// the category, subject, predicate and canonical value, each length-prefixed.
pub open spec fn knowledge_id_message(
    category: KnowledgeCategory,
    subject: Seq<char>,
    predicate: Seq<char>,
    canonical_value: Seq<char>,
) -> Seq<u8> {
    let e = |s: Seq<char>| vstd::utf8::encode_utf8(s);
    field_bytes(e("version"@), e("knowledge-id-v1"@)) + field_bytes(e("category"@), e(category_name(category)))
        + field_bytes(e("subject"@), e(subject)) + field_bytes(e("predicate"@), e(predicate)) + field_bytes(
        e("value"@),
        e(canonical_value),
    )
}

/// The identifier of what a claim asserts, where its value has a canonical text.
pub open spec fn derived_id(
    category: KnowledgeCategory,
    subject: Seq<char>,
    predicate: Seq<char>,
    value: JsonValue,
) -> Option<Seq<char>> {
    match canonical(value) {
        Some(c) => Some(KNOWLEDGE_ID_PREFIX@ + sha256_hex(knowledge_id_message(category, subject, predicate, c))),
        None => None,
    }
}

proof fn lemma_prefixed_hex_valid(bytes: Seq<u8>)
    requires
        crate::digest::hex_lower(bytes).len() == 64,
    ensures
        knowledge_id_valid(KNOWLEDGE_ID_PREFIX@ + crate::digest::hex_lower(bytes)),
{
    reveal_strlit("k1-");
    lemma_hex_lower_digits(bytes);
    let h = crate::digest::hex_lower(bytes);
    let t = KNOWLEDGE_ID_PREFIX@ + h;
    assert(t.subrange(0, 3) =~= KNOWLEDGE_ID_PREFIX@);
    assert forall|i: int| KNOWLEDGE_ID_PREFIX@.len() <= i < t.len() implies is_lower_hex(#[trigger] t[i]) by {
        assert(t[i] == h[i - 3]);
    }
}

pub const CANONICAL_VALUE_ERROR: &'static str = "could not canonicalize value: a string could not be written as JSON";

/// Stable identifier of one claim.
#[derive(Debug, Clone, PartialEq, Eq, PartialOrd, Ord, Hash)]
pub struct KnowledgeId(String);

impl View for KnowledgeId {
    type V = Seq<char>;

    closed spec fn view(&self) -> Seq<char> {
        self.0@
    }
}

impl KnowledgeId {
    /// Accepts exactly the well-formed identifiers.
    pub fn parse(value: String) -> (r: Result<Self, KnowledgeError>)
        ensures
            r is Ok <==> knowledge_id_valid(value@),
            r matches Ok(id) ==> id@ == value@,
            r matches Err(e) ==> e == KnowledgeError::InvalidId(value),
    {
        let v = chars_of(value.as_str());
        let p = chars_of(KNOWLEDGE_ID_PREFIX);
        proof {
            reveal_strlit("k1-");
        }
        if !chars_start_with(&v, &p) || v.len() != p.len() + 64 {
            return Err(KnowledgeError::InvalidId(value));
        }
        let mut i: usize = p.len();
        while i < v.len()
            invariant
                p@.len() <= i <= v@.len(),
                v@ == value@,
                p@ == KNOWLEDGE_ID_PREFIX@,
                forall|j: int| p@.len() <= j < i ==> is_lower_hex(#[trigger] v@[j]),
            decreases v@.len() - i,
        {
            let c = v[i];
            if !(('0' <= c && c <= '9') || ('a' <= c && c <= 'f')) {
                return Err(KnowledgeError::InvalidId(value));
            }
            i = i + 1;
        }
        Ok(KnowledgeId(value))
    }

    pub fn as_str(&self) -> (r: &str)
        ensures
            r@ == self@,
    {
        self.0.as_str()
    }

    /// The identifier of a category, subject, predicate and value: `k1-` and
    /// the SHA-256 of their framed, canonical form.
    pub fn derive(category: KnowledgeCategory, subject: &str, predicate: &str, value: &JsonValue) -> (r: Result<
        Self,
        KnowledgeError,
    >)
        ensures
            r is Ok <==> canonical(*value) is Some,
            r is Ok,
            r matches Ok(id) ==> Some(id@) == derived_id(category, subject@, predicate@, *value) && knowledge_id_valid(id@),
            r matches Err(e) ==> e matches KnowledgeError::InvalidClaim(m) && m@ == CANONICAL_VALUE_ERROR@,
    {
        proof {
            crate::knowledge::claim::lemma_canonical_total(*value);
        }
        let c = match canonical_json(value) {
            Some(c) => c,
            None => {
                return Err(KnowledgeError::InvalidClaim(owned(CANONICAL_VALUE_ERROR)));
            },
        };
        let mut msg: Vec<u8> = Vec::new();
        push_text_field(&mut msg, "version", "knowledge-id-v1");
        push_text_field(&mut msg, "category", category.as_str());
        push_text_field(&mut msg, "subject", subject);
        push_text_field(&mut msg, "predicate", predicate);
        push_text_field(&mut msg, "value", c.as_str());
        let hex = digest_hex(msg.as_slice());
        let mut text = owned(KNOWLEDGE_ID_PREFIX);
        push_chars(&mut text, hex.as_slice());
        proof {
            assert(msg@ =~= knowledge_id_message(category, subject@, predicate@, c@));
            lemma_prefixed_hex_valid(crate::digest::sha256_of(msg@));
        }
        Ok(KnowledgeId(text))
    }

    pub fn duplicate(&self) -> (r: Self)
        ensures
            r == *self,
    {
        KnowledgeId(self.0.clone())
    }
}

/// Typed provenance and semantic relationships between claims.
#[derive(Debug, Clone, Copy, PartialEq, Eq, PartialOrd, Ord, Structural)]
pub enum RelationshipType {
    CreatedBy,
    Supports,
    DependsOn,
    VerifiedBy,
    InvalidatedBy,
    RelatedTo,
    DerivedFrom,
}

#[derive(Debug, Clone, PartialEq, Eq, PartialOrd, Ord)]
pub struct KnowledgeRelationship {
    pub from: KnowledgeId,
    pub relationship: RelationshipType,
    pub to: KnowledgeId,
}

#[derive(Debug, Clone, Copy, PartialEq, Eq, PartialOrd, Ord, Structural)]
pub enum OperatorHistoryOperation {
    Create,
    EditDraft,
    Activate,
    DeleteDraft,
    Retire,
    Withdraw,
    Reaffirm,
}

/// One committed transaction of a response's history.
#[derive(Debug, Clone, PartialEq, Eq)]
pub struct OperatorResponseHistoryEntry {
    pub transaction_id: OperatorTransactionId,
    pub operation: OperatorHistoryOperation,
    pub response: Option<OperatorResponse>,
}

/// What a transaction does to one response.
#[derive(Debug, Clone, PartialEq, Eq)]
pub enum TransactionMutation {
    Put { response_id: OperatorResponseId },
    DeleteDraft { response_id: OperatorResponseId },
}

impl TransactionMutation {
    pub fn response_id(&self) -> (r: &OperatorResponseId)
        ensures
            r == match self {
                TransactionMutation::Put { response_id } => response_id,
                TransactionMutation::DeleteDraft { response_id } => response_id,
            },
    {
        match self {
            TransactionMutation::Put { response_id } => response_id,
            TransactionMutation::DeleteDraft { response_id } => response_id,
        }
    }
}

} // verus!
