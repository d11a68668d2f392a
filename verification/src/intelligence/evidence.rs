//! Safe references to the structured inputs behind intelligence output.
use vstd::prelude::*;
use crate::order::{push_str_key, push_tag, str_key, SortKey};
use crate::text::concat2;

verus! {

/// A reference to one input field, package, action, capability or claim.
#[derive(Debug, Clone, PartialEq, Eq, PartialOrd, Ord)]
pub enum IntelligenceEvidenceRef {
    ContextField { field: String },
    ContextPackage { package: String },
    Action { action_id: String },
    ExecutionCapability { action_id: String },
    KnowledgeClaim { claim_id: String },
    Verification { claim_id: String },
    Input { field: String },
}

impl IntelligenceEvidenceRef {
    /// The variant's position in declaration order.
    pub open spec fn tag(&self) -> u32 {
        match self {
            IntelligenceEvidenceRef::ContextField { .. } => 0,
            IntelligenceEvidenceRef::ContextPackage { .. } => 1,
            IntelligenceEvidenceRef::Action { .. } => 2,
            IntelligenceEvidenceRef::ExecutionCapability { .. } => 3,
            IntelligenceEvidenceRef::KnowledgeClaim { .. } => 4,
            IntelligenceEvidenceRef::Verification { .. } => 5,
            IntelligenceEvidenceRef::Input { .. } => 6,
        }
    }

    /// The referenced name.
    pub open spec fn value(&self) -> Seq<char> {
        match self {
            IntelligenceEvidenceRef::ContextField { field } => field@,
            IntelligenceEvidenceRef::ContextPackage { package } => package@,
            IntelligenceEvidenceRef::Action { action_id } => action_id@,
            IntelligenceEvidenceRef::ExecutionCapability { action_id } => action_id@,
            IntelligenceEvidenceRef::KnowledgeClaim { claim_id } => claim_id@,
            IntelligenceEvidenceRef::Verification { claim_id } => claim_id@,
            IntelligenceEvidenceRef::Input { field } => field@,
        }
    }

    pub open spec fn canonical_prefix(&self) -> Seq<char> {
        match self {
            IntelligenceEvidenceRef::ContextField { .. } => "context_field:"@,
            IntelligenceEvidenceRef::ContextPackage { .. } => "context_package:"@,
            IntelligenceEvidenceRef::Action { .. } => "action:"@,
            IntelligenceEvidenceRef::ExecutionCapability { .. } => "capability:"@,
            IntelligenceEvidenceRef::KnowledgeClaim { .. } => "knowledge_claim:"@,
            IntelligenceEvidenceRef::Verification { .. } => "verification:"@,
            IntelligenceEvidenceRef::Input { .. } => "input:"@,
        }
    }

    pub open spec fn canonical(&self) -> Seq<char> {
        self.canonical_prefix() + self.value()
    }

    pub fn context(field: String) -> (r: Self)
        ensures
            r == (IntelligenceEvidenceRef::ContextField { field }),
    {
        IntelligenceEvidenceRef::ContextField { field }
    }

    /// `<source>:<name>`, the form bound into operator targets.
    pub fn canonical_key(&self) -> (r: String)
        ensures
            r@ == self.canonical(),
    {
        match self {
            IntelligenceEvidenceRef::ContextField { field } => concat2(
                "context_field:",
                field.as_str(),
            ),
            IntelligenceEvidenceRef::ContextPackage { package } => concat2(
                "context_package:",
                package.as_str(),
            ),
            IntelligenceEvidenceRef::Action { action_id } => concat2(
                "action:",
                action_id.as_str(),
            ),
            IntelligenceEvidenceRef::ExecutionCapability { action_id } => concat2(
                "capability:",
                action_id.as_str(),
            ),
            IntelligenceEvidenceRef::KnowledgeClaim { claim_id } => concat2(
                "knowledge_claim:",
                claim_id.as_str(),
            ),
            IntelligenceEvidenceRef::Verification { claim_id } => concat2(
                "verification:",
                claim_id.as_str(),
            ),
            IntelligenceEvidenceRef::Input { field } => concat2("input:", field.as_str()),
        }
    }

    pub fn duplicate(&self) -> (r: Self)
        ensures
            r == *self,
    {
        match self {
            IntelligenceEvidenceRef::ContextField { field } => IntelligenceEvidenceRef::ContextField {
                field: field.clone(),
            },
            IntelligenceEvidenceRef::ContextPackage { package } => {
                IntelligenceEvidenceRef::ContextPackage { package: package.clone() }
            },
            IntelligenceEvidenceRef::Action { action_id } => IntelligenceEvidenceRef::Action {
                action_id: action_id.clone(),
            },
            IntelligenceEvidenceRef::ExecutionCapability { action_id } => {
                IntelligenceEvidenceRef::ExecutionCapability { action_id: action_id.clone() }
            },
            IntelligenceEvidenceRef::KnowledgeClaim { claim_id } => {
                IntelligenceEvidenceRef::KnowledgeClaim { claim_id: claim_id.clone() }
            },
            IntelligenceEvidenceRef::Verification { claim_id } => {
                IntelligenceEvidenceRef::Verification { claim_id: claim_id.clone() }
            },
            IntelligenceEvidenceRef::Input { field } => IntelligenceEvidenceRef::Input {
                field: field.clone(),
            },
        }
    }

    fn value_str(&self) -> (r: &str)
        ensures
            r@ == self.value(),
    {
        match self {
            IntelligenceEvidenceRef::ContextField { field } => field.as_str(),
            IntelligenceEvidenceRef::ContextPackage { package } => package.as_str(),
            IntelligenceEvidenceRef::Action { action_id } => action_id.as_str(),
            IntelligenceEvidenceRef::ExecutionCapability { action_id } => action_id.as_str(),
            IntelligenceEvidenceRef::KnowledgeClaim { claim_id } => claim_id.as_str(),
            IntelligenceEvidenceRef::Verification { claim_id } => claim_id.as_str(),
            IntelligenceEvidenceRef::Input { field } => field.as_str(),
        }
    }

    fn tag_of(&self) -> (r: u32)
        ensures
            r == self.tag(),
    {
        match self {
            IntelligenceEvidenceRef::ContextField { .. } => 0,
            IntelligenceEvidenceRef::ContextPackage { .. } => 1,
            IntelligenceEvidenceRef::Action { .. } => 2,
            IntelligenceEvidenceRef::ExecutionCapability { .. } => 3,
            IntelligenceEvidenceRef::KnowledgeClaim { .. } => 4,
            IntelligenceEvidenceRef::Verification { .. } => 5,
            IntelligenceEvidenceRef::Input { .. } => 6,
        }
    }
}

/// Ordered by variant, then by the referenced name.
/// Canonical keys tell references apart: two references with one canonical
/// key are of one source and name one thing.
pub proof fn law_canonical_key_injective(a: IntelligenceEvidenceRef, b: IntelligenceEvidenceRef)
    requires
        a.canonical() == b.canonical(),
    ensures
        a.tag() == b.tag(),
        a.value() == b.value(),
{
    reveal_strlit("context_field:");
    reveal_strlit("context_package:");
    reveal_strlit("action:");
    reveal_strlit("capability:");
    reveal_strlit("knowledge_claim:");
    reveal_strlit("verification:");
    reveal_strlit("input:");
    let ca = a.canonical();
    let cb = b.canonical();
    let pa = a.canonical_prefix();
    let pb = b.canonical_prefix();
    assert(pa.len() >= 6 && pb.len() >= 6);
    assert(ca[0] == pa[0] && cb[0] == pb[0]);
    assert(ca[1] == pa[1] && cb[1] == pb[1]);
    if a.tag() != b.tag() {
        if pa.len() > 8 && pb.len() > 8 {
            assert(ca[8] == pa[8] && cb[8] == pb[8]);
        }
        assert(false);
    } else {
        assert(pa == pb);
        assert(a.value() =~= ca.skip(pa.len() as int));
        assert(b.value() =~= cb.skip(pb.len() as int));
    }
}

impl SortKey for IntelligenceEvidenceRef {
    open spec fn sort_key(&self) -> Seq<u32> {
        seq![self.tag()] + str_key(self.value())
    }

    fn key(&self) -> (k: Vec<u32>) {
        let mut k = Vec::new();
        push_tag(&mut k, self.tag_of());
        push_str_key(&mut k, self.value_str());
        assert(k@ =~= seq![self.tag()] + str_key(self.value()));
        k
    }
}

/// Copies a list of evidence references.
pub fn clone_evidence(v: &Vec<IntelligenceEvidenceRef>) -> (r: Vec<IntelligenceEvidenceRef>)
    ensures
        r@ == v@,
{
    let mut r: Vec<IntelligenceEvidenceRef> = Vec::new();
    let mut i: usize = 0;
    while i < v.len()
        invariant
            i <= v@.len(),
            r@ == v@.take(i as int),
        decreases v@.len() - i,
    {
        r.push(v[i].duplicate());
        i = i + 1;
        assert(r@ =~= v@.take(i as int));
    }
    assert(v@.take(v@.len() as int) =~= v@);
    r
}

} // verus!
