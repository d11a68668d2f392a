//! Resolution of operator responses against the current report: the base
//! report is never changed; responses only add resolved interpretations,
//! annotations and conflicts beside it.
use vstd::prelude::*;
use crate::intelligence::authority::{
    authority_targets, insight_binding_spec, insight_target_binding, is_report_target,
    insight_targeted, entity_targeted, all_bindable, insight_bindable,
};
use crate::intelligence::error::IntelligenceError;
use crate::intelligence::insight::ProjectInsight;
use crate::intelligence::model::{same_intelligence, ProjectIntelligence};
use crate::knowledge::operator::{
    clone_opt_string, clone_strings, opt_view, views, AnnotationScope, OperatorConfidence,
    OperatorId, OperatorIntent, OperatorResponse, OperatorResponseId, OperatorResponsePayload,
    OperatorTargetBinding, ResponseLifecycle, opt_id_view,
};
use crate::order::{
    append_key, key_lt, keys_sorted, keys_strictly_sorted, lemma_str_key_split, push_str_key, push_tag, sort_stable,
    sort_unique, sorted_of, str_key, SortKey,
};
use crate::text::{concat2, decimal, owned, push_decimal, push_str, str_eq};
use crate::intelligence::report::{render_text, report_text};

verus! {

pub const RESOLVED_PROJECT_INTELLIGENCE_SCHEMA_VERSION: u32 = 2;

#[derive(Debug, Clone, Copy, PartialEq, Eq, PartialOrd, Ord, Structural)]
pub enum ResolutionStatus {
    Resolved,
    Unresolved,
}

#[derive(Debug, Clone, Copy, PartialEq, Eq, PartialOrd, Ord, Structural)]
pub enum InterpretationStatus {
    Base,
    Accepted,
    Rejected,
    Corrected,
    Disputed,
    Conflict,
}

#[derive(Debug, Clone, Copy, PartialEq, Eq, PartialOrd, Ord, Structural)]
pub enum ResolutionConflictKind {
    MultipleGoverningResponses,
    Disputed,
    ReviewRequired,
    Orphaned,
}

impl ResolutionConflictKind {
    pub open spec fn tag(self) -> u32 {
        match self {
            ResolutionConflictKind::MultipleGoverningResponses => 0,
            ResolutionConflictKind::Disputed => 1,
            ResolutionConflictKind::ReviewRequired => 2,
            ResolutionConflictKind::Orphaned => 3,
        }
    }
}

#[derive(Debug, Clone, PartialEq, Eq)]
pub struct ResolutionConflict {
    pub target_id: String,
    pub rule_id: Option<String>,
    pub kind: ResolutionConflictKind,
    pub response_ids: Vec<OperatorResponseId>,
}

#[derive(Debug, Clone, PartialEq, Eq)]
pub struct ResolvedInterpretation {
    pub target_id: String,
    pub rule_id: String,
    pub base_statement: String,
    pub resolved_statement: Option<String>,
    pub status: InterpretationStatus,
    pub governing_response: Option<OperatorResponseId>,
}

#[derive(Debug, Clone, PartialEq, Eq)]
pub struct ResolvedAnnotation {
    pub response_id: OperatorResponseId,
    pub target_id: String,
    pub statement: String,
    pub intent: OperatorIntent,
    pub scope: AnnotationScope,
    pub confidence: Option<OperatorConfidence>,
}

#[derive(Debug, Clone, PartialEq, Eq)]
pub struct ResolutionExplanation {
    pub response_id: OperatorResponseId,
    pub response_type: String,
    pub operator_id: OperatorId,
    pub operator_display_name: String,
    pub target_id: String,
    pub rule_id: Option<String>,
    pub base_interpretation: String,
    pub resolved_interpretation: Option<String>,
    pub lifecycle: ResponseLifecycle,
    pub evidence_fingerprint: String,
    pub evidence_references: Vec<String>,
}

#[derive(Debug, Clone, PartialEq, Eq)]
pub struct ResolvedProjectIntelligence {
    pub schema_version: u32,
    pub resolution_status: ResolutionStatus,
    pub active_response_count: usize,
    pub conflicts: Vec<ResolutionConflict>,
    pub base_intelligence: ProjectIntelligence,
    pub resolved_interpretations: Vec<ResolvedInterpretation>,
    pub annotations: Vec<ResolvedAnnotation>,
    pub explanations: Vec<ResolutionExplanation>,
}

#[derive(Debug, Default, Clone, Copy)]
pub struct OperatorAuthorityResolver;

/// The lifecycle of an active response whose target has changed: an
/// acceptance or a state-bound annotation expires, a persistent annotation
/// stays while its target exists, and a governing response awaits review.
pub open spec fn drift_spec(p: OperatorResponsePayload, exact_target_exists: bool) -> ResponseLifecycle {
    match p {
        OperatorResponsePayload::Acceptance(_) => ResponseLifecycle::Expired,
        OperatorResponsePayload::Annotation(a) => match a.scope {
            AnnotationScope::StateBound => ResponseLifecycle::Expired,
            AnnotationScope::Persistent => if exact_target_exists {
                ResponseLifecycle::Active
            } else {
                ResponseLifecycle::Orphaned
            },
        },
        _ => ResponseLifecycle::ReviewRequired,
    }
}

fn drift_lifecycle(p: &OperatorResponsePayload, exact_target_exists: bool) -> (r: ResponseLifecycle)
    ensures
        r == drift_spec(*p, exact_target_exists),
{
    match p {
        OperatorResponsePayload::Acceptance(_) => ResponseLifecycle::Expired,
        OperatorResponsePayload::Annotation(a) => match a.scope {
            AnnotationScope::StateBound => ResponseLifecycle::Expired,
            AnnotationScope::Persistent => if exact_target_exists {
                ResponseLifecycle::Active
            } else {
                ResponseLifecycle::Orphaned
            },
        },
        _ => ResponseLifecycle::ReviewRequired,
    }
}

/// `k` is the last target with the identifier.
pub open spec fn is_last_target(t: Seq<OperatorTargetBinding>, id: Seq<char>, k: int) -> bool {
    &&& 0 <= k < t.len()
    &&& t[k].target_id@ == id
    &&& forall|j: int| k < j < t.len() ==> (#[trigger] t[j]).target_id@ != id
}

pub open spec fn has_target(t: Seq<OperatorTargetBinding>, id: Seq<char>) -> bool {
    exists|k: int| 0 <= k < t.len() && (#[trigger] t[k]).target_id@ == id
}

pub open spec fn has_rule(t: Seq<OperatorTargetBinding>, rule: Seq<char>) -> bool {
    exists|k: int| 0 <= k < t.len() && opt_view((#[trigger] t[k]).rule_id) == Some(rule)
}

/// The lifecycle of a stored response against the current targets.
pub open spec fn current_lifecycle(r: OperatorResponse, t: Seq<OperatorTargetBinding>) -> ResponseLifecycle {
    if r.lifecycle != ResponseLifecycle::Active {
        r.lifecycle
    } else if has_target(t, r.target.target_id@) {
        let k = choose|k: int| is_last_target(t, r.target.target_id@, k);
        if r.target.same_binding(&t[k]) {
            ResponseLifecycle::Active
        } else {
            drift_spec(r.payload, true)
        }
    } else if r.target.rule_id matches Some(rule) && has_rule(t, rule@) {
        drift_spec(r.payload, false)
    } else {
        ResponseLifecycle::Orphaned
    }
}

proof fn lemma_last_unique(t: Seq<OperatorTargetBinding>, id: Seq<char>, a: int, b: int)
    requires
        is_last_target(t, id, a),
        is_last_target(t, id, b),
    ensures
        a == b,
{
    if a < b {
        assert(t[b].target_id@ != id);
    } else if b < a {
        assert(t[a].target_id@ != id);
    }
}

fn find_last_target(t: &Vec<OperatorTargetBinding>, id: &str) -> (r: Option<usize>)
    ensures
        r matches Some(k) ==> is_last_target(t@, id@, k as int),
        r is None ==> !has_target(t@, id@),
{
    let mut k: usize = t.len();
    while k > 0
        invariant
            k <= t@.len(),
            forall|j: int| k <= j < t@.len() ==> (#[trigger] t@[j]).target_id@ != id@,
        decreases k,
    {
        if str_eq(t[k - 1].target_id.as_str(), id) {
            return Some(k - 1);
        }
        k = k - 1;
    }
    None
}

fn targets_have_rule(t: &Vec<OperatorTargetBinding>, rule: &str) -> (r: bool)
    ensures
        r == has_rule(t@, rule@),
{
    let mut k: usize = 0;
    while k < t.len()
        invariant
            k <= t@.len(),
            forall|j: int| 0 <= j < k ==> opt_view((#[trigger] t@[j]).rule_id) != Some(rule@),
        decreases t@.len() - k,
    {
        match &t[k].rule_id {
            Some(x) => {
                if str_eq(x.as_str(), rule) {
                    return true;
                }
            },
            None => {},
        }
        k = k + 1;
    }
    false
}

/// Projects a stored response onto the current targets.
fn projected_lifecycle(response: &OperatorResponse, targets: &Vec<OperatorTargetBinding>) -> (r: ResponseLifecycle)
    ensures
        r == current_lifecycle(*response, targets@),
{
    if response.lifecycle != ResponseLifecycle::Active {
        return response.lifecycle;
    }
    match find_last_target(targets, response.target.target_id.as_str()) {
        Some(k) => {
            proof {
                let c = choose|c: int| is_last_target(targets@, response.target.target_id@, c);
                lemma_last_unique(targets@, response.target.target_id@, c, k as int);
            }
            if response.target.exact_match(&targets[k]) {
                ResponseLifecycle::Active
            } else {
                drift_lifecycle(&response.payload, true)
            }
        },
        None => {
            let has = match &response.target.rule_id {
                Some(rule) => targets_have_rule(targets, rule.as_str()),
                None => false,
            };
            if has {
                drift_lifecycle(&response.payload, false)
            } else {
                ResponseLifecycle::Orphaned
            }
        },
    }
}

/// An acceptance is bound to its target exactly as it was: once the target
/// with its identifier differs in any bound field, the acceptance expires.
pub proof fn law_acceptance_expires_on_drift(r: OperatorResponse, t: Seq<OperatorTargetBinding>, k: int)
    requires
        r.lifecycle == ResponseLifecycle::Active,
        r.payload is Acceptance,
        is_last_target(t, r.target.target_id@, k),
        !r.target.same_binding(&t[k]),
    ensures
        current_lifecycle(r, t) == ResponseLifecycle::Expired,
{
    let c = choose|c: int| is_last_target(t, r.target.target_id@, c);
    lemma_last_unique(t, r.target.target_id@, c, k);
}

/// Some response names this one as superseded.
pub open spec fn is_superseded(responses: Seq<OperatorResponse>, id: Seq<char>) -> bool {
    exists|i: int| 0 <= i < responses.len() && opt_id_view((#[trigger] responses[i]).supersedes) == Some(id)
}

/// The lifecycle of the `i`-th response in the resolution.
pub open spec fn projected_spec(responses: Seq<OperatorResponse>, i: int, t: Seq<OperatorTargetBinding>) -> ResponseLifecycle {
    if is_superseded(responses, responses[i].id@) && responses[i].lifecycle == ResponseLifecycle::Active {
        ResponseLifecycle::Superseded
    } else {
        current_lifecycle(responses[i], t)
    }
}

/// How many of the first `n` responses are active in the resolution.
pub open spec fn count_active(responses: Seq<OperatorResponse>, t: Seq<OperatorTargetBinding>, n: int) -> nat
    decreases n,
{
    if n <= 0 {
        0
    } else {
        count_active(responses, t, n - 1) + if projected_spec(responses, n - 1, t)
            == ResponseLifecycle::Active {
            1nat
        } else {
            0nat
        }
    }
}

proof fn lemma_count_bound(responses: Seq<OperatorResponse>, t: Seq<OperatorTargetBinding>, n: int)
    requires
        n >= 0,
    ensures
        count_active(responses, t, n) <= n,
    decreases n,
{
    if n > 0 {
        lemma_count_bound(responses, t, n - 1);
    }
}

fn superseded_by_any(responses: &[OperatorResponse], id: &OperatorResponseId) -> (r: bool)
    ensures
        r == is_superseded(responses@, id@),
{
    let mut i: usize = 0;
    while i < responses.len()
        invariant
            i <= responses@.len(),
            forall|j: int| 0 <= j < i ==> opt_id_view((#[trigger] responses@[j]).supersedes) != Some(id@),
        decreases responses@.len() - i,
    {
        match &responses[i].supersedes {
            Some(s) => {
                if s.same(id) {
                    return true;
                }
            },
            None => {},
        }
        i = i + 1;
    }
    false
}

/// A response and its lifecycle in the resolution.
pub struct ProjectedResponse {
    pub index: usize,
    pub id: OperatorResponseId,
    pub lifecycle: ResponseLifecycle,
}

/// Projected responses are ordered by response identifier.
impl SortKey for ProjectedResponse {
    open spec fn sort_key(&self) -> Seq<u32> {
        self.id.sort_key()
    }

    fn key(&self) -> (k: Vec<u32>) {
        self.id.key()
    }
}

/// The projection of response `p.index`.
pub open spec fn projected_entry(responses: Seq<OperatorResponse>, t: Seq<OperatorTargetBinding>, p: ProjectedResponse) -> bool {
    &&& 0 <= p.index < responses.len()
    &&& p.id@ == responses[p.index as int].id@
    &&& p.lifecycle == projected_spec(responses, p.index as int, t)
}

/// What an explanation reports of a response and its lifecycle.
pub open spec fn explanation_of(e: ResolutionExplanation, r: OperatorResponse, lifecycle: ResponseLifecycle) -> bool {
    &&& e.response_id@ == r.id@
    &&& e.response_type@ == r.payload.kind_spec()
    &&& e.operator_id@ == r.operator.id@
    &&& e.operator_display_name@ == r.operator.display_name@
    &&& e.target_id@ == r.target.target_id@
    &&& opt_view(e.rule_id) == opt_view(r.target.rule_id)
    &&& e.base_interpretation@ == r.target.statement@
    &&& opt_view(e.resolved_interpretation) == match r.payload {
        OperatorResponsePayload::Correction(c) => Some(c.replacement_statement@),
        OperatorResponsePayload::Acceptance(_) => Some(r.target.statement@),
        OperatorResponsePayload::Annotation(a) => Some(a.statement@),
        _ => None,
    }
    &&& e.lifecycle == lifecycle
    &&& e.evidence_fingerprint@ == r.target.evidence_fingerprint@
    &&& e.evidence_references@ == r.target.evidence_references@
}

fn explanation(r: &OperatorResponse, lifecycle: ResponseLifecycle) -> (e: ResolutionExplanation)
    ensures
        explanation_of(e, *r, lifecycle),
{
    let resolved_interpretation = match &r.payload {
        OperatorResponsePayload::Correction(c) => Some(c.replacement_statement.clone()),
        OperatorResponsePayload::Acceptance(_) => Some(r.target.statement.clone()),
        OperatorResponsePayload::Annotation(a) => Some(a.statement.clone()),
        _ => None,
    };
    ResolutionExplanation {
        response_id: r.id.duplicate(),
        response_type: owned(r.payload.kind()),
        operator_id: r.operator.id.duplicate(),
        operator_display_name: r.operator.display_name.clone(),
        target_id: r.target.target_id.clone(),
        rule_id: clone_opt_string(&r.target.rule_id),
        base_interpretation: r.target.statement.clone(),
        resolved_interpretation,
        lifecycle,
        evidence_fingerprint: r.target.evidence_fingerprint.clone(),
        evidence_references: clone_strings(&r.target.evidence_references),
    }
}

/// What a single governing response makes of an interpretation.
pub open spec fn applied_spec(
    base: Seq<char>,
    p: OperatorResponsePayload,
    status: InterpretationStatus,
    resolved: Option<Seq<char>>,
) -> bool {
    match p {
        OperatorResponsePayload::Acceptance(_) => status == InterpretationStatus::Accepted
            && resolved == Some(base),
        OperatorResponsePayload::Rejection(_) => status == InterpretationStatus::Rejected
            && resolved is None,
        OperatorResponsePayload::Correction(c) => status == InterpretationStatus::Corrected
            && resolved == Some(c.replacement_statement@),
        OperatorResponsePayload::Dispute(_) => status == InterpretationStatus::Disputed
            && resolved is None,
        OperatorResponsePayload::Annotation(_) => status == InterpretationStatus::Base
            && resolved == Some(base),
    }
}

/// The resolved statement follows the status: the base statement for the
/// base or an acceptance, a replacement for a correction, none otherwise.
pub open spec fn interpretation_consistent(x: ResolvedInterpretation) -> bool {
    match x.status {
        InterpretationStatus::Base => opt_view(x.resolved_statement) == Some(x.base_statement@),
        InterpretationStatus::Accepted => opt_view(x.resolved_statement) == Some(x.base_statement@)
            && x.governing_response is Some,
        InterpretationStatus::Corrected => x.resolved_statement is Some && x.governing_response is Some,
        InterpretationStatus::Rejected => x.resolved_statement is None && x.governing_response is Some,
        InterpretationStatus::Disputed => x.resolved_statement is None && x.governing_response is Some,
        InterpretationStatus::Conflict => x.resolved_statement is None && x.governing_response is None,
    }
}

/// Interpretations are listed by rule, then target.
impl SortKey for ResolvedInterpretation {
    open spec fn sort_key(&self) -> Seq<u32> {
        str_key(self.rule_id@) + str_key(self.target_id@)
    }

    fn key(&self) -> (k: Vec<u32>) {
        let mut k = Vec::new();
        push_str_key(&mut k, self.rule_id.as_str());
        push_str_key(&mut k, self.target_id.as_str());
        k
    }
}

/// Annotations are listed by target, then response.
impl SortKey for ResolvedAnnotation {
    open spec fn sort_key(&self) -> Seq<u32> {
        str_key(self.target_id@) + self.response_id.sort_key()
    }

    fn key(&self) -> (k: Vec<u32>) {
        let mut k = Vec::new();
        push_str_key(&mut k, self.target_id.as_str());
        append_key(&mut k, &self.response_id.key());
        k
    }
}

pub open spec fn ids_key(ids: Seq<OperatorResponseId>) -> Seq<u32>
    decreases ids.len(),
{
    if ids.len() == 0 {
        seq![0u32]
    } else {
        seq![1u32] + ids[0].sort_key() + ids_key(ids.drop_first())
    }
}

fn push_ids_key(k: &mut Vec<u32>, ids: &Vec<OperatorResponseId>)
    ensures
        final(k)@ == old(k)@ + ids_key(ids@),
{
    let mut i: usize = ids.len();
    let mut tail: Vec<u32> = Vec::new();
    tail.push(0);
    assert(tail@ == ids_key(ids@.skip(ids@.len() as int)));
    while i > 0
        invariant
            i <= ids@.len(),
            tail@ == ids_key(ids@.skip(i as int)),
        decreases i,
    {
        let mut head: Vec<u32> = Vec::new();
        head.push(1);
        append_key(&mut head, &ids[i - 1].key());
        append_key(&mut head, &tail);
        proof {
            assert(ids@.skip(i - 1).drop_first() =~= ids@.skip(i as int));
            assert(ids@.skip(i - 1)[0] == ids@[i - 1]);
        }
        tail = head;
        i = i - 1;
    }
    assert(ids@.skip(0) =~= ids@);
    append_key(k, &tail);
}

pub open spec fn opt_key(o: Option<String>) -> Seq<u32> {
    match o {
        None => seq![0u32],
        Some(s) => seq![1u32] + str_key(s@),
    }
}

/// Conflicts are listed by kind, rule, target, then responses.
impl SortKey for ResolutionConflict {
    open spec fn sort_key(&self) -> Seq<u32> {
        seq![self.kind.tag()] + opt_key(self.rule_id) + str_key(self.target_id@) + ids_key(self.response_ids@)
    }

    fn key(&self) -> (k: Vec<u32>) {
        let mut k = Vec::new();
        push_tag(&mut k, match self.kind {
            ResolutionConflictKind::MultipleGoverningResponses => 0,
            ResolutionConflictKind::Disputed => 1,
            ResolutionConflictKind::ReviewRequired => 2,
            ResolutionConflictKind::Orphaned => 3,
        });
        match &self.rule_id {
            None => push_tag(&mut k, 0),
            Some(r) => {
                push_tag(&mut k, 1);
                push_str_key(&mut k, r.as_str());
            },
        }
        push_str_key(&mut k, self.target_id.as_str());
        push_ids_key(&mut k, &self.response_ids);
        assert(k@ =~= self.sort_key());
        k
    }
}

fn one_id(id: OperatorResponseId) -> (r: Vec<OperatorResponseId>)
    ensures
        r@ == seq![id],
{
    let mut v = Vec::new();
    v.push(id);
    v
}

/// An interpretation of one of the base report's insights.
pub open spec fn interprets_insight(x: ResolvedInterpretation, insight: ProjectInsight) -> bool {
    &&& x.target_id@ == insight.id@
    &&& x.rule_id@ == insight.rule_id@
    &&& x.base_statement@ == insight.statement@
}

pub open spec fn interprets_some_insight(base: ProjectIntelligence, x: ResolvedInterpretation) -> bool {
    exists|j: int| 0 <= j < base.insights@.len() && interprets_insight(x, #[trigger] base.insights@[j])
}

/// An annotation taken from an active annotation response.
pub open spec fn annotation_of(a: ResolvedAnnotation, r: OperatorResponse) -> bool {
    &&& a.response_id@ == r.id@
    &&& a.target_id@ == r.target.target_id@
    &&& r.payload matches OperatorResponsePayload::Annotation(p) && a.statement@ == p.statement@
        && a.intent == p.intent && a.scope == p.scope && a.confidence == p.confidence
}

/// The annotation of some response that is active in the resolution.
pub open spec fn annotation_active(responses: Seq<OperatorResponse>, t: Seq<OperatorTargetBinding>, a: ResolvedAnnotation) -> bool {
    exists|i: int|
        0 <= i < responses.len() && projected_spec(responses, i, t) == ResponseLifecycle::Active
            && annotation_of(a, #[trigger] responses[i])
}

/// The explanation of some response, with its lifecycle in the resolution.
pub open spec fn explained(responses: Seq<OperatorResponse>, t: Seq<OperatorTargetBinding>, e: ResolutionExplanation) -> bool {
    exists|i: int| 0 <= i < responses.len() && explanation_of(e, #[trigger] responses[i], projected_spec(responses, i, t))
}

/// The targets of a report, as `authority_targets` lists them.
pub open spec fn targets_of(base: ProjectIntelligence, t: Seq<OperatorTargetBinding>) -> bool {
    &&& t.len() == base.insights@.len() + base.entities@.len()
    &&& keys_sorted(t)
    &&& forall|i: int| 0 <= i < t.len() ==> is_report_target(base, #[trigger] t[i])
    &&& forall|i: int| 0 <= i < base.insights@.len() ==> insight_targeted(t, #[trigger] base.insights@[i])
    &&& forall|i: int| 0 <= i < base.entities@.len() ==> entity_targeted(t, #[trigger] base.entities@[i])
}

/// Every response belongs to the report's project.
pub open spec fn same_project(base: ProjectIntelligence, responses: Seq<OperatorResponse>) -> bool {
    forall|i: int| 0 <= i < responses.len() ==> (#[trigger] responses[i]).project@ == base.project.name@
}

/// What a resolution reports, given the current targets.
pub open spec fn resolution_spec(
    base: ProjectIntelligence,
    responses: Seq<OperatorResponse>,
    include_explanations: bool,
    t: Seq<OperatorTargetBinding>,
    res: ResolvedProjectIntelligence,
) -> bool {
    &&& targets_of(base, t)
    &&& res.active_response_count == count_active(responses, t, responses.len() as int)
    &&& interpretations_spec(base, responses, t, res.resolved_interpretations@)
    &&& conflicts_spec(base, responses, t, res.conflicts@)
    &&& forall|k: int|
        0 <= k < res.annotations@.len() ==> annotation_active(responses, t, #[trigger] res.annotations@[k])
    &&& forall|i: int|
        0 <= i < responses.len() && projected_spec(responses, i, t) == ResponseLifecycle::Active
            && responses[i].payload is Annotation ==> annotation_listed(res.annotations@, #[trigger] responses[i])
    &&& exists|all: Seq<ResolvedAnnotation>, idx: Seq<int>|
        #[trigger] annotations_from(responses, t, all, idx) && res.annotations@.to_multiset() == all.to_multiset()
    &&& if include_explanations {
        &&& explanations_ordered(res.explanations@)
        &&& res.explanations@.len() == responses.len()
        &&& forall|k: int|
            0 <= k < res.explanations@.len() ==> explained(responses, t, #[trigger] res.explanations@[k])
        &&& forall|i: int|
            0 <= i < responses.len() ==> explanation_listed(res.explanations@, #[trigger] responses[i], projected_spec(responses, i, t))
    } else {
        res.explanations@.len() == 0
    }
}

/// Some annotation of the list is taken from the response.
pub open spec fn annotation_listed(a: Seq<ResolvedAnnotation>, r: OperatorResponse) -> bool {
    exists|k: int| 0 <= k < a.len() && annotation_of(#[trigger] a[k], r)
}

/// Some explanation of the list explains the response with the lifecycle.
pub open spec fn explanation_listed(e: Seq<ResolutionExplanation>, r: OperatorResponse, lifecycle: ResponseLifecycle) -> bool {
    exists|k: int| 0 <= k < e.len() && explanation_of(#[trigger] e[k], r, lifecycle)
}

/// Some interpretation of the list is what the responses make of the insight.
pub open spec fn outcome_listed(
    v: Seq<ResolvedInterpretation>,
    responses: Seq<OperatorResponse>,
    t: Seq<OperatorTargetBinding>,
    x: ProjectInsight,
) -> bool {
    exists|k: int| 0 <= k < v.len() && interpretation_outcome(responses, t, x, #[trigger] v[k])
}

/// The interpretation is what the responses make of some insight of the report.
pub open spec fn outcome_of_some(
    base: ProjectIntelligence,
    responses: Seq<OperatorResponse>,
    t: Seq<OperatorTargetBinding>,
    y: ResolvedInterpretation,
) -> bool {
    exists|j: int| 0 <= j < base.insights@.len() && interpretation_outcome(responses, t, #[trigger] base.insights@[j], y)
}

/// One interpretation per insight: each is what the responses make of an
/// insight, and each insight has one.
#[verifier::opaque]
pub open spec fn interpretations_spec(
    base: ProjectIntelligence,
    responses: Seq<OperatorResponse>,
    t: Seq<OperatorTargetBinding>,
    v: Seq<ResolvedInterpretation>,
) -> bool {
    &&& forall|k: int| 0 <= k < v.len() ==> outcome_of_some(base, responses, t, #[trigger] v[k])
    &&& forall|j: int| 0 <= j < base.insights@.len() ==> outcome_listed(v, responses, t, #[trigger] base.insights@[j])
}

/// A conflict of the list matches the predicate for the response.
pub open spec fn lifecycle_listed(c: Seq<ResolutionConflict>, responses: Seq<OperatorResponse>, t: Seq<OperatorTargetBinding>, i: int) -> bool {
    exists|k: int| 0 <= k < c.len() && lifecycle_conflict(responses, t, i, #[trigger] c[k])
}

pub open spec fn dispute_listed(c: Seq<ResolutionConflict>, responses: Seq<OperatorResponse>, t: Seq<OperatorTargetBinding>, x: ProjectInsight) -> bool {
    exists|k: int| 0 <= k < c.len() && dispute_conflict(responses, t, x, #[trigger] c[k])
}

pub open spec fn multiple_listed(c: Seq<ResolutionConflict>, responses: Seq<OperatorResponse>, t: Seq<OperatorTargetBinding>, x: ProjectInsight) -> bool {
    exists|k: int| 0 <= k < c.len() && multiple_conflict(responses, t, x, #[trigger] c[k])
}

/// A governing response awaiting review or without its target.
pub open spec fn stranded(responses: Seq<OperatorResponse>, t: Seq<OperatorTargetBinding>, i: int) -> bool {
    &&& 0 <= i < responses.len()
    &&& !(responses[i].payload is Annotation)
    &&& (projected_spec(responses, i, t) == ResponseLifecycle::ReviewRequired || projected_spec(responses, i, t)
        == ResponseLifecycle::Orphaned)
}

/// The conflicts are exactly: one per stranded governing response, one per
/// insight whose sole governing response is a dispute, and one per insight
/// that several responses govern.
#[verifier::opaque]
pub open spec fn conflicts_spec(
    base: ProjectIntelligence,
    responses: Seq<OperatorResponse>,
    t: Seq<OperatorTargetBinding>,
    c: Seq<ResolutionConflict>,
) -> bool {
    &&& forall|k: int| 0 <= k < c.len() ==> conflict_expected(base, responses, t, #[trigger] c[k])
    &&& forall|i: int| #[trigger] stranded(responses, t, i) ==> lifecycle_listed(c, responses, t, i)
    &&& forall|j: int|
        0 <= j < base.insights@.len() && sole_dispute(responses, t, (#[trigger] base.insights@[j]).rule_id@)
            ==> dispute_listed(c, responses, t, base.insights@[j])
    &&& forall|j: int|
        0 <= j < base.insights@.len() && several_govern(responses, t, (#[trigger] base.insights@[j]).rule_id@)
            ==> multiple_listed(c, responses, t, base.insights@[j])
}

/// Applies the single governing response of a target to its interpretation.
fn apply_governing_response(interpretation: &mut ResolvedInterpretation, response: &OperatorResponse)
    ensures
        applied_spec(
            old(interpretation).base_statement@,
            response.payload,
            final(interpretation).status,
            opt_view(final(interpretation).resolved_statement),
        ) || (response.payload is Annotation && *final(interpretation) == *old(interpretation)),
        final(interpretation).target_id == old(interpretation).target_id,
        final(interpretation).rule_id == old(interpretation).rule_id,
        final(interpretation).base_statement == old(interpretation).base_statement,
        final(interpretation).governing_response == old(interpretation).governing_response,
{
    match &response.payload {
        OperatorResponsePayload::Acceptance(_) => {
            interpretation.status = InterpretationStatus::Accepted;
            interpretation.resolved_statement = Some(interpretation.base_statement.clone());
        },
        OperatorResponsePayload::Rejection(_) => {
            interpretation.status = InterpretationStatus::Rejected;
            interpretation.resolved_statement = None;
        },
        OperatorResponsePayload::Correction(c) => {
            interpretation.status = InterpretationStatus::Corrected;
            interpretation.resolved_statement = Some(c.replacement_statement.clone());
        },
        OperatorResponsePayload::Dispute(_) => {
            interpretation.status = InterpretationStatus::Disputed;
            interpretation.resolved_statement = None;
        },
        OperatorResponsePayload::Annotation(_) => {},
    }
}

fn copy_ids_of(projected: &Vec<ProjectedResponse>, picks: &Vec<usize>) -> (r: Vec<OperatorResponseId>)
    requires
        forall|j: int| 0 <= j < picks@.len() ==> (#[trigger] picks@[j]) < projected@.len(),
    ensures
        r@.len() == picks@.len(),
{
    let mut r: Vec<OperatorResponseId> = Vec::new();
    let mut j: usize = 0;
    while j < picks.len()
        invariant
            j <= picks@.len(),
            r@.len() == j,
            forall|q: int| 0 <= q < picks@.len() ==> (#[trigger] picks@[q]) < projected@.len(),
        decreases picks@.len() - j,
    {
        r.push(projected[picks[j]].id.duplicate());
        j = j + 1;
    }
    r
}

/// Response `i` governs the key: it is active in the resolution, it is not an
/// annotation, and it is bound under the key.
pub open spec fn governs(responses: Seq<OperatorResponse>, t: Seq<OperatorTargetBinding>, i: int, key: Seq<char>) -> bool {
    &&& 0 <= i < responses.len()
    &&& projected_spec(responses, i, t) == ResponseLifecycle::Active
    &&& !(responses[i].payload is Annotation)
    &&& responses[i].target.governing_key_spec() == key
}

/// Some response governs the key.
pub open spec fn governed(responses: Seq<OperatorResponse>, t: Seq<OperatorTargetBinding>, key: Seq<char>) -> bool {
    exists|i: int| #[trigger] governs(responses, t, i, key)
}

/// Response `g` is the only one that governs the key.
pub open spec fn sole_governor(responses: Seq<OperatorResponse>, t: Seq<OperatorTargetBinding>, key: Seq<char>, g: int) -> bool {
    &&& governs(responses, t, g, key)
    &&& forall|i: int| #[trigger] governs(responses, t, i, key) ==> i == g
}

/// What the responses make of an insight: with no governing response its
/// base; with one, what that response applies; with several, a conflict.
pub open spec fn interpretation_outcome(
    responses: Seq<OperatorResponse>,
    t: Seq<OperatorTargetBinding>,
    x: ProjectInsight,
    y: ResolvedInterpretation,
) -> bool {
    let key = x.rule_id@;
    &&& interprets_insight(y, x)
    &&& if !governed(responses, t, key) {
        &&& y.status == InterpretationStatus::Base
        &&& opt_view(y.resolved_statement) == Some(x.statement@)
        &&& y.governing_response is None
    } else if exists|g: int| #[trigger] sole_governor(responses, t, key, g) {
        let g = choose|g: int| #[trigger] sole_governor(responses, t, key, g);
        &&& opt_id_view(y.governing_response) == Some(responses[g].id@)
        &&& applied_spec(x.statement@, responses[g].payload, y.status, opt_view(y.resolved_statement))
    } else {
        &&& y.status == InterpretationStatus::Conflict
        &&& y.resolved_statement is None
        &&& y.governing_response is None
    }
}

/// `b` holds the responses of `a` in another order: its `i`-th response is
/// the `perm[i]`-th of `a`, and each response of `a` is taken once.
pub open spec fn reorders(a: Seq<OperatorResponse>, b: Seq<OperatorResponse>, perm: Seq<int>) -> bool {
    &&& b.len() == a.len()
    &&& perm.len() == a.len()
    &&& forall|i: int| 0 <= i < b.len() ==> 0 <= #[trigger] perm[i] < a.len() && b[i] == a[perm[i]]
    &&& forall|i: int, j: int| 0 <= i < j < b.len() ==> #[trigger] perm[i] != #[trigger] perm[j]
    &&& forall|k: int| 0 <= k < a.len() ==> #[trigger] takes(perm, k)
}

/// `all` holds one annotation for each active annotation response: the
/// response at `idx[k]` gives `all[k]`, no position twice, every active
/// annotation response some position.
pub open spec fn annotations_from(
    responses: Seq<OperatorResponse>,
    t: Seq<OperatorTargetBinding>,
    all: Seq<ResolvedAnnotation>,
    idx: Seq<int>,
) -> bool {
    &&& all.len() == idx.len()
    &&& forall|k: int|
        0 <= k < idx.len() ==> 0 <= #[trigger] idx[k] < responses.len() && projected_spec(responses, idx[k], t)
            == ResponseLifecycle::Active && responses[idx[k]].payload is Annotation && annotation_of(all[k], responses[idx[k]])
    &&& forall|x: int, y: int| 0 <= x < y < idx.len() ==> #[trigger] idx[x] != #[trigger] idx[y]
    &&& forall|i: int|
        0 <= i < responses.len() && projected_spec(responses, i, t) == ResponseLifecycle::Active
            && responses[i].payload is Annotation ==> #[trigger] takes(idx, i)
}

/// Explanations come in order of response identifier.
pub open spec fn explanations_ordered(e: Seq<ResolutionExplanation>) -> bool {
    forall|a: int, b: int|
        0 <= a < b < e.len() ==> !key_lt((#[trigger] e[b]).response_id.sort_key(), (#[trigger] e[a]).response_id.sort_key())
}

/// Some position of the reordering takes the `k`-th response.
pub open spec fn takes(perm: Seq<int>, k: int) -> bool {
    exists|i: int| 0 <= i < perm.len() && perm[i] == k
}

proof fn lemma_reorder_projected(a: Seq<OperatorResponse>, b: Seq<OperatorResponse>, perm: Seq<int>, t: Seq<OperatorTargetBinding>)
    requires
        reorders(a, b, perm),
    ensures
        forall|i: int| 0 <= i < b.len() ==> #[trigger] projected_spec(b, i, t) == projected_spec(a, perm[i], t),
        forall|i: int, key: Seq<char>| 0 <= i < b.len() ==> (#[trigger] governs(b, t, i, key) <==> governs(a, t, perm[i], key)),
{
    assert forall|id: Seq<char>| is_superseded(a, id) <==> is_superseded(b, id) by {
        if is_superseded(a, id) {
            let k = choose|k: int| 0 <= k < a.len() && opt_id_view((#[trigger] a[k]).supersedes) == Some(id);
            assert(takes(perm, k));
            let i = choose|i: int| 0 <= i < perm.len() && perm[i] == k;
            assert(b[i] == a[k]);
        }
        if is_superseded(b, id) {
            let i = choose|i: int| 0 <= i < b.len() && opt_id_view((#[trigger] b[i]).supersedes) == Some(id);
            assert(b[i] == a[perm[i]]);
        }
    }
    assert forall|i: int| 0 <= i < b.len() implies #[trigger] projected_spec(b, i, t) == projected_spec(a, perm[i], t) by {
        assert(b[i] == a[perm[i]]);
    }
}

/// Which responses govern a key, and which alone, is the same in any order.
proof fn lemma_reorder_governed(
    a: Seq<OperatorResponse>,
    b: Seq<OperatorResponse>,
    perm: Seq<int>,
    t: Seq<OperatorTargetBinding>,
    key: Seq<char>,
)
    requires
        reorders(a, b, perm),
    ensures
        governed(a, t, key) <==> governed(b, t, key),
        forall|g: int| #[trigger] sole_governor(b, t, key, g) ==> sole_governor(a, t, key, perm[g]) && b[g] == a[perm[g]],
        (exists|g: int| #[trigger] sole_governor(a, t, key, g)) <==> (exists|g: int| #[trigger] sole_governor(b, t, key, g)),
{
    lemma_reorder_projected(a, b, perm, t);
    if governed(a, t, key) {
        let k = choose|k: int| #[trigger] governs(a, t, k, key);
        assert(takes(perm, k));
            let i = choose|i: int| 0 <= i < perm.len() && perm[i] == k;
        assert(governs(b, t, i, key));
    }
    if governed(b, t, key) {
        let i = choose|i: int| #[trigger] governs(b, t, i, key);
        assert(governs(a, t, perm[i], key));
    }
    assert forall|g: int| #[trigger] sole_governor(b, t, key, g) implies sole_governor(a, t, key, perm[g]) && b[g] == a[perm[g]] by {
        assert(governs(a, t, perm[g], key));
        assert forall|k: int| #[trigger] governs(a, t, k, key) implies k == perm[g] by {
            assert(takes(perm, k));
            let i = choose|i: int| 0 <= i < perm.len() && perm[i] == k;
            assert(governs(b, t, i, key));
        }
    }
    if exists|g: int| #[trigger] sole_governor(a, t, key, g) {
        let g = choose|g: int| #[trigger] sole_governor(a, t, key, g);
        assert(takes(perm, g));
        let i = choose|i: int| 0 <= i < perm.len() && perm[i] == g;
        assert(governs(b, t, i, key));
        assert forall|j: int| #[trigger] governs(b, t, j, key) implies j == i by {
            assert(governs(a, t, perm[j], key));
        }
        assert(sole_governor(b, t, key, i));
    }
    if exists|g: int| #[trigger] sole_governor(b, t, key, g) {
        let g = choose|g: int| #[trigger] sole_governor(b, t, key, g);
        assert(sole_governor(a, t, key, perm[g]));
    }
}

/// What the responses make of an insight does not depend on their order.
pub proof fn law_interpretation_ignores_response_order(
    a: Seq<OperatorResponse>,
    b: Seq<OperatorResponse>,
    perm: Seq<int>,
    t: Seq<OperatorTargetBinding>,
    x: ProjectInsight,
    y: ResolvedInterpretation,
)
    requires
        reorders(a, b, perm),
    ensures
        interpretation_outcome(a, t, x, y) <==> interpretation_outcome(b, t, x, y),
{
    let key = x.rule_id@;
    lemma_reorder_governed(a, b, perm, t, key);
    if governed(a, t, key) && exists|g: int| #[trigger] sole_governor(a, t, key, g) {
        let ga = choose|g: int| #[trigger] sole_governor(a, t, key, g);
        let gb = choose|g: int| #[trigger] sole_governor(b, t, key, g);
        assert(sole_governor(a, t, key, perm[gb]));
        assert(governs(a, t, perm[gb], key));
        assert(perm[gb] == ga);
        assert(b[gb] == a[ga]);
    }
}

proof fn lemma_reorder_governors(
    a: Seq<OperatorResponse>,
    b: Seq<OperatorResponse>,
    perm: Seq<int>,
    t: Seq<OperatorTargetBinding>,
    key: Seq<char>,
)
    requires
        reorders(a, b, perm),
    ensures
        sole_dispute(a, t, key) <==> sole_dispute(b, t, key),
        several_govern(a, t, key) <==> several_govern(b, t, key),
        forall|id: Seq<char>| id_of_governor(a, t, key, id) <==> #[trigger] id_of_governor(b, t, key, id),
        forall|ids: Seq<OperatorResponseId>| ids_listed(a, t, key, ids) <==> #[trigger] ids_listed(b, t, key, ids),
        forall|ids: Seq<OperatorResponseId>| ids_complete(a, t, key, ids) <==> #[trigger] ids_complete(b, t, key, ids),
        forall|x: ProjectInsight, c: ResolutionConflict| x.rule_id@ == key ==> (dispute_conflict(a, t, x, c) <==> #[trigger] dispute_conflict(b, t, x, c)),
        forall|x: ProjectInsight, c: ResolutionConflict| x.rule_id@ == key ==> (multiple_conflict(a, t, x, c) <==> #[trigger] multiple_conflict(b, t, x, c)),
{
    lemma_reorder_projected(a, b, perm, t);
    lemma_reorder_governed(a, b, perm, t, key);
    if sole_dispute(a, t, key) {
        let g = choose|g: int| #[trigger] sole_governor(a, t, key, g) && a[g].payload is Dispute;
        let gb = choose|g: int| #[trigger] sole_governor(b, t, key, g);
        assert(sole_governor(a, t, key, perm[gb]));
        assert(governs(a, t, perm[gb], key));
        assert(b[gb] == a[g]);
    }
    if sole_dispute(b, t, key) {
        let g = choose|g: int| #[trigger] sole_governor(b, t, key, g) && b[g].payload is Dispute;
        assert(sole_governor(a, t, key, perm[g]));
    }
    assert forall|id: Seq<char>| id_of_governor(a, t, key, id) <==> #[trigger] id_of_governor(b, t, key, id) by {
        if id_of_governor(a, t, key, id) {
            let k = choose|k: int| #[trigger] governs(a, t, k, key) && id == a[k].id@;
            assert(takes(perm, k));
            let i = choose|i: int| 0 <= i < perm.len() && perm[i] == k;
            assert(governs(b, t, i, key));
        }
        if id_of_governor(b, t, key, id) {
            let i = choose|i: int| #[trigger] governs(b, t, i, key) && id == b[i].id@;
            assert(governs(a, t, perm[i], key));
        }
    }
    assert forall|ids: Seq<OperatorResponseId>| ids_listed(a, t, key, ids) <==> #[trigger] ids_listed(b, t, key, ids) by {
        reveal(ids_listed);
        if ids_listed(a, t, key, ids) {
            assert forall|k: int| 0 <= k < ids.len() implies #[trigger] id_of_governor(b, t, key, ids[k]@) by {
                assert(id_of_governor(a, t, key, ids[k]@));
            }
        }
        if ids_listed(b, t, key, ids) {
            assert forall|k: int| 0 <= k < ids.len() implies #[trigger] id_of_governor(a, t, key, ids[k]@) by {
                assert(id_of_governor(b, t, key, ids[k]@));
            }
        }
    }
    assert forall|ids: Seq<OperatorResponseId>| ids_complete(a, t, key, ids) <==> #[trigger] ids_complete(b, t, key, ids) by {
        reveal(ids_complete);
        if ids_complete(a, t, key, ids) {
            assert forall|i: int| #[trigger] governs(b, t, i, key) implies id_listed(ids, b[i].id@) by {
                assert(governs(a, t, perm[i], key));
            }
        }
        if ids_complete(b, t, key, ids) {
            assert forall|k: int| #[trigger] governs(a, t, k, key) implies id_listed(ids, a[k].id@) by {
                assert(takes(perm, k));
                let i = choose|i: int| 0 <= i < perm.len() && perm[i] == k;
                assert(governs(b, t, i, key));
            }
        }
    }
    assert forall|x: ProjectInsight, c: ResolutionConflict| x.rule_id@ == key implies (multiple_conflict(a, t, x, c) <==> #[trigger] multiple_conflict(b, t, x, c)) by {
        assert(ids_listed(a, t, key, c.response_ids@) <==> ids_listed(b, t, key, c.response_ids@));
        assert(ids_complete(a, t, key, c.response_ids@) <==> ids_complete(b, t, key, c.response_ids@));
    }
    assert forall|x: ProjectInsight, c: ResolutionConflict| x.rule_id@ == key implies (dispute_conflict(a, t, x, c) <==> #[trigger] dispute_conflict(b, t, x, c)) by {
        if dispute_conflict(a, t, x, c) {
            let g = choose|g: int|
                #[trigger] sole_governor(a, t, key, g) && a[g].payload is Dispute && c.response_ids@.len() == 1
                    && c.response_ids@[0]@ == a[g].id@;
            let gb = choose|g: int| #[trigger] sole_governor(b, t, key, g);
            assert(sole_governor(a, t, key, perm[gb]));
            assert(governs(a, t, perm[gb], key));
            assert(b[gb] == a[g]);
        }
        if dispute_conflict(b, t, x, c) {
            let g = choose|g: int|
                #[trigger] sole_governor(b, t, key, g) && b[g].payload is Dispute && c.response_ids@.len() == 1
                    && c.response_ids@[0]@ == b[g].id@;
            assert(sole_governor(a, t, key, perm[g]));
        }
    }
}

/// The conflicts the responses raise do not depend on their order.
pub proof fn law_conflicts_ignore_response_order(
    base: ProjectIntelligence,
    a: Seq<OperatorResponse>,
    b: Seq<OperatorResponse>,
    perm: Seq<int>,
    t: Seq<OperatorTargetBinding>,
    c: Seq<ResolutionConflict>,
)
    requires
        reorders(a, b, perm),
    ensures
        conflicts_spec(base, a, t, c) <==> conflicts_spec(base, b, t, c),
{
    reveal(conflicts_spec);
    lemma_reorder_projected(a, b, perm, t);
    assert forall|key: Seq<char>| #![trigger sole_dispute(a, t, key)] #![trigger several_govern(a, t, key)]
        (sole_dispute(a, t, key) <==> sole_dispute(b, t, key)) && (several_govern(a, t, key) <==> several_govern(b, t, key))
        && (forall|x: ProjectInsight, cc: ResolutionConflict| x.rule_id@ == key ==> (insight_conflict(a, t, x, cc) <==> #[trigger] insight_conflict(b, t, x, cc))) by {
        lemma_reorder_governors(a, b, perm, t, key);
    }
    assert forall|x: ProjectInsight, cc: ResolutionConflict| insight_conflict(a, t, x, cc) <==> #[trigger] insight_conflict(b, t, x, cc) by {
        lemma_reorder_governors(a, b, perm, t, x.rule_id@);
    }
    assert forall|cc: ResolutionConflict| from_stranded(a, t, cc) <==> #[trigger] from_stranded(b, t, cc) by {
        if from_stranded(a, t, cc) {
            let k = choose|k: int| #[trigger] lifecycle_conflict(a, t, k, cc);
            assert(takes(perm, k));
            let i = choose|i: int| 0 <= i < perm.len() && perm[i] == k;
            assert(projected_spec(b, i, t) == projected_spec(a, k, t));
            assert(lifecycle_conflict(b, t, i, cc));
        }
        if from_stranded(b, t, cc) {
            let i = choose|i: int| #[trigger] lifecycle_conflict(b, t, i, cc);
            assert(projected_spec(b, i, t) == projected_spec(a, perm[i], t));
            assert(lifecycle_conflict(a, t, perm[i], cc));
        }
    }
    assert forall|cc: ResolutionConflict| conflict_expected(base, a, t, cc) <==> #[trigger] conflict_expected(base, b, t, cc) by {
        if exists|j: int| 0 <= j < base.insights@.len() && insight_conflict(a, t, #[trigger] base.insights@[j], cc) {
            let j = choose|j: int| 0 <= j < base.insights@.len() && insight_conflict(a, t, #[trigger] base.insights@[j], cc);
            assert(insight_conflict(b, t, base.insights@[j], cc));
        }
        if exists|j: int| 0 <= j < base.insights@.len() && insight_conflict(b, t, #[trigger] base.insights@[j], cc) {
            let j = choose|j: int| 0 <= j < base.insights@.len() && insight_conflict(b, t, #[trigger] base.insights@[j], cc);
            assert(insight_conflict(a, t, base.insights@[j], cc));
        }
    }
    assert forall|x: ProjectInsight| dispute_listed(c, a, t, x) <==> #[trigger] dispute_listed(c, b, t, x) by {
        lemma_reorder_governors(a, b, perm, t, x.rule_id@);
        if dispute_listed(c, a, t, x) {
            let k = choose|k: int| 0 <= k < c.len() && dispute_conflict(a, t, x, #[trigger] c[k]);
            assert(dispute_conflict(b, t, x, c[k]));
        }
        if dispute_listed(c, b, t, x) {
            let k = choose|k: int| 0 <= k < c.len() && dispute_conflict(b, t, x, #[trigger] c[k]);
            assert(dispute_conflict(a, t, x, c[k]));
        }
    }
    assert forall|x: ProjectInsight| multiple_listed(c, a, t, x) <==> #[trigger] multiple_listed(c, b, t, x) by {
        lemma_reorder_governors(a, b, perm, t, x.rule_id@);
        if multiple_listed(c, a, t, x) {
            let k = choose|k: int| 0 <= k < c.len() && multiple_conflict(a, t, x, #[trigger] c[k]);
            assert(multiple_conflict(b, t, x, c[k]));
        }
        if multiple_listed(c, b, t, x) {
            let k = choose|k: int| 0 <= k < c.len() && multiple_conflict(b, t, x, #[trigger] c[k]);
            assert(multiple_conflict(a, t, x, c[k]));
        }
    }
    if conflicts_spec(base, a, t, c) {
        assert forall|i: int| #[trigger] stranded(b, t, i) implies lifecycle_listed(c, b, t, i) by {
            assert(projected_spec(b, i, t) == projected_spec(a, perm[i], t));
            assert(stranded(a, t, perm[i]));
            let k = choose|k: int| 0 <= k < c.len() && lifecycle_conflict(a, t, perm[i], #[trigger] c[k]);
            assert(lifecycle_conflict(b, t, i, c[k]));
        }
    }
    if conflicts_spec(base, b, t, c) {
        assert forall|k: int| #[trigger] stranded(a, t, k) implies lifecycle_listed(c, a, t, k) by {
            assert(takes(perm, k));
            let i = choose|i: int| 0 <= i < perm.len() && perm[i] == k;
            assert(projected_spec(b, i, t) == projected_spec(a, k, t));
            assert(stranded(b, t, i));
            let m = choose|m: int| 0 <= m < c.len() && lifecycle_conflict(b, t, i, #[trigger] c[m]);
            assert(lifecycle_conflict(a, t, k, c[m]));
        }
    }
}

/// The positions of the first `n` responses that are active in the resolution.
pub open spec fn active_upto(s: Seq<OperatorResponse>, t: Seq<OperatorTargetBinding>, n: int) -> Set<int> {
    Set::new(|i: int| 0 <= i < n && projected_spec(s, i, t) == ResponseLifecycle::Active)
}

proof fn lemma_count_card(s: Seq<OperatorResponse>, t: Seq<OperatorTargetBinding>, n: int)
    requires
        0 <= n,
    ensures
        active_upto(s, t, n).finite(),
        count_active(s, t, n) == active_upto(s, t, n).len(),
    decreases n,
{
    if n == 0 {
        assert(active_upto(s, t, 0) =~= Set::<int>::empty());
    } else {
        lemma_count_card(s, t, n - 1);
        if projected_spec(s, n - 1, t) == ResponseLifecycle::Active {
            assert(active_upto(s, t, n) =~= active_upto(s, t, n - 1).insert(n - 1));
        } else {
            assert(active_upto(s, t, n) =~= active_upto(s, t, n - 1));
        }
    }
}

/// How many responses are active does not depend on their order.
proof fn lemma_count_reorder(a: Seq<OperatorResponse>, b: Seq<OperatorResponse>, perm: Seq<int>, t: Seq<OperatorTargetBinding>)
    requires
        reorders(a, b, perm),
    ensures
        count_active(a, t, a.len() as int) == count_active(b, t, b.len() as int),
{
    lemma_reorder_projected(a, b, perm, t);
    lemma_count_card(a, t, a.len() as int);
    lemma_count_card(b, t, b.len() as int);
    let x = active_upto(b, t, b.len() as int);
    let y = active_upto(a, t, a.len() as int);
    let f = |i: int| perm[i];
    assert(vstd::relations::injective_on(f, x)) by {
        assert forall|i: int, j: int| x.contains(i) && x.contains(j) && #[trigger] f(i) == #[trigger] f(j) implies i == j by {
            if i < j {
                assert(perm[i] != perm[j]);
            } else if j < i {
                assert(perm[j] != perm[i]);
            }
        }
    }
    assert(x.map(f) =~= y) by {
        assert forall|k: int| y.contains(k) implies #[trigger] x.map(f).contains(k) by {
            assert(takes(perm, k));
            let i = choose|i: int| 0 <= i < perm.len() && perm[i] == k;
            assert(projected_spec(b, i, t) == projected_spec(a, perm[i], t));
            assert(x.contains(i) && f(i) == k);
        }
        assert forall|k: int| #[trigger] x.map(f).contains(k) implies y.contains(k) by {
            let i = choose|i: int| x.contains(i) && f(i) == k;
            assert(projected_spec(b, i, t) == projected_spec(a, perm[i], t));
        }
    }
    vstd::set_lib::lemma_map_size(x, y, f);
}

/// A reordering can be undone.
proof fn lemma_reorder_inverse(a: Seq<OperatorResponse>, b: Seq<OperatorResponse>, perm: Seq<int>) -> (inv: Seq<int>)
    requires
        reorders(a, b, perm),
    ensures
        reorders(b, a, inv),
{
    let n = a.len() as int;
    let inv = Seq::new(n as nat, |k: int| choose|i: int| 0 <= i < perm.len() && perm[i] == k);
    assert forall|k: int| 0 <= k < n implies 0 <= #[trigger] inv[k] < n && perm[inv[k]] == k by {
        assert(takes(perm, k));
    }
    assert forall|k: int| 0 <= k < a.len() implies 0 <= #[trigger] inv[k] < b.len() && a[k] == b[inv[k]] by {
        assert(takes(perm, k));
    }
    assert forall|x: int, y: int| 0 <= x < y < a.len() implies #[trigger] inv[x] != #[trigger] inv[y] by {
        assert(takes(perm, x) && takes(perm, y));
    }
    assert forall|i: int| 0 <= i < b.len() implies #[trigger] takes(inv, i) by {
        let k = perm[i];
        assert(takes(perm, k));
        let j = inv[k];
        assert(perm[j] == k);
        if j != i {
            if j < i {
                assert(perm[j] != perm[i]);
            } else {
                assert(perm[i] != perm[j]);
            }
        }
    }
    inv
}

/// The annotations that stand for the active annotation responses do so in
/// any order of the responses.
proof fn lemma_annotations_reorder(
    a: Seq<OperatorResponse>,
    b: Seq<OperatorResponse>,
    perm: Seq<int>,
    t: Seq<OperatorTargetBinding>,
    all: Seq<ResolvedAnnotation>,
    idx: Seq<int>,
) -> (idx2: Seq<int>)
    requires
        reorders(a, b, perm),
        annotations_from(a, t, all, idx),
    ensures
        annotations_from(b, t, all, idx2),
{
    lemma_reorder_projected(a, b, perm, t);
    let idx2 = Seq::new(idx.len(), |k: int| choose|i: int| 0 <= i < perm.len() && perm[i] == idx[k]);
    assert forall|k: int| 0 <= k < idx.len() implies 0 <= #[trigger] idx2[k] < b.len() && perm[idx2[k]] == idx[k] by {
        assert(takes(perm, idx[k]));
    }
    assert forall|k: int|
        0 <= k < idx2.len() implies 0 <= #[trigger] idx2[k] < b.len() && projected_spec(b, idx2[k], t)
            == ResponseLifecycle::Active && b[idx2[k]].payload is Annotation && annotation_of(all[k], b[idx2[k]]) by {
        assert(perm[idx2[k]] == idx[k]);
        assert(b[idx2[k]] == a[perm[idx2[k]]]);
        assert(projected_spec(b, idx2[k], t) == projected_spec(a, perm[idx2[k]], t));
    }
    assert forall|x: int, y: int| 0 <= x < y < idx2.len() implies #[trigger] idx2[x] != #[trigger] idx2[y] by {
        assert(perm[idx2[x]] == idx[x] && perm[idx2[y]] == idx[y]);
        assert(idx[x] != idx[y]);
    }
    assert forall|i: int|
        0 <= i < b.len() && projected_spec(b, i, t) == ResponseLifecycle::Active && b[i].payload is Annotation
            implies #[trigger] takes(idx2, i) by {
        assert(projected_spec(b, i, t) == projected_spec(a, perm[i], t));
        assert(b[i] == a[perm[i]]);
        assert(takes(idx, perm[i]));
        let k = choose|k: int| 0 <= k < idx.len() && idx[k] == perm[i];
        assert(perm[idx2[k]] == perm[i]);
        if idx2[k] != i {
            if idx2[k] < i {
                assert(perm[idx2[k]] != perm[i]);
            } else {
                assert(perm[i] != perm[idx2[k]]);
            }
        }
    }
    idx2
}

/// The resolution's statement of what the responses make of the report does
/// not depend on the order of the responses: the active count, the
/// interpretations, the conflicts, the annotations and the explanations it
/// requires are the same for the responses in any order.
pub proof fn law_resolution_ignores_response_order(
    base: ProjectIntelligence,
    a: Seq<OperatorResponse>,
    b: Seq<OperatorResponse>,
    perm: Seq<int>,
    include_explanations: bool,
    t: Seq<OperatorTargetBinding>,
    res: ResolvedProjectIntelligence,
)
    requires
        reorders(a, b, perm),
    ensures
        resolution_spec(base, a, include_explanations, t, res) <==> resolution_spec(base, b, include_explanations, t, res),
{
    lemma_reorder_projected(a, b, perm, t);
    lemma_count_reorder(a, b, perm, t);
    law_interpretations_ignore_response_order(base, a, b, perm, t, res.resolved_interpretations@);
    law_conflicts_ignore_response_order(base, a, b, perm, t, res.conflicts@);
    assert forall|x: ResolvedAnnotation| annotation_active(a, t, x) <==> #[trigger] annotation_active(b, t, x) by {
        if annotation_active(a, t, x) {
            let k = choose|k: int| 0 <= k < a.len() && projected_spec(a, k, t) == ResponseLifecycle::Active && annotation_of(x, #[trigger] a[k]);
            assert(takes(perm, k));
            let i = choose|i: int| 0 <= i < perm.len() && perm[i] == k;
            assert(projected_spec(b, i, t) == projected_spec(a, k, t));
            assert(annotation_of(x, b[i]));
        }
        if annotation_active(b, t, x) {
            let i = choose|i: int| 0 <= i < b.len() && projected_spec(b, i, t) == ResponseLifecycle::Active && annotation_of(x, #[trigger] b[i]);
            assert(projected_spec(b, i, t) == projected_spec(a, perm[i], t));
            assert(annotation_of(x, a[perm[i]]));
        }
    }
    assert forall|e: ResolutionExplanation| explained(a, t, e) <==> #[trigger] explained(b, t, e) by {
        if explained(a, t, e) {
            let k = choose|k: int| 0 <= k < a.len() && explanation_of(e, #[trigger] a[k], projected_spec(a, k, t));
            assert(takes(perm, k));
            let i = choose|i: int| 0 <= i < perm.len() && perm[i] == k;
            assert(projected_spec(b, i, t) == projected_spec(a, k, t));
            assert(explanation_of(e, b[i], projected_spec(b, i, t)));
        }
        if explained(b, t, e) {
            let i = choose|i: int| 0 <= i < b.len() && explanation_of(e, #[trigger] b[i], projected_spec(b, i, t));
            assert(projected_spec(b, i, t) == projected_spec(a, perm[i], t));
            assert(explanation_of(e, a[perm[i]], projected_spec(a, perm[i], t)));
        }
    }
    if resolution_spec(base, a, include_explanations, t, res) {
        let (all, idx) = choose|all: Seq<ResolvedAnnotation>, idx: Seq<int>|
            #[trigger] annotations_from(a, t, all, idx) && res.annotations@.to_multiset() == all.to_multiset();
        let idx2 = lemma_annotations_reorder(a, b, perm, t, all, idx);
        assert(annotations_from(b, t, all, idx2));
        assert forall|i: int|
            0 <= i < b.len() && projected_spec(b, i, t) == ResponseLifecycle::Active && b[i].payload is Annotation
                implies annotation_listed(res.annotations@, #[trigger] b[i]) by {
            assert(projected_spec(b, i, t) == projected_spec(a, perm[i], t));
            assert(b[i] == a[perm[i]]);
            assert(annotation_listed(res.annotations@, a[perm[i]]));
        }
        if include_explanations {
            assert forall|i: int| 0 <= i < b.len() implies explanation_listed(res.explanations@, #[trigger] b[i], projected_spec(b, i, t)) by {
                assert(projected_spec(b, i, t) == projected_spec(a, perm[i], t));
                assert(b[i] == a[perm[i]]);
                assert(explanation_listed(res.explanations@, a[perm[i]], projected_spec(a, perm[i], t)));
            }
        }
    }
    if resolution_spec(base, b, include_explanations, t, res) {
        let (all, idx) = choose|all: Seq<ResolvedAnnotation>, idx: Seq<int>|
            #[trigger] annotations_from(b, t, all, idx) && res.annotations@.to_multiset() == all.to_multiset();
        let inv = lemma_reorder_inverse(a, b, perm);
        let idx2 = lemma_annotations_reorder(b, a, inv, t, all, idx);
        assert(annotations_from(a, t, all, idx2));
        assert forall|k: int|
            0 <= k < a.len() && projected_spec(a, k, t) == ResponseLifecycle::Active && a[k].payload is Annotation
                implies annotation_listed(res.annotations@, #[trigger] a[k]) by {
            assert(takes(perm, k));
            let i = choose|i: int| 0 <= i < perm.len() && perm[i] == k;
            assert(projected_spec(b, i, t) == projected_spec(a, k, t));
            assert(annotation_listed(res.annotations@, b[i]));
        }
        if include_explanations {
            assert forall|k: int| 0 <= k < a.len() implies explanation_listed(res.explanations@, #[trigger] a[k], projected_spec(a, k, t)) by {
                assert(takes(perm, k));
                let i = choose|i: int| 0 <= i < perm.len() && perm[i] == k;
                assert(projected_spec(b, i, t) == projected_spec(a, k, t));
                assert(explanation_listed(res.explanations@, b[i], projected_spec(b, i, t)));
            }
        }
    }
}

/// The interpretations the responses make of the report's insights do not
/// depend on the order of the responses.
pub proof fn law_interpretations_ignore_response_order(
    base: ProjectIntelligence,
    a: Seq<OperatorResponse>,
    b: Seq<OperatorResponse>,
    perm: Seq<int>,
    t: Seq<OperatorTargetBinding>,
    v: Seq<ResolvedInterpretation>,
)
    requires
        reorders(a, b, perm),
    ensures
        interpretations_spec(base, a, t, v) <==> interpretations_spec(base, b, t, v),
{
    reveal(interpretations_spec);
    assert forall|x: ProjectInsight, y: ResolvedInterpretation| interpretation_outcome(a, t, x, y) <==> #[trigger] interpretation_outcome(b, t, x, y) by {
        law_interpretation_ignores_response_order(a, b, perm, t, x, y);
    }
    assert forall|y: ResolvedInterpretation| outcome_of_some(base, a, t, y) <==> #[trigger] outcome_of_some(base, b, t, y) by {
        if outcome_of_some(base, a, t, y) {
            let j = choose|j: int| 0 <= j < base.insights@.len() && interpretation_outcome(a, t, #[trigger] base.insights@[j], y);
            assert(interpretation_outcome(b, t, base.insights@[j], y));
        }
        if outcome_of_some(base, b, t, y) {
            let j = choose|j: int| 0 <= j < base.insights@.len() && interpretation_outcome(b, t, #[trigger] base.insights@[j], y);
            assert(interpretation_outcome(a, t, base.insights@[j], y));
        }
    }
    assert forall|x: ProjectInsight| outcome_listed(v, a, t, x) <==> #[trigger] outcome_listed(v, b, t, x) by {
        if outcome_listed(v, a, t, x) {
            let k = choose|k: int| 0 <= k < v.len() && interpretation_outcome(a, t, x, #[trigger] v[k]);
            assert(interpretation_outcome(b, t, x, v[k]));
        }
        if outcome_listed(v, b, t, x) {
            let k = choose|k: int| 0 <= k < v.len() && interpretation_outcome(b, t, x, #[trigger] v[k]);
            assert(interpretation_outcome(a, t, x, v[k]));
        }
    }
}

/// The conflict a governing response awaiting review, or whose target is
/// gone, raises.
pub open spec fn lifecycle_conflict(
    responses: Seq<OperatorResponse>,
    t: Seq<OperatorTargetBinding>,
    i: int,
    c: ResolutionConflict,
) -> bool {
    &&& 0 <= i < responses.len()
    &&& !(responses[i].payload is Annotation)
    &&& ((projected_spec(responses, i, t) == ResponseLifecycle::ReviewRequired && c.kind
        == ResolutionConflictKind::ReviewRequired) || (projected_spec(responses, i, t) == ResponseLifecycle::Orphaned
        && c.kind == ResolutionConflictKind::Orphaned))
    &&& c.target_id@ == responses[i].target.target_id@
    &&& opt_view(c.rule_id) == opt_view(responses[i].target.rule_id)
    &&& c.response_ids@.len() == 1
    &&& c.response_ids@[0]@ == responses[i].id@
}

/// The conflict the sole governing dispute of an insight raises.
pub open spec fn dispute_conflict(
    responses: Seq<OperatorResponse>,
    t: Seq<OperatorTargetBinding>,
    x: ProjectInsight,
    c: ResolutionConflict,
) -> bool {
    &&& exists|g: int|
        #[trigger] sole_governor(responses, t, x.rule_id@, g) && responses[g].payload is Dispute
            && c.response_ids@.len() == 1 && c.response_ids@[0]@ == responses[g].id@
    &&& c.kind == ResolutionConflictKind::Disputed
    &&& c.target_id@ == x.id@
    &&& opt_view(c.rule_id) == Some(x.rule_id@)
}

/// The conflict several governing responses of an insight raise, listing
/// each of them in identifier order.
pub open spec fn multiple_conflict(
    responses: Seq<OperatorResponse>,
    t: Seq<OperatorTargetBinding>,
    x: ProjectInsight,
    c: ResolutionConflict,
) -> bool {
    &&& governed(responses, t, x.rule_id@)
    &&& !exists|g: int| #[trigger] sole_governor(responses, t, x.rule_id@, g)
    &&& c.kind == ResolutionConflictKind::MultipleGoverningResponses
    &&& c.target_id@ == x.id@
    &&& opt_view(c.rule_id) == Some(x.rule_id@)
    &&& keys_sorted(c.response_ids@)
    &&& ids_listed(responses, t, x.rule_id@, c.response_ids@)
    &&& ids_complete(responses, t, x.rule_id@, c.response_ids@)
}

/// Every identifier is that of a response governing the key.
#[verifier::opaque]
pub open spec fn ids_listed(rs: Seq<OperatorResponse>, t: Seq<OperatorTargetBinding>, key: Seq<char>, ids: Seq<OperatorResponseId>) -> bool {
    forall|k: int| 0 <= k < ids.len() ==> #[trigger] id_of_governor(rs, t, key, ids[k]@)
}

/// The identifier is that of a response governing the key.
pub open spec fn id_of_governor(rs: Seq<OperatorResponse>, t: Seq<OperatorTargetBinding>, key: Seq<char>, id: Seq<char>) -> bool {
    exists|i: int| #[trigger] governs(rs, t, i, key) && id == rs[i].id@
}

/// The identifier is listed.
pub open spec fn id_listed(ids: Seq<OperatorResponseId>, id: Seq<char>) -> bool {
    exists|k: int| 0 <= k < ids.len() && (#[trigger] ids[k])@ == id
}

/// Every response governing the key has its identifier listed.
#[verifier::opaque]
pub open spec fn ids_complete(rs: Seq<OperatorResponse>, t: Seq<OperatorTargetBinding>, key: Seq<char>, ids: Seq<OperatorResponseId>) -> bool {
    forall|i: int| #[trigger] governs(rs, t, i, key) ==> id_listed(ids, rs[i].id@)
}

/// A conflict the resolution raises for the sole dispute, or the several
/// governing responses, of an insight.
pub open spec fn insight_conflict(
    responses: Seq<OperatorResponse>,
    t: Seq<OperatorTargetBinding>,
    x: ProjectInsight,
    c: ResolutionConflict,
) -> bool {
    dispute_conflict(responses, t, x, c) || multiple_conflict(responses, t, x, c)
}

/// The conflict of some stranded governing response.
pub open spec fn from_stranded(responses: Seq<OperatorResponse>, t: Seq<OperatorTargetBinding>, c: ResolutionConflict) -> bool {
    exists|i: int| #[trigger] lifecycle_conflict(responses, t, i, c)
}

/// A conflict of one of the three kinds the resolution raises.
pub open spec fn conflict_expected(
    base: ProjectIntelligence,
    responses: Seq<OperatorResponse>,
    t: Seq<OperatorTargetBinding>,
    c: ResolutionConflict,
) -> bool {
    ||| from_stranded(responses, t, c)
    ||| exists|j: int| 0 <= j < base.insights@.len() && insight_conflict(responses, t, #[trigger] base.insights@[j], c)
}

/// The insight's sole governing response is a dispute.
pub open spec fn sole_dispute(responses: Seq<OperatorResponse>, t: Seq<OperatorTargetBinding>, key: Seq<char>) -> bool {
    exists|g: int| #[trigger] sole_governor(responses, t, key, g) && responses[g].payload is Dispute
}

/// Several responses govern the insight.
pub open spec fn several_govern(responses: Seq<OperatorResponse>, t: Seq<OperatorTargetBinding>, key: Seq<char>) -> bool {
    governed(responses, t, key) && !exists|g: int| #[trigger] sole_governor(responses, t, key, g)
}

proof fn lemma_ids_key_injective(a: Seq<OperatorResponseId>, b: Seq<OperatorResponseId>)
    requires
        ids_key(a) == ids_key(b),
    ensures
        a.len() == b.len(),
        forall|i: int| 0 <= i < a.len() ==> (#[trigger] a[i])@ == b[i]@,
    decreases a.len(),
{
    if a.len() == 0 {
        if b.len() > 0 {
            assert(ids_key(b)[0] == 1u32);
        }
    } else {
        if b.len() == 0 {
            assert(ids_key(a)[0] == 1u32);
            assert(ids_key(b)[0] == 0u32);
        }
        assert(ids_key(a).drop_first() =~= str_key(a[0]@) + ids_key(a.drop_first()));
        assert(ids_key(b).drop_first() =~= str_key(b[0]@) + ids_key(b.drop_first()));
        lemma_str_key_split(a[0]@, b[0]@, ids_key(a.drop_first()), ids_key(b.drop_first()));
        lemma_ids_key_injective(a.drop_first(), b.drop_first());
        assert forall|i: int| 0 <= i < a.len() implies (#[trigger] a[i])@ == b[i]@ by {
            if i > 0 {
                assert(a.drop_first()[i - 1] == a[i]);
                assert(b.drop_first()[i - 1] == b[i]);
            }
        }
    }
}

/// Conflicts with equal keys agree in every field.
proof fn lemma_conflict_key_injective(c: ResolutionConflict, d: ResolutionConflict)
    requires
        c.sort_key() == d.sort_key(),
    ensures
        c.kind == d.kind,
        opt_view(c.rule_id) == opt_view(d.rule_id),
        c.target_id@ == d.target_id@,
        c.response_ids@.len() == d.response_ids@.len(),
        forall|i: int| 0 <= i < c.response_ids@.len() ==> (#[trigger] c.response_ids@[i])@ == d.response_ids@[i]@,
{
    let x = c.sort_key();
    let y = d.sort_key();
    assert(x[0] == c.kind.tag());
    assert(y[0] == d.kind.tag());
    let xr = x.drop_first();
    let yr = y.drop_first();
    assert(xr =~= opt_key(c.rule_id) + (str_key(c.target_id@) + ids_key(c.response_ids@)));
    assert(yr =~= opt_key(d.rule_id) + (str_key(d.target_id@) + ids_key(d.response_ids@)));
    let tail_c = str_key(c.target_id@) + ids_key(c.response_ids@);
    let tail_d = str_key(d.target_id@) + ids_key(d.response_ids@);
    match (c.rule_id, d.rule_id) {
        (None, None) => {
            assert(tail_c =~= xr.drop_first());
            assert(tail_d =~= yr.drop_first());
        },
        (Some(a), Some(b)) => {
            assert(str_key(a@) + tail_c =~= xr.drop_first());
            assert(str_key(b@) + tail_d =~= yr.drop_first());
            lemma_str_key_split(a@, b@, tail_c, tail_d);
        },
        (None, Some(_)) => {
            assert(xr[0] == 0u32);
            assert(yr[0] == 1u32);
        },
        (Some(_), None) => {
            assert(xr[0] == 1u32);
            assert(yr[0] == 0u32);
        },
    }
    lemma_str_key_split(c.target_id@, d.target_id@, ids_key(c.response_ids@), ids_key(d.response_ids@));
    lemma_ids_key_injective(c.response_ids@, d.response_ids@);
}

/// `picks` lists, in increasing order, every response that governs the key.
pub open spec fn picks_of(
    responses: Seq<OperatorResponse>,
    t: Seq<OperatorTargetBinding>,
    key: Seq<char>,
    picks: Seq<usize>,
) -> bool {
    &&& forall|p: int| 0 <= p < picks.len() ==> governs(responses, t, (#[trigger] picks[p]) as int, key)
    &&& forall|p: int, q: int| 0 <= p < q < picks.len() ==> (#[trigger] picks[p]) < (#[trigger] picks[q])
    &&& forall|j: int| #[trigger] governs(responses, t, j, key) ==> exists|p: int| 0 <= p < picks.len() && picks[p] == j
}

fn governing_picks(
    responses: &[OperatorResponse],
    lifecycles: &Vec<ResponseLifecycle>,
    targets: &Vec<OperatorTargetBinding>,
    key: &str,
) -> (picks: Vec<usize>)
    requires
        lifecycles@.len() == responses@.len(),
        forall|j: int| 0 <= j < responses@.len() ==> #[trigger] lifecycles@[j] == projected_spec(responses@, j, targets@),
    ensures
        picks_of(responses@, targets@, key@, picks@),
{
    let ghost rs = responses@;
    let ghost t = targets@;
    let mut picks: Vec<usize> = Vec::new();
    let mut i: usize = 0;
    while i < responses.len()
        invariant
            i <= responses@.len(),
            rs == responses@,
            t == targets@,
            lifecycles@.len() == responses@.len(),
            forall|j: int| 0 <= j < responses@.len() ==> #[trigger] lifecycles@[j] == projected_spec(responses@, j, targets@),
            forall|p: int| 0 <= p < picks@.len() ==> (#[trigger] picks@[p]) < i && governs(rs, t, picks@[p] as int, key@),
            forall|p: int, q: int| 0 <= p < q < picks@.len() ==> (#[trigger] picks@[p]) < (#[trigger] picks@[q]),
            forall|j: int| 0 <= j < i && #[trigger] governs(rs, t, j, key@) ==> exists|p: int|
                0 <= p < picks@.len() && picks@[p] == j,
        decreases responses@.len() - i,
    {
        if lifecycles[i] == ResponseLifecycle::Active && responses[i].payload.is_governing() && str_eq(
            responses[i].target.governing_key(),
            key,
        ) {
            let ghost before = picks@;
            picks.push(i);
            proof {
                reveal(governs);
                assert(governs(rs, t, i as int, key@));
                assert forall|j: int| 0 <= j < i + 1 && #[trigger] governs(rs, t, j, key@) implies exists|p: int|
                    0 <= p < picks@.len() && picks@[p] == j by {
                    if j < i {
                        let p = choose|p: int| 0 <= p < before.len() && before[p] == j;
                        assert(picks@[p] == j);
                    } else {
                        assert(picks@[picks@.len() - 1] == j);
                    }
                }
            }
        } else {
            proof {
                reveal(governs);
                assert(!governs(rs, t, i as int, key@));
            }
        }
        i = i + 1;
    }
    picks
}

proof fn lemma_ids_listed(
    rs: Seq<OperatorResponse>,
    t: Seq<OperatorTargetBinding>,
    key: Seq<char>,
    picks: Seq<usize>,
    unsorted: Seq<OperatorResponseId>,
    ids: Seq<OperatorResponseId>,
)
    requires
        forall|p: int| 0 <= p < picks.len() ==> governs(rs, t, (#[trigger] picks[p]) as int, key),
        unsorted.len() == picks.len(),
        forall|p: int| 0 <= p < unsorted.len() ==> (#[trigger] unsorted[p])@ == rs[picks[p] as int].id@,
        forall|k: int| 0 <= k < ids.len() ==> unsorted.contains(#[trigger] ids[k]),
    ensures
        ids_listed(rs, t, key, ids),
{
    reveal(ids_listed);
    assert forall|k: int| 0 <= k < ids.len() implies #[trigger] id_of_governor(rs, t, key, ids[k]@) by {
        assert(unsorted.contains(ids[k]));
        let p = choose|p: int| 0 <= p < unsorted.len() && unsorted[p] == ids[k];
        assert(unsorted[p]@ == rs[picks[p] as int].id@);
        let w: int = picks[p] as int;
        assert(governs(rs, t, w, key));
        assert(ids[k]@ == rs[w].id@);
    }
}

proof fn lemma_ids_complete(
    rs: Seq<OperatorResponse>,
    t: Seq<OperatorTargetBinding>,
    key: Seq<char>,
    picks: Seq<usize>,
    unsorted: Seq<OperatorResponseId>,
    ids: Seq<OperatorResponseId>,
)
    requires
        forall|j: int| #[trigger] governs(rs, t, j, key) ==> exists|p: int| 0 <= p < picks.len() && picks[p] == j,
        unsorted.len() == picks.len(),
        forall|p: int| 0 <= p < unsorted.len() ==> (#[trigger] unsorted[p])@ == rs[picks[p] as int].id@,
        forall|p: int| 0 <= p < unsorted.len() ==> ids.contains(#[trigger] unsorted[p]),
    ensures
        ids_complete(rs, t, key, ids),
{
    reveal(ids_complete);
    assert forall|i: int| #[trigger] governs(rs, t, i, key) implies id_listed(ids, rs[i].id@) by {
        let p = choose|p: int| 0 <= p < picks.len() && picks[p] == i;
        assert(ids.contains(unsorted[p]));
        let k = choose|k: int| 0 <= k < ids.len() && ids[k] == unsorted[p];
        assert(unsorted[p]@ == rs[picks[p] as int].id@);
        assert(ids[k]@ == rs[i].id@);
    }
}

fn multiple_conflict_of(
    insight: &ProjectInsight,
    responses: &[OperatorResponse],
    targets: &Vec<OperatorTargetBinding>,
    picks: &Vec<usize>,
) -> (c: ResolutionConflict)
    requires
        picks_of(responses@, targets@, insight.rule_id@, picks@),
        picks@.len() > 1,
    ensures
        multiple_conflict(responses@, targets@, *insight, c),
{
    let ghost rs = responses@;
    let ghost t = targets@;
    let ghost key = insight.rule_id@;
    let ghost p0 = picks@[0];
    let ghost p1 = picks@[1];
    proof {
        assert(governs(rs, t, p0 as int, key));
        assert(governs(rs, t, p1 as int, key));
        assert(p0 < p1);
        assert forall|h: int| !(#[trigger] sole_governor(rs, t, key, h)) by {
            if sole_governor(rs, t, key, h) {
                assert(p0 == h && p1 == h);
            }
        }
        assert(governed(rs, t, key));
    }
    let mut ids: Vec<OperatorResponseId> = Vec::new();
    let mut q: usize = 0;
    while q < picks.len()
        invariant
            q <= picks@.len(),
            rs == responses@,
            ids@.len() == q,
            forall|p: int| 0 <= p < picks@.len() ==> governs(rs, t, (#[trigger] picks@[p]) as int, key),
            forall|p: int| 0 <= p < q ==> (#[trigger] ids@[p])@ == rs[picks@[p] as int].id@,
        decreases picks@.len() - q,
    {
        assert(governs(rs, t, picks@[q as int] as int, key));
        ids.push(responses[picks[q]].id.duplicate());
        q = q + 1;
    }
    let ghost unsorted = ids@;
    let ids = sort_stable(ids);
    let c = ResolutionConflict {
        target_id: insight.id.to_text(),
        rule_id: Some(insight.rule_id.to_text()),
        kind: ResolutionConflictKind::MultipleGoverningResponses,
        response_ids: ids,
    };
    proof {
        lemma_ids_listed(rs, t, key, picks@, unsorted, c.response_ids@);
        lemma_ids_complete(rs, t, key, picks@, unsorted, c.response_ids@);
    }
    c
}

proof fn lemma_binding_key(x: ProjectInsight, b: OperatorTargetBinding)
    requires
        insight_binding_spec(x, b),
    ensures
        b.governing_key_spec() == x.rule_id@,
{
    reveal(insight_binding_spec);
}

/// Builds the interpretation of one insight and adds the conflict it raises.
fn interpret(
    insight: &ProjectInsight,
    responses: &[OperatorResponse],
    lifecycles: &Vec<ResponseLifecycle>,
    targets: &Vec<OperatorTargetBinding>,
    conflicts: &mut Vec<ResolutionConflict>,
) -> (r: Result<ResolvedInterpretation, IntelligenceError>)
    requires
        insight_bindable(*insight),
        lifecycles@.len() == responses@.len(),
        forall|j: int| 0 <= j < responses@.len() ==> #[trigger] lifecycles@[j] == projected_spec(responses@, j, targets@),
    ensures
        r matches Ok(y) && interpretation_outcome(responses@, targets@, *insight, y) && interpretation_consistent(y),
        old(conflicts)@.len() <= final(conflicts)@.len() <= old(conflicts)@.len() + 1,
        forall|k: int| 0 <= k < old(conflicts)@.len() ==> final(conflicts)@[k] == #[trigger] old(conflicts)@[k],
        forall|k: int|
            old(conflicts)@.len() <= k < final(conflicts)@.len() ==> insight_conflict(
                responses@,
                targets@,
                *insight,
                #[trigger] final(conflicts)@[k],
            ),
        sole_dispute(responses@, targets@, insight.rule_id@) ==> exists|k: int|
            old(conflicts)@.len() <= k < final(conflicts)@.len() && dispute_conflict(
                responses@,
                targets@,
                *insight,
                #[trigger] final(conflicts)@[k],
            ),
        several_govern(responses@, targets@, insight.rule_id@) ==> exists|k: int|
            old(conflicts)@.len() <= k < final(conflicts)@.len() && multiple_conflict(
                responses@,
                targets@,
                *insight,
                #[trigger] final(conflicts)@[k],
            ),
        r matches Ok(y) && (y.status == InterpretationStatus::Disputed || y.status == InterpretationStatus::Conflict)
            ==> final(conflicts)@.len() > 0,
{
    let target = match insight_target_binding(insight) {
        Ok(t) => t,
        Err(e) => {
            return Err(e);
        },
    };
    proof {
        lemma_binding_key(*insight, target);
    }
    let ghost rs = responses@;
    let ghost t = targets@;
    let ghost key = insight.rule_id@;
    let picks = governing_picks(responses, lifecycles, targets, target.governing_key());
    let mut interpretation = ResolvedInterpretation {
        target_id: insight.id.to_text(),
        rule_id: insight.rule_id.to_text(),
        base_statement: insight.statement.clone(),
        resolved_statement: Some(insight.statement.clone()),
        status: InterpretationStatus::Base,
        governing_response: None,
    };
    if picks.len() == 1 {
        let g = picks[0];
        proof {
            assert forall|j: int| #[trigger] governs(rs, t, j, key) implies j == g by {
                let p = choose|p: int| 0 <= p < picks@.len() && picks@[p] == j;
            }
            assert(sole_governor(rs, t, key, g as int));
            assert forall|h: int| #[trigger] sole_governor(rs, t, key, h) implies h == g by {}
            assert(!several_govern(rs, t, key));
        }
        let response = &responses[g];
        interpretation.governing_response = Some(response.id.duplicate());
        apply_governing_response(&mut interpretation, response);
        if interpretation.status == InterpretationStatus::Disputed {
            conflicts.push(ResolutionConflict {
                target_id: insight.id.to_text(),
                rule_id: Some(insight.rule_id.to_text()),
                kind: ResolutionConflictKind::Disputed,
                response_ids: one_id(response.id.duplicate()),
            });
            proof {
                let c = conflicts@[conflicts@.len() - 1];
                assert(sole_governor(rs, t, key, g as int) && rs[g as int].payload is Dispute && c.response_ids@.len() == 1
                    && c.response_ids@[0]@ == rs[g as int].id@);
                assert(dispute_conflict(rs, t, *insight, c));
            }
        } else {
            proof {
                if sole_dispute(rs, t, key) {
                    let h = choose|h: int| #[trigger] sole_governor(rs, t, key, h) && rs[h].payload is Dispute;
                    assert(h == g);
                }
            }
        }
    } else if picks.len() > 1 {
        let c = multiple_conflict_of(insight, responses, targets, &picks);
        interpretation.status = InterpretationStatus::Conflict;
        interpretation.resolved_statement = None;
        conflicts.push(c);
        proof {
            assert(!sole_dispute(rs, t, key));
        }
    } else {
        proof {
            assert forall|j: int| !(#[trigger] governs(rs, t, j, key)) by {
                if governs(rs, t, j, key) {
                    let p = choose|p: int| 0 <= p < picks@.len() && picks@[p] == j;
                }
            }
            assert(!governed(rs, t, key));
            assert(!sole_dispute(rs, t, key));
            assert(!several_govern(rs, t, key));
        }
    }
    Ok(interpretation)
}

proof fn lemma_conflict_same_views(
    responses: Seq<OperatorResponse>,
    t: Seq<OperatorTargetBinding>,
    c: ResolutionConflict,
    d: ResolutionConflict,
)
    requires
        c.sort_key() == d.sort_key(),
    ensures
        forall|i: int| #[trigger] lifecycle_conflict(responses, t, i, c) ==> lifecycle_conflict(responses, t, i, d),
        forall|x: ProjectInsight| #[trigger] dispute_conflict(responses, t, x, c) ==> dispute_conflict(responses, t, x, d),
        forall|x: ProjectInsight| #[trigger] multiple_conflict(responses, t, x, c) ==> multiple_conflict(responses, t, x, d),
{
    lemma_conflict_key_injective(c, d);
    let a = c.response_ids@;
    let b = d.response_ids@;
    assert forall|x: ProjectInsight| #[trigger] dispute_conflict(responses, t, x, c) implies dispute_conflict(responses, t, x, d) by {
        let g = choose|g: int|
            #[trigger] sole_governor(responses, t, x.rule_id@, g) && responses[g].payload is Dispute && a.len() == 1
                && a[0]@ == responses[g].id@;
        assert(b[0]@ == a[0]@);
    }
    assert forall|x: ProjectInsight| #[trigger] multiple_conflict(responses, t, x, c) implies multiple_conflict(responses, t, x, d) by {
        let key = x.rule_id@;
        assert forall|i: int, j: int| 0 <= i < j < b.len() implies !key_lt(#[trigger] b[j].sort_key(), #[trigger] b[i].sort_key()) by {
            assert(a[i]@ == b[i]@ && a[j]@ == b[j]@);
            assert(!key_lt(a[j].sort_key(), a[i].sort_key()));
        }
        reveal(ids_listed);
        reveal(ids_complete);
        assert forall|k: int| 0 <= k < b.len() implies #[trigger] id_of_governor(responses, t, key, b[k]@) by {
            assert(id_of_governor(responses, t, key, a[k]@));
        }
        assert forall|i: int| #[trigger] governs(responses, t, i, key) implies id_listed(b, responses[i].id@) by {
            assert(id_listed(a, responses[i].id@));
            let k = choose|k: int| 0 <= k < a.len() && (#[trigger] a[k])@ == responses[i].id@;
            assert(b[k]@ == a[k]@);
        }
    }
}

proof fn lemma_conflicts_sorted(
    base: ProjectIntelligence,
    responses: Seq<OperatorResponse>,
    t: Seq<OperatorTargetBinding>,
    all: Seq<ResolutionConflict>,
    res: Seq<ResolutionConflict>,
)
    requires
        crate::order::sorted_unique_of(res, all),
        conflicts_spec(base, responses, t, all),
    ensures
        conflicts_spec(base, responses, t, res),
{
    reveal(conflicts_spec);
    assert forall|k: int| 0 <= k < res.len() implies conflict_expected(base, responses, t, #[trigger] res[k]) by {
        assert(all.contains(res[k]));
    }
    assert forall|i: int| #[trigger] stranded(responses, t, i) implies lifecycle_listed(res, responses, t, i) by {
        assert(lifecycle_listed(all, responses, t, i));
        let k = choose|k: int| 0 <= k < all.len() && lifecycle_conflict(responses, t, i, #[trigger] all[k]);
        assert(crate::order::has_key(res, all[k].sort_key()));
        let m = choose|m: int| 0 <= m < res.len() && #[trigger] res[m].sort_key() == all[k].sort_key();
        lemma_conflict_same_views(responses, t, all[k], res[m]);
    }
    assert forall|j: int|
        0 <= j < base.insights@.len() && sole_dispute(responses, t, (#[trigger] base.insights@[j]).rule_id@) implies dispute_listed(
        res,
        responses,
        t,
        base.insights@[j],
    ) by {
        let x = base.insights@[j];
        assert(dispute_listed(all, responses, t, x));
        let k = choose|k: int| 0 <= k < all.len() && dispute_conflict(responses, t, x, #[trigger] all[k]);
        assert(crate::order::has_key(res, all[k].sort_key()));
        let m = choose|m: int| 0 <= m < res.len() && #[trigger] res[m].sort_key() == all[k].sort_key();
        lemma_conflict_same_views(responses, t, all[k], res[m]);
    }
    assert forall|j: int|
        0 <= j < base.insights@.len() && several_govern(responses, t, (#[trigger] base.insights@[j]).rule_id@) implies multiple_listed(
        res,
        responses,
        t,
        base.insights@[j],
    ) by {
        let x = base.insights@[j];
        assert(multiple_listed(all, responses, t, x));
        let k = choose|k: int| 0 <= k < all.len() && multiple_conflict(responses, t, x, #[trigger] all[k]);
        assert(crate::order::has_key(res, all[k].sort_key()));
        let m = choose|m: int| 0 <= m < res.len() && #[trigger] res[m].sort_key() == all[k].sort_key();
        lemma_conflict_same_views(responses, t, all[k], res[m]);
    }
}

proof fn lemma_interpretations_sorted(
    base: ProjectIntelligence,
    responses: Seq<OperatorResponse>,
    t: Seq<OperatorTargetBinding>,
    all: Seq<ResolvedInterpretation>,
    res: Seq<ResolvedInterpretation>,
)
    requires
        sorted_of(res, all),
        interpretations_spec(base, responses, t, all),
    ensures
        interpretations_spec(base, responses, t, res),
{
    reveal(interpretations_spec);
    assert forall|k: int| 0 <= k < res.len() implies outcome_of_some(base, responses, t, #[trigger] res[k]) by {
        assert(all.contains(res[k]));
    }
    assert forall|j: int| 0 <= j < base.insights@.len() implies outcome_listed(res, responses, t, #[trigger] base.insights@[j]) by {
        let x = base.insights@[j];
        assert(outcome_listed(all, responses, t, x));
        let k = choose|k: int| 0 <= k < all.len() && interpretation_outcome(responses, t, x, #[trigger] all[k]);
        assert(res.contains(all[k]));
    }
}

/// The conflicts of governing responses awaiting review or without their target.
fn lifecycle_conflicts(
    responses: &[OperatorResponse],
    lifecycles: &Vec<ResponseLifecycle>,
    targets: &Vec<OperatorTargetBinding>,
) -> (c: Vec<ResolutionConflict>)
    requires
        lifecycles@.len() == responses@.len(),
        forall|j: int| 0 <= j < responses@.len() ==> #[trigger] lifecycles@[j] == projected_spec(responses@, j, targets@),
    ensures
        forall|k: int| 0 <= k < c@.len() ==> from_stranded(responses@, targets@, #[trigger] c@[k]),
        forall|i: int| #[trigger] stranded(responses@, targets@, i) ==> lifecycle_listed(c@, responses@, targets@, i),
{
    let mut conflicts: Vec<ResolutionConflict> = Vec::new();
    let mut i: usize = 0;
    while i < responses.len()
        invariant
            i <= responses@.len(),
            lifecycles@.len() == responses@.len(),
            forall|j: int| 0 <= j < responses@.len() ==> #[trigger] lifecycles@[j] == projected_spec(responses@, j, targets@),
            forall|k: int| 0 <= k < conflicts@.len() ==> from_stranded(responses@, targets@, #[trigger] conflicts@[k]),
            forall|q: int| 0 <= q < i && #[trigger] stranded(responses@, targets@, q) ==> lifecycle_listed(conflicts@, responses@, targets@, q),
        decreases responses@.len() - i,
    {
        let response = &responses[i];
        let kind = if response.payload.is_governing() {
            match lifecycles[i] {
                ResponseLifecycle::ReviewRequired => Some(ResolutionConflictKind::ReviewRequired),
                ResponseLifecycle::Orphaned => Some(ResolutionConflictKind::Orphaned),
                _ => None,
            }
        } else {
            None
        };
        let ghost before = conflicts@;
        match kind {
            Some(kind) => {
                conflicts.push(ResolutionConflict {
                    target_id: response.target.target_id.clone(),
                    rule_id: clone_opt_string(&response.target.rule_id),
                    kind,
                    response_ids: one_id(response.id.duplicate()),
                });
                proof {
                    let last = conflicts@.len() - 1;
                    assert(lifecycle_conflict(responses@, targets@, i as int, conflicts@[last]));
                    assert forall|k: int| 0 <= k < conflicts@.len() implies from_stranded(responses@, targets@, #[trigger] conflicts@[k]) by {
                        if k < last {
                            assert(conflicts@[k] == before[k]);
                        }
                    }
                    assert forall|q: int| 0 <= q < i + 1 && #[trigger] stranded(responses@, targets@, q) implies lifecycle_listed(conflicts@, responses@, targets@, q) by {
                        if q < i {
                            let k = choose|k: int| 0 <= k < before.len() && lifecycle_conflict(responses@, targets@, q, #[trigger] before[k]);
                            assert(conflicts@[k] == before[k]);
                        } else {
                            assert(lifecycle_conflict(responses@, targets@, q, conflicts@[last]));
                        }
                    }
                }
            },
            None => {
                proof {
                    assert(!stranded(responses@, targets@, i as int));
                }
            },
        }
        i = i + 1;
    }
    conflicts
}

fn build_interpretations(
    base: &ProjectIntelligence,
    responses: &[OperatorResponse],
    lifecycles: &Vec<ResponseLifecycle>,
    targets: &Vec<OperatorTargetBinding>,
    conflicts: Vec<ResolutionConflict>,
) -> (r: Result<(Vec<ResolvedInterpretation>, Vec<ResolutionConflict>), IntelligenceError>)
    requires
        all_bindable(*base),
        lifecycles@.len() == responses@.len(),
        forall|j: int| 0 <= j < responses@.len() ==> #[trigger] lifecycles@[j] == projected_spec(responses@, j, targets@),
        forall|q: int| 0 <= q < conflicts@.len() ==> conflict_expected(*base, responses@, targets@, #[trigger] conflicts@[q]),
        forall|q: int| #[trigger] stranded(responses@, targets@, q) ==> lifecycle_listed(conflicts@, responses@, targets@, q),
    ensures
        r matches Ok((v, c)) && {
            &&& v@.len() == base.insights@.len()
            &&& forall|j: int| 0 <= j < v@.len() ==> interpretation_consistent(#[trigger] v@[j])
            &&& forall|j: int| 0 <= j < v@.len() ==> interpretation_outcome(responses@, targets@, base.insights@[j], #[trigger] v@[j])
            &&& forall|j: int|
                0 <= j < v@.len() && ((#[trigger] v@[j]).status == InterpretationStatus::Disputed || v@[j].status
                    == InterpretationStatus::Conflict) ==> c@.len() > 0
            &&& interpretations_spec(*base, responses@, targets@, v@)
            &&& keys_strictly_sorted(c@)
            &&& conflicts_spec(*base, responses@, targets@, c@)
        },
{
    let mut conflicts = conflicts;
    let ni = base.insights.len();
    let mut interpretations: Vec<ResolvedInterpretation> = Vec::new();
    let mut k: usize = 0;
    while k < ni
        invariant
            k <= ni,
            ni == base.insights@.len(),
            all_bindable(*base),
            lifecycles@.len() == responses@.len(),
            forall|j: int| 0 <= j < responses@.len() ==> #[trigger] lifecycles@[j] == projected_spec(responses@, j, targets@),
            interpretations@.len() == k,
            forall|j: int| 0 <= j < k ==> interpretation_consistent(#[trigger] interpretations@[j]),
            forall|j: int| 0 <= j < k ==> interpretation_outcome(responses@, targets@, base.insights@[j], #[trigger] interpretations@[j]),
            forall|j: int|
                0 <= j < k && ((#[trigger] interpretations@[j]).status == InterpretationStatus::Disputed
                    || interpretations@[j].status == InterpretationStatus::Conflict) ==> conflicts@.len() > 0,
            forall|q: int| 0 <= q < conflicts@.len() ==> conflict_expected(*base, responses@, targets@, #[trigger] conflicts@[q]),
            forall|q: int| #[trigger] stranded(responses@, targets@, q) ==> lifecycle_listed(conflicts@, responses@, targets@, q),
            forall|j: int|
                0 <= j < k && sole_dispute(responses@, targets@, (#[trigger] base.insights@[j]).rule_id@)
                    ==> dispute_listed(conflicts@, responses@, targets@, base.insights@[j]),
            forall|j: int|
                0 <= j < k && several_govern(responses@, targets@, (#[trigger] base.insights@[j]).rule_id@)
                    ==> multiple_listed(conflicts@, responses@, targets@, base.insights@[j]),
        decreases ni - k,
    {
        let ghost before = conflicts@;
        let ghost before_i = interpretations@;
        let insight = &base.insights[k];
        let interpretation = interpret(insight, responses, lifecycles, targets, &mut conflicts)?;
        proof {
            lemma_conflicts_extend(*base, responses@, targets@, before, conflicts@, k as int);
        }
        interpretations.push(interpretation);
        k = k + 1;
    }
    let ghost all = conflicts@;
    let sorted = sort_unique(conflicts);
    proof {
        assert(conflicts_spec(*base, responses@, targets@, all)) by {
            reveal(conflicts_spec);
        }
        lemma_conflicts_sorted(*base, responses@, targets@, all, sorted@);
        if all.len() > 0 {
            assert(crate::order::has_key(sorted@, all[0].sort_key()));
        }
        assert(interpretations_spec(*base, responses@, targets@, interpretations@)) by {
            reveal(interpretations_spec);
            assert forall|j: int| 0 <= j < base.insights@.len() implies outcome_listed(interpretations@, responses@, targets@, #[trigger] base.insights@[j]) by {
                assert(interpretation_outcome(responses@, targets@, base.insights@[j], interpretations@[j]));
            }
            assert forall|q: int| 0 <= q < interpretations@.len() implies outcome_of_some(*base, responses@, targets@, #[trigger] interpretations@[q]) by {
                assert(interpretation_outcome(responses@, targets@, base.insights@[q], interpretations@[q]));
            }
        }
    }
    Ok((interpretations, sorted))
}

proof fn lemma_conflict_status(
    responses: Seq<OperatorResponse>,
    t: Seq<OperatorTargetBinding>,
    x: ProjectInsight,
    c: ResolutionConflict,
    y: ResolvedInterpretation,
)
    requires
        insight_conflict(responses, t, x, c),
        interpretation_outcome(responses, t, x, y),
    ensures
        y.status == InterpretationStatus::Disputed || y.status == InterpretationStatus::Conflict,
{
    let key = x.rule_id@;
    if dispute_conflict(responses, t, x, c) {
        let g = choose|g: int| #[trigger] sole_governor(responses, t, key, g) && responses[g].payload is Dispute
            && c.response_ids@.len() == 1 && c.response_ids@[0]@ == responses[g].id@;
        assert(governed(responses, t, key));
        let h = choose|h: int| #[trigger] sole_governor(responses, t, key, h);
        assert(h == g);
    }
}

fn build_annotations(
    responses: &[OperatorResponse],
    projected: &Vec<ProjectedResponse>,
    targets: &Vec<OperatorTargetBinding>,
) -> (a: Vec<ResolvedAnnotation>)
    requires
        forall|j: int| 0 <= j < projected@.len() ==> projected_entry(responses@, targets@, #[trigger] projected@[j]),
        forall|i: int| 0 <= i < responses@.len() ==> #[trigger] has_index(projected@, i),
        forall|x: int, y: int| 0 <= x < y < projected@.len() ==> (#[trigger] projected@[x]).index != (#[trigger] projected@[y]).index,
    ensures
        keys_sorted(a@),
        forall|k: int| 0 <= k < a@.len() ==> annotation_active(responses@, targets@, #[trigger] a@[k]),
        forall|i: int|
            0 <= i < responses@.len() && projected_spec(responses@, i, targets@) == ResponseLifecycle::Active
                && responses@[i].payload is Annotation ==> annotation_listed(a@, #[trigger] responses@[i]),
        exists|all: Seq<ResolvedAnnotation>, idx: Seq<int>|
            #[trigger] annotations_from(responses@, targets@, all, idx) && a@.to_multiset() == all.to_multiset(),
{
    let n = projected.len();
    let mut annotations: Vec<ResolvedAnnotation> = Vec::new();
    let ghost mut idx: Seq<int> = Seq::empty();
    let ghost mut pos: Seq<int> = Seq::empty();
    let mut q: usize = 0;
    while q < n
        invariant
            q <= n,
            n == projected@.len(),
            forall|j: int| 0 <= j < n ==> projected_entry(responses@, targets@, #[trigger] projected@[j]),
            forall|x: int, y: int| 0 <= x < y < n ==> (#[trigger] projected@[x]).index != (#[trigger] projected@[y]).index,
            forall|j: int| 0 <= j < annotations@.len() ==> annotation_active(responses@, targets@, #[trigger] annotations@[j]),
            forall|j: int|
                0 <= j < q && (#[trigger] projected@[j]).lifecycle == ResponseLifecycle::Active
                    && responses@[projected@[j].index as int].payload is Annotation ==> annotation_listed(
                    annotations@,
                    responses@[projected@[j].index as int],
                ),
            idx.len() == annotations@.len(),
            pos.len() == annotations@.len(),
            forall|k: int| 0 <= k < pos.len() ==> 0 <= #[trigger] pos[k] < q && idx[k] == projected@[pos[k]].index as int,
            forall|x: int, y: int| 0 <= x < y < pos.len() ==> #[trigger] pos[x] < #[trigger] pos[y],
            forall|k: int|
                0 <= k < idx.len() ==> 0 <= #[trigger] idx[k] < responses@.len() && projected_spec(responses@, idx[k], targets@)
                    == ResponseLifecycle::Active && responses@[idx[k]].payload is Annotation && annotation_of(
                    annotations@[k],
                    responses@[idx[k]],
                ),
            forall|j: int|
                0 <= j < q && (#[trigger] projected@[j]).lifecycle == ResponseLifecycle::Active
                    && responses@[projected@[j].index as int].payload is Annotation ==> takes(idx, projected@[j].index as int),
        decreases n - q,
    {
        let p = &projected[q];
        let response = &responses[p.index];
        let ghost before = annotations@;
        let ghost before_idx = idx;
        let ghost before_pos = pos;
        if p.lifecycle == ResponseLifecycle::Active {
            match &response.payload {
                OperatorResponsePayload::Annotation(a) => {
                    annotations.push(ResolvedAnnotation {
                        response_id: response.id.duplicate(),
                        target_id: response.target.target_id.clone(),
                        statement: a.statement.clone(),
                        intent: a.intent,
                        scope: a.scope,
                        confidence: a.confidence,
                    });
                    proof {
                        idx = idx.push(p.index as int);
                        pos = pos.push(q as int);
                        let x = annotations@[annotations@.len() - 1];
                        assert(annotation_of(x, responses@[p.index as int]));
                        assert(annotation_active(responses@, targets@, x));
                        assert forall|j: int| 0 <= j < annotations@.len() implies annotation_active(responses@, targets@, #[trigger] annotations@[j]) by {
                            if j < before.len() {
                                assert(annotations@[j] == before[j]);
                            }
                        }
                        assert forall|j: int|
                            0 <= j < q + 1 && (#[trigger] projected@[j]).lifecycle == ResponseLifecycle::Active
                                && responses@[projected@[j].index as int].payload is Annotation implies annotation_listed(
                                annotations@,
                                responses@[projected@[j].index as int],
                            ) by {
                            if j < q {
                                let w = choose|w: int| 0 <= w < before.len() && annotation_of(#[trigger] before[w], responses@[projected@[j].index as int]);
                                assert(annotations@[w] == before[w]);
                            } else {
                                assert(annotation_of(annotations@[annotations@.len() - 1], responses@[projected@[j].index as int]));
                            }
                        }
                        assert forall|k: int|
                            0 <= k < idx.len() implies 0 <= #[trigger] idx[k] < responses@.len() && projected_spec(responses@, idx[k], targets@)
                                == ResponseLifecycle::Active && responses@[idx[k]].payload is Annotation && annotation_of(
                                annotations@[k],
                                responses@[idx[k]],
                            ) by {
                            if k < before_idx.len() {
                                assert(idx[k] == before_idx[k]);
                                assert(annotations@[k] == before[k]);
                            }
                        }
                        assert forall|k: int| 0 <= k < pos.len() implies 0 <= #[trigger] pos[k] < q + 1 && idx[k] == projected@[pos[k]].index as int by {
                            if k < before_pos.len() {
                                assert(pos[k] == before_pos[k] && idx[k] == before_idx[k]);
                            }
                        }
                        assert forall|x: int, y: int| 0 <= x < y < pos.len() implies #[trigger] pos[x] < #[trigger] pos[y] by {
                            if y < before_pos.len() {
                                assert(pos[x] == before_pos[x] && pos[y] == before_pos[y]);
                            } else {
                                assert(pos[x] == before_pos[x]);
                            }
                        }
                        assert forall|j: int|
                            0 <= j < q + 1 && (#[trigger] projected@[j]).lifecycle == ResponseLifecycle::Active
                                && responses@[projected@[j].index as int].payload is Annotation implies takes(idx, projected@[j].index as int) by {
                            if j < q {
                                assert(takes(before_idx, projected@[j].index as int));
                                let k = choose|k: int| 0 <= k < before_idx.len() && before_idx[k] == projected@[j].index as int;
                                assert(idx[k] == before_idx[k]);
                            } else {
                                assert(idx[idx.len() - 1] == projected@[j].index as int);
                            }
                        }
                    }
                },
                _ => {},
            }
        }
        q = q + 1;
    }
    let ghost all = annotations@;
    let sorted = sort_stable(annotations);
    proof {
        assert forall|j: int| 0 <= j < sorted@.len() implies annotation_active(responses@, targets@, #[trigger] sorted@[j]) by {
            assert(all.contains(sorted@[j]));
        }
        assert forall|i: int|
            0 <= i < responses@.len() && projected_spec(responses@, i, targets@) == ResponseLifecycle::Active
                && responses@[i].payload is Annotation implies annotation_listed(sorted@, #[trigger] responses@[i]) by {
            assert(has_index(projected@, i));
            let j = choose|j: int| 0 <= j < projected@.len() && (#[trigger] projected@[j]).index == i;
            assert(projected_entry(responses@, targets@, projected@[j]));
            assert(annotation_listed(all, responses@[projected@[j].index as int]));
            let w = choose|w: int| 0 <= w < all.len() && annotation_of(#[trigger] all[w], responses@[i]);
            assert(sorted@.contains(all[w]));
        }
        assert forall|x: int, y: int| 0 <= x < y < idx.len() implies #[trigger] idx[x] != #[trigger] idx[y] by {
            assert(pos[x] < pos[y]);
            assert(projected@[pos[x]].index != projected@[pos[y]].index);
        }
        assert forall|i: int|
            0 <= i < responses@.len() && projected_spec(responses@, i, targets@) == ResponseLifecycle::Active
                && responses@[i].payload is Annotation implies #[trigger] takes(idx, i) by {
            assert(has_index(projected@, i));
            let j = choose|j: int| 0 <= j < projected@.len() && (#[trigger] projected@[j]).index == i;
            assert(projected_entry(responses@, targets@, projected@[j]));
        }
        assert(annotations_from(responses@, targets@, all, idx));
    }
    sorted
}

fn build_explanations(
    responses: &[OperatorResponse],
    projected: &Vec<ProjectedResponse>,
    targets: &Vec<OperatorTargetBinding>,
    include_explanations: bool,
) -> (e: Vec<ResolutionExplanation>)
    requires
        projected@.len() == responses@.len(),
        forall|j: int| 0 <= j < projected@.len() ==> projected_entry(responses@, targets@, #[trigger] projected@[j]),
        forall|i: int| 0 <= i < responses@.len() ==> #[trigger] has_index(projected@, i),
        keys_sorted(projected@),
    ensures
        if include_explanations {
            &&& explanations_ordered(e@)
            &&& e@.len() == responses@.len()
            &&& forall|k: int| 0 <= k < e@.len() ==> explained(responses@, targets@, #[trigger] e@[k])
            &&& forall|i: int|
                0 <= i < responses@.len() ==> explanation_listed(e@, #[trigger] responses@[i], projected_spec(responses@, i, targets@))
        } else {
            e@.len() == 0
        },
{
    let n = projected.len();
    let mut explanations: Vec<ResolutionExplanation> = Vec::new();
    if include_explanations {
        let mut q: usize = 0;
        while q < n
            invariant
                q <= n,
                n == projected@.len(),
                forall|j: int| 0 <= j < n ==> projected_entry(responses@, targets@, #[trigger] projected@[j]),
                explanations@.len() == q,
                forall|j: int| 0 <= j < q ==> explained(responses@, targets@, #[trigger] explanations@[j]),
                forall|j: int|
                    0 <= j < q ==> explanation_of(
                        #[trigger] explanations@[j],
                        responses@[projected@[j].index as int],
                        projected_spec(responses@, projected@[j].index as int, targets@),
                    ),
                keys_sorted(projected@),
                forall|j: int| 0 <= j < q ==> (#[trigger] explanations@[j]).response_id@ == projected@[j].id@,
            decreases n - q,
        {
            let p = &projected[q];
            explanations.push(explanation(&responses[p.index], p.lifecycle));
            proof {
                assert(explanation_of(explanations@[q as int], responses@[p.index as int], projected_spec(responses@, p.index as int, targets@)));
                assert(explained(responses@, targets@, explanations@[q as int]));
            }
            q = q + 1;
        }
        proof {
            assert forall|a: int, b: int| 0 <= a < b < explanations@.len() implies !key_lt(
                (#[trigger] explanations@[b]).response_id.sort_key(),
                (#[trigger] explanations@[a]).response_id.sort_key(),
            ) by {
                assert(!key_lt(projected@[b].sort_key(), projected@[a].sort_key()));
            }
            assert forall|i: int| 0 <= i < responses@.len() implies explanation_listed(explanations@, #[trigger] responses@[i], projected_spec(responses@, i, targets@)) by {
                assert(has_index(projected@, i));
                let j = choose|j: int| 0 <= j < projected@.len() && (#[trigger] projected@[j]).index == i;
                assert(explanation_of(explanations@[j], responses@[i], projected_spec(responses@, i, targets@)));
            }
        }
    }
    explanations
}

fn project_responses(
    responses: &[OperatorResponse],
    targets: &Vec<OperatorTargetBinding>,
) -> (r: (Vec<ProjectedResponse>, Vec<ResponseLifecycle>, usize))
    ensures
        r.0@.len() == responses@.len(),
        forall|j: int| 0 <= j < r.0@.len() ==> projected_entry(responses@, targets@, #[trigger] r.0@[j]),
        forall|i: int| 0 <= i < responses@.len() ==> #[trigger] has_index(r.0@, i),
        keys_sorted(r.0@),
        forall|a: int, b: int| 0 <= a < b < r.0@.len() ==> (#[trigger] r.0@[a]).index != (#[trigger] r.0@[b]).index,
        r.1@.len() == responses@.len(),
        forall|j: int| 0 <= j < responses@.len() ==> #[trigger] r.1@[j] == projected_spec(responses@, j, targets@),
        r.2 == count_active(responses@, targets@, responses@.len() as int),
{
    let mut entries: Vec<ProjectedResponse> = Vec::new();
    let mut lifecycles: Vec<ResponseLifecycle> = Vec::new();
    let mut active_response_count: usize = 0;
    let mut i: usize = 0;
    while i < responses.len()
        invariant
            i <= responses@.len(),
            entries@.len() == i,
            lifecycles@.len() == i,
            forall|j: int| 0 <= j < i ==> (#[trigger] entries@[j]).index == j && projected_entry(responses@, targets@, entries@[j]),
            forall|j: int| 0 <= j < i ==> #[trigger] lifecycles@[j] == projected_spec(responses@, j, targets@),
            active_response_count == count_active(responses@, targets@, i as int),
            active_response_count <= i,
        decreases responses@.len() - i,
    {
        let response = &responses[i];
        let lifecycle = if superseded_by_any(responses, &response.id) && response.lifecycle
            == ResponseLifecycle::Active {
            ResponseLifecycle::Superseded
        } else {
            projected_lifecycle(response, targets)
        };
        proof {
            lemma_count_bound(responses@, targets@, i as int);
        }
        if lifecycle == ResponseLifecycle::Active {
            active_response_count = active_response_count + 1;
        }
        entries.push(ProjectedResponse { index: i, id: response.id.duplicate(), lifecycle });
        lifecycles.push(lifecycle);
        i = i + 1;
    }
    let ghost all_entries = entries@;
    let projected = sort_stable(entries);
    proof {
        assert forall|j: int| 0 <= j < projected@.len() implies projected_entry(responses@, targets@, #[trigger] projected@[j]) by {
            assert(all_entries.contains(projected@[j]));
        }
        lemma_projected_covers(responses@, targets@, all_entries, projected@);
        lemma_projected_distinct(all_entries, projected@);
    }
    (projected, lifecycles, active_response_count)
}

fn sort_interpretations(
    base: &ProjectIntelligence,
    responses: &[OperatorResponse],
    targets: &Vec<OperatorTargetBinding>,
    v: Vec<ResolvedInterpretation>,
    conflict_count: usize,
) -> (r: Vec<ResolvedInterpretation>)
    requires
        v@.len() == base.insights@.len(),
        forall|j: int| 0 <= j < v@.len() ==> interpretation_consistent(#[trigger] v@[j]),
        forall|j: int| 0 <= j < v@.len() ==> interpretation_outcome(responses@, targets@, base.insights@[j], #[trigger] v@[j]),
        forall|j: int|
            0 <= j < v@.len() && ((#[trigger] v@[j]).status == InterpretationStatus::Disputed || v@[j].status
                == InterpretationStatus::Conflict) ==> conflict_count > 0,
        interpretations_spec(*base, responses@, targets@, v@),
    ensures
        r@.len() == base.insights@.len(),
        keys_sorted(r@),
        interpretations_spec(*base, responses@, targets@, r@),
        forall|j: int| 0 <= j < r@.len() ==> interpretation_consistent(#[trigger] r@[j]),
        forall|j: int| 0 <= j < r@.len() ==> interprets_some_insight(*base, #[trigger] r@[j]),
        forall|j: int|
            0 <= j < r@.len() && ((#[trigger] r@[j]).status == InterpretationStatus::Disputed || r@[j].status
                == InterpretationStatus::Conflict) ==> conflict_count > 0,
{
    let ghost all = v@;
    let r = sort_stable(v);
    proof {
        lemma_interpretations_sorted(*base, responses@, targets@, all, r@);
        assert forall|j: int| 0 <= j < r@.len() implies interpretation_consistent(#[trigger] r@[j])
            && interprets_some_insight(*base, r@[j])
            && ((r@[j].status == InterpretationStatus::Disputed || r@[j].status == InterpretationStatus::Conflict)
                ==> conflict_count > 0) by {
            assert(all.contains(r@[j]));
            let w = choose|w: int| 0 <= w < all.len() && all[w] == r@[j];
            assert(interpretation_outcome(responses@, targets@, base.insights@[w], all[w]));
            assert(interpretation_consistent(all[w]));
            assert(interprets_insight(r@[j], base.insights@[w]));
        }
    }
    r
}

impl OperatorAuthorityResolver {
    /// Resolves the responses against the report: lifecycles are projected on
    /// the current targets, single governing responses decide an insight's
    /// interpretation, several conflict, and annotations are listed beside.
    pub fn resolve(
        &self,
        base: &ProjectIntelligence,
        responses: &[OperatorResponse],
        include_explanations: bool,
    ) -> (r: Result<ResolvedProjectIntelligence, IntelligenceError>)
        ensures
            r is Ok <==> same_project(*base, responses@) && all_bindable(*base),
            r matches Err(e) ==> e is InvalidInput,
            r matches Ok(res) ==> {
                &&& res.schema_version == RESOLVED_PROJECT_INTELLIGENCE_SCHEMA_VERSION
                &&& same_intelligence(res.base_intelligence, *base)
                &&& (res.resolution_status == ResolutionStatus::Resolved <==> res.conflicts@.len() == 0)
                &&& keys_strictly_sorted(res.conflicts@)
                &&& res.resolved_interpretations@.len() == base.insights@.len()
                &&& keys_sorted(res.resolved_interpretations@)
                &&& forall|k: int|
                    0 <= k < res.resolved_interpretations@.len() ==> interpretation_consistent(
                        #[trigger] res.resolved_interpretations@[k],
                    )
                &&& forall|k: int|
                    0 <= k < res.resolved_interpretations@.len() ==> interprets_some_insight(
                        *base,
                        #[trigger] res.resolved_interpretations@[k],
                    )
                &&& forall|k: int|
                    0 <= k < res.resolved_interpretations@.len() && ((#[trigger] res.resolved_interpretations@[k]).status
                        == InterpretationStatus::Disputed || res.resolved_interpretations@[k].status
                        == InterpretationStatus::Conflict) ==> res.resolution_status
                        == ResolutionStatus::Unresolved
                &&& keys_sorted(res.annotations@)
                &&& exists|t: Seq<OperatorTargetBinding>|
                    resolution_spec(*base, responses@, include_explanations, t, res)
            },
    {
        let mut i: usize = 0;
        while i < responses.len()
            invariant
                i <= responses@.len(),
                forall|j: int| 0 <= j < i ==> (#[trigger] responses@[j]).project@ == base.project.name@,
            decreases responses@.len() - i,
        {
            if !str_eq(responses[i].project.as_str(), base.project.name.as_str()) {
                let mut m = concat2("operator response ", responses[i].id.as_str());
                push_str(&mut m, " belongs to another project");
                return Err(IntelligenceError::InvalidInput(m));
            }
            i = i + 1;
        }
        let targets = authority_targets(base)?;
        let (projected, lifecycles, active_response_count) = project_responses(responses, &targets);
        let n = projected.len();
        let conflicts0 = lifecycle_conflicts(responses, &lifecycles, &targets);
        proof {
            assert forall|q: int| 0 <= q < conflicts0@.len() implies conflict_expected(*base, responses@, targets@, #[trigger] conflicts0@[q]) by {
                assert(from_stranded(responses@, targets@, conflicts0@[q]));
            }
        }
        let (interpretations, conflicts) = build_interpretations(base, responses, &lifecycles, &targets, conflicts0)?;
        let annotations = build_annotations(responses, &projected, &targets);
        let explanations = build_explanations(responses, &projected, &targets, include_explanations);
        let resolved_interpretations = sort_interpretations(base, responses, &targets, interpretations, conflicts.len());
        let resolution_status = if conflicts.len() == 0 {
            ResolutionStatus::Resolved
        } else {
            ResolutionStatus::Unresolved
        };
        let res = ResolvedProjectIntelligence {
            schema_version: RESOLVED_PROJECT_INTELLIGENCE_SCHEMA_VERSION,
            resolution_status,
            active_response_count,
            conflicts,
            base_intelligence: base.duplicate(),
            resolved_interpretations,
            annotations,
            explanations,
        };
        proof {
            assert(targets_of(*base, targets@));
            assert(res.active_response_count == count_active(responses@, targets@, responses@.len() as int));
            assert(include_explanations ==> res.explanations@.len() == responses@.len());
            assert(resolution_spec(*base, responses@, include_explanations, targets@, res));
        }
        Ok(res)
    }
}

/// Some entry projects response `i`.
pub open spec fn has_index(p: Seq<ProjectedResponse>, i: int) -> bool {
    exists|j: int| 0 <= j < p.len() && (#[trigger] p[j]).index == i
}

proof fn lemma_projected_covers(
    responses: Seq<OperatorResponse>,
    t: Seq<OperatorTargetBinding>,
    all: Seq<ProjectedResponse>,
    projected: Seq<ProjectedResponse>,
)
    requires
        all.len() == responses.len(),
        forall|j: int| 0 <= j < all.len() ==> (#[trigger] all[j]).index == j,
        sorted_of(projected, all),
    ensures
        forall|i: int| 0 <= i < responses.len() ==> #[trigger] has_index(projected, i),
{
    assert forall|i: int| 0 <= i < responses.len() implies #[trigger] has_index(projected, i) by {
        assert(projected.contains(all[i]));
        let j = choose|j: int| 0 <= j < projected.len() && projected[j] == all[i];
    }
}

proof fn lemma_projected_distinct(all: Seq<ProjectedResponse>, projected: Seq<ProjectedResponse>)
    requires
        forall|j: int| 0 <= j < all.len() ==> (#[trigger] all[j]).index == j,
        projected.to_multiset() == all.to_multiset(),
    ensures
        forall|a: int, b: int| 0 <= a < b < projected.len() ==> (#[trigger] projected[a]).index != (#[trigger] projected[b]).index,
{
    assert(all.no_duplicates()) by {
        assert forall|a: int, b: int| 0 <= a < all.len() && 0 <= b < all.len() && a != b implies all[a] != all[b] by {
            assert(all[a].index == a && all[b].index == b);
        }
    }
    crate::order::lemma_reorder_no_duplicates(all, projected);
    projected.to_multiset_ensures();
    all.to_multiset_ensures();
    assert forall|a: int, b: int| 0 <= a < b < projected.len() implies (#[trigger] projected[a]).index != (#[trigger] projected[b]).index by {
        assert(projected.contains(projected[a]) && projected.contains(projected[b]));
        assert(projected.to_multiset().count(projected[a]) > 0 && projected.to_multiset().count(projected[b]) > 0);
        assert(all.contains(projected[a]) && all.contains(projected[b]));
        let x = choose|x: int| 0 <= x < all.len() && all[x] == projected[a];
        let y = choose|y: int| 0 <= y < all.len() && all[y] == projected[b];
        assert(projected[a] != projected[b]);
    }
}

proof fn lemma_conflicts_extend(
    base: ProjectIntelligence,
    responses: Seq<OperatorResponse>,
    t: Seq<OperatorTargetBinding>,
    before: Seq<ResolutionConflict>,
    after: Seq<ResolutionConflict>,
    k: int,
)
    requires
        0 <= k < base.insights@.len(),
        before.len() <= after.len() <= before.len() + 1,
        forall|q: int| 0 <= q < before.len() ==> after[q] == #[trigger] before[q],
        forall|q: int| before.len() <= q < after.len() ==> insight_conflict(responses, t, base.insights@[k], #[trigger] after[q]),
        forall|q: int| 0 <= q < before.len() ==> conflict_expected(base, responses, t, #[trigger] before[q]),
    ensures
        forall|q: int| 0 <= q < after.len() ==> conflict_expected(base, responses, t, #[trigger] after[q]),
        forall|i: int| lifecycle_listed(before, responses, t, i) ==> #[trigger] lifecycle_listed(after, responses, t, i),
        forall|x: ProjectInsight| dispute_listed(before, responses, t, x) ==> #[trigger] dispute_listed(after, responses, t, x),
        forall|x: ProjectInsight| multiple_listed(before, responses, t, x) ==> #[trigger] multiple_listed(after, responses, t, x),
{
    assert forall|q: int| 0 <= q < after.len() implies conflict_expected(base, responses, t, #[trigger] after[q]) by {
        if q < before.len() {
            assert(after[q] == before[q]);
        } else {
            assert(insight_conflict(responses, t, base.insights@[k], after[q]));
        }
    }
    assert forall|i: int| lifecycle_listed(before, responses, t, i) implies #[trigger] lifecycle_listed(after, responses, t, i) by {
        let w = choose|w: int| 0 <= w < before.len() && lifecycle_conflict(responses, t, i, #[trigger] before[w]);
        assert(after[w] == before[w]);
    }
    assert forall|x: ProjectInsight| dispute_listed(before, responses, t, x) implies #[trigger] dispute_listed(after, responses, t, x) by {
        let w = choose|w: int| 0 <= w < before.len() && dispute_conflict(responses, t, x, #[trigger] before[w]);
        assert(after[w] == before[w]);
    }
    assert forall|x: ProjectInsight| multiple_listed(before, responses, t, x) implies #[trigger] multiple_listed(after, responses, t, x) by {
        let w = choose|w: int| 0 <= w < before.len() && multiple_conflict(responses, t, x, #[trigger] before[w]);
        assert(after[w] == before[w]);
    }
}

/// The texts one after another.
pub open spec fn concat_all(s: Seq<Seq<char>>) -> Seq<char>
    decreases s.len(),
{
    if s.len() == 0 {
        Seq::empty()
    } else {
        concat_all(s.drop_last()) + s.last()
    }
}

fn push_all(output: &mut String, lines: &Vec<String>)
    ensures
        final(output)@ == old(output)@ + concat_all(views(lines@)),
{
    let ghost start = output@;
    let mut i: usize = 0;
    while i < lines.len()
        invariant
            i <= lines@.len(),
            output@ == start + concat_all(views(lines@.take(i as int))),
        decreases lines@.len() - i,
    {
        push_str(output, lines[i].as_str());
        proof {
            let t = views(lines@.take(i + 1));
            assert(t.drop_last() =~= views(lines@.take(i as int)));
        }
        i = i + 1;
        assert(output@ =~= start + concat_all(views(lines@.take(i as int))));
    }
    assert(lines@.take(lines@.len() as int) =~= lines@);
}

pub open spec fn status_word(s: InterpretationStatus) -> Seq<char> {
    match s {
        InterpretationStatus::Base => "base"@,
        InterpretationStatus::Accepted => "accepted"@,
        InterpretationStatus::Rejected => "rejected"@,
        InterpretationStatus::Corrected => "corrected"@,
        InterpretationStatus::Disputed => "disputed"@,
        InterpretationStatus::Conflict => "conflict"@,
    }
}

fn status_word_of(s: InterpretationStatus) -> (r: &'static str)
    ensures
        r@ == status_word(s),
{
    match s {
        InterpretationStatus::Base => "base",
        InterpretationStatus::Accepted => "accepted",
        InterpretationStatus::Rejected => "rejected",
        InterpretationStatus::Corrected => "corrected",
        InterpretationStatus::Disputed => "disputed",
        InterpretationStatus::Conflict => "conflict",
    }
}

pub open spec fn conflict_word(k: ResolutionConflictKind) -> Seq<char> {
    match k {
        ResolutionConflictKind::MultipleGoverningResponses => "MultipleGoverningResponses"@,
        ResolutionConflictKind::Disputed => "Disputed"@,
        ResolutionConflictKind::ReviewRequired => "ReviewRequired"@,
        ResolutionConflictKind::Orphaned => "Orphaned"@,
    }
}

fn conflict_word_of(k: ResolutionConflictKind) -> (r: &'static str)
    ensures
        r@ == conflict_word(k),
{
    match k {
        ResolutionConflictKind::MultipleGoverningResponses => "MultipleGoverningResponses",
        ResolutionConflictKind::Disputed => "Disputed",
        ResolutionConflictKind::ReviewRequired => "ReviewRequired",
        ResolutionConflictKind::Orphaned => "Orphaned",
    }
}

pub open spec fn or_text(o: Option<String>, fallback: Seq<char>) -> Seq<char> {
    match o {
        Some(s) => s@,
        None => fallback,
    }
}

fn or_str<'a>(o: &'a Option<String>, fallback: &'a str) -> (r: &'a str)
    ensures
        r@ == or_text(*o, fallback@),
{
    match o {
        Some(s) => s.as_str(),
        None => fallback,
    }
}

pub open spec fn annotation_line(a: ResolvedAnnotation) -> Seq<char> {
    "    - ["@ + a.response_id@ + "] "@ + a.statement@ + "\n"@
}

pub open spec fn interpretation_line(x: ResolvedInterpretation) -> Seq<char> {
    "  - ["@ + x.rule_id@ + "] "@ + or_text(x.resolved_statement, "<no active interpretation>"@) + " ("@
        + status_word(x.status) + ")\n"@
}

pub open spec fn conflict_line(c: ResolutionConflict) -> Seq<char> {
    "  - "@ + or_text(c.rule_id, c.target_id@) + ": "@ + conflict_word(c.kind) + "\n"@
}

pub open spec fn explanation_lines(e: ResolutionExplanation) -> Seq<char> {
    "  - "@ + e.response_id@ + " "@ + e.base_interpretation@ + " -> "@ + or_text(e.resolved_interpretation, "<none>"@)
        + " ("@ + e.lifecycle.as_str_spec() + ")\n"@ + "    evidence: "@ + e.evidence_fingerprint@ + "\n"@
}

pub open spec fn annotations_text(s: Seq<ResolvedAnnotation>) -> Seq<char> {
    if s.len() == 0 {
        "  Annotations: none\n"@
    } else {
        "  Annotations:\n"@ + concat_all(s.map_values(|a: ResolvedAnnotation| annotation_line(a)))
    }
}

pub open spec fn interpretations_text(s: Seq<ResolvedInterpretation>) -> Seq<char> {
    "\nResolved Interpretations\n"@ + concat_all(s.map_values(|x: ResolvedInterpretation| interpretation_line(x)))
}

pub open spec fn conflicts_text(s: Seq<ResolutionConflict>) -> Seq<char> {
    if s.len() == 0 {
        Seq::empty()
    } else {
        "\nAuthority Conflicts\n"@ + concat_all(s.map_values(|c: ResolutionConflict| conflict_line(c)))
    }
}

pub open spec fn explanations_text(s: Seq<ResolutionExplanation>, explain: bool) -> Seq<char> {
    if explain && s.len() > 0 {
        "\nAuthority Explanations\n"@ + concat_all(s.map_values(|e: ResolutionExplanation| explanation_lines(e)))
    } else {
        Seq::empty()
    }
}

pub open spec fn status_text(r: ResolvedProjectIntelligence) -> Seq<char> {
    "\nOperator Resolution\n"@ + "  Status: "@ + match r.resolution_status {
        ResolutionStatus::Resolved => "resolved"@,
        ResolutionStatus::Unresolved => "unresolved"@,
    } + "\n"@ + "  Active responses: "@ + decimal(r.active_response_count as nat) + "\n"@
}

/// The text of a resolution: the base report, then the operator's view of it.
pub open spec fn resolved_text(r: ResolvedProjectIntelligence, explain: bool) -> Seq<char> {
    report_text(r.base_intelligence) + status_text(r) + annotations_text(r.annotations@)
        + interpretations_text(r.resolved_interpretations@) + conflicts_text(r.conflicts@)
        + explanations_text(r.explanations@, explain)
}

fn annotations_part(s: &Vec<ResolvedAnnotation>) -> (r: String)
    ensures
        r@ == annotations_text(s@),
{
    if s.len() == 0 {
        return owned("  Annotations: none\n");
    }
    let mut output = owned("  Annotations:\n");
    let mut lines: Vec<String> = Vec::new();
    let mut i: usize = 0;
    while i < s.len()
        invariant
            i <= s@.len(),
            lines@.len() == i,
            forall|k: int| 0 <= k < i ==> (#[trigger] lines@[k])@ == annotation_line(s@[k]),
        decreases s@.len() - i,
    {
        let a = &s[i];
        let mut l = owned("    - [");
        push_str(&mut l, a.response_id.as_str());
        push_str(&mut l, "] ");
        push_str(&mut l, a.statement.as_str());
        push_str(&mut l, "\n");
        assert(l@ =~= annotation_line(*a));
        lines.push(l);
        i = i + 1;
    }
    assert(views(lines@) =~= s@.map_values(|a: ResolvedAnnotation| annotation_line(a)));
    push_all(&mut output, &lines);
    output
}

fn interpretations_part(s: &Vec<ResolvedInterpretation>) -> (r: String)
    ensures
        r@ == interpretations_text(s@),
{
    let mut output = owned("\nResolved Interpretations\n");
    let mut lines: Vec<String> = Vec::new();
    let mut i: usize = 0;
    while i < s.len()
        invariant
            i <= s@.len(),
            lines@.len() == i,
            forall|k: int| 0 <= k < i ==> (#[trigger] lines@[k])@ == interpretation_line(s@[k]),
        decreases s@.len() - i,
    {
        let x = &s[i];
        let mut l = owned("  - [");
        push_str(&mut l, x.rule_id.as_str());
        push_str(&mut l, "] ");
        push_str(&mut l, or_str(&x.resolved_statement, "<no active interpretation>"));
        push_str(&mut l, " (");
        push_str(&mut l, status_word_of(x.status));
        push_str(&mut l, ")\n");
        assert(l@ =~= interpretation_line(*x));
        lines.push(l);
        i = i + 1;
    }
    assert(views(lines@) =~= s@.map_values(|x: ResolvedInterpretation| interpretation_line(x)));
    push_all(&mut output, &lines);
    output
}

fn conflicts_part(s: &Vec<ResolutionConflict>) -> (r: String)
    ensures
        r@ == conflicts_text(s@),
{
    if s.len() == 0 {
        return String::new();
    }
    let mut output = owned("\nAuthority Conflicts\n");
    let mut lines: Vec<String> = Vec::new();
    let mut i: usize = 0;
    while i < s.len()
        invariant
            i <= s@.len(),
            lines@.len() == i,
            forall|k: int| 0 <= k < i ==> (#[trigger] lines@[k])@ == conflict_line(s@[k]),
        decreases s@.len() - i,
    {
        let c = &s[i];
        let mut l = owned("  - ");
        push_str(&mut l, or_str(&c.rule_id, c.target_id.as_str()));
        push_str(&mut l, ": ");
        push_str(&mut l, conflict_word_of(c.kind));
        push_str(&mut l, "\n");
        assert(l@ =~= conflict_line(*c));
        lines.push(l);
        i = i + 1;
    }
    assert(views(lines@) =~= s@.map_values(|c: ResolutionConflict| conflict_line(c)));
    push_all(&mut output, &lines);
    output
}

fn explanations_part(s: &Vec<ResolutionExplanation>, explain: bool) -> (r: String)
    ensures
        r@ == explanations_text(s@, explain),
{
    if !(explain && s.len() > 0) {
        return String::new();
    }
    let mut output = owned("\nAuthority Explanations\n");
    let mut lines: Vec<String> = Vec::new();
    let mut i: usize = 0;
    while i < s.len()
        invariant
            i <= s@.len(),
            lines@.len() == i,
            forall|k: int| 0 <= k < i ==> (#[trigger] lines@[k])@ == explanation_lines(s@[k]),
        decreases s@.len() - i,
    {
        let e = &s[i];
        let mut l = owned("  - ");
        push_str(&mut l, e.response_id.as_str());
        push_str(&mut l, " ");
        push_str(&mut l, e.base_interpretation.as_str());
        push_str(&mut l, " -> ");
        push_str(&mut l, or_str(&e.resolved_interpretation, "<none>"));
        push_str(&mut l, " (");
        push_str(&mut l, e.lifecycle.as_str());
        push_str(&mut l, ")\n");
        push_str(&mut l, "    evidence: ");
        push_str(&mut l, e.evidence_fingerprint.as_str());
        push_str(&mut l, "\n");
        assert(l@ =~= explanation_lines(*e));
        lines.push(l);
        i = i + 1;
    }
    assert(views(lines@) =~= s@.map_values(|e: ResolutionExplanation| explanation_lines(e)));
    push_all(&mut output, &lines);
    output
}

/// Renders the resolved report as text; explanations only when asked for.
pub fn render_resolved_text(report: &ResolvedProjectIntelligence, explain: bool) -> (r: String)
    ensures
        r@ == resolved_text(*report, explain),
{
    let mut output = render_text(&report.base_intelligence);
    let ghost base = output@;
    push_str(&mut output, "\nOperator Resolution\n");
    push_str(&mut output, "  Status: ");
    push_str(&mut output, match report.resolution_status {
        ResolutionStatus::Resolved => "resolved",
        ResolutionStatus::Unresolved => "unresolved",
    });
    push_str(&mut output, "\n");
    push_str(&mut output, "  Active responses: ");
    push_decimal(&mut output, report.active_response_count as u64);
    push_str(&mut output, "\n");
    assert(output@ =~= base + status_text(*report));
    let a = annotations_part(&report.annotations);
    push_str(&mut output, a.as_str());
    let b = interpretations_part(&report.resolved_interpretations);
    push_str(&mut output, b.as_str());
    let c = conflicts_part(&report.conflicts);
    push_str(&mut output, c.as_str());
    let d = explanations_part(&report.explanations, explain);
    push_str(&mut output, d.as_str());
    output
}


/// The response's target is still in the report but no longer bound as it
/// was: every target with its identifier is bound otherwise, or its
/// identifier is gone while its rule remains.
pub open spec fn target_drifted(r: OperatorResponse, t: Seq<OperatorTargetBinding>) -> bool {
    ||| has_target(t, r.target.target_id@) && forall|k: int|
        0 <= k < t.len() && (#[trigger] t[k]).target_id@ == r.target.target_id@ ==> !r.target.same_binding(&t[k])
    ||| !has_target(t, r.target.target_id@) && (r.target.rule_id matches Some(rule) && has_rule(t, rule@))
}

/// A governing response is never dropped silently when its target drifts:
/// an active, unsuperseded rejection, correction or dispute whose target
/// drifted awaits review; resolving lists a review-required conflict naming
/// it alone, explains it as awaiting review, and leaves the resolution
/// unresolved.
pub proof fn law_drifted_governing_response_needs_review(
    base: ProjectIntelligence,
    responses: Seq<OperatorResponse>,
    include_explanations: bool,
    t: Seq<OperatorTargetBinding>,
    res: ResolvedProjectIntelligence,
    i: int,
)
    requires
        resolution_spec(base, responses, include_explanations, t, res),
        res.resolution_status == ResolutionStatus::Resolved <==> res.conflicts@.len() == 0,
        0 <= i < responses.len(),
        responses[i].lifecycle == ResponseLifecycle::Active,
        !is_superseded(responses, responses[i].id@),
        responses[i].payload is Rejection || responses[i].payload is Correction || responses[i].payload is Dispute,
        target_drifted(responses[i], t),
    ensures
        projected_spec(responses, i, t) == ResponseLifecycle::ReviewRequired,
        exists|k: int|
            0 <= k < res.conflicts@.len() && (#[trigger] res.conflicts@[k]).kind == ResolutionConflictKind::ReviewRequired
                && res.conflicts@[k].response_ids@.len() == 1 && res.conflicts@[k].response_ids@[0]@ == responses[i].id@
                && res.conflicts@[k].target_id@ == responses[i].target.target_id@,
        res.resolution_status == ResolutionStatus::Unresolved,
        include_explanations ==> explanation_listed(res.explanations@, responses[i], ResponseLifecycle::ReviewRequired),
{
    let r = responses[i];
    if has_target(t, r.target.target_id@) {
        let k = choose|k: int| is_last_target(t, r.target.target_id@, k);
        let j = choose|j: int| 0 <= j < t.len() && (#[trigger] t[j]).target_id@ == r.target.target_id@;
        lemma_last_exists(t, r.target.target_id@, j);
        assert(is_last_target(t, r.target.target_id@, k));
        assert(!r.target.same_binding(&t[k]));
    }
    assert(projected_spec(responses, i, t) == ResponseLifecycle::ReviewRequired);
    assert(stranded(responses, t, i));
    reveal(conflicts_spec);
    assert(lifecycle_listed(res.conflicts@, responses, t, i));
    let k = choose|k: int| 0 <= k < res.conflicts@.len() && lifecycle_conflict(responses, t, i, #[trigger] res.conflicts@[k]);
    assert(res.conflicts@[k].kind == ResolutionConflictKind::ReviewRequired);
}

proof fn lemma_last_exists(t: Seq<OperatorTargetBinding>, id: Seq<char>, j: int)
    requires
        0 <= j < t.len(),
        t[j].target_id@ == id,
    ensures
        exists|k: int| is_last_target(t, id, k),
    decreases t.len() - j,
{
    if exists|m: int| j < m < t.len() && (#[trigger] t[m]).target_id@ == id {
        let m = choose|m: int| j < m < t.len() && (#[trigger] t[m]).target_id@ == id;
        lemma_last_exists(t, id, m);
    } else {
        assert(is_last_target(t, id, j));
    }
}


/// What a drifted target does to an active response: an acceptance or a
/// state-bound annotation expires; a persistent annotation stays while a
/// target with its identifier exists and is orphaned once only its rule
/// remains; a rejection, correction or dispute awaits review.
pub proof fn law_lifecycle_on_drift(r: OperatorResponse, t: Seq<OperatorTargetBinding>)
    requires
        r.lifecycle == ResponseLifecycle::Active,
        target_drifted(r, t),
    ensures
        r.payload is Acceptance ==> current_lifecycle(r, t) == ResponseLifecycle::Expired,
        r.payload matches OperatorResponsePayload::Annotation(a) && a.scope == AnnotationScope::StateBound
            ==> current_lifecycle(r, t) == ResponseLifecycle::Expired,
        r.payload matches OperatorResponsePayload::Annotation(a) && a.scope == AnnotationScope::Persistent
            ==> current_lifecycle(r, t) == if has_target(t, r.target.target_id@) {
            ResponseLifecycle::Active
        } else {
            ResponseLifecycle::Orphaned
        },
        (r.payload is Rejection || r.payload is Correction || r.payload is Dispute) ==> current_lifecycle(r, t)
            == ResponseLifecycle::ReviewRequired,
{
    if has_target(t, r.target.target_id@) {
        let k = choose|k: int| is_last_target(t, r.target.target_id@, k);
        let j = choose|j: int| 0 <= j < t.len() && (#[trigger] t[j]).target_id@ == r.target.target_id@;
        lemma_last_exists(t, r.target.target_id@, j);
        assert(!r.target.same_binding(&t[k]));
    }
}

/// An active response whose target is still bound exactly as it was stays
/// active, whatever its kind.
pub proof fn law_unchanged_target_keeps_response(r: OperatorResponse, t: Seq<OperatorTargetBinding>, k: int)
    requires
        r.lifecycle == ResponseLifecycle::Active,
        is_last_target(t, r.target.target_id@, k),
        r.target.same_binding(&t[k]),
    ensures
        current_lifecycle(r, t) == ResponseLifecycle::Active,
{
    let c = choose|c: int| is_last_target(t, r.target.target_id@, c);
    lemma_last_unique(t, r.target.target_id@, c, k);
}

/// An active response whose target and rule have both left the report is
/// orphaned; a governing one is then listed as an orphaned conflict naming
/// it, and the resolution is unresolved.
pub proof fn law_vanished_target_orphans_response(
    base: ProjectIntelligence,
    responses: Seq<OperatorResponse>,
    include_explanations: bool,
    t: Seq<OperatorTargetBinding>,
    res: ResolvedProjectIntelligence,
    i: int,
)
    requires
        resolution_spec(base, responses, include_explanations, t, res),
        res.resolution_status == ResolutionStatus::Resolved <==> res.conflicts@.len() == 0,
        0 <= i < responses.len(),
        responses[i].lifecycle == ResponseLifecycle::Active,
        !is_superseded(responses, responses[i].id@),
        !has_target(t, responses[i].target.target_id@),
        !(responses[i].target.rule_id matches Some(rule) && has_rule(t, rule@)),
    ensures
        projected_spec(responses, i, t) == ResponseLifecycle::Orphaned,
        !(responses[i].payload is Annotation) ==> (exists|k: int|
            0 <= k < res.conflicts@.len() && (#[trigger] res.conflicts@[k]).kind == ResolutionConflictKind::Orphaned
                && res.conflicts@[k].response_ids@.len() == 1 && res.conflicts@[k].response_ids@[0]@ == responses[i].id@),
        !(responses[i].payload is Annotation) ==> res.resolution_status == ResolutionStatus::Unresolved,
{
    assert(projected_spec(responses, i, t) == ResponseLifecycle::Orphaned);
    if !(responses[i].payload is Annotation) {
        assert(stranded(responses, t, i));
        reveal(conflicts_spec);
        assert(lifecycle_listed(res.conflicts@, responses, t, i));
        let k = choose|k: int| 0 <= k < res.conflicts@.len() && lifecycle_conflict(responses, t, i, #[trigger] res.conflicts@[k]);
        assert(res.conflicts@[k].kind == ResolutionConflictKind::Orphaned);
    }
}


/// The resolved text is the base report's text followed by the operator's
/// view of it: its status, `resolved` exactly when the resolution is
/// resolved and `unresolved` otherwise, and the number of active responses.
pub proof fn law_resolved_text_extends_report(r: ResolvedProjectIntelligence, explain: bool)
    ensures
        (report_text(r.base_intelligence) + "\nOperator Resolution\n"@ + "  Status: "@ + (if r.resolution_status
            == ResolutionStatus::Resolved {
            "resolved"@
        } else {
            "unresolved"@
        }) + "\n"@ + "  Active responses: "@ + decimal(r.active_response_count as nat) + "\n"@).is_prefix_of(
            resolved_text(r, explain),
        ),
{
    let head = report_text(r.base_intelligence) + "\nOperator Resolution\n"@ + "  Status: "@ + (if r.resolution_status
        == ResolutionStatus::Resolved {
        "resolved"@
    } else {
        "unresolved"@
    }) + "\n"@ + "  Active responses: "@ + decimal(r.active_response_count as nat) + "\n"@;
    let rest = annotations_text(r.annotations@) + interpretations_text(r.resolved_interpretations@) + conflicts_text(
        r.conflicts@,
    ) + explanations_text(r.explanations@, explain);
    assert(head =~= report_text(r.base_intelligence) + status_text(r));
    assert(resolved_text(r, explain) =~= head + rest);
    assert(resolved_text(r, explain).subrange(0, head.len() as int) =~= head);
}

/// Explanations are shown only when asked for: without them the text is the
/// same whatever explanations the resolution holds, and asking for them adds
/// an `Authority Explanations` section after the rest.
pub proof fn law_explanations_only_when_asked(r: ResolvedProjectIntelligence, s: ResolvedProjectIntelligence)
    requires
        s == (ResolvedProjectIntelligence { explanations: s.explanations, ..r }),
    ensures
        resolved_text(r, false) == resolved_text(s, false),
        r.explanations@.len() > 0 ==> resolved_text(r, true) == resolved_text(r, false) + "\nAuthority Explanations\n"@
            + concat_all(r.explanations@.map_values(|e: ResolutionExplanation| explanation_lines(e))),
{
}

} // verus!
