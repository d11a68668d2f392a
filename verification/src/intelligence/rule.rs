//! The deterministic insight rules.
use vstd::prelude::*;
use crate::intelligence::entity::InformationClassification;
use crate::intelligence::error::IntelligenceError;
use crate::intelligence::evidence::IntelligenceEvidenceRef;
use crate::intelligence::ids::{EntityId, RuleId, PI_001, PI_002, PI_003, PI_004, PI_005, PI_006};
use crate::intelligence::insight::{insight_id, risk_id, ProjectInsight, ProjectRisk};
use crate::intelligence::status::{IntelligenceConfidence, VerificationValidity};
use crate::order::{
    has_key, key_set, lemma_sorted_unique_key_set, sorted_with_keys, str_key, SortKey,
};
use crate::text::{has_text, owned, strings_contain};

verus! {

/// What the rules read, once the graph is built.
#[derive(Debug, Clone)]
pub struct RuleContext {
    pub workspace_detected: bool,
    pub package_entities: Vec<EntityId>,
    pub workspace_entity: Option<EntityId>,
    pub discovered_actions: Vec<String>,
    pub controlled_actions: Vec<String>,
    pub check_action_entity: Option<EntityId>,
    pub check_controlled_execution_capability_entity: Option<EntityId>,
    pub restricted_actions: Vec<RestrictedActionRuleInput>,
    pub verification: Option<VerificationRuleInput>,
    pub package_structure_evidence: bool,
}

/// The latest verification claim and its entity.
#[derive(Debug, Clone)]
pub struct VerificationRuleInput {
    pub claim_id: String,
    pub validity: VerificationValidity,
    pub entity: EntityId,
}

/// A dry-run-only action and its entities.
#[derive(Debug, Clone)]
pub struct RestrictedActionRuleInput {
    pub action_id: String,
    pub action_entity: Option<EntityId>,
    pub dry_run_only_capability_entity: Option<EntityId>,
}

#[derive(Debug)]
pub struct RuleOutput {
    pub insights: Vec<ProjectInsight>,
    pub risks: Vec<ProjectRisk>,
}

/// The rules, in evaluation order.
#[derive(Debug, Clone, Copy, PartialEq, Eq, Structural)]
pub enum InsightRule {
    MultiPackageWorkspace,
    ControlledVerification,
    RestrictedActions,
    StaleVerification,
    OperatorDecisionAvailability,
    ModularPackageStructure,
}

/// The sort key of an evidence reference with the given variant and name.
pub open spec fn ref_key(tag: u32, value: Seq<char>) -> Seq<u32> {
    seq![tag] + str_key(value)
}

pub open spec fn opt_keys(o: Option<EntityId>) -> Set<Seq<u32>> {
    match o {
        Some(i) => set![i.sort_key()],
        None => Set::empty(),
    }
}

pub open spec fn restricted_evidence_keys(r: Seq<RestrictedActionRuleInput>) -> Set<Seq<u32>> {
    Set::new(
        |k: Seq<u32>|
            exists|i: int|
                0 <= i < r.len() && (k == ref_key(2, #[trigger] r[i].action_id@) || k == ref_key(
                    3,
                    r[i].action_id@,
                )),
    )
}

pub open spec fn restricted_related_keys(r: Seq<RestrictedActionRuleInput>) -> Set<Seq<u32>> {
    Set::new(
        |k: Seq<u32>|
            exists|i: int|
                0 <= i < r.len() && (opt_keys(#[trigger] r[i].action_entity).contains(k)
                    || opt_keys(r[i].dry_run_only_capability_entity).contains(k)),
    )
}

impl InsightRule {
    pub open spec fn rule_id_spec(self) -> Seq<char> {
        match self {
            InsightRule::MultiPackageWorkspace => PI_001@,
            InsightRule::ControlledVerification => PI_002@,
            InsightRule::RestrictedActions => PI_003@,
            InsightRule::StaleVerification => PI_004@,
            InsightRule::OperatorDecisionAvailability => PI_005@,
            InsightRule::ModularPackageStructure => PI_006@,
        }
    }

    pub fn id(&self) -> (r: RuleId)
        ensures
            r@ == self.rule_id_spec(),
    {
        match self {
            InsightRule::MultiPackageWorkspace => RuleId::new(owned(PI_001)),
            InsightRule::ControlledVerification => RuleId::new(owned(PI_002)),
            InsightRule::RestrictedActions => RuleId::new(owned(PI_003)),
            InsightRule::StaleVerification => RuleId::new(owned(PI_004)),
            InsightRule::OperatorDecisionAvailability => RuleId::new(owned(PI_005)),
            InsightRule::ModularPackageStructure => RuleId::new(owned(PI_006)),
        }
    }

    /// Whether the rule emits its insight for the context.
    pub open spec fn fires(self, ctx: RuleContext) -> bool {
        match self {
            InsightRule::MultiPackageWorkspace => ctx.workspace_detected
                && ctx.package_entities@.len() >= 2 && ctx.workspace_entity is Some,
            InsightRule::ControlledVerification => ctx.verification is Some && has_text(
                ctx.discovered_actions@,
                "check"@,
            ) && has_text(ctx.controlled_actions@, "check"@),
            InsightRule::RestrictedActions => ctx.restricted_actions@.len() > 0,
            InsightRule::StaleVerification => ctx.verification matches Some(v) && v.validity
                == VerificationValidity::Stale,
            InsightRule::OperatorDecisionAvailability => false,
            InsightRule::ModularPackageStructure => ctx.package_entities@.len() >= 2
                && ctx.package_structure_evidence,
        }
    }

    pub open spec fn statement(self) -> Seq<char> {
        match self {
            InsightRule::MultiPackageWorkspace => "The project is organized as a multi-package workspace."@,
            InsightRule::ControlledVerification => "The project supports controlled, evidence-producing verification."@,
            InsightRule::RestrictedActions => "Some project actions are discoverable but remain restricted from direct execution."@,
            InsightRule::StaleVerification => "The latest verification does not apply to the current project state."@,
            InsightRule::OperatorDecisionAvailability => Seq::empty(),
            InsightRule::ModularPackageStructure => "The project is divided into multiple workspace packages."@,
        }
    }

    /// The keys of the insight's evidence.
    pub open spec fn evidence_keys(self, ctx: RuleContext) -> Set<Seq<u32>> {
        match self {
            InsightRule::MultiPackageWorkspace => set![ref_key(0, "workspace.kinds"@)],
            InsightRule::ControlledVerification => set![
                ref_key(2, "check"@),
                ref_key(3, "check"@),
                ref_key(5, ctx.verification->0.claim_id@),
            ],
            InsightRule::RestrictedActions => restricted_evidence_keys(ctx.restricted_actions@),
            InsightRule::StaleVerification => set![ref_key(5, ctx.verification->0.claim_id@)],
            InsightRule::OperatorDecisionAvailability => Set::empty(),
            InsightRule::ModularPackageStructure => set![ref_key(0, "workspace.packages"@)],
        }
    }

    /// The keys of the insight's related entities.
    pub open spec fn related_keys(self, ctx: RuleContext) -> Set<Seq<u32>> {
        match self {
            InsightRule::MultiPackageWorkspace => opt_keys(ctx.workspace_entity).union(
                key_set(ctx.package_entities@),
            ),
            InsightRule::ControlledVerification => set![ctx.verification->0.entity.sort_key()].union(
                opt_keys(ctx.check_action_entity),
            ).union(opt_keys(ctx.check_controlled_execution_capability_entity)),
            InsightRule::RestrictedActions => restricted_related_keys(ctx.restricted_actions@),
            InsightRule::StaleVerification => set![ctx.verification->0.entity.sort_key()],
            InsightRule::OperatorDecisionAvailability => Set::empty(),
            InsightRule::ModularPackageStructure => key_set(ctx.package_entities@),
        }
    }

    /// The output of the rule for a context.
    pub open spec fn output_spec(self, ctx: RuleContext, o: RuleOutput) -> bool {
        &&& o.insights@.len() == if self.fires(ctx) {
            1int
        } else {
            0int
        }
        &&& self.fires(ctx) ==> insight_matches(
            o.insights@[0],
            self.rule_id_spec(),
            self.statement(),
            self.evidence_keys(ctx),
            self.related_keys(ctx),
        )
        &&& o.risks@.len() == if self == InsightRule::StaleVerification && self.fires(ctx) {
            1int
        } else {
            0int
        }
        &&& (self == InsightRule::StaleVerification && self.fires(ctx)) ==> {
            let r = o.risks@[0];
            &&& r.statement@ == "The latest verification is stale for the current project state."@
            &&& r.classification == InformationClassification::Derived
            &&& sorted_with_keys(r.evidence@, set![ref_key(5, ctx.verification->0.claim_id@)])
            &&& r.id@ == risk_id(r.statement@, r.evidence@)
        }
    }

    /// Evaluates the rule; a rule never fails on a context.
    pub fn evaluate(&self, ctx: &RuleContext) -> (r: Result<RuleOutput, IntelligenceError>)
        ensures
            r matches Ok(o) && self.output_spec(*ctx, o),
    {
        match self {
            InsightRule::MultiPackageWorkspace => multi_package_workspace(ctx),
            InsightRule::ControlledVerification => controlled_verification(ctx),
            InsightRule::RestrictedActions => restricted_actions(ctx),
            InsightRule::StaleVerification => stale_verification(ctx),
            InsightRule::OperatorDecisionAvailability => Ok(
                RuleOutput { insights: Vec::new(), risks: Vec::new() },
            ),
            InsightRule::ModularPackageStructure => modular_package_structure(ctx),
        }
    }
}

/// The insight is the one that some rule firing on the context gives: its
/// rule, statement, confidence, evidence and related entities.
pub open spec fn rule_output_insight(ctx: RuleContext, x: ProjectInsight) -> bool {
    exists|r: InsightRule|
        #[trigger] r.fires(ctx) && insight_matches(
            x,
            r.rule_id_spec(),
            r.statement(),
            r.evidence_keys(ctx),
            r.related_keys(ctx),
        )
}

/// An insight of the rule with the statement, evidence keys and related keys given.
pub open spec fn insight_matches(
    x: ProjectInsight,
    rule: Seq<char>,
    statement: Seq<char>,
    evidence: Set<Seq<u32>>,
    related: Set<Seq<u32>>,
) -> bool {
    &&& x.rule_id@ == rule
    &&& x.statement@ == statement
    &&& x.classification == InformationClassification::Derived
    &&& x.confidence == IntelligenceConfidence::Certain
    &&& sorted_with_keys(x.evidence@, evidence)
    &&& sorted_with_keys(x.related_entities@, related)
    &&& x.id@ == insight_id(rule, statement, x.evidence@)
}

/// The rules, in evaluation order.
/// Different rules have different identifiers.
pub proof fn lemma_rule_ids_distinct(a: InsightRule, b: InsightRule)
    requires
        a.rule_id_spec() == b.rule_id_spec(),
    ensures
        a == b,
{
    reveal_strlit("PI-001");
    reveal_strlit("PI-002");
    reveal_strlit("PI-003");
    reveal_strlit("PI-004");
    reveal_strlit("PI-005");
    reveal_strlit("PI-006");
    assert(PI_001@ == "PI-001"@);
    assert(PI_002@ == "PI-002"@);
    assert(PI_003@ == "PI-003"@);
    assert(PI_004@ == "PI-004"@);
    assert(PI_005@ == "PI-005"@);
    assert(PI_006@ == "PI-006"@);
    assert(PI_001@[5] == '1' && PI_002@[5] == '2' && PI_003@[5] == '3');
    assert(PI_004@[5] == '4' && PI_005@[5] == '5' && PI_006@[5] == '6');
    assert(a.rule_id_spec()[5] == b.rule_id_spec()[5]);
    match a {
        InsightRule::MultiPackageWorkspace => assert(a.rule_id_spec()[5] == '1'),
        InsightRule::ControlledVerification => assert(a.rule_id_spec()[5] == '2'),
        InsightRule::RestrictedActions => assert(a.rule_id_spec()[5] == '3'),
        InsightRule::StaleVerification => assert(a.rule_id_spec()[5] == '4'),
        InsightRule::OperatorDecisionAvailability => assert(a.rule_id_spec()[5] == '5'),
        InsightRule::ModularPackageStructure => assert(a.rule_id_spec()[5] == '6'),
    }
}

pub fn default_rules() -> (r: Vec<InsightRule>)
    ensures
        r@ == seq![
            InsightRule::MultiPackageWorkspace,
            InsightRule::ControlledVerification,
            InsightRule::RestrictedActions,
            InsightRule::StaleVerification,
            InsightRule::OperatorDecisionAvailability,
            InsightRule::ModularPackageStructure,
        ],
{
    let mut r = Vec::new();
    r.push(InsightRule::MultiPackageWorkspace);
    r.push(InsightRule::ControlledVerification);
    r.push(InsightRule::RestrictedActions);
    r.push(InsightRule::StaleVerification);
    r.push(InsightRule::OperatorDecisionAvailability);
    r.push(InsightRule::ModularPackageStructure);
    assert(r@ =~= seq![
        InsightRule::MultiPackageWorkspace,
        InsightRule::ControlledVerification,
        InsightRule::RestrictedActions,
        InsightRule::StaleVerification,
        InsightRule::OperatorDecisionAvailability,
        InsightRule::ModularPackageStructure,
    ]);
    r
}

fn clone_ids(v: &Vec<EntityId>) -> (r: Vec<EntityId>)
    ensures
        r@ == v@,
{
    let mut r: Vec<EntityId> = Vec::new();
    let mut i: usize = 0;
    while i < v.len()
        invariant
            i <= v@.len(),
            r@ == v@.take(i as int),
        decreases v@.len() - i,
    {
        r.push(v[i].duplicate());
        i = i + 1;
        assert(r@ =~= v@.take(i as int));
    }
    assert(v@.take(v@.len() as int) =~= v@);
    r
}

fn single_ref_evidence(r: IntelligenceEvidenceRef) -> (v: Vec<IntelligenceEvidenceRef>)
    ensures
        v@ == seq![r],
{
    let mut v = Vec::new();
    v.push(r);
    assert(v@ =~= seq![r]);
    v
}

proof fn lemma_single_key_set(v: Seq<IntelligenceEvidenceRef>, x: IntelligenceEvidenceRef)
    requires
        v == seq![x],
    ensures
        key_set(v) == set![x.sort_key()],
{
    assert forall|k: Seq<u32>| key_set(v).contains(k) <==> set![x.sort_key()].contains(k) by {
        if k == x.sort_key() {
            assert(v[0].sort_key() == k);
        }
    }
    assert(key_set(v) =~= set![x.sort_key()]);
}

fn multi_package_workspace(ctx: &RuleContext) -> (r: Result<RuleOutput, IntelligenceError>)
    ensures
        r matches Ok(o) && InsightRule::MultiPackageWorkspace.output_spec(*ctx, o),
{
    if !ctx.workspace_detected || ctx.package_entities.len() < 2 {
        return Ok(RuleOutput { insights: Vec::new(), risks: Vec::new() });
    }
    let workspace = match &ctx.workspace_entity {
        Some(w) => w.duplicate(),
        None => {
            return Ok(RuleOutput { insights: Vec::new(), risks: Vec::new() });
        },
    };
    let mut related: Vec<EntityId> = Vec::new();
    related.push(workspace);
    let packages = clone_ids(&ctx.package_entities);
    let mut i: usize = 0;
    while i < packages.len()
        invariant
            i <= packages@.len(),
            related@ == seq![ctx.workspace_entity->0] + packages@.take(i as int),
        decreases packages@.len() - i,
    {
        related.push(packages[i].duplicate());
        i = i + 1;
        assert(related@ =~= seq![ctx.workspace_entity->0] + packages@.take(i as int));
    }
    assert(packages@.take(packages@.len() as int) =~= packages@);
    let ghost related_in = related@;
    let evidence = single_ref_evidence(IntelligenceEvidenceRef::context(owned("workspace.kinds")));
    let ghost ev_in = evidence@;
    proof {
        reveal_strlit("The project is organized as a multi-package workspace.");
    }
    let insight = ProjectInsight::new(
        InsightRule::MultiPackageWorkspace.id(),
        owned("The project is organized as a multi-package workspace."),
        IntelligenceConfidence::Certain,
        evidence,
        related,
    );
    match insight {
        Ok(x) => {
            proof {
                lemma_sorted_unique_key_set(x.evidence@, ev_in);
                lemma_sorted_unique_key_set(x.related_entities@, related_in);
                lemma_single_key_set(ev_in, ev_in[0]);
                assert(key_set(related_in) =~= opt_keys(ctx.workspace_entity).union(
                    key_set(ctx.package_entities@),
                )) by {
                    assert forall|k: Seq<u32>| key_set(related_in).contains(k) implies opt_keys(
                        ctx.workspace_entity,
                    ).union(key_set(ctx.package_entities@)).contains(k) by {
                        let j = choose|j: int| 0 <= j < related_in.len() && #[trigger] related_in[j].sort_key() == k;
                        if j > 0 {
                            assert(related_in[j] == ctx.package_entities@[j - 1]);
                            assert(has_key(ctx.package_entities@, k));
                        }
                    }
                    assert forall|k: Seq<u32>| opt_keys(ctx.workspace_entity).union(
                        key_set(ctx.package_entities@),
                    ).contains(k) implies key_set(related_in).contains(k) by {
                        if has_key(ctx.package_entities@, k) {
                            let j = choose|j: int| 0 <= j < ctx.package_entities@.len() && #[trigger] ctx.package_entities@[j].sort_key() == k;
                            assert(related_in[j + 1] == ctx.package_entities@[j]);
                            assert(has_key(related_in, related_in[j + 1].sort_key()));
                        } else {
                            assert(has_key(related_in, related_in[0].sort_key()));
                        }
                    }
                }
            }
            let mut insights = Vec::new();
            insights.push(x);
            Ok(RuleOutput { insights, risks: Vec::new() })
        },
        Err(e) => Err(e),
    }
}

fn controlled_verification(ctx: &RuleContext) -> (r: Result<RuleOutput, IntelligenceError>)
    ensures
        r matches Ok(o) && InsightRule::ControlledVerification.output_spec(*ctx, o),
{
    let verification = match &ctx.verification {
        Some(v) => v,
        None => {
            return Ok(RuleOutput { insights: Vec::new(), risks: Vec::new() });
        },
    };
    if !strings_contain(&ctx.discovered_actions, "check") || !strings_contain(
        &ctx.controlled_actions,
        "check",
    ) {
        return Ok(RuleOutput { insights: Vec::new(), risks: Vec::new() });
    }
    let mut evidence: Vec<IntelligenceEvidenceRef> = Vec::new();
    evidence.push(IntelligenceEvidenceRef::Action { action_id: owned("check") });
    evidence.push(IntelligenceEvidenceRef::ExecutionCapability { action_id: owned("check") });
    evidence.push(IntelligenceEvidenceRef::Verification { claim_id: verification.claim_id.clone() });
    let mut related: Vec<EntityId> = Vec::new();
    related.push(verification.entity.duplicate());
    match &ctx.check_action_entity {
        Some(e) => related.push(e.duplicate()),
        None => {},
    }
    match &ctx.check_controlled_execution_capability_entity {
        Some(e) => related.push(e.duplicate()),
        None => {},
    }
    let ghost ev_in = evidence@;
    let ghost related_in = related@;
    proof {
        reveal_strlit("The project supports controlled, evidence-producing verification.");
    }
    let insight = ProjectInsight::new(
        InsightRule::ControlledVerification.id(),
        owned("The project supports controlled, evidence-producing verification."),
        IntelligenceConfidence::Certain,
        evidence,
        related,
    );
    match insight {
        Ok(x) => {
            proof {
                lemma_sorted_unique_key_set(x.evidence@, ev_in);
                lemma_sorted_unique_key_set(x.related_entities@, related_in);
                let ek = InsightRule::ControlledVerification.evidence_keys(*ctx);
                assert forall|k: Seq<u32>| key_set(ev_in).contains(k) <==> ek.contains(k) by {
                    if ek.contains(k) {
                        if k == ev_in[0].sort_key() {
                        } else if k == ev_in[1].sort_key() {
                            assert(has_key(ev_in, ev_in[1].sort_key()));
                        } else {
                            assert(has_key(ev_in, ev_in[2].sort_key()));
                        }
                    }
                }
                assert(key_set(ev_in) =~= ek);
                let rk = InsightRule::ControlledVerification.related_keys(*ctx);
                assert forall|k: Seq<u32>| key_set(related_in).contains(k) <==> rk.contains(k) by {
                    if rk.contains(k) {
                        if k == related_in[0].sort_key() {
                        } else if related_in.len() > 1 && k == related_in[1].sort_key() {
                            assert(has_key(related_in, related_in[1].sort_key()));
                        } else if related_in.len() > 2 && k == related_in[2].sort_key() {
                            assert(has_key(related_in, related_in[2].sort_key()));
                        }
                    }
                }
                assert(key_set(related_in) =~= rk);
            }
            let mut insights = Vec::new();
            insights.push(x);
            Ok(RuleOutput { insights, risks: Vec::new() })
        },
        Err(e) => Err(e),
    }
}

fn restricted_actions(ctx: &RuleContext) -> (r: Result<RuleOutput, IntelligenceError>)
    ensures
        r matches Ok(o) && InsightRule::RestrictedActions.output_spec(*ctx, o),
{
    if ctx.restricted_actions.len() == 0 {
        return Ok(RuleOutput { insights: Vec::new(), risks: Vec::new() });
    }
    let ghost ra = ctx.restricted_actions@;
    let mut evidence: Vec<IntelligenceEvidenceRef> = Vec::new();
    let mut related: Vec<EntityId> = Vec::new();
    let mut i: usize = 0;
    while i < ctx.restricted_actions.len()
        invariant
            i <= ra.len(),
            ra == ctx.restricted_actions@,
            evidence@.len() == 2 * i,
            key_set(evidence@) == restricted_evidence_keys(ra.take(i as int)),
            key_set(related@) == restricted_related_keys(ra.take(i as int)),
        decreases ra.len() - i,
    {
        let action = &ctx.restricted_actions[i];
        let ghost old_ev = evidence@;
        let ghost old_rel = related@;
        evidence.push(IntelligenceEvidenceRef::Action { action_id: action.action_id.clone() });
        evidence.push(
            IntelligenceEvidenceRef::ExecutionCapability { action_id: action.action_id.clone() },
        );
        match &action.action_entity {
            Some(e) => related.push(e.duplicate()),
            None => {},
        }
        match &action.dry_run_only_capability_entity {
            Some(e) => related.push(e.duplicate()),
            None => {},
        }
        proof {
            let pre = ra.take(i as int);
            let post = ra.take(i + 1);
            assert(post =~= pre.push(ra[i as int]));
            assert forall|k: Seq<u32>| key_set(evidence@).contains(k) <==> restricted_evidence_keys(post).contains(k) by {
                if key_set(evidence@).contains(k) {
                    let j = choose|j: int| 0 <= j < evidence@.len() && #[trigger] evidence@[j].sort_key() == k;
                    if j < old_ev.len() {
                        assert(evidence@[j] == old_ev[j]);
                        assert(key_set(old_ev).contains(k));
                        let m = choose|m: int| 0 <= m < pre.len() && (k == ref_key(2, #[trigger] pre[m].action_id@) || k == ref_key(3, pre[m].action_id@));
                        assert(post[m] == pre[m]);
                    } else {
                        assert(post[i as int] == ra[i as int]);
                    }
                }
                if restricted_evidence_keys(post).contains(k) {
                    let m = choose|m: int| 0 <= m < post.len() && (k == ref_key(2, #[trigger] post[m].action_id@) || k == ref_key(3, post[m].action_id@));
                    if m < i {
                        assert(post[m] == pre[m]);
                        assert(restricted_evidence_keys(pre).contains(k));
                        assert(key_set(old_ev).contains(k));
                        let j = choose|j: int| 0 <= j < old_ev.len() && #[trigger] old_ev[j].sort_key() == k;
                        assert(evidence@[j] == old_ev[j]);
                        assert(has_key(evidence@, evidence@[j].sort_key()));
                    } else {
                        let n = old_ev.len() as int;
                        if k == ref_key(2, post[m].action_id@) {
                            assert(evidence@[n].sort_key() == k);
                            assert(has_key(evidence@, evidence@[n].sort_key()));
                        } else {
                            assert(evidence@[n + 1].sort_key() == k);
                            assert(has_key(evidence@, evidence@[n + 1].sort_key()));
                        }
                    }
                }
            }
            assert(key_set(evidence@) =~= restricted_evidence_keys(post));
            assert forall|k: Seq<u32>| key_set(related@).contains(k) <==> restricted_related_keys(post).contains(k) by {
                if key_set(related@).contains(k) {
                    let j = choose|j: int| 0 <= j < related@.len() && #[trigger] related@[j].sort_key() == k;
                    if j < old_rel.len() {
                        assert(related@[j] == old_rel[j]);
                        assert(key_set(old_rel).contains(k));
                        let m = choose|m: int| 0 <= m < pre.len() && (opt_keys(#[trigger] pre[m].action_entity).contains(k) || opt_keys(pre[m].dry_run_only_capability_entity).contains(k));
                        assert(post[m] == pre[m]);
                    } else {
                        assert(post[i as int] == ra[i as int]);
                    }
                }
                if restricted_related_keys(post).contains(k) {
                    let m = choose|m: int| 0 <= m < post.len() && (opt_keys(#[trigger] post[m].action_entity).contains(k) || opt_keys(post[m].dry_run_only_capability_entity).contains(k));
                    if m < i {
                        assert(post[m] == pre[m]);
                        assert(restricted_related_keys(pre).contains(k));
                        assert(key_set(old_rel).contains(k));
                        let j = choose|j: int| 0 <= j < old_rel.len() && #[trigger] old_rel[j].sort_key() == k;
                        assert(related@[j] == old_rel[j]);
                        assert(has_key(related@, related@[j].sort_key()));
                    } else {
                        let n = old_rel.len() as int;
                        if opt_keys(post[m].action_entity).contains(k) {
                            assert(related@[n].sort_key() == k);
                            assert(has_key(related@, related@[n].sort_key()));
                        } else if post[m].action_entity is Some {
                            assert(related@[n + 1].sort_key() == k);
                            assert(has_key(related@, related@[n + 1].sort_key()));
                        } else {
                            assert(related@[n].sort_key() == k);
                            assert(has_key(related@, related@[n].sort_key()));
                        }
                    }
                }
            }
            assert(key_set(related@) =~= restricted_related_keys(post));
        }
        i = i + 1;
    }
    assert(ra.take(ra.len() as int) =~= ra);
    let ghost ev_in = evidence@;
    let ghost related_in = related@;
    proof {
        assert(has_key(evidence@, evidence@[0].sort_key()));
    }
    proof {
        reveal_strlit("Some project actions are discoverable but remain restricted from direct execution.");
    }
    let insight = ProjectInsight::new(
        InsightRule::RestrictedActions.id(),
        owned("Some project actions are discoverable but remain restricted from direct execution."),
        IntelligenceConfidence::Certain,
        evidence,
        related,
    );
    match insight {
        Ok(x) => {
            proof {
                lemma_sorted_unique_key_set(x.evidence@, ev_in);
                lemma_sorted_unique_key_set(x.related_entities@, related_in);
            }
            let mut insights = Vec::new();
            insights.push(x);
            Ok(RuleOutput { insights, risks: Vec::new() })
        },
        Err(e) => Err(e),
    }
}

fn stale_verification(ctx: &RuleContext) -> (r: Result<RuleOutput, IntelligenceError>)
    ensures
        r matches Ok(o) && InsightRule::StaleVerification.output_spec(*ctx, o),
{
    let verification = match &ctx.verification {
        Some(v) => v,
        None => {
            return Ok(RuleOutput { insights: Vec::new(), risks: Vec::new() });
        },
    };
    if verification.validity != VerificationValidity::Stale {
        return Ok(RuleOutput { insights: Vec::new(), risks: Vec::new() });
    }
    let evidence = single_ref_evidence(
        IntelligenceEvidenceRef::Verification { claim_id: verification.claim_id.clone() },
    );
    let risk_evidence = single_ref_evidence(
        IntelligenceEvidenceRef::Verification { claim_id: verification.claim_id.clone() },
    );
    let mut related: Vec<EntityId> = Vec::new();
    related.push(verification.entity.duplicate());
    let ghost ev_in = evidence@;
    let ghost rev_in = risk_evidence@;
    let ghost related_in = related@;
    proof {
        reveal_strlit("The latest verification does not apply to the current project state.");
    }
    let insight = ProjectInsight::new(
        InsightRule::StaleVerification.id(),
        owned("The latest verification does not apply to the current project state."),
        IntelligenceConfidence::Certain,
        evidence,
        related,
    );
    let x = match insight {
        Ok(x) => x,
        Err(e) => {
            return Err(e);
        },
    };
    proof {
        reveal_strlit("The latest verification is stale for the current project state.");
    }
    let risk = ProjectRisk::new(
        owned("The latest verification is stale for the current project state."),
        risk_evidence,
    );
    match risk {
        Ok(y) => {
            proof {
                lemma_sorted_unique_key_set(x.evidence@, ev_in);
                lemma_sorted_unique_key_set(y.evidence@, rev_in);
                lemma_sorted_unique_key_set(x.related_entities@, related_in);
                lemma_single_key_set(ev_in, ev_in[0]);
                lemma_single_key_set(rev_in, rev_in[0]);
                assert(key_set(related_in) =~= set![related_in[0].sort_key()]) by {
                    assert forall|k: Seq<u32>| set![related_in[0].sort_key()].contains(k) implies key_set(related_in).contains(k) by {
                        assert(has_key(related_in, related_in[0].sort_key()));
                    }
                }
            }
            let mut insights = Vec::new();
            insights.push(x);
            let mut risks = Vec::new();
            risks.push(y);
            Ok(RuleOutput { insights, risks })
        },
        Err(e) => Err(e),
    }
}

fn modular_package_structure(ctx: &RuleContext) -> (r: Result<RuleOutput, IntelligenceError>)
    ensures
        r matches Ok(o) && InsightRule::ModularPackageStructure.output_spec(*ctx, o),
{
    if ctx.package_entities.len() < 2 || !ctx.package_structure_evidence {
        return Ok(RuleOutput { insights: Vec::new(), risks: Vec::new() });
    }
    let evidence = single_ref_evidence(
        IntelligenceEvidenceRef::context(owned("workspace.packages")),
    );
    let related = clone_ids(&ctx.package_entities);
    let ghost ev_in = evidence@;
    let ghost related_in = related@;
    proof {
        reveal_strlit("The project is divided into multiple workspace packages.");
    }
    let insight = ProjectInsight::new(
        InsightRule::ModularPackageStructure.id(),
        owned("The project is divided into multiple workspace packages."),
        IntelligenceConfidence::Certain,
        evidence,
        related,
    );
    match insight {
        Ok(x) => {
            proof {
                lemma_sorted_unique_key_set(x.evidence@, ev_in);
                lemma_sorted_unique_key_set(x.related_entities@, related_in);
                lemma_single_key_set(ev_in, ev_in[0]);
            }
            let mut insights = Vec::new();
            insights.push(x);
            Ok(RuleOutput { insights, risks: Vec::new() })
        },
        Err(e) => Err(e),
    }
}

} // verus!
