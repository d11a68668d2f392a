//! State-bound execution plans: the fingerprints that bind an action, a
//! project and its source state, the checks a plan must pass again before it
//! runs, and the result of a run.
use vstd::prelude::*;
use crate::execution::fingerprint::{fields_message, field_views, hash_fields, Fingerprint, SHA256_PREFIX};
use crate::execution::git::ExecutionError;
use crate::execution::verdict::{
    state_fields, verdict, verdict_spec, ActionId, ProcessCompletion, ProcessExecutionSummary, ProjectStateBinding,
    StateComparison, VerificationVerdict,
};
use crate::digest::sha256_hex;
use crate::knowledge::operator::views;
use crate::text::{chars_of, decimal, decimal_string, owned, str_eq, string_from_chars};

verus! {

/// Version of the state-bound execution-plan contract.
pub const AUTHORIZED_EXECUTION_PLAN_SCHEMA_VERSION: u32 = 1;

/// Version of the execution-result contract.
pub const EXECUTION_RESULT_SCHEMA_VERSION: u32 = 1;

pub open spec fn action_name(id: ActionId) -> Seq<char> {
    match id {
        ActionId::Build => "build"@,
        ActionId::Check => "check"@,
        ActionId::Test => "test"@,
    }
}

impl ActionId {
    pub fn as_str(self) -> (r: &'static str)
        ensures
            r@ == action_name(self),
    {
        match self {
            ActionId::Build => "build",
            ActionId::Check => "check",
            ActionId::Test => "test",
        }
    }
}

/// A project by name and root directory.
#[derive(Debug, Clone, PartialEq, Eq)]
pub struct ProjectReference {
    pub name: String,
    pub root: String,
}

/// An executable, its arguments, and the directory it runs in.
#[derive(Debug, Clone, PartialEq, Eq)]
pub struct CommandSpec {
    pub executable: String,
    pub arguments: Vec<String>,
    pub working_directory: String,
}

/// Where a planned action came from.
#[derive(Debug, Clone, Copy, PartialEq, Eq, Structural)]
pub enum ActionSource {
    ContextEngine,
}

/// An action of a project: what it is, the command it runs, where it came
/// from, and the confidence in it as JSON writes it.
#[derive(Debug, Clone, PartialEq, Eq)]
pub struct ProjectAction {
    pub id: ActionId,
    pub command: CommandSpec,
    pub source: ActionSource,
    pub confidence: String,
}

/// The same action, field by field.
pub open spec fn same_action(a: ProjectAction, b: ProjectAction) -> bool {
    &&& a.id == b.id
    &&& a.command.executable@ == b.command.executable@
    &&& views(a.command.arguments@) == views(b.command.arguments@)
    &&& a.command.working_directory@ == b.command.working_directory@
    &&& a.source == b.source
    &&& a.confidence@ == b.confidence@
}

pub open spec fn utf8(s: Seq<char>) -> Seq<u8> {
    vstd::utf8::encode_utf8(s)
}

/// A text without the double quotes at either end.
pub open spec fn trim_quotes(s: Seq<char>) -> Seq<char>
    decreases s.len(),
{
    if s.len() > 0 && s[0] == '"' {
        trim_quotes(s.drop_first())
    } else if s.len() > 0 && s.last() == '"' {
        trim_quotes(s.drop_last())
    } else {
        s
    }
}

/// One field per argument, in order.
pub open spec fn argument_fields(args: Seq<Seq<char>>) -> Seq<(Seq<u8>, Seq<u8>)>
    decreases args.len(),
{
    if args.len() == 0 {
        Seq::empty()
    } else {
        argument_fields(args.drop_last()).push((utf8("argument"@), utf8(args.last())))
    }
}

/// The fields an action is fingerprinted with: the policy version, what it
/// is, its executable, how many arguments and each of them, its directory,
/// where it came from, and the confidence in it.
pub open spec fn action_fields(a: ProjectAction, policy_version: u32) -> Seq<(Seq<u8>, Seq<u8>)> {
    seq![
        (utf8("policy_version"@), utf8(decimal(policy_version as nat))),
        (utf8("action_id"@), utf8(action_name(a.id))),
        (utf8("executable"@), utf8(a.command.executable@)),
        (utf8("argument_count"@), utf8(decimal(a.command.arguments@.len()))),
    ] + argument_fields(views(a.command.arguments@)) + seq![
        (utf8("working_directory"@), utf8(a.command.working_directory@)),
        (utf8("source"@), utf8("context_engine"@)),
        (utf8("confidence"@), utf8(trim_quotes(a.confidence@))),
    ]
}

pub open spec fn action_fingerprint_spec(a: ProjectAction, policy_version: u32) -> Seq<char> {
    SHA256_PREFIX@ + sha256_hex(fields_message(utf8("astra-action-v1"@), action_fields(a, policy_version)))
}

/// The fields a plan is fingerprinted with.
pub open spec fn plan_fields(
    project: ProjectReference,
    action_fingerprint: Seq<char>,
    state_fingerprint: Seq<char>,
    schema_version: u32,
    policy_version: u32,
) -> Seq<(Seq<u8>, Seq<u8>)> {
    seq![
        (utf8("schema_version"@), utf8(decimal(schema_version as nat))),
        (utf8("policy_version"@), utf8(decimal(policy_version as nat))),
        (utf8("project_name"@), utf8(project.name@)),
        (utf8("project_root"@), utf8(project.root@)),
        (utf8("action"@), utf8(action_fingerprint)),
        (utf8("source_state"@), utf8(state_fingerprint)),
    ]
}

pub open spec fn plan_fingerprint_spec(
    project: ProjectReference,
    action_fingerprint: Seq<char>,
    state_fingerprint: Seq<char>,
    schema_version: u32,
    policy_version: u32,
) -> Seq<char> {
    SHA256_PREFIX@ + sha256_hex(
        fields_message(
            utf8("astra-execution-plan-v1"@),
            plan_fields(project, action_fingerprint, state_fingerprint, schema_version, policy_version),
        ),
    )
}

fn text_bytes(s: &str) -> (r: Vec<u8>)
    ensures
        r@ == utf8(s@),
{
    let b = s.as_bytes();
    let mut r: Vec<u8> = Vec::new();
    let mut i: usize = 0;
    while i < b.len()
        invariant
            i <= b@.len(),
            r@ == b@.take(i as int),
        decreases b@.len() - i,
    {
        r.push(b[i]);
        i = i + 1;
        assert(r@ =~= b@.take(i as int));
    }
    assert(b@.take(b@.len() as int) =~= b@);
    r
}

fn named(label: &str, value: &str) -> (r: (Vec<u8>, Vec<u8>))
    ensures
        r.0@ == utf8(label@),
        r.1@ == utf8(value@),
{
    (text_bytes(label), text_bytes(value))
}

fn without_quotes(s: &str) -> (r: String)
    ensures
        r@ == trim_quotes(s@),
{
    let c = chars_of(s);
    let mut start: usize = 0;
    let mut end: usize = c.len();
    assert(c@.subrange(0, c@.len() as int) =~= c@);
    while start < end && c[start] == '"'
        invariant
            start <= end <= c@.len(),
            trim_quotes(c@) == trim_quotes(c@.subrange(start as int, end as int)),
        decreases end - start,
    {
        let ghost t = c@.subrange(start as int, end as int);
        assert(t.drop_first() =~= c@.subrange(start + 1, end as int));
        start = start + 1;
    }
    while start < end && c[end - 1] == '"'
        invariant
            start <= end <= c@.len(),
            trim_quotes(c@) == trim_quotes(c@.subrange(start as int, end as int)),
            start < end ==> c@[start as int] != '"',
        decreases end - start,
    {
        let ghost t = c@.subrange(start as int, end as int);
        assert(t.drop_last() =~= c@.subrange(start as int, end - 1));
        end = end - 1;
    }
    let mut out: Vec<char> = Vec::new();
    let mut i: usize = start;
    while i < end
        invariant
            start <= i <= end <= c@.len(),
            out@ == c@.subrange(start as int, i as int),
        decreases end - i,
    {
        out.push(c[i]);
        i = i + 1;
        assert(out@ =~= c@.subrange(start as int, i as int));
    }
    assert(c@ =~= s@);
    string_from_chars(out.as_slice())
}

/// The fingerprint of an action under a policy version.
pub fn action_fingerprint(action: &ProjectAction, policy_version: u32) -> (r: Fingerprint)
    ensures
        r@ == action_fingerprint_spec(*action, policy_version),
{
    let version = decimal_string(policy_version as u64);
    let count = decimal_string(action.command.arguments.len() as u64);
    let mut fields: Vec<(Vec<u8>, Vec<u8>)> = Vec::new();
    fields.push(named("policy_version", version.as_str()));
    fields.push(named("action_id", action.id.as_str()));
    fields.push(named("executable", action.command.executable.as_str()));
    fields.push(named("argument_count", count.as_str()));
    let ghost head = field_views(fields@);
    let mut i: usize = 0;
    while i < action.command.arguments.len()
        invariant
            i <= action.command.arguments@.len(),
            head.len() == 4,
            field_views(fields@) == head + argument_fields(views(action.command.arguments@).take(i as int)),
        decreases action.command.arguments@.len() - i,
    {
        let ghost before = field_views(fields@);
        fields.push(named("argument", action.command.arguments[i].as_str()));
        proof {
            let a = views(action.command.arguments@);
            assert(a.take(i + 1).drop_last() =~= a.take(i as int));
            assert(field_views(fields@) =~= before.push((utf8("argument"@), utf8(a[i as int]))));
        }
        i = i + 1;
    }
    assert(views(action.command.arguments@).take(action.command.arguments@.len() as int) =~= views(action.command.arguments@));
    let ghost middle = field_views(fields@);
    fields.push(named("working_directory", action.command.working_directory.as_str()));
    fields.push(named("source", match action.source {
        ActionSource::ContextEngine => "context_engine",
    }));
    let confidence = without_quotes(action.confidence.as_str());
    fields.push(named("confidence", confidence.as_str()));
    let domain = text_bytes("astra-action-v1");
    proof {
        assert(field_views(fields@) =~= middle + seq![
            (utf8("working_directory"@), utf8(action.command.working_directory@)),
            (utf8("source"@), utf8("context_engine"@)),
            (utf8("confidence"@), utf8(trim_quotes(action.confidence@))),
        ]);
        assert(field_views(fields@) =~= action_fields(*action, policy_version));
    }
    hash_fields(domain.as_slice(), &fields)
}

/// The fingerprint of a plan: its versions, its project, its action's
/// fingerprint and its source state's.
pub fn plan_fingerprint(
    project: &ProjectReference,
    action_fingerprint: &Fingerprint,
    source_state: &ProjectStateBinding,
    schema_version: u32,
    policy_version: u32,
) -> (r: Fingerprint)
    ensures
        r@ == plan_fingerprint_spec(
            *project,
            action_fingerprint@,
            source_state.combined_fingerprint@,
            schema_version,
            policy_version,
        ),
{
    let schema = decimal_string(schema_version as u64);
    let policy = decimal_string(policy_version as u64);
    let mut fields: Vec<(Vec<u8>, Vec<u8>)> = Vec::new();
    fields.push(named("schema_version", schema.as_str()));
    fields.push(named("policy_version", policy.as_str()));
    fields.push(named("project_name", project.name.as_str()));
    fields.push(named("project_root", project.root.as_str()));
    fields.push(named("action", action_fingerprint.as_str()));
    fields.push(named("source_state", source_state.combined_fingerprint.as_str()));
    let domain = text_bytes("astra-execution-plan-v1");
    assert(field_views(fields@) =~= plan_fields(
        *project,
        action_fingerprint@,
        source_state.combined_fingerprint@,
        schema_version,
        policy_version,
    ));
    hash_fields(domain.as_slice(), &fields)
}

/// A plan that binds an action of a project to the source state it was
/// planned against.
#[derive(Debug, Clone, PartialEq, Eq)]
pub struct AuthorizedExecutionPlan {
    pub schema_version: u32,
    pub policy_version: u32,
    pub project: ProjectReference,
    pub action: ProjectAction,
    pub source_state: ProjectStateBinding,
    pub action_fingerprint: Fingerprint,
    pub plan_fingerprint: Fingerprint,
}

impl AuthorizedExecutionPlan {
    /// The plan of an action of a project against a source state, under a
    /// policy version, with both fingerprints computed.
    pub fn new(
        project: ProjectReference,
        action: ProjectAction,
        source_state: ProjectStateBinding,
        policy_version: u32,
    ) -> (r: Self)
        ensures
            r.schema_version == AUTHORIZED_EXECUTION_PLAN_SCHEMA_VERSION,
            r.policy_version == policy_version,
            r.project == project,
            r.action == action,
            r.source_state == source_state,
            r.action_fingerprint@ == action_fingerprint_spec(action, policy_version),
            r.plan_fingerprint@ == plan_fingerprint_spec(
                project,
                action_fingerprint_spec(action, policy_version),
                source_state.combined_fingerprint@,
                AUTHORIZED_EXECUTION_PLAN_SCHEMA_VERSION,
                policy_version,
            ),
    {
        let a = action_fingerprint(&action, policy_version);
        let p = plan_fingerprint(
            &project,
            &a,
            &source_state,
            AUTHORIZED_EXECUTION_PLAN_SCHEMA_VERSION,
            policy_version,
        );
        AuthorizedExecutionPlan {
            schema_version: AUTHORIZED_EXECUTION_PLAN_SCHEMA_VERSION,
            policy_version,
            project,
            action,
            source_state,
            action_fingerprint: a,
            plan_fingerprint: p,
        }
    }
}

/// What the action policy decided: the action as it allows it, or the
/// reason it rejects it.
#[derive(Debug, Clone, PartialEq, Eq)]
pub enum PolicyDecision {
    Allowed(ProjectAction),
    Rejected(String),
}

/// What planning makes of the policy's decision on an action: a rejection is
/// refused with its reason, an allowed action other than the check is not
/// supported, and the allowed check is the action to plan.
pub fn authorized_action(decision: PolicyDecision) -> (r: Result<ProjectAction, ExecutionError>)
    ensures
        decision matches PolicyDecision::Rejected(reason) ==> r == Err::<ProjectAction, ExecutionError>(
            ExecutionError::PolicyRejected(reason),
        ),
        decision matches PolicyDecision::Allowed(a) ==> (if a.id == ActionId::Check {
            r == Ok::<ProjectAction, ExecutionError>(a)
        } else {
            r == Err::<ProjectAction, ExecutionError>(ExecutionError::UnsupportedExecutionAction)
        }),
{
    match decision {
        PolicyDecision::Rejected(reason) => Err(ExecutionError::PolicyRejected(reason)),
        PolicyDecision::Allowed(a) => {
            if a.id == ActionId::Check {
                Ok(a)
            } else {
                Err(ExecutionError::UnsupportedExecutionAction)
            }
        },
    }
}

/// The same source state, field by field.
pub open spec fn same_state(a: ProjectStateBinding, b: ProjectStateBinding) -> bool {
    &&& a.schema_version == b.schema_version
    &&& a.canonical_root@ == b.canonical_root@
    &&& a.repository_root@ == b.repository_root@
    &&& a.repository_head@ == b.repository_head@
    &&& a.index_fingerprint@ == b.index_fingerprint@
    &&& a.worktree_fingerprint@ == b.worktree_fingerprint@
    &&& a.untracked_fingerprint@ == b.untracked_fingerprint@
    &&& a.combined_fingerprint@ == b.combined_fingerprint@
}

fn strings_equal(a: &Vec<String>, b: &Vec<String>) -> (r: bool)
    ensures
        r == (views(a@) == views(b@)),
{
    if a.len() != b.len() {
        assert(views(a@).len() != views(b@).len());
        return false;
    }
    let mut i: usize = 0;
    while i < a.len()
        invariant
            i <= a@.len(),
            a@.len() == b@.len(),
            forall|j: int| 0 <= j < i ==> a@[j]@ == b@[j]@,
        decreases a@.len() - i,
    {
        if !str_eq(a[i].as_str(), b[i].as_str()) {
            assert(views(a@)[i as int] != views(b@)[i as int]);
            return false;
        }
        i = i + 1;
    }
    assert(views(a@) =~= views(b@));
    true
}

/// Whether two actions are the same.
pub fn actions_equal(a: &ProjectAction, b: &ProjectAction) -> (r: bool)
    ensures
        r == same_action(*a, *b),
{
    a.id == b.id && str_eq(a.command.executable.as_str(), b.command.executable.as_str()) && strings_equal(
        &a.command.arguments,
        &b.command.arguments,
    ) && str_eq(a.command.working_directory.as_str(), b.command.working_directory.as_str()) && a.source
        == b.source && str_eq(a.confidence.as_str(), b.confidence.as_str())
}

/// Whether two source states are the same.
pub fn states_equal(a: &ProjectStateBinding, b: &ProjectStateBinding) -> (r: bool)
    ensures
        r == same_state(*a, *b),
{
    a.schema_version == b.schema_version && str_eq(a.canonical_root.as_str(), b.canonical_root.as_str()) && str_eq(
        a.repository_root.as_str(),
        b.repository_root.as_str(),
    ) && str_eq(a.repository_head.as_str(), b.repository_head.as_str()) && str_eq(
        a.index_fingerprint.as_str(),
        b.index_fingerprint.as_str(),
    ) && str_eq(a.worktree_fingerprint.as_str(), b.worktree_fingerprint.as_str()) && str_eq(
        a.untracked_fingerprint.as_str(),
        b.untracked_fingerprint.as_str(),
    ) && str_eq(a.combined_fingerprint.as_str(), b.combined_fingerprint.as_str())
}

/// The first reason a plan may not run, in the order the checks are made:
/// its schema and policy versions, its action, its project root, the
/// policy's decision now, its action fingerprint, the source state now, and
/// its plan fingerprint. `current_root` and `current_state` are what the
/// project's root and source state are now, or why they could not be read.
pub open spec fn revalidation_outcome(
    plan: AuthorizedExecutionPlan,
    policy_version: u32,
    current_root: Result<String, ExecutionError>,
    decision: PolicyDecision,
    current_state: Result<ProjectStateBinding, ExecutionError>,
) -> Result<(), ExecutionError> {
    if plan.schema_version != AUTHORIZED_EXECUTION_PLAN_SCHEMA_VERSION {
        Err(ExecutionError::UnsupportedPlanSchema(plan.schema_version))
    } else if plan.policy_version != policy_version {
        Err(ExecutionError::UnsupportedPolicyVersion(plan.policy_version))
    } else if plan.action.id != ActionId::Check {
        Err(ExecutionError::UnsupportedExecutionAction)
    } else if current_root is Err {
        Err(current_root->Err_0)
    } else if current_root->Ok_0@ != plan.source_state.canonical_root@ {
        Err(ExecutionError::ProjectRootChanged)
    } else if decision is Rejected {
        Err(ExecutionError::PolicyRejected(decision->Rejected_0))
    } else if !same_action(decision->Allowed_0, plan.action) {
        Err(ExecutionError::ActionFingerprintMismatch)
    } else if action_fingerprint_spec(plan.action, plan.policy_version) != plan.action_fingerprint@ {
        Err(ExecutionError::ActionFingerprintMismatch)
    } else if current_state is Err {
        Err(current_state->Err_0)
    } else if !same_state(current_state->Ok_0, plan.source_state) {
        Err(ExecutionError::StateFingerprintMismatch)
    } else if plan_fingerprint_spec(
        plan.project,
        plan.action_fingerprint@,
        plan.source_state.combined_fingerprint@,
        plan.schema_version,
        plan.policy_version,
    ) != plan.plan_fingerprint@ {
        Err(ExecutionError::PlanFingerprintMismatch)
    } else {
        Ok(())
    }
}

/// Checks a plan again before it runs (see `revalidation_outcome`).
pub fn revalidate_plan(
    plan: &AuthorizedExecutionPlan,
    policy_version: u32,
    current_root: Result<String, ExecutionError>,
    decision: PolicyDecision,
    current_state: Result<ProjectStateBinding, ExecutionError>,
) -> (r: Result<(), ExecutionError>)
    ensures
        r == revalidation_outcome(*plan, policy_version, current_root, decision, current_state),
{
    if plan.schema_version != AUTHORIZED_EXECUTION_PLAN_SCHEMA_VERSION {
        return Err(ExecutionError::UnsupportedPlanSchema(plan.schema_version));
    }
    if plan.policy_version != policy_version {
        return Err(ExecutionError::UnsupportedPolicyVersion(plan.policy_version));
    }
    if plan.action.id != ActionId::Check {
        return Err(ExecutionError::UnsupportedExecutionAction);
    }
    let root = match current_root {
        Ok(root) => root,
        Err(e) => {
            return Err(e);
        },
    };
    if !str_eq(root.as_str(), plan.source_state.canonical_root.as_str()) {
        return Err(ExecutionError::ProjectRootChanged);
    }
    match decision {
        PolicyDecision::Rejected(reason) => {
            return Err(ExecutionError::PolicyRejected(reason));
        },
        PolicyDecision::Allowed(allowed) => {
            if !actions_equal(&allowed, &plan.action) {
                return Err(ExecutionError::ActionFingerprintMismatch);
            }
        },
    }
    let expected = action_fingerprint(&plan.action, plan.policy_version);
    if !str_eq(expected.as_str(), plan.action_fingerprint.as_str()) {
        return Err(ExecutionError::ActionFingerprintMismatch);
    }
    let state = match current_state {
        Ok(s) => s,
        Err(e) => {
            return Err(e);
        },
    };
    if !states_equal(&state, &plan.source_state) {
        return Err(ExecutionError::StateFingerprintMismatch);
    }
    let expected_plan = plan_fingerprint(
        &plan.project,
        &plan.action_fingerprint,
        &plan.source_state,
        plan.schema_version,
        plan.policy_version,
    );
    if !str_eq(expected_plan.as_str(), plan.plan_fingerprint.as_str()) {
        return Err(ExecutionError::PlanFingerprintMismatch);
    }
    Ok(())
}

/// The result of a run.
#[derive(Debug, Clone, PartialEq, Eq)]
pub struct ExecutionResult {
    pub schema_version: u32,
    pub plan_fingerprint: Fingerprint,
    pub action_fingerprint: Fingerprint,
    pub project: ProjectReference,
    pub action: ProjectAction,
    pub state: StateComparison,
    pub execution: ProcessExecutionSummary,
}

/// The result of a run of a plan: how the process ended, how long it took,
/// and the source state after it, compared with the state planned against.
pub fn execution_result(
    plan: AuthorizedExecutionPlan,
    completion: ProcessCompletion,
    duration_ms: u64,
    after: ProjectStateBinding,
) -> (r: ExecutionResult)
    ensures
        r.schema_version == EXECUTION_RESULT_SCHEMA_VERSION,
        r.plan_fingerprint == plan.plan_fingerprint,
        r.action_fingerprint == plan.action_fingerprint,
        r.project == plan.project,
        r.action == plan.action,
        r.state.before == plan.source_state,
        r.state.after == after,
        r.state.changed == !same_state(after, plan.source_state),
        r.execution.process_started,
        r.execution.exit_code == completion.exit_code,
        r.execution.duration_ms == duration_ms,
        r.execution.interrupted == completion.interrupted,
        r.execution.verdict == verdict_spec(completion, !same_state(after, plan.source_state)),
{
    let changed = !states_equal(&after, &plan.source_state);
    let v = verdict(completion, changed);
    ExecutionResult {
        schema_version: EXECUTION_RESULT_SCHEMA_VERSION,
        plan_fingerprint: plan.plan_fingerprint,
        action_fingerprint: plan.action_fingerprint,
        project: plan.project,
        action: plan.action,
        state: StateComparison { before: plan.source_state, after, changed },
        execution: ProcessExecutionSummary {
            process_started: true,
            exit_code: completion.exit_code,
            duration_ms,
            interrupted: completion.interrupted,
            verdict: v,
        },
    }
}

/// A plan checked again with nothing changed runs: the same root, an
/// allowing decision on the same action, and the same source state.
pub proof fn law_unchanged_plan_revalidates(
    plan: AuthorizedExecutionPlan,
    policy_version: u32,
    current_root: String,
    allowed: ProjectAction,
    current_state: ProjectStateBinding,
)
    requires
        plan.schema_version == AUTHORIZED_EXECUTION_PLAN_SCHEMA_VERSION,
        plan.policy_version == policy_version,
        plan.action.id == ActionId::Check,
        plan.action_fingerprint@ == action_fingerprint_spec(plan.action, policy_version),
        plan.plan_fingerprint@ == plan_fingerprint_spec(
            plan.project,
            plan.action_fingerprint@,
            plan.source_state.combined_fingerprint@,
            plan.schema_version,
            policy_version,
        ),
        current_root@ == plan.source_state.canonical_root@,
        same_action(allowed, plan.action),
        same_state(current_state, plan.source_state),
    ensures
        revalidation_outcome(
            plan,
            policy_version,
            Ok(current_root),
            PolicyDecision::Allowed(allowed),
            Ok(current_state),
        ) is Ok,
{
}

/// A plan whose source state changed since it was made never runs.
pub proof fn law_changed_state_is_refused(
    plan: AuthorizedExecutionPlan,
    policy_version: u32,
    current_root: Result<String, ExecutionError>,
    decision: PolicyDecision,
    current_state: ProjectStateBinding,
)
    requires
        !same_state(current_state, plan.source_state),
    ensures
        revalidation_outcome(plan, policy_version, current_root, decision, Ok(current_state)) is Err,
{
}

} // verus!
