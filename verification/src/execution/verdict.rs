//! The boundary of controlled execution and the verdict of a run.
use vstd::prelude::*;
use crate::execution::fingerprint::{fields_message, field_views, hash_fields, Fingerprint, SHA256_PREFIX};
use crate::digest::sha256_hex;
use crate::text::decimal_string;

verus! {

/// The project actions that can be planned.
#[derive(Debug, Clone, Copy, PartialEq, Eq, PartialOrd, Ord, Structural)]
pub enum ActionId {
    Build,
    Check,
    Test,
}

/// Whether an action may run for real or only as a dry run.
#[derive(Debug, Clone, Copy, PartialEq, Eq, Structural)]
pub enum ControlledExecutionCapability {
    Allowed,
    DryRunOnly,
}

/// Only `check` runs under controlled execution; the others are dry-run only.
pub fn controlled_execution_capability(action: ActionId) -> (r: ControlledExecutionCapability)
    ensures
        r == if action == ActionId::Check {
            ControlledExecutionCapability::Allowed
        } else {
            ControlledExecutionCapability::DryRunOnly
        },
{
    match action {
        ActionId::Check => ControlledExecutionCapability::Allowed,
        ActionId::Build | ActionId::Test => ControlledExecutionCapability::DryRunOnly,
    }
}

#[derive(Debug, Clone, Copy, PartialEq, Eq, Structural)]
pub enum ExecutionOutputMode {
    Human,
    Json,
}

/// How the process ended.
#[derive(Debug, Clone, Copy, PartialEq, Eq, Structural)]
pub struct ProcessCompletion {
    pub exit_code: Option<i32>,
    pub interrupted: bool,
}

#[derive(Debug, Clone, Copy, PartialEq, Eq, Structural)]
pub enum VerificationVerdict {
    VerifiedCheck,
    CommandFailed,
    SourceStateChanged,
    CommandFailedAndSourceStateChanged,
    Interrupted,
}

/// An interruption decides; otherwise success and an unchanged source state
/// verify the check, and a failure or a change is reported as such.
pub open spec fn verdict_spec(completion: ProcessCompletion, state_changed: bool) -> VerificationVerdict {
    if completion.interrupted {
        VerificationVerdict::Interrupted
    } else if completion.exit_code == Some(0i32) {
        if state_changed {
            VerificationVerdict::SourceStateChanged
        } else {
            VerificationVerdict::VerifiedCheck
        }
    } else if state_changed {
        VerificationVerdict::CommandFailedAndSourceStateChanged
    } else {
        VerificationVerdict::CommandFailed
    }
}

pub fn verdict(completion: ProcessCompletion, state_changed: bool) -> (r: VerificationVerdict)
    ensures
        r == verdict_spec(completion, state_changed),
{
    if completion.interrupted {
        VerificationVerdict::Interrupted
    } else if completion.exit_code == Some(0i32) {
        if state_changed {
            VerificationVerdict::SourceStateChanged
        } else {
            VerificationVerdict::VerifiedCheck
        }
    } else if state_changed {
        VerificationVerdict::CommandFailedAndSourceStateChanged
    } else {
        VerificationVerdict::CommandFailed
    }
}

/// Only a clean exit with an unchanged source state verifies the check.
pub proof fn law_only_clean_unchanged_runs_verify(completion: ProcessCompletion, state_changed: bool)
    ensures
        verdict_spec(completion, state_changed) == VerificationVerdict::VerifiedCheck <==> (!completion.interrupted
            && completion.exit_code == Some(0i32) && !state_changed),
{
}

/// When the check is stopped before it ends, the verdict is `Interrupted`,
/// whatever its exit code and whether or not the Git state changed.
pub proof fn law_interruption_decides_verdict(completion: ProcessCompletion, state_changed: bool)
    requires
        completion.interrupted,
    ensures
        verdict_spec(completion, state_changed) == VerificationVerdict::Interrupted,
        verdict_spec(completion, state_changed) == verdict_spec(completion, !state_changed),
{
}

/// Only an interruption is reported as one.
pub proof fn law_interrupted_only_when_interrupted(completion: ProcessCompletion, state_changed: bool)
    ensures
        verdict_spec(completion, state_changed) == VerificationVerdict::Interrupted <==> completion.interrupted,
{
}

/// A run that was not interrupted reports a change of the source state
/// exactly when the state changed, and a failure exactly when the command
/// did not exit with 0.
pub proof fn law_uninterrupted_verdict_reports_change_and_failure(completion: ProcessCompletion, state_changed: bool)
    requires
        !completion.interrupted,
    ensures
        (verdict_spec(completion, state_changed) == VerificationVerdict::SourceStateChanged || verdict_spec(
            completion,
            state_changed,
        ) == VerificationVerdict::CommandFailedAndSourceStateChanged) <==> state_changed,
        (verdict_spec(completion, state_changed) == VerificationVerdict::CommandFailed || verdict_spec(
            completion,
            state_changed,
        ) == VerificationVerdict::CommandFailedAndSourceStateChanged) <==> completion.exit_code != Some(0i32),
{
}

#[derive(Debug, Clone, Copy, PartialEq, Eq, Structural)]
pub struct ProcessExecutionSummary {
    pub process_started: bool,
    pub exit_code: Option<i32>,
    pub duration_ms: u64,
    pub interrupted: bool,
    pub verdict: VerificationVerdict,
}

pub const STATE_FINGERPRINT_SCHEMA_VERSION: u32 = 1;

/// The exact Git-relevant source state bound to an executable plan.
#[derive(Debug, Clone, PartialEq, Eq)]
pub struct ProjectStateBinding {
    pub schema_version: u32,
    pub canonical_root: String,
    pub repository_root: String,
    pub repository_head: String,
    pub index_fingerprint: Fingerprint,
    pub worktree_fingerprint: Fingerprint,
    pub untracked_fingerprint: Fingerprint,
    pub combined_fingerprint: Fingerprint,
}

#[derive(Debug, Clone, PartialEq, Eq)]
pub struct StateComparison {
    pub before: ProjectStateBinding,
    pub after: ProjectStateBinding,
    pub changed: bool,
}

fn text_bytes(s: &str) -> (r: Vec<u8>)
    ensures
        r@ == vstd::utf8::encode_utf8(s@),
{
    let b = s.as_bytes();
    let mut r: Vec<u8> = Vec::new();
    let mut i: usize = 0;
    while i < b.len()
        invariant
            i <= b@.len(),
            r@ == b@.take(i as int),
        decreases b@.len() - i,
    {
        r.push(b[i]);
        i = i + 1;
        assert(r@ =~= b@.take(i as int));
    }
    assert(b@.take(b@.len() as int) =~= b@);
    r
}

fn named(label: &str, value: &str) -> (r: (Vec<u8>, Vec<u8>))
    ensures
        r.0@ == vstd::utf8::encode_utf8(label@),
        r.1@ == vstd::utf8::encode_utf8(value@),
{
    (text_bytes(label), text_bytes(value))
}

/// The fields of a state binding, in the order they are fingerprinted.
pub open spec fn state_fields(
    canonical_root: Seq<char>,
    repository_root: Seq<char>,
    repository_head: Seq<char>,
    index: Seq<char>,
    worktree: Seq<char>,
    untracked: Seq<char>,
) -> Seq<(Seq<u8>, Seq<u8>)> {
    let e = |s: Seq<char>| vstd::utf8::encode_utf8(s);
    seq![
        (e("schema_version"@), e("1"@)),
        (e("canonical_root"@), e(canonical_root)),
        (e("repository_root"@), e(repository_root)),
        (e("repository_head"@), e(repository_head)),
        (e("index"@), e(index)),
        (e("worktree"@), e(worktree)),
        (e("untracked"@), e(untracked)),
    ]
}

impl ProjectStateBinding {
    /// Binds the three fingerprints, the roots and the head into one.
    pub fn new(
        canonical_root: String,
        repository_root: String,
        repository_head: String,
        index_fingerprint: Fingerprint,
        worktree_fingerprint: Fingerprint,
        untracked_fingerprint: Fingerprint,
    ) -> (r: Self)
        ensures
            r.schema_version == STATE_FINGERPRINT_SCHEMA_VERSION,
            r.canonical_root == canonical_root,
            r.repository_root == repository_root,
            r.repository_head == repository_head,
            r.index_fingerprint == index_fingerprint,
            r.worktree_fingerprint == worktree_fingerprint,
            r.untracked_fingerprint == untracked_fingerprint,
            r.combined_fingerprint@ == SHA256_PREFIX@ + sha256_hex(
                fields_message(
                    vstd::utf8::encode_utf8("astra-project-state-v1"@),
                    state_fields(
                        canonical_root@,
                        repository_root@,
                        repository_head@,
                        index_fingerprint@,
                        worktree_fingerprint@,
                        untracked_fingerprint@,
                    ),
                ),
            ),
    {
        let version = decimal_string(STATE_FINGERPRINT_SCHEMA_VERSION as u64);
        proof {
            reveal_strlit("1");
            assert(crate::text::decimal(1) =~= "1"@);
        }
        let mut fields: Vec<(Vec<u8>, Vec<u8>)> = Vec::new();
        fields.push(named("schema_version", version.as_str()));
        fields.push(named("canonical_root", canonical_root.as_str()));
        fields.push(named("repository_root", repository_root.as_str()));
        fields.push(named("repository_head", repository_head.as_str()));
        fields.push(named("index", index_fingerprint.as_str()));
        fields.push(named("worktree", worktree_fingerprint.as_str()));
        fields.push(named("untracked", untracked_fingerprint.as_str()));
        let domain = text_bytes("astra-project-state-v1");
        let combined = hash_fields(domain.as_slice(), &fields);
        assert(field_views(fields@) =~= state_fields(
            canonical_root@,
            repository_root@,
            repository_head@,
            index_fingerprint@,
            worktree_fingerprint@,
            untracked_fingerprint@,
        ));
        ProjectStateBinding {
            schema_version: STATE_FINGERPRINT_SCHEMA_VERSION,
            canonical_root,
            repository_root,
            repository_head,
            index_fingerprint,
            worktree_fingerprint,
            untracked_fingerprint,
            combined_fingerprint: combined,
        }
    }
}

} // verus!
