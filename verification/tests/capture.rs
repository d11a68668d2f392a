use astra::execution::capture::{
    diff_arguments, diff_fingerprint_from, git_command_error, project_within_repository, repository_head_from,
    repository_root_from, untracked_arguments, untracked_paths_from, GitOutput, StateCaptureLimits, UntrackedKind,
    UntrackedRecorder,
};
use astra::execution::fingerprint::hash_fields;
use astra::execution::git::ExecutionError;
use astra::execution::plan::{
    action_fingerprint, execution_result, revalidate_plan, ActionSource, AuthorizedExecutionPlan, CommandSpec,
    PolicyDecision, ProjectAction, ProjectReference,
};
use astra::execution::verdict::{ActionId, ProcessCompletion, ProjectStateBinding, VerificationVerdict};

fn output(status: Option<i32>, stdout: &[u8], stderr: &[u8], truncated: bool) -> GitOutput {
    GitOutput {
        status_code: status,
        stdout: stdout.to_vec(),
        stderr: stderr.to_vec(),
        truncated,
    }
}

fn limits() -> StateCaptureLimits {
    StateCaptureLimits::default()
}

#[test]
fn fake_git_capture_rejects_non_git_state() {
    assert_eq!(
        repository_root_from(&output(Some(128), b"", b"not a git repository", false), &limits()),
        Err(ExecutionError::NonGitExecutionUnsupported)
    );
}

#[test]
fn repository_root_must_be_one_absolute_line() {
    assert_eq!(
        repository_root_from(&output(Some(0), b"/repo\n", b"", false), &limits()).expect("root"),
        "/repo"
    );
    assert_eq!(
        repository_root_from(&output(Some(0), b"repo\n", b"", false), &limits()),
        Err(ExecutionError::MalformedGitOutput("Git returned a relative repository root".to_string()))
    );
    assert_eq!(
        repository_root_from(&output(Some(0), b"", b"", false), &limits()),
        Err(ExecutionError::MalformedGitOutput("Git returned an invalid repository root".to_string()))
    );
    assert_eq!(
        repository_root_from(&output(Some(0), b"/repo\n", b"", true), &limits()),
        Err(ExecutionError::GitOutputLimitExceeded("repository root".to_string()))
    );
    assert_eq!(
        repository_root_from(&output(Some(2), b"", b"boom", false), &limits()),
        Err(ExecutionError::GitStateCapture("repository root failed with status 2: boom".to_string()))
    );
}

#[test]
fn git_errors_name_the_status_and_bounded_error_output() {
    let mut small = limits();
    small.max_git_error_bytes = 3;
    assert_eq!(
        git_command_error("staged diff", &output(None, b"", b"abcdef", false), &small),
        ExecutionError::GitStateCapture("staged diff failed with status unknown: abc".to_string())
    );
    assert_eq!(
        git_command_error("staged diff", &output(Some(1), b"", b"", false), &small),
        ExecutionError::GitStateCapture("staged diff failed with status 1".to_string())
    );
}

#[test]
fn commit_identifiers_are_forty_or_sixty_four_hex_digits() {
    let head = "0123456789abcdef0123456789abcdef01234567";
    assert_eq!(
        repository_head_from(&output(Some(0), format!("{head}\n").as_bytes(), b"", false), &limits()).expect("head"),
        head
    );
    assert_eq!(
        repository_head_from(&output(Some(0), b"xyz\n", b"", false), &limits()),
        Err(ExecutionError::MalformedGitOutput("Git returned an invalid commit identifier".to_string()))
    );
}

#[test]
fn staged_and_unstaged_diffs_are_fingerprinted_in_separate_domains() {
    let staged = diff_fingerprint_from(&output(Some(0), b"diff", b"", false), true, &limits()).expect("staged");
    let unstaged = diff_fingerprint_from(&output(Some(0), b"diff", b"", false), false, &limits()).expect("unstaged");
    assert_ne!(staged, unstaged);
    assert_eq!(
        staged,
        diff_fingerprint_from(&output(Some(0), b"diff", b"", false), true, &limits()).expect("again")
    );
    assert_ne!(
        staged,
        diff_fingerprint_from(&output(Some(0), b"other", b"", false), true, &limits()).expect("other")
    );
    assert_eq!(
        diff_fingerprint_from(&output(Some(0), b"x", b"", true), false, &limits()),
        Err(ExecutionError::GitOutputLimitExceeded("unstaged diff".to_string()))
    );
    assert!(diff_arguments(true).contains(&"--cached".to_string()));
    assert!(!diff_arguments(false).contains(&"--cached".to_string()));
    assert_eq!(untracked_arguments().last().map(String::as_str), Some("."));
}

#[test]
fn untracked_paths_are_sorted_and_limited() {
    assert_eq!(
        untracked_paths_from(&output(Some(0), b"b\0a c\0", b"", false), &limits()).expect("paths"),
        vec!["a c".to_string(), "b".to_string()]
    );
    let mut small = limits();
    small.max_untracked_files = 1;
    assert_eq!(
        untracked_paths_from(&output(Some(0), b"b\0a\0", b"", false), &small),
        Err(ExecutionError::UntrackedStateLimitExceeded)
    );
    assert!(untracked_paths_from(&output(Some(0), b"a", b"", false), &limits()).is_err());
}

#[test]
fn untracked_limits_refuse_oversized_files_and_excess_total() {
    let mut small = limits();
    small.max_untracked_file_bytes = 4;
    small.max_untracked_total_bytes = 6;
    let mut recorder = UntrackedRecorder::new(small);
    assert_eq!(recorder.check_size(5), Err(ExecutionError::UntrackedStateLimitExceeded));
    recorder.record_file("a".to_string(), 4, b"abcd").expect("fits");
    assert_eq!(
        recorder.record_file("b".to_string(), 3, b"abc"),
        Err(ExecutionError::UntrackedStateLimitExceeded)
    );
    recorder.record_symlink("c".to_string(), "xy").expect("link fits");
    assert_eq!(recorder.total_bytes, 6);
    assert_eq!(recorder.records[1].kind, UntrackedKind::Symlink);
    let mut grown = UntrackedRecorder::new(small);
    assert_eq!(
        grown.record_file("d".to_string(), 1, b"grown!"),
        Err(ExecutionError::UntrackedFileUnreadable {
            path: "d".to_string(),
            message: "untracked file exceeds the supported size".to_string()
        })
    );
}

#[test]
fn untracked_content_and_path_changes_change_the_fingerprint() {
    let empty = UntrackedRecorder::new(limits()).fingerprint();
    let mut one = UntrackedRecorder::new(limits());
    one.record_file("file.txt".to_string(), 3, b"one").expect("one");
    let mut two = UntrackedRecorder::new(limits());
    two.record_file("file.txt".to_string(), 3, b"two").expect("two");
    let mut renamed = UntrackedRecorder::new(limits());
    renamed.record_file("renamed.txt".to_string(), 3, b"one").expect("renamed");
    assert_ne!(empty, one.fingerprint());
    assert_ne!(one.fingerprint(), two.fingerprint());
    assert_ne!(one.fingerprint(), renamed.fingerprint());
    assert_eq!(empty, UntrackedRecorder::new(limits()).fingerprint());
}

#[test]
fn projects_lie_inside_their_repository_by_whole_components() {
    assert!(project_within_repository("/repo", "/repo"));
    assert!(project_within_repository("/repo/projects/one", "/repo"));
    assert!(project_within_repository("/repo", "/"));
    assert!(!project_within_repository("/repository", "/repo"));
    assert!(!project_within_repository("/re", "/repo"));
}

fn fields(pairs: &[(&str, &[u8])]) -> Vec<(Vec<u8>, Vec<u8>)> {
    pairs
        .iter()
        .map(|(name, value)| (name.as_bytes().to_vec(), value.to_vec()))
        .collect()
}

fn state(worktree: &[u8]) -> ProjectStateBinding {
    let fingerprint = hash_fields(b"test", &fields(&[("value", b"state")]));
    ProjectStateBinding::new(
        "/project".to_string(),
        "/repo".to_string(),
        "0123456789012345678901234567890123456789".to_string(),
        fingerprint.clone(),
        hash_fields(b"test", &fields(&[("value", worktree)])),
        fingerprint,
    )
}

fn action() -> ProjectAction {
    ProjectAction {
        id: ActionId::Check,
        command: CommandSpec {
            executable: "cargo".to_string(),
            arguments: vec!["check".to_string(), "--workspace".to_string()],
            working_directory: "/project".to_string(),
        },
        source: ActionSource::ContextEngine,
        confidence: "\"high\"".to_string(),
    }
}

fn project() -> ProjectReference {
    ProjectReference {
        name: "demo".to_string(),
        root: "/project".to_string(),
    }
}

#[test]
fn identical_action_and_state_produce_identical_plan_fingerprints() {
    let first = AuthorizedExecutionPlan::new(project(), action(), state(b"state"), 1);
    let second = AuthorizedExecutionPlan::new(project(), action(), state(b"state"), 1);
    assert_eq!(first, second);
}

#[test]
fn action_and_plan_fingerprints_bind_all_material_fields() {
    let mut changed_action = action();
    changed_action.command.arguments.reverse();
    assert_ne!(action_fingerprint(&action(), 1), action_fingerprint(&changed_action, 1));
    assert_ne!(action_fingerprint(&action(), 1), action_fingerprint(&action(), 2));
    let first = AuthorizedExecutionPlan::new(project(), action(), state(b"state"), 1);
    let mut changed_project = project();
    changed_project.name = "other".to_string();
    let second = AuthorizedExecutionPlan::new(changed_project, action(), state(b"state"), 1);
    assert_ne!(first.plan_fingerprint, second.plan_fingerprint);
}

#[test]
fn quoted_and_bare_confidence_fingerprint_alike() {
    let mut bare = action();
    bare.confidence = "high".to_string();
    assert_eq!(action_fingerprint(&action(), 1), action_fingerprint(&bare, 1));
}

#[test]
fn unchanged_dirty_state_can_execute_without_replanning() {
    let plan = AuthorizedExecutionPlan::new(project(), action(), state(b"dirty"), 1);
    assert_eq!(
        revalidate_plan(
            &plan,
            1,
            Ok("/project".to_string()),
            PolicyDecision::Allowed(action()),
            Ok(state(b"dirty"))
        ),
        Ok(())
    );
}

#[test]
fn stale_plan_is_rejected_before_the_sentinel_launcher_runs() {
    let plan = AuthorizedExecutionPlan::new(project(), action(), state(b"before"), 1);
    assert_eq!(
        revalidate_plan(
            &plan,
            1,
            Ok("/project".to_string()),
            PolicyDecision::Allowed(action()),
            Ok(state(b"after"))
        ),
        Err(ExecutionError::StateFingerprintMismatch)
    );
}

#[test]
fn revalidation_checks_versions_root_policy_and_fingerprints_in_order() {
    let plan = AuthorizedExecutionPlan::new(project(), action(), state(b"s"), 1);
    let ok_root = || Ok("/project".to_string());
    let allowed = || PolicyDecision::Allowed(action());
    assert_eq!(
        revalidate_plan(&plan, 2, ok_root(), allowed(), Ok(state(b"s"))),
        Err(ExecutionError::UnsupportedPolicyVersion(1))
    );
    assert_eq!(
        revalidate_plan(&plan, 1, Ok("/moved".to_string()), allowed(), Ok(state(b"s"))),
        Err(ExecutionError::ProjectRootChanged)
    );
    assert_eq!(
        revalidate_plan(&plan, 1, ok_root(), PolicyDecision::Rejected("no".to_string()), Ok(state(b"s"))),
        Err(ExecutionError::PolicyRejected("no".to_string()))
    );
    let mut tampered = plan.clone();
    tampered.plan_fingerprint = tampered.action_fingerprint.clone();
    assert_eq!(
        revalidate_plan(&tampered, 1, ok_root(), allowed(), Ok(state(b"s"))),
        Err(ExecutionError::PlanFingerprintMismatch)
    );
    let mut build = plan.clone();
    build.action.id = ActionId::Build;
    assert_eq!(
        revalidate_plan(&build, 1, ok_root(), allowed(), Ok(state(b"s"))),
        Err(ExecutionError::UnsupportedExecutionAction)
    );
}

#[test]
fn results_compare_the_state_after_the_run() {
    let plan = AuthorizedExecutionPlan::new(project(), action(), state(b"s"), 1);
    let completion = ProcessCompletion { exit_code: Some(0), interrupted: false };
    let unchanged = execution_result(plan.clone(), completion, 5, state(b"s"));
    assert!(!unchanged.state.changed);
    assert_eq!(unchanged.execution.verdict, VerificationVerdict::VerifiedCheck);
    let changed = execution_result(plan, completion, 5, state(b"t"));
    assert!(changed.state.changed);
    assert_eq!(changed.execution.verdict, VerificationVerdict::SourceStateChanged);
}
