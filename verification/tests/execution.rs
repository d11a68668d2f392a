use astra::execution::plan::{authorized_action, ActionSource, CommandSpec, PolicyDecision, ProjectAction};
use astra::execution::fingerprint::{hash_fields, Fingerprint, SHA256_HEX_LENGTH, SHA256_PREFIX};
use astra::execution::git::{parse_nul_paths, project_relative_path, single_line, ExecutionError};
use astra::execution::verdict::{
    controlled_execution_capability, verdict, ActionId, ControlledExecutionCapability,
    ExecutionOutputMode, ProcessCompletion, ProjectStateBinding, VerificationVerdict,
};

fn fields(pairs: &[(&str, &[u8])]) -> Vec<(Vec<u8>, Vec<u8>)> {
    pairs
        .iter()
        .map(|(name, value)| (name.as_bytes().to_vec(), value.to_vec()))
        .collect()
}

fn state(index: &str, worktree: &str, untracked: &str) -> ProjectStateBinding {
    ProjectStateBinding::new(
        "/project".to_string(),
        "/repo".to_string(),
        "0123456789abcdef".to_string(),
        hash_fields(index.as_bytes(), &fields(&[("state", b"index")])),
        hash_fields(worktree.as_bytes(), &fields(&[("state", b"worktree")])),
        hash_fields(untracked.as_bytes(), &fields(&[("state", b"untracked")])),
    )
}

#[test]
fn only_check_is_available_for_controlled_execution() {
    assert_eq!(
        controlled_execution_capability(ActionId::Check),
        ControlledExecutionCapability::Allowed
    );
    assert_eq!(
        controlled_execution_capability(ActionId::Build),
        ControlledExecutionCapability::DryRunOnly
    );
    assert_eq!(
        controlled_execution_capability(ActionId::Test),
        ControlledExecutionCapability::DryRunOnly
    );
}

#[test]
fn verdicts_distinguish_failure_and_state_change() {
    assert_eq!(
        verdict(
            ProcessCompletion {
                exit_code: Some(1),
                interrupted: false
            },
            false
        ),
        VerificationVerdict::CommandFailed
    );
    assert_eq!(
        verdict(
            ProcessCompletion {
                exit_code: Some(0),
                interrupted: false
            },
            true
        ),
        VerificationVerdict::SourceStateChanged
    );
    assert_eq!(
        verdict(
            ProcessCompletion {
                exit_code: None,
                interrupted: true
            },
            true
        ),
        VerificationVerdict::Interrupted
    );
}

#[test]
fn clean_unchanged_run_verifies_and_failure_with_change_is_both() {
    assert_eq!(
        verdict(
            ProcessCompletion {
                exit_code: Some(0),
                interrupted: false
            },
            false
        ),
        VerificationVerdict::VerifiedCheck
    );
    assert_eq!(
        verdict(
            ProcessCompletion {
                exit_code: Some(2),
                interrupted: false
            },
            true
        ),
        VerificationVerdict::CommandFailedAndSourceStateChanged
    );
    assert_eq!(
        verdict(
            ProcessCompletion {
                exit_code: None,
                interrupted: false
            },
            false
        ),
        VerificationVerdict::CommandFailed
    );
}

#[test]
fn fingerprints_use_validated_lowercase_sha256_format() {
    let fingerprint = hash_fields(b"test-v1", &fields(&[("value", b"one")]));
    assert!(fingerprint.as_str().starts_with("sha256:"));
    assert_eq!(
        fingerprint.as_str().len(),
        SHA256_PREFIX.len() + SHA256_HEX_LENGTH
    );
    assert_eq!(
        Fingerprint::parse(fingerprint.as_str().to_string()).expect("valid fingerprint"),
        fingerprint
    );
    assert!(Fingerprint::parse("sha256:ABC".to_string()).is_err());
    assert!(Fingerprint::parse("md5:00000000000000000000000000000000".to_string()).is_err());
}

#[test]
fn fingerprint_parse_reports_each_problem() {
    assert_eq!(
        Fingerprint::parse("md5:00".to_string()),
        Err("fingerprint must start with sha256:".to_string())
    );
    assert_eq!(
        Fingerprint::parse("sha256:abc".to_string()),
        Err("fingerprint must contain exactly 64 hexadecimal characters".to_string())
    );
    let upper = format!("sha256:{}", "A".repeat(64));
    assert_eq!(
        Fingerprint::parse(upper),
        Err("fingerprint hexadecimal characters must be lowercase".to_string())
    );
    let lower = format!("sha256:{}", "a".repeat(64));
    assert_eq!(
        Fingerprint::parse(lower.clone()).expect("lowercase").as_str(),
        lower
    );
}

#[test]
fn length_prefixing_distinguishes_ambiguous_field_boundaries() {
    let first = hash_fields(b"test-v1", &fields(&[("a", b"bc"), ("d", b"e")]));
    let second = hash_fields(b"test-v1", &fields(&[("a", b"b"), ("cd", b"e")]));
    assert_ne!(first, second);
}

#[test]
fn hash_fields_differs_from_the_bare_sha256_of_the_value() {
    let framed = hash_fields(b"test-v1", &fields(&[("value", b"one")]));
    let again = hash_fields(b"test-v1", &fields(&[("value", b"one")]));
    assert_eq!(framed, again);
    let other_domain = hash_fields(b"test-v2", &fields(&[("value", b"one")]));
    assert_ne!(framed, other_domain);
}

#[test]
fn parses_nul_delimited_paths_without_newline_assumptions() {
    assert_eq!(
        parse_nul_paths(b"one path\0nested/two\0").expect("paths"),
        vec!["one path", "nested/two"]
    );
    assert!(parse_nul_paths(b"missing terminator").is_err());
}

#[test]
fn nul_paths_reject_empty_entries_and_accept_empty_input() {
    assert_eq!(parse_nul_paths(b"").expect("empty"), Vec::<String>::new());
    assert!(matches!(
        parse_nul_paths(b"one\0\0"),
        Err(ExecutionError::MalformedGitOutput(_))
    ));
}

#[test]
fn single_line_requires_one_nonempty_line() {
    assert_eq!(single_line(b"abc\n", "head").expect("line"), "abc");
    assert!(matches!(
        single_line(b"", "head"),
        Err(ExecutionError::MalformedGitOutput(_))
    ));
    assert!(matches!(
        single_line(b"a\nb\n", "head"),
        Err(ExecutionError::MalformedGitOutput(_))
    ));
}

#[test]
fn project_relative_paths_reject_escapes() {
    assert_eq!(
        project_relative_path("src/lib.rs").expect("relative"),
        "src/lib.rs"
    );
    assert!(project_relative_path("/etc/passwd").is_err());
    assert!(project_relative_path("../outside").is_err());
}

#[test]
fn output_modes_are_explicit_and_stable() {
    assert_eq!(ExecutionOutputMode::Human, ExecutionOutputMode::Human);
    assert_ne!(ExecutionOutputMode::Human, ExecutionOutputMode::Json);
}

#[test]
fn combined_state_fingerprint_is_deterministic() {
    assert_eq!(state("a", "b", "c"), state("a", "b", "c"));
    assert_ne!(state("a", "b", "c"), state("different", "b", "c"));
    assert_ne!(
        state("a", "b", "c").combined_fingerprint,
        state("a", "b", "d").combined_fingerprint
    );
}

#[test]
fn planning_refuses_rejected_and_unsupported_actions() {
    let action = |id: ActionId| ProjectAction {
        id,
        command: CommandSpec {
            executable: "cargo".to_string(),
            arguments: vec!["check".to_string()],
            working_directory: "/work/demo".to_string(),
        },
        source: ActionSource::ContextEngine,
        confidence: "certain".to_string(),
    };
    assert_eq!(
        authorized_action(PolicyDecision::Rejected("command is not allowed".to_string())),
        Err(ExecutionError::PolicyRejected("command is not allowed".to_string()))
    );
    assert_eq!(
        authorized_action(PolicyDecision::Allowed(action(ActionId::Test))),
        Err(ExecutionError::UnsupportedExecutionAction)
    );
    assert_eq!(authorized_action(PolicyDecision::Allowed(action(ActionId::Check))), Ok(action(ActionId::Check)));
}
