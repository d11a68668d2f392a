use astra::projects::valid_project_name;
use astra::system::model::{memory_snapshot, nonempty, ServiceStatus};
use astra::system::services::{ollama_status_from_probe, parse_http_status, status_from_probe, ProbeOutcome};
use astra::workspaces::{add_workspace, normalize_path, remove_workspace, valid_workspace_name, WorkspaceError, WorkspaceTable};

#[test]
fn accepts_valid_names() {
    assert!(valid_project_name("astra-api"));
    assert!(valid_project_name("project_01"));
}

#[test]
fn rejects_invalid_names() {
    assert!(!valid_project_name(""));
    assert!(!valid_project_name("../danger"));
    assert!(!valid_project_name("project name"));
}

#[test]
fn nonempty_rejects_blank_optional_values() {
    assert_eq!(nonempty(Some("  ".to_string())), None);
    assert_eq!(nonempty(Some("Astra".to_string())), Some("Astra".to_string()));
}

#[test]
fn memory_is_known_only_with_a_total() {
    assert_eq!(memory_snapshot(10, 0), None);
    let memory = memory_snapshot(30, 20).expect("a total is known");
    assert_eq!(memory.used_bytes, 20);
    assert_eq!(memory.total_bytes, 20);
}

#[test]
fn service_status_mapping_is_explicit() {
    assert_eq!(status_from_probe(ProbeOutcome::Reachable), ServiceStatus::Running);
    assert_eq!(status_from_probe(ProbeOutcome::Unreachable), ServiceStatus::Stopped);
    assert_eq!(status_from_probe(ProbeOutcome::TimedOut), ServiceStatus::Stopped);
    assert_eq!(status_from_probe(ProbeOutcome::Missing), ServiceStatus::Unavailable);
    assert_eq!(status_from_probe(ProbeOutcome::InvalidResponse), ServiceStatus::Unknown);
    assert_eq!(status_from_probe(ProbeOutcome::Failed), ServiceStatus::Unknown);
}

#[test]
fn parses_successful_ollama_http_response() {
    assert_eq!(parse_http_status(b"HTTP/1.1 200 OK\r\nContent-Length: 2\r\n\r\n{}"), ProbeOutcome::Reachable);
}

#[test]
fn ollama_absence_and_reachability_are_mapped_independently() {
    assert_eq!(ollama_status_from_probe(ProbeOutcome::Unreachable, false), ServiceStatus::Unavailable);
    assert_eq!(ollama_status_from_probe(ProbeOutcome::TimedOut, false), ServiceStatus::Unavailable);
    assert_eq!(ollama_status_from_probe(ProbeOutcome::Reachable, false), ServiceStatus::Running);
    assert_eq!(ollama_status_from_probe(ProbeOutcome::Unreachable, true), ServiceStatus::Stopped);
}

#[test]
fn rejects_non_success_and_malformed_http_responses() {
    assert_eq!(parse_http_status(b"HTTP/1.1 503 Service Unavailable\r\n\r\n"), ProbeOutcome::InvalidResponse);
    assert_eq!(parse_http_status(b"not http"), ProbeOutcome::InvalidResponse);
    assert_eq!(parse_http_status(&[0xff, 0xfe]), ProbeOutcome::InvalidResponse);
}

#[test]
fn accepts_valid_workspace_names() {
    assert!(valid_workspace_name("alpha"));
    assert!(valid_workspace_name("my-workspace_01"));
}

#[test]
fn rejects_invalid_workspace_names() {
    assert!(!valid_workspace_name(""));
    assert!(!valid_workspace_name("bad name"));
    assert!(!valid_workspace_name("../danger"));
}

#[test]
fn expands_and_normalizes_paths_from_home_and_current_directory() {
    assert_eq!(normalize_path("~/projects/demo", "/home/tester", "/work"), "/home/tester/projects/demo");
    assert_eq!(normalize_path("./nested/workspace", "/home/tester", "/work"), "/work/nested/workspace");
    assert_eq!(normalize_path("/a/b/../c/./d", "/home/tester", "/work"), "/a/c/d");
    assert_eq!(normalize_path("~", "/home/tester", "/work"), "/home/tester");
}

#[test]
fn add_and_remove_workspaces() {
    let mut table = WorkspaceTable::new();
    add_workspace(&mut table, "alpha", "/tmp/alpha", "/home/tester", "/work", false).expect("workspace should be added");
    assert!(table.contains("alpha"));
    assert_eq!(table.path("alpha"), Some("/tmp/alpha".to_string()));
    remove_workspace(&mut table, "alpha").expect("workspace should be removed");
    assert!(!table.contains("alpha"));
}

#[test]
fn workspace_table_refuses_duplicates_unknown_and_invalid_names() {
    let mut table = WorkspaceTable::new();
    add_workspace(&mut table, "alpha", "/one", "/home/tester", "/work", false).expect("added");
    assert_eq!(
        add_workspace(&mut table, "alpha", "/two", "/home/tester", "/work", false),
        Err(WorkspaceError::AlreadyExists("alpha".to_string()))
    );
    assert_eq!(table.path("alpha"), Some("/one".to_string()));
    add_workspace(&mut table, "alpha", "/two", "/home/tester", "/work", true).expect("replaced when forced");
    assert_eq!(table.path("alpha"), Some("/two".to_string()));
    assert_eq!(remove_workspace(&mut table, "beta"), Err(WorkspaceError::Unknown("beta".to_string())));
    assert_eq!(
        add_workspace(&mut table, "bad name", "/x", "/home/tester", "/work", false),
        Err(WorkspaceError::InvalidName("bad name".to_string()))
    );
}
