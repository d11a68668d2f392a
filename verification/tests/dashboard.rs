use astra::dashboard::format::{format_bytes, format_duration, format_usage, merge_service_status, truncate_text};
use astra::dashboard::state::{DashboardState, InputAction, KeyCode};
use astra::system::model::ServiceStatus;

fn entries(pairs: &[(&str, &str)]) -> Vec<(String, String)> {
    pairs.iter().map(|(name, path)| (name.to_string(), path.to_string())).collect()
}

#[test]
fn formats_human_readable_bytes_and_usage() {
    assert_eq!(format_bytes(512), "512 B");
    assert_eq!(format_bytes(1_610_612_736), "1.5 GB");
    assert_eq!(format_usage(6 * 1024 * 1024 * 1024, 16 * 1024 * 1024 * 1024), "6.0 GB / 16.0 GB");
}

#[test]
fn formats_uptime_without_overflowing_units() {
    assert_eq!(format_duration(90), "1m");
    assert_eq!(format_duration(2 * 86_400 + 3 * 3_600 + 4 * 60), "2d 3h 4m");
}

#[test]
fn truncates_unicode_without_slicing_utf8_bytes() {
    assert_eq!(truncate_text("workspace", 6), "works…");
    assert_eq!(truncate_text("Astra 🚀 workspace", 8), "Astra 🚀…");
    assert_eq!(truncate_text("🚀", 1), "🚀");
    assert_eq!(truncate_text("🚀x", 1), "…");
    assert_eq!(truncate_text("anything", 0), "");
}

#[test]
fn formats_small_and_exact_sizes() {
    assert_eq!(format_bytes(0), "0 B");
    assert_eq!(format_bytes(1024), "1.0 KB");
    assert_eq!(format_bytes(1536), "1.5 KB");
    assert_eq!(format_bytes(1024 * 1024), "1.0 MB");
    assert_eq!(format_duration(0), "0m");
    assert_eq!(format_duration(3_600), "1h 0m");
}

#[test]
fn service_statuses_keep_the_last_known_value() {
    assert_eq!(merge_service_status(ServiceStatus::Running, ServiceStatus::Unknown), ServiceStatus::Running);
    assert_eq!(merge_service_status(ServiceStatus::Running, ServiceStatus::Stopped), ServiceStatus::Stopped);
}

#[test]
fn initial_state_requests_refresh_and_selects_first_workspace() {
    let state = DashboardState::new(&entries(&[("beta", "/b"), ("alpha", "/a")]));
    assert!(state.should_refresh(Some(0)));
    assert_eq!(state.selected_workspace(), Some(0));
    assert_eq!(state.workspaces()[0].name, "alpha");
}

#[test]
fn refresh_schedule_uses_metrics_interval() {
    let mut state = DashboardState::new(&entries(&[]));
    state.complete_refresh();
    assert!(!state.should_refresh(Some(astra::dashboard::state::METRICS_REFRESH_INTERVAL_MS / 2)));
    assert!(state.should_refresh(Some(astra::dashboard::state::METRICS_REFRESH_INTERVAL_MS)));
}

#[test]
fn manual_refresh_is_immediately_due_and_forces_services() {
    let mut state = DashboardState::new(&entries(&[]));
    state.complete_refresh();
    assert_eq!(state.handle_key(KeyCode::Char('r')), InputAction::Refresh);
    assert!(state.should_refresh(Some(0)));
    assert!(state.force_service_refresh());
}

#[test]
fn quit_keys_exit() {
    let mut state = DashboardState::new(&entries(&[]));
    assert_eq!(state.handle_key(KeyCode::Char('q')), InputAction::Quit);
    assert_eq!(state.handle_key(KeyCode::Esc), InputAction::Quit);
}

#[test]
fn selection_is_safe_for_empty_and_single_registries() {
    let mut empty = DashboardState::new(&entries(&[]));
    assert_eq!(empty.handle_key(KeyCode::Down), InputAction::Ignored);
    assert_eq!(empty.selected_workspace(), None);

    let mut single = DashboardState::new(&entries(&[("only", "/only")]));
    assert_eq!(single.handle_key(KeyCode::Down), InputAction::Ignored);
    assert_eq!(single.handle_key(KeyCode::Up), InputAction::Ignored);
    assert_eq!(single.selected_workspace(), Some(0));
}

#[test]
fn selection_stays_within_multiple_workspace_bounds() {
    let mut state = DashboardState::new(&entries(&[("alpha", "/a"), ("beta", "/b"), ("gamma", "/g")]));
    assert_eq!(state.handle_key(KeyCode::Down), InputAction::Redraw);
    assert_eq!(state.handle_key(KeyCode::Char('j')), InputAction::Redraw);
    assert_eq!(state.handle_key(KeyCode::Down), InputAction::Ignored);
    assert_eq!(state.selected_workspace(), Some(2));

    assert_eq!(state.handle_key(KeyCode::Char('k')), InputAction::Redraw);
    assert_eq!(state.handle_key(KeyCode::Up), InputAction::Redraw);
    assert_eq!(state.handle_key(KeyCode::Up), InputAction::Ignored);
    assert_eq!(state.selected_workspace(), Some(0));
}

#[test]
fn selection_tracks_name_and_clamps_when_registry_changes() {
    let mut state = DashboardState::new(&entries(&[("alpha", "/a"), ("beta", "/b"), ("gamma", "/g")]));
    state.handle_key(KeyCode::Down);
    state.handle_key(KeyCode::Down);

    state.update_workspaces(&entries(&[("beta", "/new-b"), ("gamma", "/new-g")]));
    assert_eq!(state.selected_workspace(), Some(1));
    assert_eq!(state.workspaces()[1].name, "gamma");

    state.update_workspaces(&entries(&[("alpha", "/a")]));
    assert_eq!(state.selected_workspace(), Some(0));
}

#[test]
fn deterministic_workspace_order_does_not_depend_on_input_order() {
    let state = DashboardState::new(&entries(&[("zeta", "/z"), ("alpha", "/a"), ("middle", "/m")]));
    let names = state.workspaces().iter().map(|workspace| workspace.name.as_str()).collect::<Vec<_>>();
    assert_eq!(names, ["alpha", "middle", "zeta"]);
}

#[test]
fn selected_path_falls_back_to_the_root() {
    let empty = DashboardState::new(&entries(&[]));
    assert_eq!(empty.selected_filesystem_path(), "/");
    let state = DashboardState::new(&entries(&[("alpha", "/a")]));
    assert_eq!(state.selected_filesystem_path(), "/a");
}

#[test]
fn workspace_list_holds_each_entry_once_in_order() {
    let mut state = DashboardState::new(&entries(&[("gamma", "/g"), ("alpha", "/a"), ("beta", "/b")]));
    state.update_workspaces(&entries(&[("delta", "/d"), ("alpha", "/a2"), ("alpha", "/a1")]));
    let listed = state
        .workspaces()
        .iter()
        .map(|workspace| (workspace.name.as_str(), workspace.path.as_str()))
        .collect::<Vec<_>>();
    assert_eq!(listed, vec![("alpha", "/a1"), ("alpha", "/a2"), ("delta", "/d")]);
}
