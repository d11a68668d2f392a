use astra::terminal::invocation::CommandInvocation;
use astra::terminal::launch::{
    bounded_text, status_label, LaunchAction, LaunchDriver, LaunchEvent, LaunchPhase, ProcessOutput,
    RunOutcome,
};
use astra::terminal::layout::{
    describe_layout, direction_name, validate_layout, PaneLayout, SplitDirection, TabLayout,
    TerminalError, WorkspaceLayout,
};
use astra::terminal::plan::{build_launch_plan, LaunchConfig, LaunchPlan};
use astra::terminal::wezterm::{direction_argument, parse_pane_id, LaunchSummary};
use std::collections::VecDeque;

fn base_config(workspace_path: &str) -> LaunchConfig {
    LaunchConfig {
        terminal_command: "wezterm".to_string(),
        editor_command: "code".to_string(),
        workspaces: vec![("project".to_string(), workspace_path.to_string())],
        layouts: vec![(
            "rust-development".to_string(),
            WorkspaceLayout {
                editor: false,
                ollama: false,
                tabs: vec![TabLayout {
                    name: "development".to_string(),
                    command: Vec::new(),
                    panes: Vec::new(),
                }],
            },
        )],
    }
}

fn layout_mut<'a>(config: &'a mut LaunchConfig, name: &str) -> &'a mut WorkspaceLayout {
    &mut config
        .layouts
        .iter_mut()
        .find(|(n, _)| n == name)
        .expect("layout")
        .1
}

#[test]
fn workspace_and_layout_names_may_differ() {
    let plan = build_launch_plan(&base_config("/work/project"), "project", Some("rust-development"), true)
        .expect("different names should be supported");

    assert_eq!(plan.workspace_name(), "project");
    assert_eq!(plan.layout_name(), "rust-development");
    assert_eq!(plan.mux_workspace(), "astra:project");
    assert_eq!(plan.workspace_path(), "/work/project");
}

#[test]
fn omitted_layout_resolves_same_name_default() {
    let mut config = base_config("/work/project");
    let (_, layout) = config.layouts.remove(0);
    config.layouts.push(("project".to_string(), layout));

    let plan = build_launch_plan(&config, "project", None, true).expect("default layout");
    assert_eq!(plan.layout_name(), "project");
}

#[test]
fn omitted_layout_reports_missing_default() {
    let error = build_launch_plan(&base_config("/work/project"), "project", None, true)
        .expect_err("same-name layout is absent");

    assert!(matches!(
        &error,
        TerminalError::MissingDefaultLayout { workspace, layout }
            if workspace == "project" && layout == "project"
    ));
    assert!(error.message().contains("--layout"));
}

#[test]
fn unknown_workspace_and_missing_directory_are_reported() {
    let config = base_config("/work/project");
    assert_eq!(
        build_launch_plan(&config, "other", Some("rust-development"), true).expect_err("unknown"),
        TerminalError::UnknownWorkspace("other".to_string())
    );
    assert_eq!(
        build_launch_plan(&config, "project", Some("missing"), true).expect_err("unknown layout"),
        TerminalError::UnknownLayout("missing".to_string())
    );
    assert_eq!(
        build_launch_plan(&config, "project", Some("rust-development"), false)
            .expect_err("missing directory"),
        TerminalError::WorkspaceDirectory("/work/project".to_string())
    );
}

#[test]
fn pane_forward_reference_is_rejected() {
    let mut config = base_config("/work/project");
    layout_mut(&mut config, "rust-development").tabs[0]
        .panes
        .push(PaneLayout {
            target: 1,
            direction: SplitDirection::Right,
            percent: 45,
            command: Vec::new(),
        });

    let error = build_launch_plan(&config, "project", Some("rust-development"), true)
        .expect_err("forward target must fail");
    assert!(error.message().contains("only panes 0..0"));
}

#[test]
fn pane_targets_are_scoped_to_each_tab() {
    let mut config = base_config("/work/project");
    let layout = layout_mut(&mut config, "rust-development");
    layout.tabs[0].panes.push(PaneLayout {
        target: 0,
        direction: SplitDirection::Right,
        percent: 45,
        command: Vec::new(),
    });
    layout.tabs.push(TabLayout {
        name: "second".to_string(),
        command: Vec::new(),
        panes: vec![PaneLayout {
            target: 1,
            direction: SplitDirection::Bottom,
            percent: 50,
            command: Vec::new(),
        }],
    });

    let error = build_launch_plan(&config, "project", Some("rust-development"), true)
        .expect_err("a second tab cannot target the first tab's pane 1");
    assert!(error.message().contains("tab 1 pane 1"));
}

#[test]
fn zero_and_one_hundred_percent_splits_are_rejected() {
    for percent in [0, 100] {
        let mut config = base_config("/work/project");
        layout_mut(&mut config, "rust-development").tabs[0]
            .panes
            .push(PaneLayout {
                target: 0,
                direction: SplitDirection::Right,
                percent,
                command: Vec::new(),
            });

        assert!(
            build_launch_plan(&config, "project", Some("rust-development"), true).is_err(),
            "{percent}% should be invalid"
        );
    }
}

#[test]
fn empty_additional_pane_command_is_a_default_shell() {
    let mut config = base_config("/work/project");
    layout_mut(&mut config, "rust-development").tabs[0]
        .panes
        .push(PaneLayout {
            target: 0,
            direction: SplitDirection::Right,
            percent: 45,
            command: Vec::new(),
        });

    let plan = build_launch_plan(&config, "project", Some("rust-development"), true)
        .expect("empty command should be valid");
    assert!(plan.tabs[0].panes[0].command.is_empty());
}

#[test]
fn layout_validation_messages_are_exact() {
    let empty = WorkspaceLayout {
        editor: false,
        ollama: false,
        tabs: Vec::new(),
    };
    assert_eq!(
        validate_layout("empty", &empty),
        Err(TerminalError::InvalidConfiguration {
            layout: "empty".to_string(),
            message: "at least one tab is required".to_string()
        })
    );
    let unnamed = WorkspaceLayout {
        editor: false,
        ollama: false,
        tabs: vec![TabLayout {
            name: "  ".to_string(),
            command: Vec::new(),
            panes: Vec::new(),
        }],
    };
    assert_eq!(
        validate_layout("unnamed", &unnamed),
        Err(TerminalError::InvalidConfiguration {
            layout: "unnamed".to_string(),
            message: "tab 0 must have a name".to_string()
        })
    );
    let split = WorkspaceLayout {
        editor: false,
        ollama: false,
        tabs: vec![TabLayout {
            name: "dev".to_string(),
            command: Vec::new(),
            panes: vec![PaneLayout {
                target: 0,
                direction: SplitDirection::Left,
                percent: 95,
                command: Vec::new(),
            }],
        }],
    };
    assert_eq!(
        validate_layout("split", &split),
        Err(TerminalError::InvalidConfiguration {
            layout: "split".to_string(),
            message: "tab 0 pane 1 split percent 95 is outside the supported 10..=90 range".to_string()
        })
    );
}

#[test]
fn describe_layout_lists_tabs_and_panes() {
    let layouts = vec![(
        "rust".to_string(),
        WorkspaceLayout {
            editor: true,
            ollama: false,
            tabs: vec![TabLayout {
                name: "dev".to_string(),
                command: vec!["cargo".to_string(), "check".to_string()],
                panes: vec![PaneLayout {
                    target: 0,
                    direction: SplitDirection::Right,
                    percent: 40,
                    command: Vec::new(),
                }],
            }],
        },
    )];
    let text = describe_layout(&layouts, "rust").expect("description");
    assert!(text.contains("rust"));
    assert!(text.contains("dev"));
    assert!(text.ends_with('\n'));
    assert_eq!(
        describe_layout(&layouts, "other"),
        Err(TerminalError::UnknownLayout("other".to_string()))
    );
}

struct FakeRun {
    success: bool,
    stdout: String,
    stderr: String,
}

fn output(success: bool, stdout: &str, stderr: &str) -> FakeRun {
    FakeRun {
        success,
        stdout: stdout.to_string(),
        stderr: stderr.to_string(),
    }
}

#[derive(Default)]
struct Recorded {
    invocations: Vec<CommandInvocation>,
    starts: Vec<CommandInvocation>,
    sleeps: usize,
    checks: Vec<String>,
}

fn parse_listing(stdout: &str) -> Result<Vec<(u64, String)>, String> {
    let value: serde_json::Value = serde_json::from_str(stdout).map_err(|e| e.to_string())?;
    let entries = value.as_array().ok_or_else(|| "not an array".to_string())?;
    let mut panes = Vec::new();
    for entry in entries {
        let id = entry["pane_id"].as_u64().ok_or_else(|| "pane_id".to_string())?;
        let workspace = entry["workspace"]
            .as_str()
            .ok_or_else(|| "workspace".to_string())?
            .to_string();
        panes.push((id, workspace));
    }
    Ok(panes)
}

fn drive(
    plan: LaunchPlan,
    outputs: Vec<FakeRun>,
    attempts: usize,
    recorded: &mut Recorded,
) -> Result<LaunchSummary, TerminalError> {
    let mut outputs: VecDeque<FakeRun> = outputs.into_iter().collect();
    let (mut driver, mut action) = LaunchDriver::new(plan, attempts, 0);
    loop {
        let event = match action {
            LaunchAction::Finish(result) => return result,
            LaunchAction::CheckExecutable(name) => {
                recorded.checks.push(name);
                LaunchEvent::Available(true)
            }
            LaunchAction::Sleep(_) => {
                recorded.sleeps += 1;
                LaunchEvent::Slept
            }
            LaunchAction::Start(invocation) => {
                recorded.starts.push(invocation);
                LaunchEvent::Started(Ok(()))
            }
            LaunchAction::Run(invocation) => {
                recorded.invocations.push(invocation);
                let outcome_and_text = match outputs.pop_front() {
                    Some(run) => (
                        RunOutcome::Finished(ProcessOutput {
                            success: run.success,
                            exit_code: Some(if run.success { 0 } else { 1 }),
                            stdout: run.stdout.as_bytes().to_vec(),
                            stderr: run.stderr.as_bytes().to_vec(),
                            timed_out: false,
                        }),
                        run.stdout,
                    ),
                    None => (RunOutcome::Failed("unexpected invocation".to_string()), String::new()),
                };
                let (outcome, stdout) = outcome_and_text;
                if matches!(driver.phase, LaunchPhase::ListInitial | LaunchPhase::Discover(_)) {
                    LaunchEvent::Listed(outcome, parse_listing(&stdout))
                } else {
                    LaunchEvent::Ran(outcome)
                }
            }
        };
        action = driver.step(event);
    }
}

fn plan_with(terminal: &str, panes: Vec<PaneLayout>) -> LaunchPlan {
    let config = LaunchConfig {
        terminal_command: terminal.to_string(),
        editor_command: "code".to_string(),
        workspaces: vec![("project".to_string(), "/work/project".to_string())],
        layouts: vec![(
            "rust".to_string(),
            WorkspaceLayout {
                editor: false,
                ollama: false,
                tabs: vec![TabLayout {
                    name: "dev".to_string(),
                    command: vec!["cargo".to_string(), "check all".to_string()],
                    panes,
                }],
            },
        )],
    };
    build_launch_plan(&config, "project", Some("rust"), true).expect("valid plan")
}

fn has_pair(arguments: &[String], first: &str, second: &str) -> bool {
    arguments
        .windows(2)
        .any(|pair| pair[0] == first && pair[1] == second)
}

#[test]
fn direct_spawn_pane_id_is_used() {
    let plan = plan_with("wezterm", Vec::new());
    let mut recorded = Recorded::default();
    let summary = drive(
        plan,
        vec![output(true, "[]", ""), output(true, "42\n", ""), output(true, "", "")],
        1,
        &mut recorded,
    )
    .expect("launch");

    assert_eq!(summary.pane_count, 1);
    assert_eq!(summary.mux_workspace, "astra:project");
    assert!(has_pair(&recorded.invocations[2].arguments, "--pane-id", "42"));
}

#[test]
fn direct_split_pane_id_is_used_and_arguments_stay_separate() {
    let pane = PaneLayout {
        target: 0,
        direction: SplitDirection::Right,
        percent: 45,
        command: vec!["cargo".to_string(), "watch all".to_string()],
    };
    let plan = plan_with("wezterm", vec![pane]);
    let mut recorded = Recorded::default();
    let summary = drive(
        plan,
        vec![
            output(true, "[]", ""),
            output(true, "42", ""),
            output(true, "", ""),
            output(true, "84\n", ""),
        ],
        1,
        &mut recorded,
    )
    .expect("launch");

    assert_eq!(summary.pane_count, 2);
    let split = &recorded.invocations[3];
    assert!(has_pair(&split.arguments, "--pane-id", "42"));
    assert_eq!(
        &split.arguments[split.arguments.len() - 3..],
        ["--", "cargo", "watch all"]
    );
}

#[test]
fn existing_mux_workspace_is_rejected() {
    let plan = plan_with("wezterm", Vec::new());
    let mut recorded = Recorded::default();
    let error = drive(
        plan,
        vec![output(
            true,
            r#"[{"pane_id":7,"workspace":"astra:project"}]"#,
            "",
        )],
        1,
        &mut recorded,
    )
    .expect_err("existing workspace");

    assert!(matches!(error, TerminalError::ExistingMuxWorkspace(name) if name == "astra:project"));
    assert_eq!(recorded.invocations.len(), 1);
}

#[test]
fn ambiguous_initial_discovery_stops_launch() {
    let plan = plan_with("wezterm", Vec::new());
    let mut recorded = Recorded::default();
    let error = drive(
        plan,
        vec![
            output(false, "", "no mux"),
            output(false, "", "no mux"),
            output(
                true,
                r#"[
                    {"pane_id":7,"workspace":"astra:project"},
                    {"pane_id":8,"workspace":"astra:project"}
                ]"#,
                "",
            ),
        ],
        1,
        &mut recorded,
    )
    .expect_err("ambiguous discovery");

    assert!(matches!(
        error,
        TerminalError::PartialLaunchFailure { source, .. }
            if matches!(*source, TerminalError::AmbiguousStartupDiscovery { candidates: 2, .. })
    ));
    assert_eq!(recorded.starts.len(), 1);
    assert_eq!(recorded.invocations.len(), 3);
}

#[test]
fn startup_discovery_timeout_is_typed_and_uses_zero_delay_in_tests() {
    let plan = plan_with("wezterm", Vec::new());
    let mut recorded = Recorded::default();
    let error = drive(
        plan,
        vec![
            output(false, "", "no mux"),
            output(false, "", "no mux"),
            output(true, "[]", ""),
            output(true, "[]", ""),
        ],
        2,
        &mut recorded,
    )
    .expect_err("discovery should time out");

    assert!(matches!(
        error,
        TerminalError::PartialLaunchFailure { source, .. }
            if matches!(*source, TerminalError::StartupDiscoveryTimeout { .. })
    ));
    assert_eq!(recorded.sleeps, 1);
}

#[test]
fn partial_failure_stops_subsequent_operations() {
    let pane = PaneLayout {
        target: 0,
        direction: SplitDirection::Right,
        percent: 45,
        command: Vec::new(),
    };
    let plan = plan_with("wezterm", vec![pane]);
    let mut recorded = Recorded::default();
    let error = drive(
        plan,
        vec![
            output(true, "[]", ""),
            output(true, "42", ""),
            output(false, "", "title failure"),
            output(true, "84", ""),
        ],
        1,
        &mut recorded,
    )
    .expect_err("title failure should stop launch");

    assert!(matches!(
        &error,
        TerminalError::PartialLaunchFailure { operation, .. }
            if operation == "name tab 0"
    ));
    assert_eq!(recorded.invocations.len(), 3);
    assert!(error.message().contains("partial WezTerm layout may remain"));
    assert!(error.message().contains("title failure"));
}

#[test]
fn unavailable_terminal_stops_before_any_command() {
    let plan = plan_with("wezterm", Vec::new());
    let (mut driver, action) = LaunchDriver::new(plan, 1, 0);
    assert!(matches!(action, LaunchAction::CheckExecutable(ref name) if name == "wezterm"));
    let next = driver.step(LaunchEvent::Available(false));
    assert!(matches!(
        next,
        LaunchAction::Finish(Err(TerminalError::ExecutableUnavailable(ref name))) if name == "wezterm"
    ));
}

#[test]
fn pane_id_parser_rejects_empty_malformed_and_ambiguous_output() {
    for value in [b"".as_slice(), b"abc".as_slice(), b"1 2".as_slice()] {
        assert!(parse_pane_id("test", value).is_err());
    }
    assert_eq!(parse_pane_id("test", b"91\n").expect("pane ID"), 91);
}

#[test]
fn dry_run_is_deterministic_and_executes_nothing() {
    let terminal = "/Applications/WezTerm Dev.app/Contents/MacOS/wezterm";
    let plan = plan_with(terminal, Vec::new());

    let first = plan.render_dry_run();
    let second = plan.render_dry_run();

    assert_eq!(first, second);
    assert!(first.contains(r#"exec="/Applications/WezTerm Dev.app/Contents/MacOS/wezterm""#));
    assert!(first.contains(r#""check all""#));
}

#[test]
fn dry_run_includes_only_explicitly_enabled_editor_and_ollama() {
    let mut plan = plan_with("wezterm", Vec::new());

    let disabled = plan.render_dry_run();
    assert!(!disabled.contains("start configured editor"));
    assert!(!disabled.contains("start explicitly enabled Ollama"));

    plan.editor_enabled = true;
    plan.ollama_enabled = true;
    let enabled = plan.render_dry_run();
    assert!(enabled.contains("start configured editor"));
    assert!(enabled.contains(r#"exec="code""#));
    assert!(enabled.contains("start explicitly enabled Ollama"));
    assert!(enabled.contains(r#"exec="brew" args=["services","start","ollama"]"#));
}

#[test]
fn direction_mapping_is_explicit() {
    assert_eq!(direction_argument(SplitDirection::Left), "--left");
    assert_eq!(direction_argument(SplitDirection::Right), "--right");
    assert_eq!(direction_argument(SplitDirection::Top), "--top");
    assert_eq!(direction_argument(SplitDirection::Bottom), "--bottom");
    assert_eq!(direction_name(SplitDirection::Bottom), "bottom");
}

#[test]
fn bounded_error_text_is_trimmed_and_marked_when_cut() {
    assert_eq!(bounded_text(b"  boom \n"), "boom");
    assert_eq!(bounded_text(b"   "), "no error output");
    let long = vec![b'x'; 5000];
    let text = bounded_text(&long);
    assert!(text.ends_with('…'));
    assert_eq!(text.chars().count(), 4097);
}

#[test]
fn status_labels_name_codes_and_signals() {
    assert_eq!(status_label(Some(0)), "0");
    assert_eq!(status_label(Some(-3)), "-3");
    assert_eq!(status_label(None), "terminated by signal");
}

#[test]
fn terminal_error_messages_nest_their_cause() {
    let error = TerminalError::PartialLaunchFailure {
        operation: "name tab 0".to_string(),
        source: Box::new(TerminalError::CommandTimedOut {
            operation: "name tab 0".to_string(),
        }),
    };
    assert_eq!(
        error.message(),
        "launch failed during 'name tab 0': operation 'name tab 0' timed out; a partial WezTerm layout may remain"
    );
}
