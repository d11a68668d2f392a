use astra::cli::{parse_command, project_readme, workspace_location, CliCommand};
use astra::system::model::disk_snapshot;

fn args(values: &[&str]) -> Vec<String> {
    values.iter().map(|v| v.to_string()).collect()
}

#[test]
fn no_arguments_opens_the_dashboard() {
    assert_eq!(parse_command(&args(&[])), Ok(CliCommand::Dashboard));
    assert_eq!(parse_command(&args(&["doctor"])), Ok(CliCommand::Doctor));
    assert_eq!(parse_command(&args(&["-V"])), Ok(CliCommand::Version));
    assert_eq!(parse_command(&args(&["--help"])), Ok(CliCommand::Help));
}

#[test]
fn workspace_and_project_commands_need_their_operands() {
    assert_eq!(
        parse_command(&args(&["open", "ai"])),
        Ok(CliCommand::Workspace("ai".to_string()))
    );
    assert_eq!(
        parse_command(&args(&["workspace"])),
        Err("usage: astra workspace <name>".to_string())
    );
    assert_eq!(
        parse_command(&args(&["project", "node", "demo"])),
        Ok(CliCommand::Project { kind: "node".to_string(), name: "demo".to_string() })
    );
    assert_eq!(
        parse_command(&args(&["project", "node"])),
        Err("usage: astra project <node|python|static> <name>".to_string())
    );
    assert_eq!(
        parse_command(&args(&["frobnicate"])),
        Err("unknown command: frobnicate\n\nRun `astra help`.".to_string())
    );
}

#[test]
fn named_workspaces_live_under_the_root() {
    assert_eq!(
        workspace_location("/home/me/Developer", "omnia"),
        Some("/home/me/Developer/astraeus-omnia".to_string())
    );
    assert_eq!(
        workspace_location("/r", "cyber"),
        Some("/r/cybersecurity".to_string())
    );
    assert_eq!(workspace_location("/r", "unknown"), None);
    assert_eq!(project_readme("demo"), "# demo\n\nCreated with AstraOS.\n");
}

#[test]
fn the_deepest_mount_holding_the_path_is_chosen() {
    let disks = vec![
        ("/".to_string(), 100, 40),
        ("/Volumes/data".to_string(), 50, 60),
        ("/Volumes/dat".to_string(), 10, 1),
    ];
    let snapshot = disk_snapshot(&disks, "/Volumes/data/projects").expect("disk");
    assert_eq!(snapshot.mount_point, "/Volumes/data");
    assert_eq!(snapshot.used_bytes, 0);
    assert_eq!(snapshot.total_bytes, 50);
    let root = disk_snapshot(&disks, "/Users/me").expect("root disk");
    assert_eq!(root.mount_point, "/");
    assert_eq!(root.used_bytes, 60);
    assert_eq!(disk_snapshot(&vec![("/".to_string(), 0, 0)], "/x"), None);
    assert_eq!(disk_snapshot(&vec![("/data".to_string(), 5, 1)], "relative"), None);
}
