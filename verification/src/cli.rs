//! The command line: which command the arguments name, where each named
//! workspace lives, and the texts the commands print.
use vstd::prelude::*;
use crate::text::{owned, push_str, str_eq};

verus! {

/// What the command line asks for.
#[derive(Debug, Clone, PartialEq, Eq)]
pub enum CliCommand {
    Dashboard,
    Doctor,
    Workspace(String),
    Project { kind: String, name: String },
    Version,
    Help,
}

pub open spec fn workspace_usage() -> Seq<char> {
    "usage: astra workspace <name>"@
}

pub open spec fn project_usage() -> Seq<char> {
    "usage: astra project <node|python|static> <name>"@
}

/// The command the arguments (after the program name) name: `dashboard`
/// when there are none; a workspace or project command needs its operands;
/// anything else is unknown.
pub open spec fn command_of(args: Seq<Seq<char>>) -> Result<CliCommandView, Seq<char>> {
    let command = if args.len() == 0 {
        "dashboard"@
    } else {
        args[0]
    };
    if command == "dashboard"@ {
        Ok(CliCommandView::Dashboard)
    } else if command == "doctor"@ {
        Ok(CliCommandView::Doctor)
    } else if command == "workspace"@ || command == "open"@ {
        if args.len() < 2 {
            Err(workspace_usage())
        } else {
            Ok(CliCommandView::Workspace(args[1]))
        }
    } else if command == "project"@ {
        if args.len() < 3 {
            Err(project_usage())
        } else {
            Ok(CliCommandView::Project(args[1], args[2]))
        }
    } else if command == "version"@ || command == "--version"@ || command == "-V"@ {
        Ok(CliCommandView::Version)
    } else if command == "help"@ || command == "--help"@ || command == "-h"@ {
        Ok(CliCommandView::Help)
    } else {
        Err("unknown command: "@ + command + "\n\nRun `astra help`."@)
    }
}

/// A command as plain values.
pub ghost enum CliCommandView {
    Dashboard,
    Doctor,
    Workspace(Seq<char>),
    Project(Seq<char>, Seq<char>),
    Version,
    Help,
}

pub open spec fn command_view(c: CliCommand) -> CliCommandView {
    match c {
        CliCommand::Dashboard => CliCommandView::Dashboard,
        CliCommand::Doctor => CliCommandView::Doctor,
        CliCommand::Workspace(w) => CliCommandView::Workspace(w@),
        CliCommand::Project { kind, name } => CliCommandView::Project(kind@, name@),
        CliCommand::Version => CliCommandView::Version,
        CliCommand::Help => CliCommandView::Help,
    }
}

/// Reads the command line (the arguments after the program name).
pub fn parse_command(args: &Vec<String>) -> (r: Result<CliCommand, String>)
    ensures
        match r {
            Ok(c) => command_of(crate::knowledge::operator::views(args@)) == Ok::<CliCommandView, Seq<char>>(
                command_view(c),
            ),
            Err(m) => command_of(crate::knowledge::operator::views(args@)) == Err::<CliCommandView, Seq<char>>(m@),
        },
{
    let command: &str = if args.len() == 0 {
        "dashboard"
    } else {
        args[0].as_str()
    };
    if str_eq(command, "dashboard") {
        Ok(CliCommand::Dashboard)
    } else if str_eq(command, "doctor") {
        Ok(CliCommand::Doctor)
    } else if str_eq(command, "workspace") || str_eq(command, "open") {
        if args.len() < 2 {
            Err(owned("usage: astra workspace <name>"))
        } else {
            Ok(CliCommand::Workspace(args[1].clone()))
        }
    } else if str_eq(command, "project") {
        if args.len() < 3 {
            Err(owned("usage: astra project <node|python|static> <name>"))
        } else {
            Ok(CliCommand::Project { kind: args[1].clone(), name: args[2].clone() })
        }
    } else if str_eq(command, "version") || str_eq(command, "--version") || str_eq(command, "-V") {
        Ok(CliCommand::Version)
    } else if str_eq(command, "help") || str_eq(command, "--help") || str_eq(command, "-h") {
        Ok(CliCommand::Help)
    } else {
        let mut m = owned("unknown command: ");
        push_str(&mut m, command);
        push_str(&mut m, "\n\nRun `astra help`.");
        Err(m)
    }
}

/// The directory, under the Astra root, of each named workspace.
pub open spec fn workspace_dir(name: Seq<char>) -> Option<Seq<char>> {
    if name == "omnia"@ {
        Some("astraeus-omnia"@)
    } else if name == "api"@ {
        Some("omnia-api-foundry"@)
    } else if name == "games"@ {
        Some("games"@)
    } else if name == "cyber"@ {
        Some("cybersecurity"@)
    } else if name == "ai"@ {
        Some("ai"@)
    } else if name == "learning"@ {
        Some("learning"@)
    } else if name == "projects"@ {
        Some("projects"@)
    } else {
        None
    }
}

/// Where a named workspace lives under the Astra root; none for an unknown
/// name.
pub fn workspace_location(root: &str, name: &str) -> (r: Option<String>)
    ensures
        match workspace_dir(name@) {
            Some(d) => r matches Some(p) && p@ == root@ + "/"@ + d,
            None => r is None,
        },
{
    let dir: &str = if str_eq(name, "omnia") {
        "astraeus-omnia"
    } else if str_eq(name, "api") {
        "omnia-api-foundry"
    } else if str_eq(name, "games") {
        "games"
    } else if str_eq(name, "cyber") {
        "cybersecurity"
    } else if str_eq(name, "ai") {
        "ai"
    } else if str_eq(name, "learning") {
        "learning"
    } else if str_eq(name, "projects") {
        "projects"
    } else {
        return None;
    };
    let mut p = owned(root);
    push_str(&mut p, "/");
    push_str(&mut p, dir);
    Some(p)
}

proof fn lemma_workspace_names()
    ensures
        "omnia"@.len() == 5 && "omnia"@[0] == 'o',
        "api"@.len() == 3 && "api"@[0] == 'a',
        "games"@.len() == 5 && "games"@[0] == 'g',
        "cyber"@.len() == 5 && "cyber"@[0] == 'c',
        "ai"@.len() == 2 && "ai"@[0] == 'a',
        "learning"@.len() == 8 && "learning"@[0] == 'l',
        "projects"@.len() == 8 && "projects"@[0] == 'p',
        "astraeus-omnia"@.len() == 14 && "astraeus-omnia"@[0] == 'a',
        "omnia-api-foundry"@.len() == 17 && "omnia-api-foundry"@[0] == 'o',
        "cybersecurity"@.len() == 13 && "cybersecurity"@[0] == 'c',
{
    reveal_strlit("omnia");
    reveal_strlit("api");
    reveal_strlit("games");
    reveal_strlit("cyber");
    reveal_strlit("ai");
    reveal_strlit("learning");
    reveal_strlit("projects");
    reveal_strlit("astraeus-omnia");
    reveal_strlit("omnia-api-foundry");
    reveal_strlit("cybersecurity");
}

/// The known workspaces and their directories under the Astra root: `omnia`
/// lives in `astraeus-omnia`, `api` in `omnia-api-foundry`, `cyber` in
/// `cybersecurity`, and `games`, `ai`, `learning` and `projects` in
/// directories of their own names; no other name is a workspace.
pub proof fn law_workspace_directories(name: Seq<char>)
    ensures
        workspace_dir("omnia"@) == Some("astraeus-omnia"@),
        workspace_dir("api"@) == Some("omnia-api-foundry"@),
        workspace_dir("games"@) == Some("games"@),
        workspace_dir("cyber"@) == Some("cybersecurity"@),
        workspace_dir("ai"@) == Some("ai"@),
        workspace_dir("learning"@) == Some("learning"@),
        workspace_dir("projects"@) == Some("projects"@),
        workspace_dir(name) is Some <==> (name == "omnia"@ || name == "api"@ || name == "games"@ || name == "cyber"@
            || name == "ai"@ || name == "learning"@ || name == "projects"@),
{
    lemma_workspace_names();
}

/// Different workspaces live in different directories.
pub proof fn law_workspace_directories_distinct(a: Seq<char>, b: Seq<char>)
    requires
        workspace_dir(a) is Some,
        workspace_dir(b) is Some,
        a != b,
    ensures
        workspace_dir(a) != workspace_dir(b),
{
    lemma_workspace_names();
}

/// The README a new project starts with.
pub fn project_readme(name: &str) -> (r: String)
    ensures
        r@ == "# "@ + name@ + "\n\nCreated with AstraOS.\n"@,
{
    let mut r = owned("# ");
    push_str(&mut r, name);
    push_str(&mut r, "\n\nCreated with AstraOS.\n");
    r
}

} // verus!
