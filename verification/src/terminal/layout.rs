//! Workspace layouts: tabs of panes, each split from an earlier pane, and
//! their validation and description.
use vstd::prelude::*;
use crate::knowledge::operator::views;
use crate::terminal::invocation::{command_json, json_string_array};
use crate::text::{decimal, is_blank, lines_text, owned, push_decimal, push_str, str_blank, str_eq};
use crate::terminal::plan::{find_named, position_of_name};

verus! {

pub const MIN_SPLIT_PERCENT: u16 = 10;
pub const MAX_SPLIT_PERCENT: u16 = 90;

#[derive(Debug, Clone, Copy, PartialEq, Eq, Structural)]
pub enum SplitDirection {
    Left,
    Right,
    Top,
    Bottom,
}

#[derive(Debug, Clone, PartialEq, Eq)]
pub struct PaneLayout {
    pub target: usize,
    pub direction: SplitDirection,
    pub percent: u16,
    pub command: Vec<String>,
}

#[derive(Debug, Clone, PartialEq, Eq)]
pub struct TabLayout {
    pub name: String,
    pub command: Vec<String>,
    pub panes: Vec<PaneLayout>,
}

#[derive(Debug, Clone, PartialEq, Eq)]
pub struct WorkspaceLayout {
    pub editor: bool,
    pub ollama: bool,
    pub tabs: Vec<TabLayout>,
}

/// Why a terminal workspace could not be planned or launched.
#[derive(Debug, PartialEq, Eq)]
pub enum TerminalError {
    UnknownWorkspace(String),
    UnknownLayout(String),
    MissingDefaultLayout { workspace: String, layout: String },
    InvalidConfiguration { layout: String, message: String },
    WorkspaceDirectory(String),
    ExecutableUnavailable(String),
    MuxUnavailable { stderr: String },
    ExistingMuxWorkspace(String),
    CommandFailed { operation: String, status: String, stderr: String },
    CommandTimedOut { operation: String },
    ProcessExecution { operation: String, message: String },
    MalformedOutput { operation: String, message: String },
    StartupDiscoveryTimeout { workspace: String },
    AmbiguousStartupDiscovery { workspace: String, candidates: usize },
    PartialLaunchFailure { operation: String, source: Box<TerminalError> },
}

impl TerminalError {
    /// The text of the error as the user reads it.
    pub open spec fn message_spec(&self) -> Seq<char>
        decreases self,
    {
        match self {
            TerminalError::UnknownWorkspace(w) => "unknown workspace: "@ + w@,
            TerminalError::UnknownLayout(l) => "unknown workspace layout: "@ + l@,
            TerminalError::MissingDefaultLayout { workspace, layout } => "workspace layout '"@ + layout@
                + "' was not found for workspace '"@ + workspace@
                + "'; pass --layout <layout-name> to select a different layout"@,
            TerminalError::InvalidConfiguration { layout, message } => "invalid workspace layout '"@ + layout@
                + "': "@ + message@,
            TerminalError::WorkspaceDirectory(p) => "workspace directory is unavailable: "@ + p@,
            TerminalError::ExecutableUnavailable(e) => "terminal executable is unavailable: "@ + e@,
            TerminalError::MuxUnavailable { stderr } =>
                "WezTerm CLI is available, but no GUI or mux server is reachable: "@ + stderr@,
            TerminalError::ExistingMuxWorkspace(w) => "WezTerm mux workspace already exists: "@ + w@,
            TerminalError::CommandFailed { operation, status, stderr } => "operation '"@ + operation@
                + "' failed with exit status "@ + status@ + ": "@ + stderr@,
            TerminalError::CommandTimedOut { operation } => "operation '"@ + operation@ + "' timed out"@,
            TerminalError::ProcessExecution { operation, message } => "could not execute '"@ + operation@
                + "': "@ + message@,
            TerminalError::MalformedOutput { operation, message } => "malformed output from '"@ + operation@
                + "': "@ + message@,
            TerminalError::StartupDiscoveryTimeout { workspace } =>
                "timed out discovering the initial pane for WezTerm workspace '"@ + workspace@ + "'"@,
            TerminalError::AmbiguousStartupDiscovery { workspace, candidates } =>
                "initial pane discovery for WezTerm workspace '"@ + workspace@ + "' was ambiguous ("@
                + decimal(*candidates as nat) + " candidates)"@,
            TerminalError::PartialLaunchFailure { operation, source } => "launch failed during '"@ + operation@
                + "': "@ + source.message_spec() + "; a partial WezTerm layout may remain"@,
        }
    }

    pub fn message(&self) -> (r: String)
        ensures
            r@ == self.message_spec(),
        decreases self,
    {
        let mut r = String::new();
        match self {
            TerminalError::UnknownWorkspace(w) => {
                push_str(&mut r, "unknown workspace: ");
                push_str(&mut r, w.as_str());
            },
            TerminalError::UnknownLayout(l) => {
                push_str(&mut r, "unknown workspace layout: ");
                push_str(&mut r, l.as_str());
            },
            TerminalError::MissingDefaultLayout { workspace, layout } => {
                push_str(&mut r, "workspace layout '");
                push_str(&mut r, layout.as_str());
                push_str(&mut r, "' was not found for workspace '");
                push_str(&mut r, workspace.as_str());
                push_str(&mut r, "'; pass --layout <layout-name> to select a different layout");
            },
            TerminalError::InvalidConfiguration { layout, message } => {
                push_str(&mut r, "invalid workspace layout '");
                push_str(&mut r, layout.as_str());
                push_str(&mut r, "': ");
                push_str(&mut r, message.as_str());
            },
            TerminalError::WorkspaceDirectory(p) => {
                push_str(&mut r, "workspace directory is unavailable: ");
                push_str(&mut r, p.as_str());
            },
            TerminalError::ExecutableUnavailable(e) => {
                push_str(&mut r, "terminal executable is unavailable: ");
                push_str(&mut r, e.as_str());
            },
            TerminalError::MuxUnavailable { stderr } => {
                push_str(&mut r, "WezTerm CLI is available, but no GUI or mux server is reachable: ");
                push_str(&mut r, stderr.as_str());
            },
            TerminalError::ExistingMuxWorkspace(w) => {
                push_str(&mut r, "WezTerm mux workspace already exists: ");
                push_str(&mut r, w.as_str());
            },
            TerminalError::CommandFailed { operation, status, stderr } => {
                push_str(&mut r, "operation '");
                push_str(&mut r, operation.as_str());
                push_str(&mut r, "' failed with exit status ");
                push_str(&mut r, status.as_str());
                push_str(&mut r, ": ");
                push_str(&mut r, stderr.as_str());
            },
            TerminalError::CommandTimedOut { operation } => {
                push_str(&mut r, "operation '");
                push_str(&mut r, operation.as_str());
                push_str(&mut r, "' timed out");
            },
            TerminalError::ProcessExecution { operation, message } => {
                push_str(&mut r, "could not execute '");
                push_str(&mut r, operation.as_str());
                push_str(&mut r, "': ");
                push_str(&mut r, message.as_str());
            },
            TerminalError::MalformedOutput { operation, message } => {
                push_str(&mut r, "malformed output from '");
                push_str(&mut r, operation.as_str());
                push_str(&mut r, "': ");
                push_str(&mut r, message.as_str());
            },
            TerminalError::StartupDiscoveryTimeout { workspace } => {
                push_str(&mut r, "timed out discovering the initial pane for WezTerm workspace '");
                push_str(&mut r, workspace.as_str());
                push_str(&mut r, "'");
            },
            TerminalError::AmbiguousStartupDiscovery { workspace, candidates } => {
                push_str(&mut r, "initial pane discovery for WezTerm workspace '");
                push_str(&mut r, workspace.as_str());
                push_str(&mut r, "' was ambiguous (");
                push_decimal(&mut r, *candidates as u64);
                push_str(&mut r, " candidates)");
            },
            TerminalError::PartialLaunchFailure { operation, source } => {
                push_str(&mut r, "launch failed during '");
                push_str(&mut r, operation.as_str());
                push_str(&mut r, "': ");
                let inner = source.message();
                push_str(&mut r, inner.as_str());
                push_str(&mut r, "; a partial WezTerm layout may remain");
            },
        }
        r
    }
}

pub open spec fn direction_name_spec(d: SplitDirection) -> Seq<char> {
    match d {
        SplitDirection::Left => "left"@,
        SplitDirection::Right => "right"@,
        SplitDirection::Top => "top"@,
        SplitDirection::Bottom => "bottom"@,
    }
}

pub fn direction_name(d: SplitDirection) -> (r: &'static str)
    ensures
        r@ == direction_name_spec(d),
{
    match d {
        SplitDirection::Left => "left",
        SplitDirection::Right => "right",
        SplitDirection::Top => "top",
        SplitDirection::Bottom => "bottom",
    }
}

/// A command whose executable, if given, is not empty.
pub open spec fn command_ok(c: Seq<String>) -> bool {
    !(c.len() > 0 && c[0]@.len() == 0)
}

pub open spec fn pane_label(tab: nat, pane: nat) -> Seq<char> {
    "tab "@ + decimal(tab) + " pane "@ + decimal(pane)
}

/// The problem with the `k`-th additional pane of tab `tab`, if any.
pub open spec fn pane_problem(tab: nat, k: nat, p: PaneLayout) -> Option<Seq<char>> {
    let j = k + 1;
    if p.target >= j {
        Some(pane_label(tab, j) + " targets pane "@ + decimal(p.target as nat) + ", but only panes 0.."@
            + decimal(k) + " have been created"@)
    } else if p.percent < MIN_SPLIT_PERCENT || p.percent > MAX_SPLIT_PERCENT {
        Some(pane_label(tab, j) + " split percent "@ + decimal(p.percent as nat)
            + " is outside the supported 10..=90 range"@)
    } else if !command_ok(p.command@) {
        Some(pane_label(tab, j) + " command executable must not be empty"@)
    } else {
        None
    }
}

pub open spec fn panes_problem(tab: nat, panes: Seq<PaneLayout>, k: nat) -> Option<Seq<char>>
    decreases panes.len() - k,
{
    if k >= panes.len() {
        None
    } else {
        match pane_problem(tab, k, panes[k as int]) {
            Some(m) => Some(m),
            None => panes_problem(tab, panes, k + 1),
        }
    }
}

pub open spec fn tab_problem(i: nat, t: TabLayout) -> Option<Seq<char>> {
    if is_blank(t.name@) {
        Some("tab "@ + decimal(i) + " must have a name"@)
    } else if !command_ok(t.command@) {
        Some("tab "@ + decimal(i) + " command executable must not be empty"@)
    } else {
        panes_problem(i, t.panes@, 0)
    }
}

pub open spec fn tabs_problem(tabs: Seq<TabLayout>, i: nat) -> Option<Seq<char>>
    decreases tabs.len() - i,
{
    if i >= tabs.len() {
        None
    } else {
        match tab_problem(i, tabs[i as int]) {
            Some(m) => Some(m),
            None => tabs_problem(tabs, i + 1),
        }
    }
}

pub proof fn lemma_tabs_problem_none(tabs: Seq<TabLayout>, start: nat, i: nat)
    requires
        tabs_problem(tabs, start) is None,
        start <= i < tabs.len(),
    ensures
        panes_problem(i, tabs[i as int].panes@, 0) is None,
    decreases i - start,
{
    if start < i {
        lemma_tabs_problem_none(tabs, start + 1, i);
    }
}

pub proof fn lemma_panes_problem_none(tab: nat, panes: Seq<PaneLayout>, start: nat, k: nat)
    requires
        panes_problem(tab, panes, start) is None,
        start <= k < panes.len(),
    ensures
        panes[k as int].target <= k,
    decreases k - start,
{
    if start < k {
        lemma_panes_problem_none(tab, panes, start + 1, k);
    }
}

/// The first problem of a layout, in tab and pane order.
pub open spec fn layout_problem(l: WorkspaceLayout) -> Option<Seq<char>> {
    if l.tabs@.len() == 0 {
        Some("at least one tab is required"@)
    } else {
        tabs_problem(l.tabs@, 0)
    }
}

fn command_valid(c: &Vec<String>) -> (r: bool)
    ensures
        r == command_ok(c@),
{
    !(c.len() > 0 && c[0].as_str().unicode_len() == 0)
}

fn check_pane(tab: usize, k: usize, p: &PaneLayout) -> (r: Option<String>)
    requires
        k < usize::MAX,
    ensures
        r is None <==> pane_problem(tab as nat, k as nat, *p) is None,
        r matches Some(m) ==> Some(m@) == pane_problem(tab as nat, k as nat, *p),
{
    let j = k + 1;
    let mut m = owned("tab ");
    push_decimal(&mut m, tab as u64);
    push_str(&mut m, " pane ");
    push_decimal(&mut m, j as u64);
    if p.target >= j {
        push_str(&mut m, " targets pane ");
        push_decimal(&mut m, p.target as u64);
        push_str(&mut m, ", but only panes 0..");
        push_decimal(&mut m, k as u64);
        push_str(&mut m, " have been created");
        return Some(m);
    }
    if p.percent < MIN_SPLIT_PERCENT || p.percent > MAX_SPLIT_PERCENT {
        push_str(&mut m, " split percent ");
        push_decimal(&mut m, p.percent as u64);
        push_str(&mut m, " is outside the supported 10..=90 range");
        return Some(m);
    }
    if !command_valid(&p.command) {
        push_str(&mut m, " command executable must not be empty");
        return Some(m);
    }
    None
}

fn check_tab(i: usize, t: &TabLayout) -> (r: Option<String>)
    ensures
        r is None <==> tab_problem(i as nat, *t) is None,
        r matches Some(m) ==> Some(m@) == tab_problem(i as nat, *t),
{
    if str_blank(t.name.as_str()) {
        let mut m = owned("tab ");
        push_decimal(&mut m, i as u64);
        push_str(&mut m, " must have a name");
        return Some(m);
    }
    if !command_valid(&t.command) {
        let mut m = owned("tab ");
        push_decimal(&mut m, i as u64);
        push_str(&mut m, " command executable must not be empty");
        return Some(m);
    }
    let mut k: usize = 0;
    while k < t.panes.len()
        invariant
            k <= t.panes@.len(),
            !is_blank(t.name@),
            command_ok(t.command@),
            panes_problem(i as nat, t.panes@, 0) == panes_problem(i as nat, t.panes@, k as nat),
        decreases t.panes@.len() - k,
    {
        match check_pane(i, k, &t.panes[k]) {
            Some(m) => {
                return Some(m);
            },
            None => {},
        }
        k = k + 1;
    }
    None
}

/// Checks a layout: at least one tab; every tab named; every pane split from
/// a pane created before it, at 10 to 90 percent; no empty executable.
pub fn validate_layout(layout_name: &str, layout: &WorkspaceLayout) -> (r: Result<(), TerminalError>)
    ensures
        r is Ok <==> layout_problem(*layout) is None,
        r matches Err(e) ==> e matches TerminalError::InvalidConfiguration { layout: l, message: m }
            && l@ == layout_name@ && Some(m@) == layout_problem(*layout),
{
    if layout.tabs.len() == 0 {
        return Err(
            TerminalError::InvalidConfiguration {
                layout: owned(layout_name),
                message: owned("at least one tab is required"),
            },
        );
    }
    let mut i: usize = 0;
    while i < layout.tabs.len()
        invariant
            i <= layout.tabs@.len(),
            tabs_problem(layout.tabs@, 0) == tabs_problem(layout.tabs@, i as nat),
        decreases layout.tabs@.len() - i,
    {
        match check_tab(i, &layout.tabs[i]) {
            Some(m) => {
                return Err(TerminalError::InvalidConfiguration { layout: owned(layout_name), message: m });
            },
            None => {},
        }
        i = i + 1;
    }
    Ok(())
}

/// How a command is shown: `default shell` when none is given, else its JSON.
pub open spec fn command_text(c: Seq<Seq<char>>, json: Option<Seq<char>>) -> Seq<char> {
    if c.len() == 0 {
        "default shell"@
    } else {
        match json {
            Some(j) => j,
            None => "[invalid command]"@,
        }
    }
}

fn render_command(command: &Vec<String>) -> (r: String)
    ensures
        r@ == command_text(views(command@), json_string_array(views(command@))),
{
    if command.len() == 0 {
        return owned("default shell");
    }
    match command_json(command) {
        Some(s) => s,
        None => owned("[invalid command]"),
    }
}

pub open spec fn enabled_text(b: bool) -> Seq<char> {
    if b {
        "enabled"@
    } else {
        "disabled"@
    }
}

/// A command as a description shows it.
pub open spec fn rendered_command(command: Seq<String>) -> Seq<char> {
    command_text(views(command), json_string_array(views(command)))
}

/// The description lines of a tab and its panes.
pub open spec fn tab_description(i: nat, t: TabLayout) -> Seq<Seq<char>> {
    seq!["Tab "@ + decimal(i) + ": "@ + t.name@ + " — "@ + rendered_command(t.command@)] + Seq::new(
        t.panes@.len(),
        |k: int|
            "  Pane "@ + decimal((k + 1) as nat) + ": split "@ + direction_name_spec(t.panes@[k].direction) + " from "@
                + decimal(t.panes@[k].target as nat) + " at "@ + decimal(t.panes@[k].percent as nat) + "% — "@
                + rendered_command(t.panes@[k].command@),
    )
}

/// The description lines of the first `n` tabs.
pub open spec fn tabs_description(tabs: Seq<TabLayout>, n: nat) -> Seq<Seq<char>>
    decreases n,
{
    if n == 0 {
        Seq::empty()
    } else {
        tabs_description(tabs, (n - 1) as nat) + tab_description((n - 1) as nat, tabs[n - 1])
    }
}

/// The description of a layout: its name, its switches, then its tabs.
pub open spec fn layout_description(name: Seq<char>, layout: WorkspaceLayout) -> Seq<Seq<char>> {
    seq!["Layout: "@ + name, "Editor: "@ + enabled_text(layout.editor), "Ollama: "@ + enabled_text(layout.ollama)]
        + tabs_description(layout.tabs@, layout.tabs@.len())
}

fn push_line(out: &mut String, line: &str, Ghost(lines): Ghost<Seq<Seq<char>>>)
    requires
        old(out)@ == lines_text(lines),
    ensures
        final(out)@ == lines_text(lines.push(line@)),
{
    push_str(out, line);
    push_str(out, "\n");
    assert(lines.push(line@).drop_last() =~= lines);
}

/// The layout named, validated and described: its switches, then each tab and
/// its panes with their commands.
pub fn describe_layout(layouts: &Vec<(String, WorkspaceLayout)>, layout_name: &str) -> (r: Result<String, TerminalError>)
    ensures
        match find_named(layouts@, layout_name@) {
            None => r matches Err(e) && e matches TerminalError::UnknownLayout(n) && n@ == layout_name@,
            Some(i) => match layout_problem(layouts@[i].1) {
                Some(m) => r matches Err(e) && e matches TerminalError::InvalidConfiguration { layout: l, message }
                    && l@ == layout_name@ && message@ == m,
                None => r matches Ok(text) && text@ == lines_text(layout_description(layout_name@, layouts@[i].1)),
            },
        },
{
    let k = match position_of_name(layouts, layout_name) {
        Some(k) => k,
        None => {
            return Err(TerminalError::UnknownLayout(owned(layout_name)));
        },
    };
    let layout = &layouts[k].1;
    validate_layout(layout_name, layout)?;
    let mut output = String::new();
    let ghost mut lines: Seq<Seq<char>> = Seq::empty();
    let mut line = owned("Layout: ");
    push_str(&mut line, layout_name);
    push_line(&mut output, line.as_str(), Ghost(lines));
    proof { lines = lines.push(line@); }
    let mut line = owned("Editor: ");
    push_str(&mut line, if layout.editor { "enabled" } else { "disabled" });
    push_line(&mut output, line.as_str(), Ghost(lines));
    proof { lines = lines.push(line@); }
    let mut line = owned("Ollama: ");
    push_str(&mut line, if layout.ollama { "enabled" } else { "disabled" });
    push_line(&mut output, line.as_str(), Ghost(lines));
    proof { lines = lines.push(line@); }
    let ghost head = lines;
    assert(head =~= seq!["Layout: "@ + layout_name@, "Editor: "@ + enabled_text(layout.editor), "Ollama: "@ + enabled_text(layout.ollama)]);
    let mut t: usize = 0;
    while t < layout.tabs.len()
        invariant
            t <= layout.tabs@.len(),
            output@ == lines_text(lines),
            lines == head + tabs_description(layout.tabs@, t as nat),
        decreases layout.tabs@.len() - t,
    {
        let tab = &layout.tabs[t];
        let ghost before = lines;
        let mut line = owned("Tab ");
        push_decimal(&mut line, t as u64);
        push_str(&mut line, ": ");
        push_str(&mut line, tab.name.as_str());
        push_str(&mut line, " — ");
        let rc = render_command(&tab.command);
        push_str(&mut line, rc.as_str());
        push_line(&mut output, line.as_str(), Ghost(lines));
        proof { lines = lines.push(line@); }
        let mut p: usize = 0;
        while p < tab.panes.len()
            invariant
                p <= tab.panes@.len(),
                t < layout.tabs@.len(),
                *tab == layout.tabs@[t as int],
                output@ == lines_text(lines),
                lines == before + tab_description(t as nat, *tab).take(p + 1),
            decreases tab.panes@.len() - p,
        {
            let pane = &tab.panes[p];
            let mut line = owned("  Pane ");
            push_decimal(&mut line, (p as u64) + 1);
            push_str(&mut line, ": split ");
            push_str(&mut line, direction_name(pane.direction));
            push_str(&mut line, " from ");
            push_decimal(&mut line, pane.target as u64);
            push_str(&mut line, " at ");
            push_decimal(&mut line, pane.percent as u64);
            push_str(&mut line, "% — ");
            let pc = render_command(&pane.command);
            push_str(&mut line, pc.as_str());
            push_line(&mut output, line.as_str(), Ghost(lines));
            proof {
                lines = lines.push(line@);
                assert(tab_description(t as nat, *tab).take(p + 2) =~= tab_description(t as nat, *tab).take(p + 1).push(line@));
            }
            p = p + 1;
        }
        assert(tab_description(t as nat, *tab).take(tab.panes@.len() + 1 as int) =~= tab_description(t as nat, *tab));
        assert(tabs_description(layout.tabs@, (t + 1) as nat) == tabs_description(layout.tabs@, t as nat) + tab_description(t as nat, *tab));
        assert(lines =~= head + tabs_description(layout.tabs@, (t + 1) as nat));
        t = t + 1;
    }
    Ok(output)
}

} // verus!
