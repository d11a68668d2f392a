//! Launch plans: a validated layout bound to a registered workspace, the
//! terminal commands that realise it, and their dry-run description.
use vstd::prelude::*;
use crate::knowledge::operator::{clone_strings, views};
use crate::terminal::invocation::{
    append_command, command_args, invocation_is, push_arg, render_spec, CommandInvocation,
};
use crate::terminal::layout::{
    layout_problem, validate_layout, PaneLayout, SplitDirection, TabLayout, TerminalError, WorkspaceLayout,
};
use crate::text::{decimal, is_blank, lines_text, owned, push_decimal, push_str, str_blank, str_eq};

verus! {

/// What a launch is planned from: the configured terminal and editor
/// commands, the registered workspaces by name, and the named layouts.
pub struct LaunchConfig {
    pub terminal_command: String,
    pub editor_command: String,
    pub workspaces: Vec<(String, String)>,
    pub layouts: Vec<(String, WorkspaceLayout)>,
}

/// The first entry with the name.
pub open spec fn find_named<T>(entries: Seq<(String, T)>, name: Seq<char>) -> Option<int>
    decreases entries.len(),
{
    if entries.len() == 0 {
        None
    } else {
        match find_named(entries.drop_last(), name) {
            Some(i) => Some(i),
            None => if entries.last().0@ == name {
                Some(entries.len() - 1)
            } else {
                None
            },
        }
    }
}

proof fn lemma_find_named_extends<T>(entries: Seq<(String, T)>, k: int, name: Seq<char>)
    requires
        0 <= k <= entries.len(),
        find_named(entries.take(k), name) is Some,
    ensures
        find_named(entries, name) == find_named(entries.take(k), name),
    decreases entries.len() - k,
{
    if k < entries.len() {
        assert(entries.take(k + 1).drop_last() =~= entries.take(k));
        lemma_find_named_extends(entries, k + 1, name);
    } else {
        assert(entries.take(k) =~= entries);
    }
}

proof fn lemma_find_named_found<T>(entries: Seq<(String, T)>, name: Seq<char>)
    ensures
        find_named(entries, name) matches Some(i) ==> 0 <= i < entries.len() && entries[i].0@ == name,
    decreases entries.len(),
{
    if entries.len() > 0 {
        lemma_find_named_found(entries.drop_last(), name);
    }
}

/// Where the name is first registered.
pub(crate) fn position_of_name<T>(entries: &Vec<(String, T)>, name: &str) -> (r: Option<usize>)
    ensures
        r matches Some(i) ==> find_named(entries@, name@) == Some(i as int) && i < entries@.len()
            && entries@[i as int].0@ == name@,
        r is None ==> find_named(entries@, name@) is None,
{
    let mut i: usize = 0;
    assert(entries@.take(0) =~= Seq::<(String, T)>::empty());
    while i < entries.len()
        invariant
            i <= entries@.len(),
            find_named(entries@.take(i as int), name@) is None,
        decreases entries@.len() - i,
    {
        assert(entries@.take(i + 1).drop_last() =~= entries@.take(i as int));
        if str_eq(entries[i].0.as_str(), name) {
            proof {
                lemma_find_named_extends(entries@, i + 1, name@);
            }
            return Some(i);
        }
        i = i + 1;
    }
    assert(entries@.take(entries@.len() as int) =~= entries@);
    None
}

/// One additional pane of a planned tab.
#[derive(Debug, Clone)]
pub struct PlanPane {
    pub target: usize,
    pub direction: SplitDirection,
    pub percent: u16,
    pub command: Vec<String>,
}

/// One planned tab.
#[derive(Debug, Clone)]
pub struct PlanTab {
    pub name: String,
    pub command: Vec<String>,
    pub panes: Vec<PlanPane>,
}

/// A workspace launch: the terminal and editor to use, the workspace and its
/// directory, the mux workspace it becomes, and the tabs to create.
#[derive(Debug, Clone)]
pub struct LaunchPlan {
    pub terminal: String,
    pub editor: String,
    pub workspace_name: String,
    pub layout_name: String,
    pub mux_workspace: String,
    pub workspace_path: String,
    pub editor_enabled: bool,
    pub ollama_enabled: bool,
    pub tabs: Vec<PlanTab>,
}

/// A plan's tabs are those of the layout, field by field.
pub open spec fn tabs_match(tabs: Seq<PlanTab>, layout: Seq<TabLayout>) -> bool {
    &&& tabs.len() == layout.len()
    &&& forall|i: int| 0 <= i < tabs.len() ==> #[trigger] tab_matches(tabs[i], layout[i])
}

pub open spec fn tab_matches(t: PlanTab, l: TabLayout) -> bool {
    &&& t.name@ == l.name@
    &&& t.command@ == l.command@
    &&& t.panes@.len() == l.panes@.len()
    &&& forall|k: int| 0 <= k < t.panes@.len() ==> #[trigger] pane_matches(t.panes@[k], l.panes@[k])
}

pub open spec fn pane_matches(p: PlanPane, l: PaneLayout) -> bool {
    &&& p.target == l.target
    &&& p.direction == l.direction
    &&& p.percent == l.percent
    &&& p.command@ == l.command@
}

/// A plan that can be launched: at least one tab, and every pane split from a
/// pane of its tab created before it.
pub open spec fn plan_wf(plan: LaunchPlan) -> bool {
    &&& plan.tabs@.len() > 0
    &&& forall|i: int, k: int| 0 <= i < plan.tabs@.len() && 0 <= k < plan.tabs@[i].panes@.len()
        ==> (#[trigger] plan.tabs@[i].panes@[k]).target <= k
}

/// The name of the mux workspace of a workspace.
pub open spec fn mux_name(workspace: Seq<char>) -> Seq<char> {
    "astra:"@ + workspace
}

/// What planning a launch gives: the workspace must be registered and its
/// directory present; the requested layout, or the one named like the
/// workspace, must exist and be valid; the terminal command, and the editor
/// command where the layout starts the editor, must not be blank.
pub open spec fn plan_outcome(
    config: LaunchConfig,
    workspace_name: Seq<char>,
    requested_layout: Option<Seq<char>>,
    workspace_is_directory: bool,
    r: Result<LaunchPlan, TerminalError>,
) -> bool {
    match find_named(config.workspaces@, workspace_name) {
        None => r matches Err(e) && e matches TerminalError::UnknownWorkspace(n) && n@ == workspace_name,
        Some(w) => {
            let path = config.workspaces@[w].1@;
            let layout_name = match requested_layout {
                Some(l) => l,
                None => workspace_name,
            };
            if !workspace_is_directory {
                r matches Err(e) && e matches TerminalError::WorkspaceDirectory(p) && p@ == path
            } else {
                match find_named(config.layouts@, layout_name) {
                    None => if requested_layout is Some {
                        r matches Err(e) && e matches TerminalError::UnknownLayout(n) && n@ == layout_name
                    } else {
                        r matches Err(e) && e matches TerminalError::MissingDefaultLayout { workspace, layout }
                            && workspace@ == workspace_name && layout@ == layout_name
                    },
                    Some(li) => {
                        let layout = config.layouts@[li].1;
                        match layout_problem(layout) {
                            Some(m) => r matches Err(e) && e matches TerminalError::InvalidConfiguration { layout: l, message }
                                && l@ == layout_name && message@ == m,
                            None => if is_blank(config.terminal_command@) {
                                r matches Err(e) && e matches TerminalError::InvalidConfiguration { layout: l, message }
                                    && l@ == layout_name && message@ == "terminal.command must not be empty"@
                            } else if layout.editor && is_blank(config.editor_command@) {
                                r matches Err(e) && e matches TerminalError::InvalidConfiguration { layout: l, message }
                                    && l@ == layout_name && message@ == "editor.command must not be empty when editor = true"@
                            } else {
                                r matches Ok(plan) && {
                                    &&& plan.terminal@ == config.terminal_command@
                                    &&& plan.editor@ == config.editor_command@
                                    &&& plan.workspace_name@ == workspace_name
                                    &&& plan.layout_name@ == layout_name
                                    &&& plan.mux_workspace@ == mux_name(workspace_name)
                                    &&& plan.workspace_path@ == path
                                    &&& plan.editor_enabled == layout.editor
                                    &&& plan.ollama_enabled == layout.ollama
                                    &&& tabs_match(plan.tabs@, layout.tabs@)
                                    &&& plan_wf(plan)
                                }
                            },
                        }
                    },
                }
            }
        },
    }
}

/// The directory registered for a workspace.
pub fn workspace_path(config: &LaunchConfig, workspace_name: &str) -> (r: Result<String, TerminalError>)
    ensures
        find_named(config.workspaces@, workspace_name@) matches Some(w) ==> (r matches Ok(p) && p@ == config.workspaces@[w].1@),
        find_named(config.workspaces@, workspace_name@) is None ==> (r matches Err(e)
            && e matches TerminalError::UnknownWorkspace(n) && n@ == workspace_name@),
{
    match position_of_name(&config.workspaces, workspace_name) {
        Some(w) => Ok(config.workspaces[w].1.clone()),
        None => Err(TerminalError::UnknownWorkspace(owned(workspace_name))),
    }
}

fn copy_panes(panes: &Vec<PaneLayout>) -> (r: Vec<PlanPane>)
    ensures
        r@.len() == panes@.len(),
        forall|k: int| 0 <= k < r@.len() ==> #[trigger] pane_matches(r@[k], panes@[k]),
{
    let mut r: Vec<PlanPane> = Vec::new();
    let mut k: usize = 0;
    while k < panes.len()
        invariant
            k <= panes@.len(),
            r@.len() == k,
            forall|j: int| 0 <= j < k ==> #[trigger] pane_matches(r@[j], panes@[j]),
        decreases panes@.len() - k,
    {
        let p = &panes[k];
        r.push(PlanPane { target: p.target, direction: p.direction, percent: p.percent, command: clone_strings(&p.command) });
        k = k + 1;
    }
    r
}

fn copy_tabs(tabs: &Vec<TabLayout>) -> (r: Vec<PlanTab>)
    ensures
        tabs_match(r@, tabs@),
{
    let mut r: Vec<PlanTab> = Vec::new();
    let mut i: usize = 0;
    while i < tabs.len()
        invariant
            i <= tabs@.len(),
            r@.len() == i,
            forall|j: int| 0 <= j < i ==> #[trigger] tab_matches(r@[j], tabs@[j]),
        decreases tabs@.len() - i,
    {
        let t = &tabs[i];
        r.push(PlanTab { name: t.name.clone(), command: clone_strings(&t.command), panes: copy_panes(&t.panes) });
        i = i + 1;
    }
    r
}

/// Plans the launch of a registered workspace. `workspace_is_directory` says
/// whether the workspace's registered directory exists.
pub fn build_launch_plan(
    config: &LaunchConfig,
    workspace_name: &str,
    requested_layout: Option<&str>,
    workspace_is_directory: bool,
) -> (r: Result<LaunchPlan, TerminalError>)
    ensures
        plan_outcome(
            *config,
            workspace_name@,
            match requested_layout {
                Some(l) => Some(l@),
                None => None,
            },
            workspace_is_directory,
            r,
        ),
{
    let w = match position_of_name(&config.workspaces, workspace_name) {
        Some(w) => w,
        None => {
            return Err(TerminalError::UnknownWorkspace(owned(workspace_name)));
        },
    };
    if !workspace_is_directory {
        return Err(TerminalError::WorkspaceDirectory(config.workspaces[w].1.clone()));
    }
    let layout_name: &str = match requested_layout {
        Some(l) => l,
        None => workspace_name,
    };
    let li = match position_of_name(&config.layouts, layout_name) {
        Some(li) => li,
        None => {
            return Err(
                match requested_layout {
                    Some(_) => TerminalError::UnknownLayout(owned(layout_name)),
                    None => TerminalError::MissingDefaultLayout {
                        workspace: owned(workspace_name),
                        layout: owned(layout_name),
                    },
                },
            );
        },
    };
    let layout = &config.layouts[li].1;
    validate_layout(layout_name, layout)?;
    proof {
        lemma_find_named_found(config.layouts@, layout_name@);
        lemma_valid_layout_targets(*layout);
    }
    if str_blank(config.terminal_command.as_str()) {
        return Err(
            TerminalError::InvalidConfiguration {
                layout: owned(layout_name),
                message: owned("terminal.command must not be empty"),
            },
        );
    }
    if layout.editor && str_blank(config.editor_command.as_str()) {
        return Err(
            TerminalError::InvalidConfiguration {
                layout: owned(layout_name),
                message: owned("editor.command must not be empty when editor = true"),
            },
        );
    }
    let mut mux = owned("astra:");
    push_str(&mut mux, workspace_name);
    let tabs = copy_tabs(&layout.tabs);
    proof {
        assert forall|i: int, k: int| 0 <= i < tabs@.len() && 0 <= k < tabs@[i].panes@.len()
            implies (#[trigger] tabs@[i].panes@[k]).target <= k by {
            assert(tab_matches(tabs@[i], layout.tabs@[i]));
            assert(pane_matches(tabs@[i].panes@[k], layout.tabs@[i].panes@[k]));
        }
    }
    Ok(LaunchPlan {
        terminal: config.terminal_command.clone(),
        editor: config.editor_command.clone(),
        workspace_name: owned(workspace_name),
        layout_name: owned(layout_name),
        mux_workspace: mux,
        workspace_path: config.workspaces[w].1.clone(),
        editor_enabled: layout.editor,
        ollama_enabled: layout.ollama,
        tabs,
    })
}

proof fn lemma_valid_layout_targets(layout: WorkspaceLayout)
    requires
        layout_problem(layout) is None,
    ensures
        layout.tabs@.len() > 0,
        forall|i: int, k: int| 0 <= i < layout.tabs@.len() && 0 <= k < layout.tabs@[i].panes@.len()
            ==> (#[trigger] layout.tabs@[i].panes@[k]).target <= k,
{
    assert forall|i: int, k: int| 0 <= i < layout.tabs@.len() && 0 <= k < layout.tabs@[i].panes@.len()
        implies (#[trigger] layout.tabs@[i].panes@[k]).target <= k by {
        crate::terminal::layout::lemma_tabs_problem_none(layout.tabs@, 0, i as nat);
        crate::terminal::layout::lemma_panes_problem_none(i as nat, layout.tabs@[i].panes@, 0, k as nat);
    }
}

impl LaunchPlan {
    pub fn workspace_name(&self) -> (r: &str)
        ensures
            r@ == self.workspace_name@,
    {
        self.workspace_name.as_str()
    }

    pub fn layout_name(&self) -> (r: &str)
        ensures
            r@ == self.layout_name@,
    {
        self.layout_name.as_str()
    }

    pub fn mux_workspace(&self) -> (r: &str)
        ensures
            r@ == self.mux_workspace@,
    {
        self.mux_workspace.as_str()
    }

    pub fn workspace_path(&self) -> (r: &str)
        ensures
            r@ == self.workspace_path@,
    {
        self.workspace_path.as_str()
    }

    /// What a launch of this plan would run, one numbered step per line,
    /// without running anything.
    pub fn render_dry_run(&self) -> (r: String)
        requires
            plan_wf(*self),
        ensures
            r@ == lines_text(crate::terminal::wezterm::dry_run_lines(*self)),
    {
        crate::terminal::wezterm::render_dry_run(self)
    }
}

} // verus!
