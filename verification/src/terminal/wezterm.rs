//! What the terminal's CLI prints: pane identifiers.
use vstd::prelude::*;
use crate::knowledge::operator::views;
use crate::terminal::invocation::{
    append_command, command_args, invocation_is, json_string, json_string_array, or_text, push_arg,
    render_spec, CommandInvocation,
};
use crate::terminal::layout::{SplitDirection, TerminalError};
use crate::terminal::plan::{plan_wf, LaunchPlan, PlanPane};
use crate::text::{decimal, lines_text};
use crate::text::{chars_of, char_is_whitespace, is_whitespace, owned, parse_u64, parse_u64_spec, push_str, trim, trim_chars, utf8_text, is_ascii_digit};

verus! {

/// The outcome of a launch.
#[derive(Debug, Clone, PartialEq, Eq)]
pub struct LaunchSummary {
    pub workspace: String,
    pub layout: String,
    pub mux_workspace: String,
    pub pane_count: usize,
}

pub open spec fn has_inner_space(s: Seq<char>) -> bool {
    exists|i: int| 0 <= i < s.len() && is_whitespace(#[trigger] s[i])
}

/// The pane identifier of a command's output: one decimal number, surrounded
/// by whitespace at most.
pub open spec fn pane_id_of(stdout: Seq<u8>) -> Option<u64> {
    if !vstd::utf8::valid_utf8(stdout) {
        None
    } else {
        let t = trim(vstd::utf8::decode_utf8(stdout));
        if t.len() == 0 || has_inner_space(t) {
            None
        } else {
            parse_u64_spec(t)
        }
    }
}

/// What `std::fmt::Debug` writes for a string: the quoted, escaped form.
pub uninterp spec fn debug_string(value: Seq<char>) -> Seq<char>;

/// Formats a string with `std::fmt::Debug`. Trusted: the text is the named
/// function of the string's characters.
#[verifier::external_body]
fn debug_quoted(s: &str) -> (r: String)
    ensures
        r@ == debug_string(s@),
{
    format!("{s:?}")
}

/// Reads one pane identifier; anything else is malformed output of the operation.
pub fn parse_pane_id(operation: &str, stdout: &[u8]) -> (r: Result<u64, TerminalError>)
    ensures
        r is Ok <==> pane_id_of(stdout@) is Some,
        r matches Ok(id) ==> pane_id_of(stdout@) == Some(id),
        r matches Err(e) ==> e matches TerminalError::MalformedOutput { operation: o, message: _ } && o@ == operation@,
{
    let text = match utf8_text(stdout) {
        Ok(t) => t,
        Err(detail) => {
            let mut m = owned("output was not UTF-8: ");
            push_str(&mut m, detail.as_str());
            return Err(TerminalError::MalformedOutput { operation: owned(operation), message: m });
        },
    };
    let chars = chars_of(text);
    let trimmed = trim_chars(chars.as_slice());
    let mut i: usize = 0;
    let mut spaced = false;
    while i < trimmed.len()
        invariant
            i <= trimmed@.len(),
            spaced == exists|j: int| 0 <= j < i && is_whitespace(#[trigger] trimmed@[j]),
        decreases trimmed@.len() - i,
    {
        if char_is_whitespace(trimmed[i]) {
            spaced = true;
        }
        i = i + 1;
    }
    if trimmed.len() == 0 || spaced {
        return Err(
            TerminalError::MalformedOutput {
                operation: owned(operation),
                message: owned("expected exactly one pane ID"),
            },
        );
    }
    match parse_u64(trimmed.as_slice()) {
        Some(v) => Ok(v),
        None => {
            let shown = crate::text::string_from_chars(trimmed.as_slice());
            let mut m = owned("invalid pane ID ");
            push_str(&mut m, debug_quoted(shown.as_str()).as_str());
            push_str(&mut m, ": ");
            push_str(&mut m, parse_error_text(trimmed.as_slice()));
            Err(TerminalError::MalformedOutput { operation: owned(operation), message: m })
        },
    }
}

/// The digits of a word after an optional leading `+`.
pub open spec fn unsigned_digits(s: Seq<char>) -> Seq<char> {
    if s.len() > 0 && s[0] == '+' {
        s.drop_first()
    } else {
        s
    }
}

/// The text of the error `u64`'s parser reports for a word it refuses: a word
/// of digits only (after an optional `+`) is too large, anything else holds
/// an invalid digit.
pub open spec fn parse_error_spec(s: Seq<char>) -> Seq<char> {
    let d = unsigned_digits(s);
    if d.len() > 0 && forall|i: int| 0 <= i < d.len() ==> '0' <= #[trigger] d[i] <= '9' {
        "number too large to fit in target type"@
    } else {
        "invalid digit found in string"@
    }
}

/// The text of the error `u64`'s parser reports for a non-empty word it refuses.
fn parse_error_text(s: &[char]) -> (r: &'static str)
    ensures
        r@ == parse_error_spec(s@),
{
    proof {
        reveal_strlit("number too large to fit in target type");
        reveal_strlit("invalid digit found in string");
    }
    let start: usize = if s.len() > 0 && s[0] == '+' { 1 } else { 0 };
    let ghost d = unsigned_digits(s@);
    assert(d =~= s@.subrange(start as int, s@.len() as int));
    if start >= s.len() {
        return "invalid digit found in string";
    }
    let mut i = start;
    while i < s.len()
        invariant
            start <= i <= s@.len(),
            d == unsigned_digits(s@),
            d =~= s@.subrange(start as int, s@.len() as int),
            forall|k: int| start <= k < i ==> '0' <= #[trigger] s@[k] <= '9',
        decreases s@.len() - i,
    {
        if !('0' <= s[i] && s[i] <= '9') {
            proof {
                reveal_strlit("invalid digit found in string");
            }
            assert(d[i - start] == s@[i as int]);
            return "invalid digit found in string";
        }
        i = i + 1;
    }
    assert forall|k: int| 0 <= k < d.len() implies '0' <= #[trigger] d[k] <= '9' by {
        assert(d[k] == s@[k + start]);
    }
    "number too large to fit in target type"
}

/// The placeholder of a pane not yet created, in a dry run.
pub open spec fn placeholder(tab: nat, pane: nat) -> Seq<char> {
    "<pane:"@ + decimal(tab) + ":"@ + decimal(pane) + ">"@
}

pub fn pane_placeholder(tab: usize, pane: usize) -> (r: String)
    ensures
        r@ == placeholder(tab as nat, pane as nat),
{
    let mut r = owned("<pane:");
    crate::text::push_decimal(&mut r, tab as u64);
    push_str(&mut r, ":");
    crate::text::push_decimal(&mut r, pane as u64);
    push_str(&mut r, ">");
    r
}

/// How an invocation of this executable and these arguments is shown.
pub open spec fn shown(executable: Seq<char>, arguments: Seq<Seq<char>>) -> Seq<char> {
    "exec="@ + or_text(json_string(executable), "\"<invalid>\""@) + " args="@ + or_text(
        json_string_array(arguments),
        "[\"<invalid>\"]"@,
    ) + " cwd="@ + "null"@
}

pub open spec fn list_args() -> Seq<Seq<char>> {
    seq!["cli"@, "list"@, "--format"@, "json"@]
}

pub open spec fn spawn_initial_args(plan: LaunchPlan) -> Seq<Seq<char>> {
    seq!["cli"@, "spawn"@, "--new-window"@, "--workspace"@, plan.mux_workspace@, "--cwd"@, plan.workspace_path@]
        + command_args(views(plan.tabs@[0].command@))
}

pub open spec fn start_args(plan: LaunchPlan) -> Seq<Seq<char>> {
    seq!["start"@, "--workspace"@, plan.mux_workspace@, "--cwd"@, plan.workspace_path@] + command_args(
        views(plan.tabs@[0].command@),
    )
}

pub open spec fn spawn_tab_args(plan: LaunchPlan, pane_id: Seq<char>, command: Seq<Seq<char>>) -> Seq<Seq<char>> {
    seq!["cli"@, "spawn"@, "--pane-id"@, pane_id, "--cwd"@, plan.workspace_path@] + command_args(command)
}

pub open spec fn direction_argument_spec(d: SplitDirection) -> Seq<char> {
    match d {
        SplitDirection::Left => "--left"@,
        SplitDirection::Right => "--right"@,
        SplitDirection::Top => "--top"@,
        SplitDirection::Bottom => "--bottom"@,
    }
}

pub open spec fn split_args(plan: LaunchPlan, target_id: Seq<char>, pane: PlanPane) -> Seq<Seq<char>> {
    seq![
        "cli"@,
        "split-pane"@,
        "--pane-id"@,
        target_id,
        direction_argument_spec(pane.direction),
        "--percent"@,
        decimal(pane.percent as nat),
        "--cwd"@,
        plan.workspace_path@,
    ] + command_args(views(pane.command@))
}

pub open spec fn set_tab_title_args(pane_id: Seq<char>, title: Seq<char>) -> Seq<Seq<char>> {
    seq!["cli"@, "set-tab-title"@, "--pane-id"@, pane_id, title]
}

pub open spec fn ollama_args() -> Seq<Seq<char>> {
    seq!["services"@, "start"@, "ollama"@]
}

/// A pane is split where its layout asks: the fifth argument of its
/// `split-pane` invocation is `--left`, `--right`, `--top` or `--bottom` as
/// its direction is left, right, top or bottom, after the pane to split.
pub proof fn law_split_follows_direction(plan: LaunchPlan, target_id: Seq<char>, pane: PlanPane)
    ensures
        split_args(plan, target_id, pane)[3] == target_id,
        pane.direction == SplitDirection::Left ==> split_args(plan, target_id, pane)[4] == "--left"@,
        pane.direction == SplitDirection::Right ==> split_args(plan, target_id, pane)[4] == "--right"@,
        pane.direction == SplitDirection::Top ==> split_args(plan, target_id, pane)[4] == "--top"@,
        pane.direction == SplitDirection::Bottom ==> split_args(plan, target_id, pane)[4] == "--bottom"@,
{
}

/// A split asks WezTerm's `cli split-pane` to split the target pane by the
/// pane's percentage, in the workspace directory, and runs the pane's
/// command after `--` when it has one.
pub proof fn law_split_carries_pane_settings(plan: LaunchPlan, target_id: Seq<char>, pane: PlanPane)
    ensures
        split_args(plan, target_id, pane).subrange(0, 4) == seq!["cli"@, "split-pane"@, "--pane-id"@, target_id],
        split_args(plan, target_id, pane)[5] == "--percent"@,
        split_args(plan, target_id, pane)[6] == decimal(pane.percent as nat),
        split_args(plan, target_id, pane)[7] == "--cwd"@,
        split_args(plan, target_id, pane)[8] == plan.workspace_path@,
        pane.command@.len() == 0 ==> split_args(plan, target_id, pane).len() == 9,
        pane.command@.len() > 0 ==> split_args(plan, target_id, pane).subrange(9, split_args(plan, target_id, pane).len() as int)
            == seq!["--"@] + views(pane.command@),
{
    let a = split_args(plan, target_id, pane);
    assert(a.subrange(0, 4) =~= seq!["cli"@, "split-pane"@, "--pane-id"@, target_id]);
    if pane.command@.len() > 0 {
        assert(a.subrange(9, a.len() as int) =~= seq!["--"@] + views(pane.command@));
    }
}

/// Panes split in different directions get different invocations.
pub proof fn law_split_directions_differ(plan: LaunchPlan, target_id: Seq<char>, a: PlanPane, b: PlanPane)
    requires
        a.direction != b.direction,
    ensures
        split_args(plan, target_id, a)[4] != split_args(plan, target_id, b)[4],
{
    reveal_strlit("--left");
    reveal_strlit("--right");
    reveal_strlit("--top");
    reveal_strlit("--bottom");
    assert("--left"@.len() == 6 && "--right"@.len() == 7 && "--top"@.len() == 5 && "--bottom"@.len() == 8);
}

pub fn direction_argument(d: SplitDirection) -> (r: &'static str)
    ensures
        r@ == direction_argument_spec(d),
{
    match d {
        SplitDirection::Left => "--left",
        SplitDirection::Right => "--right",
        SplitDirection::Top => "--top",
        SplitDirection::Bottom => "--bottom",
    }
}

fn invocation(executable: &str, arguments: Vec<String>) -> (r: CommandInvocation)
    ensures
        invocation_is(r, executable@, views(arguments@)),
{
    CommandInvocation { executable: owned(executable), arguments, current_directory: None }
}

pub fn list_invocation(plan: &LaunchPlan) -> (r: CommandInvocation)
    ensures
        invocation_is(r, plan.terminal@, list_args()),
{
    let mut a: Vec<String> = Vec::new();
    push_arg(&mut a, "cli");
    push_arg(&mut a, "list");
    push_arg(&mut a, "--format");
    push_arg(&mut a, "json");
    assert(views(a@) =~= list_args());
    invocation(plan.terminal.as_str(), a)
}

pub fn spawn_initial_invocation(plan: &LaunchPlan) -> (r: CommandInvocation)
    requires
        plan_wf(*plan),
    ensures
        invocation_is(r, plan.terminal@, spawn_initial_args(*plan)),
{
    let mut a: Vec<String> = Vec::new();
    push_arg(&mut a, "cli");
    push_arg(&mut a, "spawn");
    push_arg(&mut a, "--new-window");
    push_arg(&mut a, "--workspace");
    push_arg(&mut a, plan.mux_workspace.as_str());
    push_arg(&mut a, "--cwd");
    push_arg(&mut a, plan.workspace_path.as_str());
    append_command(&mut a, &plan.tabs[0].command);
    assert(views(a@) =~= spawn_initial_args(*plan));
    invocation(plan.terminal.as_str(), a)
}

pub fn start_invocation(plan: &LaunchPlan) -> (r: CommandInvocation)
    requires
        plan_wf(*plan),
    ensures
        invocation_is(r, plan.terminal@, start_args(*plan)),
{
    let mut a: Vec<String> = Vec::new();
    push_arg(&mut a, "start");
    push_arg(&mut a, "--workspace");
    push_arg(&mut a, plan.mux_workspace.as_str());
    push_arg(&mut a, "--cwd");
    push_arg(&mut a, plan.workspace_path.as_str());
    append_command(&mut a, &plan.tabs[0].command);
    assert(views(a@) =~= start_args(*plan));
    invocation(plan.terminal.as_str(), a)
}

pub fn spawn_tab_invocation(plan: &LaunchPlan, pane_id: &str, command: &Vec<String>) -> (r: CommandInvocation)
    ensures
        invocation_is(r, plan.terminal@, spawn_tab_args(*plan, pane_id@, views(command@))),
{
    let mut a: Vec<String> = Vec::new();
    push_arg(&mut a, "cli");
    push_arg(&mut a, "spawn");
    push_arg(&mut a, "--pane-id");
    push_arg(&mut a, pane_id);
    push_arg(&mut a, "--cwd");
    push_arg(&mut a, plan.workspace_path.as_str());
    append_command(&mut a, command);
    assert(views(a@) =~= spawn_tab_args(*plan, pane_id@, views(command@)));
    invocation(plan.terminal.as_str(), a)
}

pub fn split_invocation(plan: &LaunchPlan, target_id: &str, pane: &PlanPane) -> (r: CommandInvocation)
    ensures
        invocation_is(r, plan.terminal@, split_args(*plan, target_id@, *pane)),
{
    let mut a: Vec<String> = Vec::new();
    push_arg(&mut a, "cli");
    push_arg(&mut a, "split-pane");
    push_arg(&mut a, "--pane-id");
    push_arg(&mut a, target_id);
    push_arg(&mut a, direction_argument(pane.direction));
    push_arg(&mut a, "--percent");
    let percent = crate::text::decimal_string(pane.percent as u64);
    push_arg(&mut a, percent.as_str());
    push_arg(&mut a, "--cwd");
    push_arg(&mut a, plan.workspace_path.as_str());
    append_command(&mut a, &pane.command);
    assert(views(a@) =~= split_args(*plan, target_id@, *pane));
    invocation(plan.terminal.as_str(), a)
}

pub fn set_tab_title_invocation(plan: &LaunchPlan, pane_id: &str, title: &str) -> (r: CommandInvocation)
    ensures
        invocation_is(r, plan.terminal@, set_tab_title_args(pane_id@, title@)),
{
    let mut a: Vec<String> = Vec::new();
    push_arg(&mut a, "cli");
    push_arg(&mut a, "set-tab-title");
    push_arg(&mut a, "--pane-id");
    push_arg(&mut a, pane_id);
    push_arg(&mut a, title);
    assert(views(a@) =~= set_tab_title_args(pane_id@, title@));
    invocation(plan.terminal.as_str(), a)
}

pub fn editor_invocation(plan: &LaunchPlan) -> (r: CommandInvocation)
    ensures
        invocation_is(r, plan.editor@, seq![plan.workspace_path@]),
{
    let mut a: Vec<String> = Vec::new();
    push_arg(&mut a, plan.workspace_path.as_str());
    assert(views(a@) =~= seq![plan.workspace_path@]);
    invocation(plan.editor.as_str(), a)
}

pub fn ollama_invocation() -> (r: CommandInvocation)
    ensures
        invocation_is(r, "brew"@, ollama_args()),
{
    let mut a: Vec<String> = Vec::new();
    push_arg(&mut a, "services");
    push_arg(&mut a, "start");
    push_arg(&mut a, "ollama");
    assert(views(a@) =~= ollama_args());
    invocation("brew", a)
}

/// The unnumbered opening lines of a dry run.
pub open spec fn dry_run_header(plan: LaunchPlan) -> Seq<Seq<char>> {
    seq![
        "Launch workspace "@ + debug_string(plan.workspace_name@) + " with layout "@ + debug_string(plan.layout_name@)
            + " as "@ + debug_string(plan.mux_workspace@),
        inspect_line(plan),
        initial_pane_line(plan),
        "   if no GUI/mux is reachable: "@ + shown(plan.terminal@, start_args(plan)),
        "   then poll for the initial pane (bounded): "@ + shown(plan.terminal@, list_args()),
    ]
}

pub open spec fn inspect_line(plan: LaunchPlan) -> Seq<char> {
    "1. inspect existing mux workspaces: "@ + shown(plan.terminal@, list_args())
}

pub open spec fn initial_pane_line(plan: LaunchPlan) -> Seq<char> {
    "2. create initial pane: "@ + shown(plan.terminal@, spawn_initial_args(plan))
}

/// The steps of a tab: name it, split its panes, then create the next tab.
pub open spec fn tab_steps(plan: LaunchPlan, i: int) -> Seq<Seq<char>> {
    let tab = plan.tabs@[i];
    seq!["name tab "@ + debug_string(tab.name@) + ": "@ + shown(plan.terminal@, set_tab_title_args(placeholder(i as nat, 0), tab.name@))]
        + Seq::new(
        tab.panes@.len(),
        |k: int|
            "create pane "@ + decimal(i as nat) + ":"@ + decimal((k + 1) as nat) + ": "@ + shown(
                plan.terminal@,
                split_args(plan, placeholder(i as nat, tab.panes@[k].target as nat), tab.panes@[k]),
            ),
    ) + if i + 1 < plan.tabs@.len() {
        seq!["create tab "@ + decimal((i + 1) as nat) + ": "@ + shown(plan.terminal@, spawn_tab_args(plan, placeholder(0, 0), views(plan.tabs@[i + 1].command@)))]
    } else {
        Seq::empty()
    }
}

/// The steps of the first `n` tabs.
pub open spec fn tabs_steps(plan: LaunchPlan, n: nat) -> Seq<Seq<char>>
    decreases n,
{
    if n == 0 {
        Seq::empty()
    } else {
        tabs_steps(plan, (n - 1) as nat) + tab_steps(plan, n - 1)
    }
}

/// The steps that start the editor and the Ollama service where enabled.
pub open spec fn service_steps(plan: LaunchPlan) -> Seq<Seq<char>> {
    (if plan.editor_enabled {
        seq!["start configured editor: "@ + shown(plan.editor@, seq![plan.workspace_path@])]
    } else {
        Seq::empty()
    }) + if plan.ollama_enabled {
        seq!["start explicitly enabled Ollama service: "@ + shown("brew"@, ollama_args())]
    } else {
        Seq::empty()
    }
}

/// Steps numbered from `first`.
pub open spec fn numbered(steps: Seq<Seq<char>>, first: nat) -> Seq<Seq<char>> {
    Seq::new(steps.len(), |j: int| decimal((first + j) as nat) + ". "@ + steps[j])
}

/// The lines of a dry run: what would be run, in order, numbered from 3
/// after the two opening steps.
pub open spec fn dry_run_lines(plan: LaunchPlan) -> Seq<Seq<char>> {
    dry_run_header(plan) + numbered(tabs_steps(plan, plan.tabs@.len()) + service_steps(plan), 3)
}

/// The step that starts the editor.
pub open spec fn editor_step(plan: LaunchPlan) -> Seq<char> {
    "start configured editor: "@ + shown(plan.editor@, seq![plan.workspace_path@])
}

/// The step that starts the Ollama service.
pub open spec fn ollama_step() -> Seq<char> {
    "start explicitly enabled Ollama service: "@ + shown("brew"@, ollama_args())
}

/// A dry run ends with the service steps its flags enable, and no others:
/// after the five opening lines and the tab steps comes the editor step
/// exactly where the editor is enabled, then the Ollama step exactly where
/// Ollama is enabled.
pub proof fn law_dry_run_follows_flags(plan: LaunchPlan)
    ensures
        ({
            let t: int = tabs_steps(plan, plan.tabs@.len()).len() as int;
            let lines = dry_run_lines(plan);
            let e: int = if plan.editor_enabled { 1 } else { 0 };
            let o: int = if plan.ollama_enabled { 1 } else { 0 };
            &&& lines.len() == 5 + t + e + o
            &&& plan.editor_enabled ==> lines[5 + t] == decimal((3 + t) as nat) + ". "@ + editor_step(plan)
            &&& plan.ollama_enabled ==> lines[5 + t + e] == decimal((3 + t + e) as nat) + ". "@ + ollama_step()
            &&& lines[0] == "Launch workspace "@ + debug_string(plan.workspace_name@) + " with layout "@
                + debug_string(plan.layout_name@) + " as "@ + debug_string(plan.mux_workspace@)
            &&& lines[3] == "   if no GUI/mux is reachable: "@ + shown(plan.terminal@, start_args(plan))
        }),
{
    let t: int = tabs_steps(plan, plan.tabs@.len()).len() as int;
    let steps = tabs_steps(plan, plan.tabs@.len()) + service_steps(plan);
    let e: int = if plan.editor_enabled { 1 } else { 0 };
    assert(service_steps(plan).len() == e + if plan.ollama_enabled { 1int } else { 0int });
    if plan.editor_enabled {
        assert(steps[t] == editor_step(plan));
    }
    if plan.ollama_enabled {
        assert(steps[t + e] == ollama_step());
    }
}

/// Adds the next numbered step, whose number follows from the lines so far.
fn push_step(lines: &mut Vec<String>, step: String, Ghost(steps): Ghost<Seq<Seq<char>>>, Ghost(header): Ghost<Seq<Seq<char>>>)
    requires
        header.len() == 5,
        views(old(lines)@) == header + numbered(steps, 3),
    ensures
        views(final(lines)@) == header + numbered(steps.push(step@), 3),
{
    assert(views(lines@).len() == lines@.len());
    let n = lines.len() - 2;
    let mut line = crate::text::decimal_string(n as u64);
    push_str(&mut line, ". ");
    push_str(&mut line, step.as_str());
    let ghost before = lines@;
    lines.push(line);
    assert(views(lines@) =~= views(before).push(line@));
    assert(numbered(steps.push(step@), 3) =~= numbered(steps, 3).push(decimal((3 + steps.len()) as nat) + ". "@ + step@));
}

fn labelled(label: &str, inv: &CommandInvocation) -> (r: String)
    ensures
        r@ == label@ + render_spec(*inv),
{
    let mut s = owned(label);
    let shown = inv.render();
    push_str(&mut s, shown.as_str());
    s
}

/// What a launch would run, without running it.
pub fn render_dry_run(plan: &LaunchPlan) -> (r: String)
    requires
        plan_wf(*plan),
    ensures
        r@ == lines_text(dry_run_lines(*plan)),
{
    let mut lines: Vec<String> = Vec::new();
    let mut first = owned("Launch workspace ");
    push_str(&mut first, debug_quoted(plan.workspace_name.as_str()).as_str());
    push_str(&mut first, " with layout ");
    push_str(&mut first, debug_quoted(plan.layout_name.as_str()).as_str());
    push_str(&mut first, " as ");
    push_str(&mut first, debug_quoted(plan.mux_workspace.as_str()).as_str());
    let ghost header = dry_run_header(*plan);
    let list = list_invocation(plan);
    let l1 = labelled("1. inspect existing mux workspaces: ", &list);
    assert(l1@ == inspect_line(*plan));
    assert(header[1] == inspect_line(*plan));
    let spawn = spawn_initial_invocation(plan);
    let l2 = labelled("2. create initial pane: ", &spawn);
    assert(l2@ == initial_pane_line(*plan));
    assert(header[2] == initial_pane_line(*plan));
    let start = start_invocation(plan);
    let l3 = labelled("   if no GUI/mux is reachable: ", &start);
    assert(l3@ == header[3]);
    let l4 = labelled("   then poll for the initial pane (bounded): ", &list);
    assert(l4@ == header[4]);
    assert(first@ == header[0]);
    lines.push(first);
    lines.push(l1);
    lines.push(l2);
    lines.push(l3);
    lines.push(l4);
    assert(views(lines@) =~= header + numbered(Seq::empty(), 3));
    let mut t: usize = 0;
    while t < plan.tabs.len()
        invariant
            t <= plan.tabs@.len(),
            plan_wf(*plan),
            header == dry_run_header(*plan),
            views(lines@) == header + numbered(tabs_steps(*plan, t as nat), 3),
        decreases plan.tabs@.len() - t,
    {
        let tab = &plan.tabs[t];
        let ghost done = tabs_steps(*plan, t as nat);
        let mut name_step = owned("name tab ");
        push_str(&mut name_step, debug_quoted(tab.name.as_str()).as_str());
        push_str(&mut name_step, ": ");
        let initial = pane_placeholder(t, 0);
        push_str(&mut name_step, set_tab_title_invocation(plan, initial.as_str(), tab.name.as_str()).render().as_str());
        push_step(&mut lines, name_step, Ghost(done), Ghost(header));
        let ghost mut steps = done.push(
            "name tab "@ + debug_string(tab.name@) + ": "@ + shown(plan.terminal@, set_tab_title_args(placeholder(t as nat, 0), tab.name@)),
        );
        let mut p: usize = 0;
        while p < tab.panes.len()
            invariant
                p <= tab.panes@.len(),
                t < plan.tabs@.len(),
                *tab == plan.tabs@[t as int],
                header == dry_run_header(*plan),
                views(lines@) == header + numbered(steps, 3),
                steps == done + seq!["name tab "@ + debug_string(tab.name@) + ": "@ + shown(plan.terminal@, set_tab_title_args(placeholder(t as nat, 0), tab.name@))]
                    + Seq::new(p as nat, |k: int|
                        "create pane "@ + decimal(t as nat) + ":"@ + decimal((k + 1) as nat) + ": "@ + shown(
                            plan.terminal@,
                            split_args(*plan, placeholder(t as nat, tab.panes@[k].target as nat), tab.panes@[k]),
                        )),
            decreases tab.panes@.len() - p,
        {
            let pane = &tab.panes[p];
            let mut step = owned("create pane ");
            crate::text::push_decimal(&mut step, t as u64);
            push_str(&mut step, ":");
            crate::text::push_decimal(&mut step, (p as u64) + 1);
            push_str(&mut step, ": ");
            let target = pane_placeholder(t, pane.target);
            push_str(&mut step, split_invocation(plan, target.as_str(), pane).render().as_str());
            let ghost s = step@;
            push_step(&mut lines, step, Ghost(steps), Ghost(header));
            proof {
                let old_steps = steps;
                steps = steps.push(s);
                assert(steps =~= done + seq!["name tab "@ + debug_string(tab.name@) + ": "@ + shown(plan.terminal@, set_tab_title_args(placeholder(t as nat, 0), tab.name@))]
                    + Seq::new((p + 1) as nat, |k: int|
                        "create pane "@ + decimal(t as nat) + ":"@ + decimal((k + 1) as nat) + ": "@ + shown(
                            plan.terminal@,
                            split_args(*plan, placeholder(t as nat, tab.panes@[k].target as nat), tab.panes@[k]),
                        )));
            }
            p = p + 1;
        }
        if t + 1 < plan.tabs.len() {
            let next = &plan.tabs[t + 1];
            let mut step = owned("create tab ");
            crate::text::push_decimal(&mut step, (t as u64) + 1);
            push_str(&mut step, ": ");
            let root = pane_placeholder(0, 0);
            push_str(&mut step, spawn_tab_invocation(plan, root.as_str(), &next.command).render().as_str());
            let ghost s = step@;
            push_step(&mut lines, step, Ghost(steps), Ghost(header));
            proof {
                steps = steps.push(s);
            }
        }
        proof {
            assert(steps =~= tabs_steps(*plan, (t + 1) as nat));
        }
        t = t + 1;
    }
    let ghost mut steps = tabs_steps(*plan, plan.tabs@.len());
    if plan.editor_enabled {
        let step = labelled("start configured editor: ", &editor_invocation(plan));
        let ghost s = step@;
        push_step(&mut lines, step, Ghost(steps), Ghost(header));
        proof {
            steps = steps.push(s);
        }
    }
    if plan.ollama_enabled {
        let step = labelled("start explicitly enabled Ollama service: ", &ollama_invocation());
        let ghost s = step@;
        push_step(&mut lines, step, Ghost(steps), Ghost(header));
        proof {
            steps = steps.push(s);
        }
    }
    assert(steps =~= tabs_steps(*plan, plan.tabs@.len()) + service_steps(*plan));
    let mut out = String::new();
    let mut i: usize = 0;
    assert(views(lines@).take(0) =~= Seq::<Seq<char>>::empty());
    while i < lines.len()
        invariant
            i <= lines@.len(),
            out@ == lines_text(views(lines@).take(i as int)),
        decreases lines@.len() - i,
    {
        push_str(&mut out, lines[i].as_str());
        push_str(&mut out, "\n");
        assert(views(lines@).take(i + 1).drop_last() =~= views(lines@).take(i as int));
        i = i + 1;
    }
    assert(views(lines@).take(lines@.len() as int) =~= views(lines@));
    out
}

} // verus!
