//! Launching a planned workspace: the decisions between the terminal
//! commands, as a state machine. The caller runs each requested action and
//! hands back what came of it.
use vstd::prelude::*;
use vstd::pervasive::unreached;
use crate::knowledge::operator::views;
use crate::terminal::invocation::{invocation_is, CommandInvocation};
use crate::terminal::layout::TerminalError;
use crate::terminal::plan::{mux_name, plan_wf, LaunchPlan};
use crate::terminal::wezterm::{
    editor_invocation, list_args, list_invocation, ollama_args, ollama_invocation, pane_id_of, parse_pane_id,
    set_tab_title_args, set_tab_title_invocation, spawn_initial_args, spawn_initial_invocation, spawn_tab_args,
    spawn_tab_invocation, split_args, split_invocation, start_args, start_invocation, LaunchSummary,
};
use crate::text::{chars_of, decimal, decimal_string, owned, push_decimal, push_str, str_eq, string_from_chars, trim, trim_chars};

verus! {

/// What `String::from_utf8_lossy` makes of bytes.
pub uninterp spec fn utf8_lossy(bytes: Seq<u8>) -> Seq<char>;

/// Calls `String::from_utf8_lossy`. Trusted: the text is the named function
/// of the bytes, and is their decoding where they are valid UTF-8, as the
/// documentation states.
#[verifier::external_body]
pub(crate) fn lossy_text(bytes: &[u8]) -> (r: String)
    ensures
        r@ == utf8_lossy(bytes@),
        vstd::utf8::valid_utf8(bytes@) ==> r@ == vstd::utf8::decode_utf8(bytes@),
{
    String::from_utf8_lossy(bytes).into_owned()
}

pub const MAX_ERROR_BYTES: usize = 4096;

/// Error output as shown: its first 4096 bytes decoded and trimmed, marked
/// where cut, or a note that there was none.
pub open spec fn bounded_text_spec(bytes: Seq<u8>) -> Seq<char> {
    let end = if bytes.len() < MAX_ERROR_BYTES { bytes.len() as int } else { MAX_ERROR_BYTES as int };
    let t = trim(utf8_lossy(bytes.take(end)));
    let t2 = if bytes.len() > MAX_ERROR_BYTES { t.push('…') } else { t };
    if t2.len() == 0 {
        "no error output"@
    } else {
        t2
    }
}

pub fn bounded_text(bytes: &[u8]) -> (r: String)
    ensures
        r@ == bounded_text_spec(bytes@),
{
    let end = if bytes.len() < MAX_ERROR_BYTES { bytes.len() } else { MAX_ERROR_BYTES };
    let mut head: Vec<u8> = Vec::new();
    let mut i: usize = 0;
    while i < end
        invariant
            i <= end,
            end <= bytes@.len(),
            head@ == bytes@.take(i as int),
        decreases end - i,
    {
        head.push(bytes[i]);
        i = i + 1;
        assert(head@ =~= bytes@.take(i as int));
    }
    let text = lossy_text(head.as_slice());
    let chars = chars_of(text.as_str());
    let trimmed = trim_chars(chars.as_slice());
    let mut rendered = string_from_chars(trimmed.as_slice());
    if bytes.len() > MAX_ERROR_BYTES {
        push_str(&mut rendered, "…");
        proof {
            reveal_strlit("…");
        }
    }
    if rendered.as_str().unicode_len() == 0 {
        return owned("no error output");
    }
    rendered
}

/// A signed decimal.
pub open spec fn int_text(n: int) -> Seq<char> {
    if n < 0 {
        "-"@ + decimal((-n) as nat)
    } else {
        decimal(n as nat)
    }
}

/// An exit status as shown: its code, or that a signal ended the process.
pub open spec fn status_text(exit_code: Option<i32>) -> Seq<char> {
    match exit_code {
        Some(c) => int_text(c as int),
        None => "terminated by signal"@,
    }
}

pub fn status_label(exit_code: Option<i32>) -> (r: String)
    ensures
        r@ == status_text(exit_code),
{
    match exit_code {
        Some(c) => {
            if c < 0 {
                let mut s = owned("-");
                let magnitude: i64 = -(c as i64);
                push_decimal(&mut s, magnitude as u64);
                s
            } else {
                decimal_string(c as u64)
            }
        },
        None => owned("terminated by signal"),
    }
}

/// What a finished command left: whether it succeeded, its exit code where it
/// has one, its output, and whether it was stopped for taking too long.
#[derive(Debug)]
pub struct ProcessOutput {
    pub success: bool,
    pub exit_code: Option<i32>,
    pub stdout: Vec<u8>,
    pub stderr: Vec<u8>,
    pub timed_out: bool,
}

/// What came of running a command: it could not be run (with the reason), or
/// it finished.
#[derive(Debug)]
pub enum RunOutcome {
    Failed(String),
    Finished(ProcessOutput),
}

/// What the caller hands back for the action it ran.
#[derive(Debug)]
pub enum LaunchEvent {
    /// Whether the executable asked about is available.
    Available(bool),
    /// What came of running a command.
    Ran(RunOutcome),
    /// What came of running the pane listing, with the panes its output
    /// lists (pane identifier and mux workspace) or why it could not be read.
    Listed(RunOutcome, Result<Vec<(u64, String)>, String>),
    /// What came of starting a process without waiting for it.
    Started(Result<(), String>),
    /// The pause asked for is over.
    Slept,
}

/// What the caller is asked to do next.
#[derive(Debug)]
pub enum LaunchAction {
    /// Report whether the executable is available.
    CheckExecutable(String),
    /// Run the command and wait for it.
    Run(CommandInvocation),
    /// Start the command without waiting for it.
    Start(CommandInvocation),
    /// Pause for this many milliseconds.
    Sleep(u64),
    /// The launch is over.
    Finish(Result<LaunchSummary, TerminalError>),
}

/// Where a launch stands.
#[derive(Debug, Clone, Copy, PartialEq, Eq, Structural)]
pub enum LaunchPhase {
    CheckTerminal,
    ListInitial,
    SpawnAfterList,
    SpawnWithoutList,
    StartMux,
    Discover(usize),
    Pause(usize),
    SpawnTab(usize),
    NameTab(usize),
    SplitPane(usize, usize),
    CheckEditor,
    StartEditor,
    CheckBrew,
    RunOllama,
    Finished,
}

pub const DISCOVERY_ATTEMPTS: usize = 20;
pub const DISCOVERY_DELAY_MS: u64 = 100;

/// The state of a launch: the plan, how often and how far apart to look for
/// a pane the terminal started, the pane identifiers of each tab so far and
/// their count, and the error output kept for a report.
#[derive(Debug)]
pub struct LaunchDriver {
    pub plan: LaunchPlan,
    pub discovery_attempts: usize,
    pub discovery_delay_ms: u64,
    pub phase: LaunchPhase,
    pub pane_ids: Vec<Vec<u64>>,
    pub pane_count: usize,
    pub list_stderr: Vec<u8>,
    pub spawn_stderr: Vec<u8>,
}

/// The event each phase waits for.
pub open spec fn awaits(phase: LaunchPhase, event: LaunchEvent) -> bool {
    match phase {
        LaunchPhase::CheckTerminal | LaunchPhase::CheckEditor | LaunchPhase::CheckBrew => event is Available,
        LaunchPhase::ListInitial | LaunchPhase::Discover(_) => event is Listed,
        LaunchPhase::StartMux | LaunchPhase::StartEditor => event is Started,
        LaunchPhase::Pause(_) => event is Slept,
        LaunchPhase::Finished => false,
        _ => event is Ran,
    }
}

/// The panes created for the first `i` tabs: each tab's first pane and its
/// additional panes.
pub open spec fn panes_before(plan: LaunchPlan, i: nat) -> nat
    decreases i,
{
    if i == 0 {
        0
    } else {
        panes_before(plan, (i - 1) as nat) + 1 + plan.tabs@[i - 1].panes@.len()
    }
}

/// How many panes a launch creates.
pub open spec fn launch_pane_total(plan: LaunchPlan) -> nat {
    panes_before(plan, plan.tabs@.len())
}

proof fn lemma_panes_before_monotone(plan: LaunchPlan, i: nat, j: nat)
    requires
        i <= j,
    ensures
        panes_before(plan, i) <= panes_before(plan, j),
    decreases j - i,
{
    if i < j {
        lemma_panes_before_monotone(plan, i, (j - 1) as nat);
    }
}

/// The pane identifiers so far.
pub open spec fn ids_view(d: LaunchDriver) -> Seq<Seq<u64>> {
    d.pane_ids@.map_values(|v: Vec<u64>| v@)
}

/// The layout is under way at tab `i` with `n` panes of it made: earlier
/// tabs are complete, later ones not started.
pub open spec fn layout_at(d: LaunchDriver, i: int, n: int) -> bool {
    &&& 0 <= i < d.plan.tabs@.len()
    &&& d.pane_ids@.len() == d.plan.tabs@.len()
    &&& ids_view(d)[0].len() >= 1
    &&& ids_view(d)[i].len() == n
    &&& forall|j: int| i < j < d.plan.tabs@.len() ==> (#[trigger] ids_view(d)[j]).len() == 0
    &&& d.pane_count == panes_before(d.plan, i as nat) + n
}

/// The plan can be launched and its panes counted.
pub open spec fn base_wf(d: LaunchDriver) -> bool {
    &&& plan_wf(d.plan)
    &&& launch_pane_total(d.plan) <= usize::MAX
}

pub open spec fn driver_wf(d: LaunchDriver) -> bool {
    &&& base_wf(d)
    &&& match d.phase {
        LaunchPhase::Discover(a) => a < d.discovery_attempts,
        LaunchPhase::Pause(a) => a + 1 < d.discovery_attempts,
        LaunchPhase::SpawnTab(i) => 1 <= i && layout_at(d, i as int, 0),
        LaunchPhase::NameTab(i) => layout_at(d, i as int, 1),
        LaunchPhase::SplitPane(i, k) => layout_at(d, i as int, k + 1) && k < d.plan.tabs@[i as int].panes@.len(),
        LaunchPhase::CheckEditor | LaunchPhase::StartEditor | LaunchPhase::CheckBrew | LaunchPhase::RunOllama => {
            d.pane_count == launch_pane_total(d.plan)
        },
        _ => true,
    }
}

/// The error of a command that could not be run, or ran out of time.
pub open spec fn raw_error(e: TerminalError, op: Seq<char>, outcome: RunOutcome) -> bool {
    match outcome {
        RunOutcome::Failed(m) => (e matches TerminalError::ProcessExecution { operation, message } && operation@ == op
            && message@ == m@),
        RunOutcome::Finished(o) => o.timed_out && (e matches TerminalError::CommandTimedOut { operation } && operation@ == op),
    }
}

/// The command ran to its end.
pub open spec fn raw_ran(outcome: RunOutcome) -> bool {
    outcome matches RunOutcome::Finished(o) && !o.timed_out
}

/// The error of a command that ended unsuccessfully.
pub open spec fn failed_error(e: TerminalError, op: Seq<char>, o: ProcessOutput) -> bool {
    e matches TerminalError::CommandFailed { operation, status, stderr } && operation@ == op && status@ == status_text(
        o.exit_code,
    ) && stderr@ == bounded_text_spec(o.stderr@)
}

/// The command ran to its end and succeeded.
pub open spec fn after_start_ok(outcome: RunOutcome) -> bool {
    outcome matches RunOutcome::Finished(o) && !o.timed_out && o.success
}

/// A partial launch during the operation, for the cause.
pub open spec fn partial(e: TerminalError, op: Seq<char>) -> bool {
    e matches TerminalError::PartialLaunchFailure { operation, source: _ } && operation@ == op
}

/// The cause of a partial launch.
pub open spec fn cause(e: TerminalError) -> TerminalError {
    *(e->PartialLaunchFailure_source)
}

/// The failure of a command once the terminal is up: a partial launch.
pub open spec fn after_start_error(e: TerminalError, op: Seq<char>, outcome: RunOutcome) -> bool {
    &&& partial(e, op)
    &&& if !raw_ran(outcome) {
        raw_error(cause(e), op, outcome)
    } else {
        failed_error(cause(e), op, outcome->Finished_0)
    }
}

/// Output that does not hold one pane ID, read for the operation.
pub open spec fn malformed(e: TerminalError, op: Seq<char>) -> bool {
    e matches TerminalError::MalformedOutput { operation, message: _ } && operation@ == op
}

/// The mux workspace's panes in a listing.
pub open spec fn candidate_ids(panes: Seq<(u64, String)>, mux: Seq<char>) -> Set<u64> {
    Set::new(|id: u64| exists|j: int| 0 <= j < panes.len() && (#[trigger] panes[j]).0 == id && panes[j].1@ == mux)
}

pub open spec fn stdout_of(outcome: RunOutcome) -> Seq<u8> {
    (outcome->Finished_0).stdout@
}

/// The same plan and discovery settings.
pub open spec fn keeps_settings(a: LaunchDriver, b: LaunchDriver) -> bool {
    &&& a.plan == b.plan
    &&& a.discovery_attempts == b.discovery_attempts
    &&& a.discovery_delay_ms == b.discovery_delay_ms
}

/// The error a finished launch reports.
pub open spec fn error_of(action: LaunchAction) -> TerminalError {
    action->Finish_0->Err_0
}

/// The launch stops with an error.
pub open spec fn stops(d: LaunchDriver, action: LaunchAction) -> bool {
    d.phase == LaunchPhase::Finished && (action matches LaunchAction::Finish(r) && r is Err)
}

/// The next action runs this invocation.
pub open spec fn runs(action: LaunchAction, executable: Seq<char>, arguments: Seq<Seq<char>>) -> bool {
    action matches LaunchAction::Run(inv) && invocation_is(inv, executable, arguments)
}

/// The next action starts this invocation.
pub open spec fn starts(action: LaunchAction, executable: Seq<char>, arguments: Seq<Seq<char>>) -> bool {
    action matches LaunchAction::Start(inv) && invocation_is(inv, executable, arguments)
}

/// The next action asks whether this executable is available.
pub open spec fn checks(action: LaunchAction, executable: Seq<char>) -> bool {
    action matches LaunchAction::CheckExecutable(x) && x@ == executable
}

/// What follows the services: the summary.
pub open spec fn finishes(d: LaunchDriver, action: LaunchAction) -> bool {
    &&& d.phase == LaunchPhase::Finished
    &&& action matches LaunchAction::Finish(Ok(s)) && s.workspace@ == d.plan.workspace_name@ && s.layout@
        == d.plan.layout_name@ && s.mux_workspace@ == d.plan.mux_workspace@ && s.pane_count == launch_pane_total(d.plan)
}

/// After the layout and the editor: the Ollama service if enabled, then the
/// summary.
pub open spec fn to_ollama(d: LaunchDriver, action: LaunchAction) -> bool {
    if d.plan.ollama_enabled {
        d.phase == LaunchPhase::CheckBrew && checks(action, "brew"@)
    } else {
        finishes(d, action)
    }
}

/// After the layout: the editor if enabled, then the Ollama service.
pub open spec fn to_services(d: LaunchDriver, action: LaunchAction) -> bool {
    if d.plan.editor_enabled {
        d.phase == LaunchPhase::CheckEditor && checks(action, d.plan.editor@)
    } else {
        to_ollama(d, action)
    }
}

/// After the `k` first additional panes of tab `i`: the next pane, split from
/// its target pane of the same tab; the next tab, spawned beside the initial
/// pane; or the services.
pub open spec fn continues(d: LaunchDriver, action: LaunchAction, i: int, k: int) -> bool {
    let plan = d.plan;
    if k < plan.tabs@[i].panes@.len() {
        &&& d.phase == LaunchPhase::SplitPane(i as usize, k as usize)
        &&& runs(
            action,
            plan.terminal@,
            split_args(plan, decimal(ids_view(d)[i][plan.tabs@[i].panes@[k].target as int] as nat), plan.tabs@[i].panes@[k]),
        )
    } else if i + 1 < plan.tabs@.len() {
        &&& d.phase == LaunchPhase::SpawnTab((i + 1) as usize)
        &&& runs(action, plan.terminal@, spawn_tab_args(plan, decimal(ids_view(d)[0][0] as nat), views(plan.tabs@[i + 1].command@)))
    } else {
        to_services(d, action)
    }
}

/// The layout begins with the initial pane: tab 0 is named.
pub open spec fn begins_layout(d: LaunchDriver, action: LaunchAction, initial: u64) -> bool {
    &&& d.phase == LaunchPhase::NameTab(0)
    &&& ids_view(d) == Seq::new(d.plan.tabs@.len(), |j: int| if j == 0 { seq![initial] } else { Seq::<u64>::empty() })
    &&& d.pane_count == 1
    &&& runs(action, d.plan.terminal@, set_tab_title_args(decimal(initial as nat), d.plan.tabs@[0].name@))
}

/// The initial pane created by a spawn: its ID, or a malformed-output error.
pub open spec fn spawned_initial(d: LaunchDriver, action: LaunchAction, outcome: RunOutcome) -> bool {
    match pane_id_of(stdout_of(outcome)) {
        Some(id) => begins_layout(d, action, id),
        None => stops(d, action) && malformed(error_of(action), "wezterm cli spawn"@),
    }
}

/// The discovery gave up: the mux workspace showed no pane in time.
pub open spec fn discovery_timed_out(d: LaunchDriver, action: LaunchAction, mux: Seq<char>) -> bool {
    &&& stops(d, action)
    &&& partial(error_of(action), "discover initial WezTerm pane"@)
    &&& cause(error_of(action)) matches TerminalError::StartupDiscoveryTimeout { workspace } && workspace@ == mux
}

/// The pane listing showed nothing usable this time: look again after a
/// pause, or give up.
pub open spec fn retries(old: LaunchDriver, d: LaunchDriver, action: LaunchAction, a: int) -> bool {
    if a + 1 < old.discovery_attempts {
        d.phase == LaunchPhase::Pause(a as usize) && action == LaunchAction::Sleep(old.discovery_delay_ms)
    } else {
        discovery_timed_out(d, action, old.plan.mux_workspace@)
    }
}

/// The launch stops during discovery with this cause.
pub open spec fn discovery_fails(d: LaunchDriver, action: LaunchAction) -> bool {
    stops(d, action) && partial(error_of(action), "discover initial WezTerm pane"@)
}

/// What one step of a launch does, phase by phase.
pub open spec fn step_spec(old: LaunchDriver, event: LaunchEvent, d: LaunchDriver, action: LaunchAction) -> bool {
    let plan = old.plan;
    &&& keeps_settings(old, d)
    &&& match (old.phase, event) {
        (LaunchPhase::CheckTerminal, LaunchEvent::Available(available)) => if available {
            d.phase == LaunchPhase::ListInitial && runs(action, plan.terminal@, list_args())
        } else {
            stops(d, action) && (error_of(action) matches TerminalError::ExecutableUnavailable(x) && x@ == plan.terminal@)
        },
        (LaunchPhase::ListInitial, LaunchEvent::Listed(outcome, listing)) => if !raw_ran(outcome) {
            stops(d, action) && raw_error(error_of(action), "list WezTerm panes"@, outcome)
        } else if (outcome->Finished_0).success {
            match listing {
                Err(m) => stops(d, action) && (error_of(action) matches TerminalError::MalformedOutput { operation, message }
                    && operation@ == "wezterm cli list --format json"@ && message@ == m@),
                Ok(panes) => if exists|j: int| 0 <= j < panes@.len() && (#[trigger] panes@[j]).1@ == plan.mux_workspace@ {
                    stops(d, action) && (error_of(action) matches TerminalError::ExistingMuxWorkspace(x) && x@
                        == plan.mux_workspace@)
                } else {
                    d.phase == LaunchPhase::SpawnAfterList && runs(action, plan.terminal@, spawn_initial_args(plan))
                },
            }
        } else {
            &&& d.phase == LaunchPhase::SpawnWithoutList
            &&& d.list_stderr@ == (outcome->Finished_0).stderr@
            &&& runs(action, plan.terminal@, spawn_initial_args(plan))
        },
        (LaunchPhase::SpawnAfterList, LaunchEvent::Ran(outcome)) => if !raw_ran(outcome) {
            stops(d, action) && raw_error(error_of(action), "create initial WezTerm pane"@, outcome)
        } else if !(outcome->Finished_0).success {
            stops(d, action) && failed_error(error_of(action), "create initial WezTerm pane"@, outcome->Finished_0)
        } else {
            spawned_initial(d, action, outcome)
        },
        (LaunchPhase::SpawnWithoutList, LaunchEvent::Ran(outcome)) => if !raw_ran(outcome) {
            stops(d, action) && raw_error(error_of(action), "create initial WezTerm pane"@, outcome)
        } else if (outcome->Finished_0).success {
            spawned_initial(d, action, outcome)
        } else {
            &&& d.phase == LaunchPhase::StartMux
            &&& d.list_stderr@ == old.list_stderr@
            &&& d.spawn_stderr@ == (outcome->Finished_0).stderr@
            &&& starts(action, plan.terminal@, start_args(plan))
        },
        (LaunchPhase::StartMux, LaunchEvent::Started(result)) => match result {
            Err(m) => stops(d, action) && (error_of(action) matches TerminalError::MuxUnavailable { stderr } && stderr@
                == "list: "@ + bounded_text_spec(old.list_stderr@) + "; spawn: "@ + bounded_text_spec(old.spawn_stderr@)
                + "; start: "@ + m@),
            Ok(()) => if old.discovery_attempts > 0 {
                d.phase == LaunchPhase::Discover(0) && runs(action, plan.terminal@, list_args())
            } else {
                discovery_timed_out(d, action, plan.mux_workspace@)
            },
        },
        (LaunchPhase::Discover(a), LaunchEvent::Listed(outcome, listing)) => if !raw_ran(outcome) {
            discovery_fails(d, action) && raw_error(cause(error_of(action)), "discover WezTerm panes"@, outcome)
        } else if (outcome->Finished_0).success {
            match listing {
                Err(m) => discovery_fails(d, action) && (cause(error_of(action)) matches TerminalError::MalformedOutput {
                    operation: o,
                    message,
                } && o@ == "wezterm cli list --format json"@ && message@ == m@),
                Ok(panes) => {
                    let ids = candidate_ids(panes@, plan.mux_workspace@);
                    if ids.len() == 1 {
                        begins_layout(d, action, ids.choose())
                    } else if ids.len() > 1 {
                        discovery_fails(d, action) && (cause(error_of(action)) matches TerminalError::AmbiguousStartupDiscovery {
                            workspace,
                            candidates,
                        } && workspace@ == plan.mux_workspace@ && candidates == ids.len())
                    } else {
                        retries(old, d, action, a as int)
                    }
                },
            }
        } else {
            retries(old, d, action, a as int)
        },
        (LaunchPhase::Pause(a), LaunchEvent::Slept) => d.phase == LaunchPhase::Discover((a + 1) as usize) && runs(
            action,
            plan.terminal@,
            list_args(),
        ),
        (LaunchPhase::SpawnTab(i), LaunchEvent::Ran(outcome)) => if !after_start_ok(outcome) {
            stops(d, action) && after_start_error(error_of(action), "create tab "@ + decimal(i as nat), outcome)
        } else {
            match pane_id_of(stdout_of(outcome)) {
                None => {
                    &&& stops(d, action)
                    &&& partial(error_of(action), "parse pane ID for tab "@ + decimal(i as nat))
                    &&& malformed(cause(error_of(action)), "wezterm cli spawn"@)
                },
                Some(id) => {
                    &&& d.phase == LaunchPhase::NameTab(i)
                    &&& ids_view(d) == ids_view(old).update(i as int, seq![id])
                    &&& d.pane_count == old.pane_count + 1
                    &&& runs(action, plan.terminal@, set_tab_title_args(decimal(id as nat), plan.tabs@[i as int].name@))
                },
            }
        },
        (LaunchPhase::NameTab(i), LaunchEvent::Ran(outcome)) => if !after_start_ok(outcome) {
            stops(d, action) && after_start_error(error_of(action), "name tab "@ + decimal(i as nat), outcome)
        } else {
            ids_view(d) == ids_view(old) && d.pane_count == old.pane_count && continues(d, action, i as int, 0)
        },
        (LaunchPhase::SplitPane(i, k), LaunchEvent::Ran(outcome)) => if !after_start_ok(outcome) {
            stops(d, action) && after_start_error(
                error_of(action),
                "create tab "@ + decimal(i as nat) + " pane "@ + decimal((k + 1) as nat),
                outcome,
            )
        } else {
            match pane_id_of(stdout_of(outcome)) {
                None => {
                    &&& stops(d, action)
                    &&& partial(error_of(action), "parse pane ID for tab "@ + decimal(i as nat) + " pane "@ + decimal((k + 1) as nat))
                    &&& malformed(cause(error_of(action)), "wezterm cli split-pane"@)
                },
                Some(id) => {
                    &&& ids_view(d) == ids_view(old).update(i as int, ids_view(old)[i as int].push(id))
                    &&& d.pane_count == old.pane_count + 1
                    &&& continues(d, action, i as int, k + 1)
                },
            }
        },
        (LaunchPhase::CheckEditor, LaunchEvent::Available(available)) => if available {
            d.phase == LaunchPhase::StartEditor && d.pane_count == old.pane_count && starts(
                action,
                plan.editor@,
                seq![plan.workspace_path@],
            )
        } else {
            &&& stops(d, action)
            &&& partial(error_of(action), "start configured editor"@)
            &&& cause(error_of(action)) matches TerminalError::ExecutableUnavailable(x) && x@ == plan.editor@
        },
        (LaunchPhase::StartEditor, LaunchEvent::Started(result)) => match result {
            Err(m) => {
                &&& stops(d, action)
                &&& partial(error_of(action), "start configured editor"@)
                &&& cause(error_of(action)) matches TerminalError::ProcessExecution { operation: o, message } && o@
                    == "start configured editor"@ && message@ == m@
            },
            Ok(()) => d.pane_count == old.pane_count && to_ollama(d, action),
        },
        (LaunchPhase::CheckBrew, LaunchEvent::Available(available)) => if available {
            d.phase == LaunchPhase::RunOllama && d.pane_count == old.pane_count && runs(action, "brew"@, ollama_args())
        } else {
            &&& stops(d, action)
            &&& partial(error_of(action), "start Ollama service"@)
            &&& cause(error_of(action)) matches TerminalError::ExecutableUnavailable(x) && x@ == "brew"@
        },
        (LaunchPhase::RunOllama, LaunchEvent::Ran(outcome)) => if !after_start_ok(outcome) {
            stops(d, action) && after_start_error(error_of(action), "start Ollama service"@, outcome)
        } else {
            finishes(d, action)
        },
        _ => false,
    }
}

fn raw_failure(op: &str, outcome: &RunOutcome) -> (r: Option<TerminalError>)
    ensures
        r is None <==> raw_ran(*outcome),
        r matches Some(e) ==> raw_error(e, op@, *outcome),
{
    match outcome {
        RunOutcome::Failed(m) => Some(TerminalError::ProcessExecution { operation: owned(op), message: m.clone() }),
        RunOutcome::Finished(o) => if o.timed_out {
            Some(TerminalError::CommandTimedOut { operation: owned(op) })
        } else {
            None
        },
    }
}

fn command_failure(op: &str, o: &ProcessOutput) -> (e: TerminalError)
    ensures
        failed_error(e, op@, *o),
{
    TerminalError::CommandFailed {
        operation: owned(op),
        status: status_label(o.exit_code),
        stderr: bounded_text(o.stderr.as_slice()),
    }
}

fn partial_error(op: &str, source: TerminalError) -> (e: TerminalError)
    ensures
        partial(e, op@),
        cause(e) == source,
{
    TerminalError::PartialLaunchFailure { operation: owned(op), source: Box::new(source) }
}

/// `execute_after_start`'s refusal of an outcome, if any.
fn after_start(op: &str, outcome: &RunOutcome) -> (r: Option<TerminalError>)
    ensures
        r is None <==> after_start_ok(*outcome),
        r matches Some(e) ==> after_start_error(e, op@, *outcome),
{
    match raw_failure(op, outcome) {
        Some(e) => Some(partial_error(op, e)),
        None => match outcome {
            RunOutcome::Finished(o) => if o.success {
                None
            } else {
                Some(partial_error(op, command_failure(op, o)))
            },
            RunOutcome::Failed(_) => None,
        },
    }
}

fn stdout_bytes(outcome: &RunOutcome) -> (r: &[u8])
    requires
        outcome is Finished,
    ensures
        r@ == stdout_of(*outcome),
{
    match outcome {
        RunOutcome::Finished(o) => o.stdout.as_slice(),
        RunOutcome::Failed(_) => unreached(),
    }
}

fn contains_id(v: &Vec<u64>, x: u64) -> (r: bool)
    ensures
        r == v@.contains(x),
{
    let mut k: usize = 0;
    while k < v.len()
        invariant
            k <= v@.len(),
            forall|q: int| 0 <= q < k ==> v@[q] != x,
        decreases v@.len() - k,
    {
        if v[k] == x {
            return true;
        }
        k = k + 1;
    }
    false
}

/// The distinct identifiers of the mux workspace's panes in a listing.
fn candidates(panes: &Vec<(u64, String)>, mux: &str) -> (r: Vec<u64>)
    ensures
        r@.no_duplicates(),
        r@.to_set() == candidate_ids(panes@, mux@),
{
    let mut r: Vec<u64> = Vec::new();
    let mut i: usize = 0;
    while i < panes.len()
        invariant
            i <= panes@.len(),
            r@.no_duplicates(),
            forall|id: u64| r@.contains(id) <==> exists|j: int| 0 <= j < i && (#[trigger] panes@[j]).0 == id && panes@[j].1@ == mux@,
        decreases panes@.len() - i,
    {
        let ghost before = r@;
        if str_eq(panes[i].1.as_str(), mux) {
            let id = panes[i].0;
            if !contains_id(&r, id) {
                r.push(id);
                proof {
                    assert forall|x: int, y: int| 0 <= x < r@.len() && 0 <= y < r@.len() && x != y implies r@[x] != r@[y] by {
                        if x == before.len() {
                            assert(!before.contains(id));
                            assert(r@[y] == before[y]);
                        } else if y == before.len() {
                            assert(!before.contains(id));
                            assert(r@[x] == before[x]);
                        } else {
                            assert(r@[x] == before[x] && r@[y] == before[y]);
                        }
                    }
                }
            }
        }
        proof {
            assert forall|id: u64| r@.contains(id) <==> exists|j: int| 0 <= j < i + 1 && (#[trigger] panes@[j]).0 == id
                && panes@[j].1@ == mux@ by {
                if r@.contains(id) {
                    let q = choose|q: int| 0 <= q < r@.len() && r@[q] == id;
                    if q < before.len() {
                        assert(before[q] == id);
                        assert(before.contains(id));
                    } else {
                        assert(panes@[i as int].0 == id);
                    }
                }
                if exists|j: int| 0 <= j < i + 1 && (#[trigger] panes@[j]).0 == id && panes@[j].1@ == mux@ {
                    let j = choose|j: int| 0 <= j < i + 1 && (#[trigger] panes@[j]).0 == id && panes@[j].1@ == mux@;
                    if j < i {
                        assert(before.contains(id));
                        let q = choose|q: int| 0 <= q < before.len() && before[q] == id;
                        assert(r@[q] == id);
                    } else {
                        if before.contains(id) {
                            let q = choose|q: int| 0 <= q < before.len() && before[q] == id;
                            assert(r@[q] == id);
                        } else {
                            assert(r@[before.len() as int] == id);
                        }
                    }
                }
            }
        }
        i = i + 1;
    }
    assert(r@.to_set() =~= candidate_ids(panes@, mux@));
    r
}

fn exists_workspace(panes: &Vec<(u64, String)>, mux: &str) -> (r: bool)
    ensures
        r == exists|j: int| 0 <= j < panes@.len() && (#[trigger] panes@[j]).1@ == mux@,
{
    let mut i: usize = 0;
    while i < panes.len()
        invariant
            i <= panes@.len(),
            forall|j: int| 0 <= j < i ==> (#[trigger] panes@[j]).1@ != mux@,
        decreases panes@.len() - i,
    {
        if str_eq(panes[i].1.as_str(), mux) {
            return true;
        }
        i = i + 1;
    }
    false
}

impl LaunchDriver {
    /// A launch of the plan that looks for a pane the terminal started
    /// `discovery_attempts` times, `discovery_delay_ms` apart; its first action.
    pub fn new(plan: LaunchPlan, discovery_attempts: usize, discovery_delay_ms: u64) -> (r: (LaunchDriver, LaunchAction))
        requires
            plan_wf(plan),
            launch_pane_total(plan) <= usize::MAX,
        ensures
            driver_wf(r.0),
            r.0.plan == plan,
            r.0.discovery_attempts == discovery_attempts,
            r.0.discovery_delay_ms == discovery_delay_ms,
            r.0.phase == LaunchPhase::CheckTerminal,
            checks(r.1, plan.terminal@),
    {
        let action = LaunchAction::CheckExecutable(plan.terminal.clone());
        let d = LaunchDriver {
            plan,
            discovery_attempts,
            discovery_delay_ms,
            phase: LaunchPhase::CheckTerminal,
            pane_ids: Vec::new(),
            pane_count: 0,
            list_stderr: Vec::new(),
            spawn_stderr: Vec::new(),
        };
        (d, action)
    }

    /// A launch with the standard discovery: 20 looks, 100 ms apart.
    pub fn launch(plan: LaunchPlan) -> (r: (LaunchDriver, LaunchAction))
        requires
            plan_wf(plan),
            launch_pane_total(plan) <= usize::MAX,
        ensures
            driver_wf(r.0),
            r.0.plan == plan,
            r.0.discovery_attempts == DISCOVERY_ATTEMPTS,
            r.0.discovery_delay_ms == DISCOVERY_DELAY_MS,
            r.0.phase == LaunchPhase::CheckTerminal,
            checks(r.1, plan.terminal@),
    {
        LaunchDriver::new(plan, DISCOVERY_ATTEMPTS, DISCOVERY_DELAY_MS)
    }

    fn stop(&mut self, e: TerminalError) -> (action: LaunchAction)
        requires
            base_wf(*old(self)),
        ensures
            driver_wf(*final(self)),
            keeps_settings(*old(self), *final(self)),
            final(self).phase == LaunchPhase::Finished,
            action == LaunchAction::Finish(Err(e)),
            stops(*final(self), action),
            error_of(action) == e,
    {
        self.phase = LaunchPhase::Finished;
        LaunchAction::Finish(Err(e))
    }

    fn finish(&mut self) -> (action: LaunchAction)
        requires
            base_wf(*old(self)),
            old(self).pane_count == launch_pane_total(old(self).plan),
        ensures
            driver_wf(*final(self)),
            keeps_settings(*old(self), *final(self)),
            final(self).pane_count == old(self).pane_count,
            ids_view(*final(self)) == ids_view(*old(self)),
            finishes(*final(self), action),
    {
        self.phase = LaunchPhase::Finished;
        LaunchAction::Finish(
            Ok(
                LaunchSummary {
                    workspace: self.plan.workspace_name.clone(),
                    layout: self.plan.layout_name.clone(),
                    mux_workspace: self.plan.mux_workspace.clone(),
                    pane_count: self.pane_count,
                },
            ),
        )
    }

    fn to_ollama(&mut self) -> (action: LaunchAction)
        requires
            base_wf(*old(self)),
            old(self).pane_count == launch_pane_total(old(self).plan),
        ensures
            driver_wf(*final(self)),
            keeps_settings(*old(self), *final(self)),
            final(self).pane_count == old(self).pane_count,
            ids_view(*final(self)) == ids_view(*old(self)),
            to_ollama(*final(self), action),
    {
        if self.plan.ollama_enabled {
            self.phase = LaunchPhase::CheckBrew;
            LaunchAction::CheckExecutable(owned("brew"))
        } else {
            self.finish()
        }
    }

    fn to_services(&mut self) -> (action: LaunchAction)
        requires
            base_wf(*old(self)),
            old(self).pane_count == launch_pane_total(old(self).plan),
        ensures
            driver_wf(*final(self)),
            keeps_settings(*old(self), *final(self)),
            final(self).pane_count == old(self).pane_count,
            ids_view(*final(self)) == ids_view(*old(self)),
            to_services(*final(self), action),
    {
        if self.plan.editor_enabled {
            self.phase = LaunchPhase::CheckEditor;
            LaunchAction::CheckExecutable(self.plan.editor.clone())
        } else {
            let ghost before = ids_view(*self);
            let a = self.to_ollama();
            assert(ids_view(*self) == before);
            a
        }
    }

    /// Goes on after the first `k` additional panes of tab `i` are made.
    fn continue_after(&mut self, i: usize, k: usize) -> (action: LaunchAction)
        requires
            base_wf(*old(self)),
            layout_at(*old(self), i as int, k + 1),
            k <= old(self).plan.tabs@[i as int].panes@.len(),
        ensures
            driver_wf(*final(self)),
            keeps_settings(*old(self), *final(self)),
            final(self).pane_count == old(self).pane_count,
            ids_view(*final(self)) == ids_view(*old(self)),
            continues(*final(self), action, i as int, k as int),
    {
        proof {
            lemma_panes_before_monotone(self.plan, (i + 1) as nat, self.plan.tabs@.len());
        }
        let ntabs = self.plan.tabs.len();
        assert(i < ntabs);
        if k < self.plan.tabs[i].panes.len() {
            let pane = &self.plan.tabs[i].panes[k];
            assert(pane.target <= k);
            let target = self.pane_ids[i][pane.target];
            let target_text = decimal_string(target);
            let inv = split_invocation(&self.plan, target_text.as_str(), pane);
            self.phase = LaunchPhase::SplitPane(i, k);
            LaunchAction::Run(inv)
        } else if i + 1 < ntabs {
            let initial = self.pane_ids[0][0];
            let initial_text = decimal_string(initial);
            let inv = spawn_tab_invocation(&self.plan, initial_text.as_str(), &self.plan.tabs[i + 1].command);
            self.phase = LaunchPhase::SpawnTab(i + 1);
            LaunchAction::Run(inv)
        } else {
            self.to_services()
        }
    }

    /// Records the initial pane and names the first tab.
    fn begin_layout(&mut self, initial: u64) -> (action: LaunchAction)
        requires
            base_wf(*old(self)),
        ensures
            driver_wf(*final(self)),
            keeps_settings(*old(self), *final(self)),
            begins_layout(*final(self), action, initial),
    {
        let n = self.plan.tabs.len();
        let mut ids: Vec<Vec<u64>> = Vec::new();
        let mut first: Vec<u64> = Vec::new();
        first.push(initial);
        ids.push(first);
        let mut j: usize = 1;
        while j < n
            invariant
                1 <= j <= n,
                n == self.plan.tabs@.len(),
                ids@.len() == j,
                forall|q: int| 0 <= q < j ==> (#[trigger] ids@[q])@ == (if q == 0 { seq![initial] } else { Seq::<u64>::empty() }),
            decreases n - j,
        {
            let ghost before = ids@;
            let empty: Vec<u64> = Vec::new();
            assert(empty@ =~= Seq::<u64>::empty());
            ids.push(empty);
            assert forall|q: int| 0 <= q < j + 1 implies (#[trigger] ids@[q])@ == (if q == 0 { seq![initial] } else { Seq::<u64>::empty() }) by {
                if q < j {
                    assert(ids@[q] == before[q]);
                }
            }
            j = j + 1;
        }
        assert(ids@.map_values(|v: Vec<u64>| v@) =~= Seq::new(n as nat, |q: int| if q == 0 { seq![initial] } else { Seq::<u64>::empty() }));
        self.pane_ids = ids;
        self.pane_count = 1;
        proof {
            assert(panes_before(self.plan, 0) == 0);
            lemma_panes_before_monotone(self.plan, 1, self.plan.tabs@.len());
        }
        let initial_text = decimal_string(initial);
        let inv = set_tab_title_invocation(&self.plan, initial_text.as_str(), self.plan.tabs[0].name.as_str());
        self.phase = LaunchPhase::NameTab(0);
        LaunchAction::Run(inv)
    }

    fn push_id(&mut self, i: usize, id: u64)
        requires
            i < old(self).pane_ids@.len(),
        ensures
            ids_view(*final(self)) == ids_view(*old(self)).update(i as int, ids_view(*old(self))[i as int].push(id)),
            final(self).pane_ids@.len() == old(self).pane_ids@.len(),
            final(self).plan == old(self).plan,
            final(self).phase == old(self).phase,
            final(self).pane_count == old(self).pane_count,
            final(self).discovery_attempts == old(self).discovery_attempts,
            final(self).discovery_delay_ms == old(self).discovery_delay_ms,
            final(self).list_stderr == old(self).list_stderr,
            final(self).spawn_stderr == old(self).spawn_stderr,
    {
        let ghost before = self.pane_ids@;
        let mut v = self.pane_ids.remove(i);
        v.push(id);
        self.pane_ids.insert(i, v);
        assert(ids_view(*self) =~= ids_view(*old(self)).update(i as int, ids_view(*old(self))[i as int].push(id))) by {
            assert forall|q: int| 0 <= q < before.len() implies #[trigger] self.pane_ids@[q]@ == (if q == i { before[q]@.push(id) } else { before[q]@ }) by {
                if q < i {
                    assert(self.pane_ids@[q] == before[q]);
                } else if q > i {
                    assert(self.pane_ids@[q] == before[q]);
                }
            }
        }
    }
}

impl LaunchDriver {
    /// Takes what came of the last action and says what to do next.
    pub fn step(&mut self, event: LaunchEvent) -> (action: LaunchAction)
        requires
            driver_wf(*old(self)),
            awaits(old(self).phase, event),
        ensures
            driver_wf(*final(self)),
            step_spec(*old(self), event, *final(self), action),
    {
        match self.phase {
            LaunchPhase::CheckTerminal => self.on_check_terminal(event),
            LaunchPhase::ListInitial => self.on_initial_list(event),
            LaunchPhase::SpawnAfterList | LaunchPhase::SpawnWithoutList => self.on_initial_spawn(event),
            LaunchPhase::StartMux => self.on_mux_start(event),
            LaunchPhase::Discover(a) => self.on_discovery(a, event),
            LaunchPhase::Pause(a) => {
                let list = list_invocation(&self.plan);
                self.phase = LaunchPhase::Discover(a + 1);
                LaunchAction::Run(list)
            },
            LaunchPhase::SpawnTab(i) => self.on_tab_spawn(i, event),
            LaunchPhase::NameTab(i) => self.on_tab_named(i, event),
            LaunchPhase::SplitPane(i, k) => self.on_pane_split(i, k, event),
            LaunchPhase::CheckEditor | LaunchPhase::StartEditor | LaunchPhase::CheckBrew | LaunchPhase::RunOllama => {
                self.on_service(event)
            },
            LaunchPhase::Finished => unreached(),
        }
    }

    fn on_check_terminal(&mut self, event: LaunchEvent) -> (action: LaunchAction)
        requires
            driver_wf(*old(self)),
            old(self).phase == LaunchPhase::CheckTerminal,
            event is Available,
        ensures
            driver_wf(*final(self)),
            step_spec(*old(self), event, *final(self), action),
    {
        match event {
            LaunchEvent::Available(true) => {
                let list = list_invocation(&self.plan);
                self.phase = LaunchPhase::ListInitial;
                LaunchAction::Run(list)
            },
            _ => {
                let e = TerminalError::ExecutableUnavailable(self.plan.terminal.clone());
                self.stop(e)
            },
        }
    }

    fn on_initial_list(&mut self, event: LaunchEvent) -> (action: LaunchAction)
        requires
            driver_wf(*old(self)),
            old(self).phase == LaunchPhase::ListInitial,
            event is Listed,
        ensures
            driver_wf(*final(self)),
            step_spec(*old(self), event, *final(self), action),
    {
        let (outcome, listing) = match event {
            LaunchEvent::Listed(o, l) => (o, l),
            _ => unreached(),
        };
        match raw_failure("list WezTerm panes", &outcome) {
            Some(e) => {
                return self.stop(e);
            },
            None => {},
        }
        let output = match outcome {
            RunOutcome::Finished(o) => o,
            RunOutcome::Failed(_) => unreached(),
        };
        if output.success {
            match listing {
                Err(m) => self.stop(
                    TerminalError::MalformedOutput { operation: owned("wezterm cli list --format json"), message: m },
                ),
                Ok(panes) => {
                    if exists_workspace(&panes, self.plan.mux_workspace.as_str()) {
                        let e = TerminalError::ExistingMuxWorkspace(self.plan.mux_workspace.clone());
                        self.stop(e)
                    } else {
                        let spawn = spawn_initial_invocation(&self.plan);
                        self.phase = LaunchPhase::SpawnAfterList;
                        LaunchAction::Run(spawn)
                    }
                },
            }
        } else {
            let spawn = spawn_initial_invocation(&self.plan);
            self.list_stderr = output.stderr;
            self.phase = LaunchPhase::SpawnWithoutList;
            LaunchAction::Run(spawn)
        }
    }

    fn on_initial_spawn(&mut self, event: LaunchEvent) -> (action: LaunchAction)
        requires
            driver_wf(*old(self)),
            old(self).phase == LaunchPhase::SpawnAfterList || old(self).phase == LaunchPhase::SpawnWithoutList,
            event is Ran,
        ensures
            driver_wf(*final(self)),
            step_spec(*old(self), event, *final(self), action),
    {
        let outcome = match event {
            LaunchEvent::Ran(o) => o,
            _ => unreached(),
        };
        match raw_failure("create initial WezTerm pane", &outcome) {
            Some(e) => {
                return self.stop(e);
            },
            None => {},
        }
        let output = match outcome {
            RunOutcome::Finished(o) => o,
            RunOutcome::Failed(_) => unreached(),
        };
        if !output.success {
            if self.phase == LaunchPhase::SpawnAfterList {
                let e = command_failure("create initial WezTerm pane", &output);
                return self.stop(e);
            }
            let start = start_invocation(&self.plan);
            self.spawn_stderr = output.stderr;
            self.phase = LaunchPhase::StartMux;
            return LaunchAction::Start(start);
        }
        match parse_pane_id("wezterm cli spawn", output.stdout.as_slice()) {
            Ok(id) => self.begin_layout(id),
            Err(e) => self.stop(e),
        }
    }

    fn on_mux_start(&mut self, event: LaunchEvent) -> (action: LaunchAction)
        requires
            driver_wf(*old(self)),
            old(self).phase == LaunchPhase::StartMux,
            event is Started,
        ensures
            driver_wf(*final(self)),
            step_spec(*old(self), event, *final(self), action),
    {
        let result = match event {
            LaunchEvent::Started(r) => r,
            _ => unreached(),
        };
        match result {
            Err(m) => {
                let mut text = owned("list: ");
                push_str(&mut text, bounded_text(self.list_stderr.as_slice()).as_str());
                push_str(&mut text, "; spawn: ");
                push_str(&mut text, bounded_text(self.spawn_stderr.as_slice()).as_str());
                push_str(&mut text, "; start: ");
                push_str(&mut text, m.as_str());
                self.stop(TerminalError::MuxUnavailable { stderr: text })
            },
            Ok(()) => {
                if self.discovery_attempts > 0 {
                    let list = list_invocation(&self.plan);
                    self.phase = LaunchPhase::Discover(0);
                    LaunchAction::Run(list)
                } else {
                    let timeout = TerminalError::StartupDiscoveryTimeout { workspace: self.plan.mux_workspace.clone() };
                    self.stop(partial_error("discover initial WezTerm pane", timeout))
                }
            },
        }
    }

    /// Nothing usable in this look: pause before the next, or give up.
    fn retry(&mut self, a: usize) -> (action: LaunchAction)
        requires
            driver_wf(*old(self)),
            old(self).phase == LaunchPhase::Discover(a),
        ensures
            driver_wf(*final(self)),
            keeps_settings(*old(self), *final(self)),
            retries(*old(self), *final(self), action, a as int),
    {
        if a + 1 < self.discovery_attempts {
            self.phase = LaunchPhase::Pause(a);
            LaunchAction::Sleep(self.discovery_delay_ms)
        } else {
            let timeout = TerminalError::StartupDiscoveryTimeout { workspace: self.plan.mux_workspace.clone() };
            self.stop(partial_error("discover initial WezTerm pane", timeout))
        }
    }

    fn on_discovery(&mut self, a: usize, event: LaunchEvent) -> (action: LaunchAction)
        requires
            driver_wf(*old(self)),
            old(self).phase == LaunchPhase::Discover(a),
            event is Listed,
        ensures
            driver_wf(*final(self)),
            step_spec(*old(self), event, *final(self), action),
    {
        let (outcome, listing) = match event {
            LaunchEvent::Listed(o, l) => (o, l),
            _ => unreached(),
        };
        match raw_failure("discover WezTerm panes", &outcome) {
            Some(e) => {
                return self.stop(partial_error("discover initial WezTerm pane", e));
            },
            None => {},
        }
        let output = match outcome {
            RunOutcome::Finished(o) => o,
            RunOutcome::Failed(_) => unreached(),
        };
        if !output.success {
            return self.retry(a);
        }
        match listing {
            Err(m) => {
                let e = TerminalError::MalformedOutput { operation: owned("wezterm cli list --format json"), message: m };
                self.stop(partial_error("discover initial WezTerm pane", e))
            },
            Ok(panes) => {
                let ids = candidates(&panes, self.plan.mux_workspace.as_str());
                proof {
                    ids@.unique_seq_to_set();
                }
                if ids.len() == 1 {
                    proof {
                        assert(ids@.to_set() =~= set![ids@[0]]);
                        vstd::set::axiom_set_choose_len(ids@.to_set());
                    }
                    self.begin_layout(ids[0])
                } else if ids.len() > 1 {
                    let e = TerminalError::AmbiguousStartupDiscovery {
                        workspace: self.plan.mux_workspace.clone(),
                        candidates: ids.len(),
                    };
                    self.stop(partial_error("discover initial WezTerm pane", e))
                } else {
                    self.retry(a)
                }
            },
        }
    }

    fn on_tab_spawn(&mut self, i: usize, event: LaunchEvent) -> (action: LaunchAction)
        requires
            driver_wf(*old(self)),
            old(self).phase == LaunchPhase::SpawnTab(i),
            event is Ran,
        ensures
            driver_wf(*final(self)),
            step_spec(*old(self), event, *final(self), action),
    {
        let outcome = match event {
            LaunchEvent::Ran(o) => o,
            _ => unreached(),
        };
        let mut op = owned("create tab ");
        push_decimal(&mut op, i as u64);
        match after_start(op.as_str(), &outcome) {
            Some(e) => {
                return self.stop(e);
            },
            None => {},
        }
        match parse_pane_id("wezterm cli spawn", stdout_bytes(&outcome)) {
            Err(e) => {
                let mut parse_op = owned("parse pane ID for tab ");
                push_decimal(&mut parse_op, i as u64);
                self.stop(partial_error(parse_op.as_str(), e))
            },
            Ok(id) => {
                proof {
                    lemma_panes_before_monotone(self.plan, (i + 1) as nat, self.plan.tabs@.len());
                }
                self.push_id(i, id);
                self.pane_count = self.pane_count + 1;
                assert(ids_view(*self)[i as int] =~= seq![id]);
                let id_text = decimal_string(id);
                let inv = set_tab_title_invocation(&self.plan, id_text.as_str(), self.plan.tabs[i].name.as_str());
                self.phase = LaunchPhase::NameTab(i);
                LaunchAction::Run(inv)
            },
        }
    }

    fn on_tab_named(&mut self, i: usize, event: LaunchEvent) -> (action: LaunchAction)
        requires
            driver_wf(*old(self)),
            old(self).phase == LaunchPhase::NameTab(i),
            event is Ran,
        ensures
            driver_wf(*final(self)),
            step_spec(*old(self), event, *final(self), action),
    {
        let outcome = match event {
            LaunchEvent::Ran(o) => o,
            _ => unreached(),
        };
        let mut op = owned("name tab ");
        push_decimal(&mut op, i as u64);
        match after_start(op.as_str(), &outcome) {
            Some(e) => self.stop(e),
            None => self.continue_after(i, 0),
        }
    }

    fn on_pane_split(&mut self, i: usize, k: usize, event: LaunchEvent) -> (action: LaunchAction)
        requires
            driver_wf(*old(self)),
            old(self).phase == LaunchPhase::SplitPane(i, k),
            event is Ran,
        ensures
            driver_wf(*final(self)),
            step_spec(*old(self), event, *final(self), action),
    {
        let outcome = match event {
            LaunchEvent::Ran(o) => o,
            _ => unreached(),
        };
        let mut op = owned("create tab ");
        push_decimal(&mut op, i as u64);
        push_str(&mut op, " pane ");
        push_decimal(&mut op, (k as u64) + 1);
        match after_start(op.as_str(), &outcome) {
            Some(e) => {
                return self.stop(e);
            },
            None => {},
        }
        match parse_pane_id("wezterm cli split-pane", stdout_bytes(&outcome)) {
            Err(e) => {
                let mut parse_op = owned("parse pane ID for tab ");
                push_decimal(&mut parse_op, i as u64);
                push_str(&mut parse_op, " pane ");
                push_decimal(&mut parse_op, (k as u64) + 1);
                self.stop(partial_error(parse_op.as_str(), e))
            },
            Ok(id) => {
                proof {
                    lemma_panes_before_monotone(self.plan, (i + 1) as nat, self.plan.tabs@.len());
                }
                self.push_id(i, id);
                self.pane_count = self.pane_count + 1;
                self.continue_after(i, k + 1)
            },
        }
    }

    fn on_service(&mut self, event: LaunchEvent) -> (action: LaunchAction)
        requires
            driver_wf(*old(self)),
            old(self).phase == LaunchPhase::CheckEditor || old(self).phase == LaunchPhase::StartEditor
                || old(self).phase == LaunchPhase::CheckBrew || old(self).phase == LaunchPhase::RunOllama,
            awaits(old(self).phase, event),
        ensures
            driver_wf(*final(self)),
            step_spec(*old(self), event, *final(self), action),
    {
        match (self.phase, event) {
            (LaunchPhase::CheckEditor, LaunchEvent::Available(available)) => {
                if available {
                    let inv = editor_invocation(&self.plan);
                    self.phase = LaunchPhase::StartEditor;
                    LaunchAction::Start(inv)
                } else {
                    let e = TerminalError::ExecutableUnavailable(self.plan.editor.clone());
                    self.stop(partial_error("start configured editor", e))
                }
            },
            (LaunchPhase::StartEditor, LaunchEvent::Started(result)) => match result {
                Err(m) => {
                    let e = TerminalError::ProcessExecution { operation: owned("start configured editor"), message: m };
                    self.stop(partial_error("start configured editor", e))
                },
                Ok(()) => self.to_ollama(),
            },
            (LaunchPhase::CheckBrew, LaunchEvent::Available(available)) => {
                if available {
                    let inv = ollama_invocation();
                    self.phase = LaunchPhase::RunOllama;
                    LaunchAction::Run(inv)
                } else {
                    self.stop(partial_error("start Ollama service", TerminalError::ExecutableUnavailable(owned("brew"))))
                }
            },
            (LaunchPhase::RunOllama, LaunchEvent::Ran(outcome)) => match after_start("start Ollama service", &outcome) {
                Some(e) => self.stop(e),
                None => self.finish(),
            },
            _ => unreached(),
        }
    }
}

/// A launch ends at its first error or with its summary; after that it takes
/// no further event, so nothing more is run.
pub proof fn law_launch_stops_after_finish(old: LaunchDriver, event: LaunchEvent, d: LaunchDriver, action: LaunchAction)
    requires
        step_spec(old, event, d, action),
        action is Finish,
    ensures
        d.phase == LaunchPhase::Finished,
        forall|next: LaunchEvent| !awaits(d.phase, next),
{
}

} // verus!
