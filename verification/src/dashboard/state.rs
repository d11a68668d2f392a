//! The dashboard's state between frames: the workspace list, the selection,
//! and whether a refresh is due.
use vstd::prelude::*;
use crate::order::{keys_sorted, push_str_key, sort_stable, sorted_of, str_key, SortKey};
use crate::text::{owned, str_eq};

verus! {

/// The keys the dashboard reacts to.
#[derive(Debug, Clone, Copy, PartialEq, Eq, Structural)]
pub enum KeyCode {
    Char(char),
    Esc,
    Up,
    Down,
    Other,
}

#[derive(Debug, Clone, Copy, PartialEq, Eq, Structural)]
pub enum InputAction {
    Ignored,
    Redraw,
    Refresh,
    Quit,
}

#[derive(Debug, Clone, PartialEq, Eq)]
pub struct WorkspaceEntry {
    pub name: String,
    pub path: String,
}

/// Workspaces are listed by name, then path.
impl SortKey for WorkspaceEntry {
    open spec fn sort_key(&self) -> Seq<u32> {
        str_key(self.name@) + str_key(self.path@)
    }

    fn key(&self) -> (k: Vec<u32>) {
        let mut k = Vec::new();
        push_str_key(&mut k, self.name.as_str());
        push_str_key(&mut k, self.path.as_str());
        k
    }
}

/// Metrics are refreshed at least this often.
pub const METRICS_REFRESH_INTERVAL_MS: u64 = 1000;

pub struct DashboardState {
    workspaces: Vec<WorkspaceEntry>,
    selected_workspace: Option<usize>,
    refresh_requested: bool,
    force_service_refresh: bool,
    status_message: Option<String>,
}

/// Some entry of the list has the name.
pub open spec fn named_in(list: Seq<WorkspaceEntry>, name: Seq<char>) -> bool {
    exists|j: int| 0 <= j < list.len() && (#[trigger] list[j]).name@ == name
}

/// The entry of one name and path of the table.
pub open spec fn entry_from(entries: Seq<(String, String)>, e: WorkspaceEntry) -> bool {
    exists|j: int| 0 <= j < entries.len() && e.name@ == (#[trigger] entries[j]).0@ && e.path@ == entries[j].1@
}

/// One workspace entry per row of a name-to-path table, in the table's order.
pub open spec fn entries_of(entries: Seq<(String, String)>) -> Seq<WorkspaceEntry> {
    entries.map_values(|p: (String, String)| WorkspaceEntry { name: p.0, path: p.1 })
}

/// The workspace entries of a name-to-path table, sorted: each row of the
/// table gives one entry, as often as it occurs.
pub fn workspace_entries(entries: &Vec<(String, String)>) -> (r: Vec<WorkspaceEntry>)
    ensures
        r@.len() == entries@.len(),
        keys_sorted(r@),
        r@.to_multiset() == entries_of(entries@).to_multiset(),
        forall|i: int| 0 <= i < r@.len() ==> entry_from(entries@, #[trigger] r@[i]),
{
    let mut v: Vec<WorkspaceEntry> = Vec::new();
    let mut i: usize = 0;
    while i < entries.len()
        invariant
            i <= entries@.len(),
            v@.len() == i,
            forall|k: int| 0 <= k < i ==> (#[trigger] v@[k]).name@ == entries@[k].0@ && v@[k].path@ == entries@[k].1@,
            v@ == entries_of(entries@).take(i as int),
        decreases entries@.len() - i,
    {
        v.push(WorkspaceEntry { name: entries[i].0.clone(), path: entries[i].1.clone() });
        i = i + 1;
        assert(v@ =~= entries_of(entries@).take(i as int));
    }
    assert(v@ =~= entries_of(entries@));
    let ghost all = v@;
    let r = sort_stable(v);
    proof {
        assert forall|x: int| 0 <= x < r@.len() implies entry_from(entries@, #[trigger] r@[x]) by {
            assert(all.contains(r@[x]));
            let w = choose|w: int| 0 <= w < all.len() && all[w] == r@[x];
            assert(all[w].name@ == entries@[w].0@);
        }
    }
    r
}

impl DashboardState {
    pub closed spec fn workspaces_spec(&self) -> Seq<WorkspaceEntry> {
        self.workspaces@
    }

    pub closed spec fn selected_spec(&self) -> Option<usize> {
        self.selected_workspace
    }

    pub closed spec fn refresh_requested_spec(&self) -> bool {
        self.refresh_requested
    }

    pub closed spec fn force_service_refresh_spec(&self) -> bool {
        self.force_service_refresh
    }

    pub closed spec fn status_spec(&self) -> Option<String> {
        self.status_message
    }

    /// The selection is valid for the list.
    pub open spec fn selection_valid(&self) -> bool {
        &&& (self.selected_spec() is None <==> self.workspaces_spec().len() == 0)
        &&& self.selected_spec() matches Some(i) ==> i < self.workspaces_spec().len()
    }

    /// A first frame: the workspaces listed, the first selected, a refresh of
    /// everything due.
    pub fn new(entries: &Vec<(String, String)>) -> (r: Self)
        ensures
            r.selection_valid(),
            r.workspaces_spec().len() == entries@.len(),
            keys_sorted(r.workspaces_spec()),
            r.workspaces_spec().to_multiset() == entries_of(entries@).to_multiset(),
            r.selected_spec() == if entries@.len() == 0 {
                None
            } else {
                Some(0usize)
            },
            r.refresh_requested_spec(),
            r.force_service_refresh_spec(),
            r.status_spec() is None,
    {
        let mut state = DashboardState {
            workspaces: Vec::new(),
            selected_workspace: None,
            refresh_requested: true,
            force_service_refresh: true,
            status_message: None,
        };
        state.update_workspaces(entries);
        state
    }

    pub fn workspaces(&self) -> (r: &Vec<WorkspaceEntry>)
        ensures
            r@ == self.workspaces_spec(),
    {
        &self.workspaces
    }

    pub fn selected_workspace(&self) -> (r: Option<usize>)
        ensures
            r == self.selected_spec(),
    {
        self.selected_workspace
    }

    /// The path of the selected workspace, or the root directory.
    pub fn selected_filesystem_path(&self) -> (r: String)
        ensures
            r@ == match self.selected_spec() {
                Some(i) => if i < self.workspaces_spec().len() {
                    self.workspaces_spec()[i as int].path@
                } else {
                    "/"@
                },
                None => "/"@,
            },
    {
        match self.selected_workspace {
            Some(i) => if i < self.workspaces.len() {
                self.workspaces[i].path.clone()
            } else {
                owned("/")
            },
            None => owned("/"),
        }
    }

    pub fn status_message(&self) -> (r: Option<String>)
        ensures
            r == self.status_spec(),
    {
        match &self.status_message {
            Some(m) => Some(m.clone()),
            None => None,
        }
    }

    pub fn set_status_message(&mut self, message: String)
        ensures
            final(self).status_spec() == Some(message),
            final(self).workspaces_spec() == old(self).workspaces_spec(),
            final(self).selected_spec() == old(self).selected_spec(),
            final(self).refresh_requested_spec() == old(self).refresh_requested_spec(),
            final(self).force_service_refresh_spec() == old(self).force_service_refresh_spec(),
    {
        self.status_message = Some(message);
    }

    pub fn clear_status_message(&mut self)
        ensures
            final(self).status_spec() is None,
            final(self).workspaces_spec() == old(self).workspaces_spec(),
            final(self).selected_spec() == old(self).selected_spec(),
            final(self).refresh_requested_spec() == old(self).refresh_requested_spec(),
            final(self).force_service_refresh_spec() == old(self).force_service_refresh_spec(),
    {
        self.status_message = None;
    }

    fn position(&self, name: &str) -> (r: Option<usize>)
        ensures
            r matches Some(i) ==> i < self.workspaces@.len() && self.workspaces@[i as int].name@ == name@
                && forall|j: int| 0 <= j < i ==> (#[trigger] self.workspaces@[j]).name@ != name@,
            r is None ==> forall|j: int| 0 <= j < self.workspaces@.len() ==> (#[trigger] self.workspaces@[j]).name@ != name@,
    {
        let mut i: usize = 0;
        while i < self.workspaces.len()
            invariant
                i <= self.workspaces@.len(),
                forall|j: int| 0 <= j < i ==> (#[trigger] self.workspaces@[j]).name@ != name@,
            decreases self.workspaces@.len() - i,
        {
            if str_eq(self.workspaces[i].name.as_str(), name) {
                return Some(i);
            }
            i = i + 1;
        }
        None
    }

    /// Takes the new workspace list; the selected workspace stays selected by
    /// name where it still exists, else the selection keeps its position,
    /// clamped to the list.
    pub fn update_workspaces(&mut self, entries: &Vec<(String, String)>)
        ensures
            final(self).selection_valid(),
            final(self).workspaces_spec().len() == entries@.len(),
            keys_sorted(final(self).workspaces_spec()),
            final(self).workspaces_spec().to_multiset() == entries_of(entries@).to_multiset(),
            final(self).refresh_requested_spec() == old(self).refresh_requested_spec(),
            final(self).force_service_refresh_spec() == old(self).force_service_refresh_spec(),
            final(self).status_spec() == old(self).status_spec(),
            entries@.len() > 0 ==> match old(self).selected_spec() {
                Some(i) => if i < old(self).workspaces_spec().len() && named_in(
                    final(self).workspaces_spec(),
                    old(self).workspaces_spec()[i as int].name@,
                ) {
                    final(self).workspaces_spec()[final(self).selected_spec()->0 as int].name@
                        == old(self).workspaces_spec()[i as int].name@
                } else {
                    final(self).selected_spec() == Some(if i < entries@.len() { i } else { (entries@.len() - 1) as usize })
                },
                None => final(self).selected_spec() == Some(0usize),
            },
    {
        let previously_selected: Option<String> = match self.selected_workspace {
            Some(i) => if i < self.workspaces.len() {
                Some(self.workspaces[i].name.clone())
            } else {
                None
            },
            None => None,
        };
        let previous_index = match self.selected_workspace {
            Some(i) => i,
            None => 0,
        };
        self.workspaces = workspace_entries(entries);
        if self.workspaces.len() == 0 {
            self.selected_workspace = None;
            return;
        }
        let found = match &previously_selected {
            Some(name) => self.position(name.as_str()),
            None => None,
        };
        proof {
            if found is None && previously_selected is Some {
                assert(!named_in(self.workspaces@, previously_selected->0@));
            }
        }
        self.selected_workspace = match found {
            Some(i) => Some(i),
            None => {
                let last = self.workspaces.len() - 1;
                Some(if previous_index < last {
                    previous_index
                } else {
                    last
                })
            },
        };
    }

    /// Whether metrics are due: on request, on the first frame, or once the interval passed.
    pub fn should_refresh(&self, since_last_refresh_ms: Option<u64>) -> (r: bool)
        ensures
            r == (self.refresh_requested_spec() || match since_last_refresh_ms {
                Some(ms) => ms >= METRICS_REFRESH_INTERVAL_MS,
                None => true,
            }),
    {
        self.refresh_requested || match since_last_refresh_ms {
            Some(ms) => ms >= METRICS_REFRESH_INTERVAL_MS,
            None => true,
        }
    }

    pub fn force_service_refresh(&self) -> (r: bool)
        ensures
            r == self.force_service_refresh_spec(),
    {
        self.force_service_refresh
    }

    /// A refresh completed: nothing more is due until the interval passes.
    pub fn complete_refresh(&mut self)
        ensures
            !final(self).refresh_requested_spec(),
            !final(self).force_service_refresh_spec(),
            final(self).workspaces_spec() == old(self).workspaces_spec(),
            final(self).selected_spec() == old(self).selected_spec(),
            final(self).status_spec() == old(self).status_spec(),
    {
        self.refresh_requested = false;
        self.force_service_refresh = false;
    }

    /// `q` or Escape quits; `r` forces a refresh; the arrows, `k` and `j`
    /// move the selection within the list, and a move asks for a refresh.
    pub fn handle_key(&mut self, code: KeyCode) -> (r: InputAction)
        requires
            old(self).selection_valid(),
        ensures
            final(self).selection_valid(),
            final(self).workspaces_spec() == old(self).workspaces_spec(),
            final(self).status_spec() == old(self).status_spec(),
            (code == KeyCode::Char('q') || code == KeyCode::Esc) ==> r == InputAction::Quit
                && *final(self) == *old(self),
            code == KeyCode::Char('r') ==> r == InputAction::Refresh && final(self).refresh_requested_spec()
                && final(self).force_service_refresh_spec()
                && final(self).selected_spec() == old(self).selected_spec(),
            (code == KeyCode::Up || code == KeyCode::Char('k')) ==> final(self).selected_spec() == match old(self).selected_spec() {
                Some(i) => Some(if i > 0 { (i - 1) as usize } else { 0usize }),
                None => None,
            },
            (code == KeyCode::Down || code == KeyCode::Char('j')) ==> final(self).selected_spec() == match old(self).selected_spec() {
                Some(i) => Some(if i + 1 < old(self).workspaces_spec().len() { (i + 1) as usize } else { i }),
                None => None,
            },
            (code == KeyCode::Up || code == KeyCode::Char('k') || code == KeyCode::Down || code == KeyCode::Char('j'))
                ==> (r == InputAction::Redraw <==> final(self).selected_spec() != old(self).selected_spec())
                && (r == InputAction::Redraw || r == InputAction::Ignored)
                && final(self).refresh_requested_spec() == (old(self).refresh_requested_spec() || r == InputAction::Redraw)
                && final(self).force_service_refresh_spec() == old(self).force_service_refresh_spec(),
            !(code == KeyCode::Char('q') || code == KeyCode::Esc || code == KeyCode::Char('r') || code == KeyCode::Up
                || code == KeyCode::Char('k') || code == KeyCode::Down || code == KeyCode::Char('j')) ==> r == InputAction::Ignored
                && *final(self) == *old(self),
    {
        match code {
            KeyCode::Char('q') | KeyCode::Esc => InputAction::Quit,
            KeyCode::Char('r') => {
                self.refresh_requested = true;
                self.force_service_refresh = true;
                InputAction::Refresh
            },
            KeyCode::Up | KeyCode::Char('k') => {
                if self.select_previous() {
                    self.refresh_requested = true;
                    InputAction::Redraw
                } else {
                    InputAction::Ignored
                }
            },
            KeyCode::Down | KeyCode::Char('j') => {
                if self.select_next() {
                    self.refresh_requested = true;
                    InputAction::Redraw
                } else {
                    InputAction::Ignored
                }
            },
            _ => InputAction::Ignored,
        }
    }

    fn select_previous(&mut self) -> (changed: bool)
        requires
            old(self).selection_valid(),
        ensures
            final(self).selection_valid(),
            final(self).workspaces == old(self).workspaces,
            final(self).refresh_requested == old(self).refresh_requested,
            final(self).force_service_refresh == old(self).force_service_refresh,
            final(self).status_message == old(self).status_message,
            final(self).selected_workspace == match old(self).selected_workspace {
                Some(i) => Some(if i > 0 { (i - 1) as usize } else { 0usize }),
                None => None,
            },
            changed == (final(self).selected_workspace != old(self).selected_workspace),
    {
        match self.selected_workspace {
            None => false,
            Some(selected) => {
                let next = if selected > 0 {
                    selected - 1
                } else {
                    0
                };
                self.selected_workspace = Some(next);
                next != selected
            },
        }
    }

    fn select_next(&mut self) -> (changed: bool)
        requires
            old(self).selection_valid(),
        ensures
            final(self).selection_valid(),
            final(self).workspaces == old(self).workspaces,
            final(self).refresh_requested == old(self).refresh_requested,
            final(self).force_service_refresh == old(self).force_service_refresh,
            final(self).status_message == old(self).status_message,
            final(self).selected_workspace == match old(self).selected_workspace {
                Some(i) => Some(if i + 1 < old(self).workspaces@.len() { (i + 1) as usize } else { i }),
                None => None,
            },
            changed == (final(self).selected_workspace != old(self).selected_workspace),
    {
        match self.selected_workspace {
            None => false,
            Some(selected) => {
                let last = self.workspaces.len() - 1;
                let next = if selected < last {
                    selected + 1
                } else {
                    last
                };
                self.selected_workspace = Some(next);
                next != selected
            },
        }
    }
}

} // verus!
