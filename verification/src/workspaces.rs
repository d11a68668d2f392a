//! Named workspaces: their names, their paths, and the table that holds them.
use vstd::prelude::*;
use crate::text::{chars_of, char_is_ascii_alphanumeric, is_ascii_alphanumeric, concat2, owned, str_eq, push_str, string_from_chars};

verus! {

/// Why a workspace operation was refused.
#[derive(Debug, Clone, PartialEq, Eq)]
pub enum WorkspaceError {
    InvalidName(String),
    Path(String),
    AlreadyExists(String),
    Unknown(String),
}

impl WorkspaceError {
    pub open spec fn message_spec(&self) -> Seq<char> {
        match self {
            WorkspaceError::InvalidName(m) => "invalid workspace name: "@ + m@,
            WorkspaceError::Path(m) => "could not resolve workspace path: "@ + m@,
            WorkspaceError::AlreadyExists(m) => "workspace already exists: "@ + m@,
            WorkspaceError::Unknown(m) => "unknown workspace: "@ + m@,
        }
    }

    pub fn message(&self) -> (r: String)
        ensures
            r@ == self.message_spec(),
    {
        match self {
            WorkspaceError::InvalidName(m) => concat2("invalid workspace name: ", m.as_str()),
            WorkspaceError::Path(m) => concat2("could not resolve workspace path: ", m.as_str()),
            WorkspaceError::AlreadyExists(m) => concat2("workspace already exists: ", m.as_str()),
            WorkspaceError::Unknown(m) => concat2("unknown workspace: ", m.as_str()),
        }
    }
}

pub open spec fn workspace_name_char(c: char) -> bool {
    is_ascii_alphanumeric(c) || c == '-' || c == '_'
}

pub open spec fn workspace_name_valid(name: Seq<char>) -> bool {
    name.len() > 0 && forall|i: int| 0 <= i < name.len() ==> workspace_name_char(#[trigger] name[i])
}

/// A workspace name: non-empty ASCII letters, digits, `-` and `_`.
pub fn valid_workspace_name(name: &str) -> (r: bool)
    ensures
        r == workspace_name_valid(name@),
{
    let chars = chars_of(name);
    if chars.len() == 0 {
        return false;
    }
    let mut i: usize = 0;
    while i < chars.len()
        invariant
            i <= chars@.len(),
            chars@ == name@,
            forall|j: int| 0 <= j < i ==> workspace_name_char(#[trigger] chars@[j]),
        decreases chars@.len() - i,
    {
        let c = chars[i];
        if !(char_is_ascii_alphanumeric(c) || c == '-' || c == '_') {
            return false;
        }
        i = i + 1;
    }
    true
}

/// The segments of a path between slashes, empty ones and `.` dropped, each
/// `..` removing the segment before it.
pub open spec fn resolve_segments(done: Seq<Seq<char>>, rest: Seq<char>, current: Seq<char>) -> Seq<Seq<char>>
    decreases rest.len(),
{
    if rest.len() == 0 {
        push_segment(done, current)
    } else if rest[0] == '/' {
        resolve_segments(push_segment(done, current), rest.drop_first(), Seq::empty())
    } else {
        resolve_segments(done, rest.drop_first(), current.push(rest[0]))
    }
}

pub open spec fn push_segment(done: Seq<Seq<char>>, seg: Seq<char>) -> Seq<Seq<char>> {
    if seg.len() == 0 || seg == "."@ {
        done
    } else if seg == ".."@ {
        if done.len() == 0 {
            done
        } else {
            done.drop_last()
        }
    } else {
        done.push(seg)
    }
}

/// `/` and the segments joined by `/`.
pub open spec fn join_absolute(segs: Seq<Seq<char>>) -> Seq<char>
    decreases segs.len(),
{
    if segs.len() == 0 {
        "/"@
    } else if segs.len() == 1 {
        "/"@ + segs[0]
    } else {
        join_absolute(segs.drop_last()) + "/"@ + segs.last()
    }
}

/// A path with `~` expanded against the home directory.
pub open spec fn expand_home(path: Seq<char>, home: Seq<char>) -> Seq<char> {
    if path.len() > 0 && path[0] == '~' {
        let stripped = path.drop_first();
        if stripped.len() == 0 {
            home
        } else if stripped[0] == '/' {
            home + stripped
        } else {
            home + "/"@ + stripped
        }
    } else {
        path
    }
}

/// The normalized absolute form of a workspace path: `~` expanded, a relative
/// path taken from the current directory, `.` and `..` resolved lexically.
pub open spec fn normalized_path(path: Seq<char>, home: Seq<char>, current_dir: Seq<char>) -> Seq<char> {
    let expanded = expand_home(path, home);
    let absolute = if expanded.len() > 0 && expanded[0] == '/' {
        expanded
    } else {
        current_dir + "/"@ + expanded
    };
    join_absolute(resolve_segments(Seq::empty(), absolute, Seq::empty()))
}

fn text_eq(a: &Vec<char>, b: &str) -> (r: bool)
    ensures
        r == (a@ == b@),
{
    let bc = chars_of(b);
    crate::text::chars_eq(a.as_slice(), bc.as_slice())
}

fn push_segment_exec(done: &mut Vec<Vec<char>>, seg: Vec<char>)
    ensures
        final(done)@.map_values(|s: Vec<char>| s@) == push_segment(old(done)@.map_values(|s: Vec<char>| s@), seg@),
{
    proof {
        reveal_strlit(".");
        reveal_strlit("..");
    }
    let ghost before = done@.map_values(|s: Vec<char>| s@);
    if seg.len() == 0 || text_eq(&seg, ".") {
    } else if text_eq(&seg, "..") {
        if done.len() > 0 {
            done.pop();
            assert(done@.map_values(|s: Vec<char>| s@) =~= before.drop_last());
        }
    } else {
        done.push(seg);
        assert(done@.map_values(|s: Vec<char>| s@) =~= before.push(seg@));
    }
}

/// Resolves a path to its normalized absolute form, given the home and the
/// current directory.
pub fn normalize_path(path: &str, home: &str, current_dir: &str) -> (r: String)
    ensures
        r@ == normalized_path(path@, home@, current_dir@),
{
    let p = chars_of(path);
    let mut expanded: Vec<char> = Vec::new();
    if p.len() > 0 && p[0] == '~' {
        let h = chars_of(home);
        let mut i: usize = 0;
        while i < h.len()
            invariant
                i <= h@.len(),
                expanded@ == h@.take(i as int),
            decreases h@.len() - i,
        {
            expanded.push(h[i]);
            i = i + 1;
            assert(expanded@ =~= h@.take(i as int));
        }
        assert(h@.take(h@.len() as int) =~= h@);
        if p.len() > 1 && p[1] != '/' {
            expanded.push('/');
        }
        let ghost mid = expanded@;
        let mut i: usize = 1;
        while i < p.len()
            invariant
                1 <= i <= p@.len(),
                expanded@ == mid + p@.subrange(1, i as int),
            decreases p@.len() - i,
        {
            expanded.push(p[i]);
            i = i + 1;
            assert(expanded@ =~= mid + p@.subrange(1, i as int));
        }
        proof {
            reveal_strlit("/");
            assert(p@.subrange(1, p@.len() as int) =~= p@.drop_first());
        }
        assert(expanded@ =~= expand_home(path@, home@));
    } else {
        let mut i: usize = 0;
        while i < p.len()
            invariant
                i <= p@.len(),
                expanded@ == p@.take(i as int),
            decreases p@.len() - i,
        {
            expanded.push(p[i]);
            i = i + 1;
            assert(expanded@ =~= p@.take(i as int));
        }
        assert(p@.take(p@.len() as int) =~= p@);
    }
    let mut absolute: Vec<char> = Vec::new();
    if !(expanded.len() > 0 && expanded[0] == '/') {
        let c = chars_of(current_dir);
        let mut i: usize = 0;
        while i < c.len()
            invariant
                i <= c@.len(),
                absolute@ == c@.take(i as int),
            decreases c@.len() - i,
        {
            absolute.push(c[i]);
            i = i + 1;
            assert(absolute@ =~= c@.take(i as int));
        }
        assert(c@.take(c@.len() as int) =~= c@);
        absolute.push('/');
    }
    let ghost prefix = absolute@;
    let mut i: usize = 0;
    while i < expanded.len()
        invariant
            i <= expanded@.len(),
            absolute@ == prefix + expanded@.take(i as int),
        decreases expanded@.len() - i,
    {
        absolute.push(expanded[i]);
        i = i + 1;
        assert(absolute@ =~= prefix + expanded@.take(i as int));
    }
    proof {
        reveal_strlit("/");
        assert(expanded@.take(expanded@.len() as int) =~= expanded@);
    }
    let ghost abs = absolute@;
    assert(abs == (if expand_home(path@, home@).len() > 0 && expand_home(path@, home@)[0] == '/' {
        expand_home(path@, home@)
    } else {
        current_dir@ + "/"@ + expand_home(path@, home@)
    }));
    let mut done: Vec<Vec<char>> = Vec::new();
    let mut current: Vec<char> = Vec::new();
    assert(done@.map_values(|s: Vec<char>| s@) =~= Seq::<Seq<char>>::empty());
    assert(abs.skip(0) =~= abs);
    assert(current@ =~= Seq::<char>::empty());
    let mut i: usize = 0;
    while i < absolute.len()
        invariant
            i <= absolute@.len(),
            abs == absolute@,
            resolve_segments(Seq::empty(), abs, Seq::empty()) == resolve_segments(
                done@.map_values(|s: Vec<char>| s@),
                abs.skip(i as int),
                current@,
            ),
        decreases absolute@.len() - i,
    {
        let ghost d = done@.map_values(|s: Vec<char>| s@);
        let ghost rest = abs.skip(i as int);
        assert(rest.drop_first() =~= abs.skip(i + 1));
        if absolute[i] == '/' {
            let seg = current;
            push_segment_exec(&mut done, seg);
            current = Vec::new();
            assert(current@ =~= Seq::<char>::empty());
        } else {
            current.push(absolute[i]);
        }
        i = i + 1;
    }
    assert(abs.skip(abs.len() as int) =~= Seq::<char>::empty());
    push_segment_exec(&mut done, current);
    let ghost segs = done@.map_values(|s: Vec<char>| s@);
    assert(segs == resolve_segments(Seq::empty(), abs, Seq::empty()));
    let mut out = owned("/");
    proof {
        reveal_strlit("/");
    }
    let mut k: usize = 0;
    while k < done.len()
        invariant
            k <= done@.len(),
            segs == done@.map_values(|s: Vec<char>| s@),
            out@ == join_absolute(segs.take(k as int)) || (k == 0 && out@ == "/"@),
            k > 0 ==> out@ == join_absolute(segs.take(k as int)),
            k == 0 ==> out@ == "/"@,
        decreases done@.len() - k,
    {
        let ghost before = out@;
        if k > 0 {
            push_str(&mut out, "/");
        }
        let seg = string_from_chars(done[k].as_slice());
        push_str(&mut out, seg.as_str());
        proof {
            let t = segs.take(k + 1);
            assert(t.drop_last() =~= segs.take(k as int));
            assert(t.last() == done@[k as int]@);
            if k == 0 {
                assert(t.len() == 1);
                assert(out@ =~= "/"@ + t[0]);
            } else {
                assert(out@ =~= join_absolute(segs.take(k as int)) + "/"@ + t.last());
            }
        }
        k = k + 1;
    }
    proof {
        assert(segs.take(segs.len() as int) =~= segs);
        if segs.len() == 0 {
            assert(join_absolute(segs) == "/"@);
        }
    }
    out
}

/// The workspaces, one path per name, in the order they were added.
pub struct WorkspaceTable {
    pub entries: Vec<(String, String)>,
}

impl WorkspaceTable {
    /// No name occurs twice.
    pub open spec fn wf(&self) -> bool {
        forall|i: int, j: int|
            0 <= i < j < self.entries@.len() ==> (#[trigger] self.entries@[i]).0@ != (#[trigger] self.entries@[j]).0@
    }

    /// The table as a map from names to paths.
    pub open spec fn view_map(&self) -> Map<Seq<char>, Seq<char>> {
        Map::new(
            |k: Seq<char>| exists|i: int| 0 <= i < self.entries@.len() && (#[trigger] self.entries@[i]).0@ == k,
            |k: Seq<char>| {
                let i = choose|i: int| 0 <= i < self.entries@.len() && (#[trigger] self.entries@[i]).0@ == k;
                self.entries@[i].1@
            },
        )
    }

    pub fn new() -> (r: Self)
        ensures
            r.wf(),
            r.entries@.len() == 0,
    {
        WorkspaceTable { entries: Vec::new() }
    }

    fn position(&self, name: &str) -> (r: Option<usize>)
        ensures
            r matches Some(i) ==> i < self.entries@.len() && self.entries@[i as int].0@ == name@,
            r is None ==> forall|j: int| 0 <= j < self.entries@.len() ==> (#[trigger] self.entries@[j]).0@ != name@,
    {
        let mut i: usize = 0;
        while i < self.entries.len()
            invariant
                i <= self.entries@.len(),
                forall|j: int| 0 <= j < i ==> (#[trigger] self.entries@[j]).0@ != name@,
            decreases self.entries@.len() - i,
        {
            if str_eq(self.entries[i].0.as_str(), name) {
                return Some(i);
            }
            i = i + 1;
        }
        None
    }

    pub fn contains(&self, name: &str) -> (r: bool)
        ensures
            r == self.view_map().dom().contains(name@),
    {
        match self.position(name) {
            Some(i) => {
                assert(self.view_map().dom().contains(name@));
                true
            },
            None => false,
        }
    }

    /// The path recorded for a name.
    pub fn path(&self, name: &str) -> (r: Option<String>)
        requires
            self.wf(),
        ensures
            r is Some <==> self.view_map().dom().contains(name@),
            r matches Some(p) ==> p@ == self.view_map()[name@],
    {
        match self.position(name) {
            Some(i) => {
                proof {
                    let c = choose|c: int| 0 <= c < self.entries@.len() && (#[trigger] self.entries@[c]).0@ == name@;
                    if c != i {
                        if c < i {
                            assert(self.entries@[c].0@ != self.entries@[i as int].0@);
                        } else {
                            assert(self.entries@[i as int].0@ != self.entries@[c].0@);
                        }
                    }
                }
                Some(self.entries[i].1.clone())
            },
            None => None,
        }
    }
}

/// Adds a workspace with its normalized path; an existing name is replaced
/// only when forced.
pub fn add_workspace(
    table: &mut WorkspaceTable,
    name: &str,
    path: &str,
    home: &str,
    current_dir: &str,
    force: bool,
) -> (r: Result<(), WorkspaceError>)
    requires
        old(table).wf(),
    ensures
        final(table).wf(),
        !workspace_name_valid(name@) ==> (r matches Err(e) && e matches WorkspaceError::InvalidName(m) && m@ == name@),
        r is Ok <==> workspace_name_valid(name@) && (force || !old(table).view_map().dom().contains(name@)),
        r matches Err(e) ==> *final(table) == *old(table),
        workspace_name_valid(name@) && old(table).view_map().dom().contains(name@) && !force ==> (r matches Err(e) && e matches WorkspaceError::AlreadyExists(m) && m@ == name@),
        r is Ok ==> final(table).view_map() == old(table).view_map().insert(name@, normalized_path(path@, home@, current_dir@)),
{
    if !valid_workspace_name(name) {
        return Err(WorkspaceError::InvalidName(owned(name)));
    }
    let existing = table.position(name);
    if existing.is_some() && !force {
        assert(table.view_map().dom().contains(name@));
        return Err(WorkspaceError::AlreadyExists(owned(name)));
    }
    let normalized = normalize_path(path, home, current_dir);
    let ghost before = table.entries@;
    let ghost old_map = table.view_map();
    match existing {
        Some(i) => {
            table.entries.set(i, (owned(name), normalized));
        },
        None => {
            table.entries.push((owned(name), normalized));
        },
    }
    proof {
        let new_map = table.view_map();
        let target = old_map.insert(name@, normalized_path(path@, home@, current_dir@));
        assert forall|k: Seq<char>| new_map.dom().contains(k) <==> target.dom().contains(k) by {
            if new_map.dom().contains(k) {
                let j = choose|j: int| 0 <= j < table.entries@.len() && (#[trigger] table.entries@[j]).0@ == k;
                if k != name@ {
                    assert(before[j].0@ == k);
                }
            }
            if target.dom().contains(k) && k != name@ {
                let j = choose|j: int| 0 <= j < before.len() && (#[trigger] before[j]).0@ == k;
                assert(table.entries@[j].0@ == k);
            }
            if k == name@ {
                match existing {
                    Some(i) => { assert(table.entries@[i as int].0@ == k); },
                    None => { assert(table.entries@[before.len() as int].0@ == k); },
                }
            }
        }
        assert(table.wf()) by {
            assert forall|a: int, b: int| 0 <= a < b < table.entries@.len() implies (#[trigger] table.entries@[a]).0@ != (#[trigger] table.entries@[b]).0@ by {
                match existing {
                    Some(i) => {
                        if a != i && b != i {
                            assert(before[a] == table.entries@[a] && before[b] == table.entries@[b]);
                        } else if a == i {
                            assert(before[b] == table.entries@[b]);
                            assert(before[i as int].0@ == name@);
                        } else {
                            assert(before[a] == table.entries@[a]);
                            assert(before[i as int].0@ == name@);
                        }
                    },
                    None => {
                        if b < before.len() {
                            assert(before[a] == table.entries@[a] && before[b] == table.entries@[b]);
                        } else {
                            assert(before[a] == table.entries@[a]);
                        }
                    },
                }
            }
        }
        assert forall|k: Seq<char>| new_map.dom().contains(k) implies new_map[k] == target[k] by {
            let j = choose|j: int| 0 <= j < table.entries@.len() && (#[trigger] table.entries@[j]).0@ == k;
            if k == name@ {
                match existing {
                    Some(i) => {
                        if j != i {
                            if j < i { assert(table.entries@[j].0@ != table.entries@[i as int].0@); }
                            else { assert(table.entries@[i as int].0@ != table.entries@[j].0@); }
                        }
                    },
                    None => {
                        if j != before.len() {
                            assert(before[j].0@ == k);
                        }
                    },
                }
            } else {
                assert(before[j] == table.entries@[j]);
                let c = choose|c: int| 0 <= c < before.len() && (#[trigger] before[c]).0@ == k;
                if c != j {
                    if c < j { assert(before[c].0@ != before[j].0@); }
                    else { assert(before[j].0@ != before[c].0@); }
                }
            }
        }
        assert(new_map =~= target);
    }
    Ok(())
}

/// Removes a workspace by name.
pub fn remove_workspace(table: &mut WorkspaceTable, name: &str) -> (r: Result<(), WorkspaceError>)
    requires
        old(table).wf(),
    ensures
        final(table).wf(),
        r is Ok <==> old(table).view_map().dom().contains(name@),
        r matches Err(e) ==> e matches WorkspaceError::Unknown(m) && m@ == name@ && *final(table) == *old(table),
        r is Ok ==> final(table).view_map() == old(table).view_map().remove(name@),
{
    match table.position(name) {
        None => {
            return Err(WorkspaceError::Unknown(owned(name)));
        },
        Some(i) => {
            let ghost before = table.entries@;
            let ghost old_map = table.view_map();
            table.entries.remove(i);
            proof {
                let new_map = table.view_map();
                let target = old_map.remove(name@);
                assert forall|x: int| 0 <= x < table.entries@.len() implies #[trigger] table.entries@[x] == (if x < i { before[x] } else { before[x + 1] }) by {}
                assert(table.wf()) by {
                    assert forall|a: int, b: int| 0 <= a < b < table.entries@.len() implies (#[trigger] table.entries@[a]).0@ != (#[trigger] table.entries@[b]).0@ by {
                        let a2 = if a < i { a } else { a + 1 };
                        let b2 = if b < i { b } else { b + 1 };
                        assert(table.entries@[a] == before[a2] && table.entries@[b] == before[b2]);
                    }
                }
                assert forall|k: Seq<char>| new_map.dom().contains(k) <==> target.dom().contains(k) by {
                    if new_map.dom().contains(k) {
                        let j = choose|j: int| 0 <= j < table.entries@.len() && (#[trigger] table.entries@[j]).0@ == k;
                        let j2 = if j < i { j } else { j + 1 };
                        assert(before[j2].0@ == k);
                        assert(j2 != i);
                        if k == name@ {
                            if j2 < i { assert(before[j2].0@ != before[i as int].0@); }
                            else { assert(before[i as int].0@ != before[j2].0@); }
                        }
                    }
                    if target.dom().contains(k) {
                        let j = choose|j: int| 0 <= j < before.len() && (#[trigger] before[j]).0@ == k;
                        assert(j != i);
                        let j2 = if j < i { j } else { j - 1 };
                        assert(table.entries@[j2].0@ == k);
                    }
                }
                assert forall|k: Seq<char>| new_map.dom().contains(k) implies new_map[k] == target[k] by {
                    let j = choose|j: int| 0 <= j < table.entries@.len() && (#[trigger] table.entries@[j]).0@ == k;
                    let j2 = if j < i { j } else { j + 1 };
                    assert(before[j2] == table.entries@[j]);
                    let c = choose|c: int| 0 <= c < before.len() && (#[trigger] before[c]).0@ == k;
                    if c != j2 {
                        if c < j2 { assert(before[c].0@ != before[j2].0@); }
                        else { assert(before[j2].0@ != before[c].0@); }
                    }
                }
                assert(new_map =~= target);
            }
            Ok(())
        },
    }
}

} // verus!
