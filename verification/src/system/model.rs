//! Snapshots of the host, as plain values.
use vstd::prelude::*;
use crate::text::{chars_of, is_blank, owned, str_blank, str_eq};
use crate::execution::capture::{project_within_repository, within_repository};

verus! {

#[derive(Debug, Clone, Copy, PartialEq, Eq, Structural)]
pub struct MemorySnapshot {
    pub used_bytes: u64,
    pub total_bytes: u64,
}

#[derive(Debug, Clone, PartialEq, Eq)]
pub struct DiskSnapshot {
    pub mount_point: String,
    pub used_bytes: u64,
    pub total_bytes: u64,
}

#[derive(Debug, Clone, Copy, PartialEq, Eq, Structural)]
pub enum BatteryState {
    Charging,
    Discharging,
    Empty,
    Full,
    Unknown,
}

#[derive(Debug, Clone, Copy, PartialEq, Eq, Structural)]
pub enum ServiceStatus {
    Running,
    Stopped,
    Unavailable,
    Unknown,
}

#[derive(Debug, Clone, Copy, PartialEq, Eq, Structural)]
pub struct DeveloperServicesSnapshot {
    pub docker: ServiceStatus,
    pub ollama: ServiceStatus,
}

impl Default for DeveloperServicesSnapshot {
    fn default() -> (r: Self)
        ensures
            r.docker == ServiceStatus::Unknown,
            r.ollama == ServiceStatus::Unknown,
    {
        DeveloperServicesSnapshot { docker: ServiceStatus::Unknown, ollama: ServiceStatus::Unknown }
    }
}

/// A memory snapshot when the total is known: used memory never exceeds the total.
pub fn memory_snapshot(used_bytes: u64, total_bytes: u64) -> (r: Option<MemorySnapshot>)
    ensures
        r is Some <==> total_bytes > 0,
        r matches Some(m) ==> m.total_bytes == total_bytes && m.used_bytes == if used_bytes
            <= total_bytes {
            used_bytes
        } else {
            total_bytes
        },
{
    if total_bytes == 0 {
        return None;
    }
    Some(MemorySnapshot {
        used_bytes: if used_bytes <= total_bytes {
            used_bytes
        } else {
            total_bytes
        },
        total_bytes,
    })
}

/// Drops an optional text that is blank.
pub fn nonempty(value: Option<String>) -> (r: Option<String>)
    ensures
        r == match value {
            Some(v) => if is_blank(v@) {
                None
            } else {
                Some(v)
            },
            None => None,
        },
{
    match value {
        Some(v) => if str_blank(v.as_str()) {
            None
        } else {
            Some(v)
        },
        None => None,
    }
}

/// The number of components of a path: its root, if any, and each
/// non-empty `/`-separated name.
pub open spec fn component_count(p: Seq<char>) -> nat
    decreases p.len(),
{
    if p.len() == 0 {
        0
    } else {
        let rest = component_count(p.drop_last());
        let i = p.len() - 1;
        if i == 0 && p[0] == '/' {
            rest + 1
        } else if p[i] != '/' && (i == 0 || p[i - 1] == '/') {
            rest + 1
        } else {
            rest
        }
    }
}

fn count_components(p: &str) -> (r: u64)
    ensures
        r == component_count(p@),
{
    let c = chars_of(p);
    let mut n: u64 = 0;
    let mut i: usize = 0;
    while i < c.len()
        invariant
            i <= c@.len(),
            c@ == p@,
            n == component_count(c@.take(i as int)),
            n <= i,
        decreases c@.len() - i,
    {
        let ghost pre = c@.take(i as int);
        assert(c@.take(i + 1).drop_last() =~= pre);
        if (i == 0 && c[0] == '/') || (c[i] != '/' && (i == 0 || c[i - 1] == '/')) {
            n = n + 1;
        }
        i = i + 1;
    }
    assert(c@.take(c@.len() as int) =~= c@);
    n
}

/// A mounted file system: where it is mounted, its size and its free space.
pub open spec fn disk_mount(d: (String, u64, u64)) -> Seq<char> {
    d.0@
}

/// The disk holding the path: among the mount points the path lies under,
/// the one with the most components (the last such, where several tie).
pub open spec fn best_disk(disks: Seq<(String, u64, u64)>, path: Seq<char>, n: nat) -> Option<int>
    decreases n,
{
    if n == 0 || n > disks.len() {
        None
    } else {
        let i = n - 1;
        let before = best_disk(disks, path, (n - 1) as nat);
        if within_repository(path, disks[i].0@) && (before is None || component_count(disks[i].0@)
            >= component_count(disks[before->0].0@)) {
            Some(i)
        } else {
            before
        }
    }
}

/// The first disk mounted at the root.
pub open spec fn root_disk(disks: Seq<(String, u64, u64)>, n: nat) -> Option<int>
    decreases n,
{
    if n == 0 || n > disks.len() {
        None
    } else {
        match root_disk(disks, (n - 1) as nat) {
            Some(j) => Some(j),
            None => if disks[n - 1].0@ == "/"@ {
                Some(n - 1)
            } else {
                None
            },
        }
    }
}

proof fn lemma_best_disk_range(disks: Seq<(String, u64, u64)>, path: Seq<char>, n: nat)
    requires
        n <= disks.len(),
    ensures
        best_disk(disks, path, n) matches Some(i) ==> 0 <= i < n,
    decreases n,
{
    if n > 0 {
        lemma_best_disk_range(disks, path, (n - 1) as nat);
    }
}

proof fn lemma_root_disk_range(disks: Seq<(String, u64, u64)>, n: nat)
    requires
        n <= disks.len(),
    ensures
        root_disk(disks, n) matches Some(i) ==> 0 <= i < n,
    decreases n,
{
    if n > 0 {
        lemma_root_disk_range(disks, (n - 1) as nat);
    }
}

/// The disk snapshot of the path: the disk holding it, or else the one
/// mounted at the root; its used space is its size less its free space; a
/// disk of size zero gives none.
pub open spec fn disk_snapshot_spec(disks: Seq<(String, u64, u64)>, path: Seq<char>) -> Option<(Seq<char>, u64, u64)> {
    let chosen = match best_disk(disks, path, disks.len()) {
        Some(i) => Some(i),
        None => root_disk(disks, disks.len()),
    };
    match chosen {
        Some(i) => {
            let d = disks[i];
            if d.1 > 0 {
                Some((d.0@, if d.2 <= d.1 { (d.1 - d.2) as u64 } else { 0u64 }, d.1))
            } else {
                None
            }
        },
        None => None,
    }
}

/// The disk snapshot of a path from the mounted file systems (mount point,
/// size, free space).
pub fn disk_snapshot(disks: &Vec<(String, u64, u64)>, path: &str) -> (r: Option<DiskSnapshot>)
    ensures
        match disk_snapshot_spec(disks@, path@) {
            Some((m, used, total)) => r matches Some(d) && d.mount_point@ == m && d.used_bytes == used
                && d.total_bytes == total,
            None => r is None,
        },
{
    let mut best: Option<usize> = None;
    let mut best_count: u64 = 0;
    let mut i: usize = 0;
    while i < disks.len()
        invariant
            i <= disks@.len(),
            best_disk(disks@, path@, i as nat) == match best {
                Some(b) => Some(b as int),
                None => None,
            },
            best matches Some(b) ==> b < i && best_count == component_count(disks@[b as int].0@),
        decreases disks@.len() - i,
    {
        if project_within_repository(path, disks[i].0.as_str()) {
            let count = count_components(disks[i].0.as_str());
            let take = match best {
                None => true,
                Some(_) => count >= best_count,
            };
            if take {
                best = Some(i);
                best_count = count;
            }
        }
        i = i + 1;
    }
    proof {
        lemma_best_disk_range(disks@, path@, disks@.len());
    }
    let mut chosen = best;
    if chosen.is_none() {
        let mut j: usize = 0;
        while j < disks.len() && chosen.is_none()
            invariant
                j <= disks@.len(),
                best_disk(disks@, path@, disks@.len()) is None,
                chosen is None ==> root_disk(disks@, j as nat) is None,
                chosen matches Some(k) ==> k < disks@.len() && root_disk(disks@, disks@.len()) == Some(k as int),
            decreases disks@.len() - j,
        {
            if str_eq(disks[j].0.as_str(), "/") {
                chosen = Some(j);
                assert(root_disk(disks@, (j + 1) as nat) == Some(j as int));
                proof {
                    lemma_root_disk_extends(disks@, (j + 1) as nat, disks@.len());
                }
            }
            j = j + 1;
        }
    }
    match chosen {
        Some(k) => {
            let d = &disks[k];
            if d.1 == 0 {
                return None;
            }
            let used = if d.2 <= d.1 { d.1 - d.2 } else { 0 };
            Some(DiskSnapshot { mount_point: d.0.clone(), used_bytes: used, total_bytes: d.1 })
        },
        None => None,
    }
}

proof fn lemma_root_disk_extends(disks: Seq<(String, u64, u64)>, n: nat, m: nat)
    requires
        n <= m <= disks.len(),
        root_disk(disks, n) is Some,
    ensures
        root_disk(disks, m) == root_disk(disks, n),
    decreases m - n,
{
    if n < m {
        lemma_root_disk_extends(disks, n, (m - 1) as nat);
    }
}

} // verus!
