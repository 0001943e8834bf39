//! Process ancestry walker: builds the ancestor-pid chain of a start pid
//! from a point-in-time snapshot of all live processes.
//!
//! The snapshot itself is operating-system state; the surrounding program
//! takes it once and hands it in as plain `(pid, parent pid, executable)`
//! rows. When the snapshot cannot be taken at all, it hands in an empty one
//! and the walk degrades to a chain of just the start pid — never an error.

use vstd::prelude::*;
use crate::text::{ascii_lower, eq_ignore_ascii_case};

verus! {

/// One row of a process snapshot: a live process, its parent and the name of
/// its executable image.
#[derive(Clone, Debug)]
pub struct ProcessEntry {
    pub pid: u32,
    pub parent_pid: u32,
    pub exe: String,
}

/// Longest ancestor chain a walk may follow beyond the start pid.
pub const MAX_WALK_HOPS: usize = 20;

/// The first snapshot row of a pid, if the pid is in the snapshot.
pub open spec fn spec_entry_for(snap: Seq<ProcessEntry>, pid: u32) -> Option<ProcessEntry>
    decreases snap.len(),
{
    if snap.len() == 0 {
        None
    } else if snap[0].pid == pid {
        Some(snap[0])
    } else {
        spec_entry_for(snap.drop_first(), pid)
    }
}

/// Whether an executable name is on the denylist of shell, session and
/// system processes where a walk must stop, compared without regard to
/// ASCII case.
pub open spec fn spec_is_blocked_exe(exe: Seq<char>) -> bool {
    ||| ascii_lower(exe) == ascii_lower("explorer.exe"@)
    ||| ascii_lower(exe) == ascii_lower("winlogon.exe"@)
    ||| ascii_lower(exe) == ascii_lower("csrss.exe"@)
    ||| ascii_lower(exe) == ascii_lower("services.exe"@)
    ||| ascii_lower(exe) == ascii_lower("svchost.exe"@)
}

/// The ancestors that a walk appends after reaching `current`, with `hops`
/// hops left. The walk stops at a missing row, a parent of 0, a self-parent
/// cycle, a denylisted parent, or when the hops run out.
pub open spec fn spec_walk_from(snap: Seq<ProcessEntry>, current: u32, hops: nat) -> Seq<u32>
    decreases hops,
{
    if hops == 0 {
        Seq::empty()
    } else {
        match spec_entry_for(snap, current) {
            Option::None => Seq::empty(),
            Option::Some(e) => {
                if e.parent_pid == 0 || e.parent_pid == current {
                    Seq::empty()
                } else if (match spec_entry_for(snap, e.parent_pid) {
                    Option::None => false,
                    Option::Some(p) => spec_is_blocked_exe(p.exe@),
                }) {
                    Seq::empty()
                } else {
                    seq![e.parent_pid] + spec_walk_from(snap, e.parent_pid, (hops - 1) as nat)
                }
            },
        }
    }
}

/// The whole ancestor chain of a start pid against a snapshot: the start pid
/// itself, then its ancestors.
pub open spec fn spec_walk(start_pid: u32, snap: Seq<ProcessEntry>) -> Seq<u32> {
    seq![start_pid] + spec_walk_from(snap, start_pid, MAX_WALK_HOPS as nat)
}

/// A walk appends at most `hops` ancestors.
pub proof fn lemma_walk_from_len(snap: Seq<ProcessEntry>, current: u32, hops: nat)
    ensures
        spec_walk_from(snap, current, hops).len() <= hops,
    decreases hops,
{
    if hops > 0 {
        match spec_entry_for(snap, current) {
            Option::None => {},
            Option::Some(e) => {
                lemma_walk_from_len(snap, e.parent_pid, (hops - 1) as nat);
            },
        }
    }
}

/// Walking the same pid twice against an unchanged snapshot yields identical
/// chains: the chain is a function of the pid and the snapshot alone.
pub proof fn lemma_walk_deterministic(
    start_pid: u32,
    snap1: Seq<ProcessEntry>,
    snap2: Seq<ProcessEntry>,
)
    requires
        snap1 == snap2,
    ensures
        spec_walk(start_pid, snap1) == spec_walk(start_pid, snap2),
{
}

/// Whether the executable name is on the walk's denylist.
fn is_blocked_exe(exe: &str) -> (r: bool)
    ensures
        r == spec_is_blocked_exe(exe@),
{
    eq_ignore_ascii_case(exe, "explorer.exe") || eq_ignore_ascii_case(exe, "winlogon.exe")
        || eq_ignore_ascii_case(exe, "csrss.exe") || eq_ignore_ascii_case(exe, "services.exe")
        || eq_ignore_ascii_case(exe, "svchost.exe")
}

/// Index of the first snapshot row of a pid, if any.
fn find_entry(snapshot: &Vec<ProcessEntry>, pid: u32) -> (r: Option<usize>)
    ensures
        match r {
            Option::Some(i) => i < snapshot@.len() && spec_entry_for(snapshot@, pid) == Some(
                snapshot@[i as int],
            ),
            Option::None => spec_entry_for(snapshot@, pid) is None,
        },
{
    let n = snapshot.len();
    let mut i: usize = 0;
    proof {
        assert(snapshot@.subrange(0, n as int) =~= snapshot@);
    }
    while i < n
        invariant
            i <= n,
            n == snapshot@.len(),
            spec_entry_for(snapshot@, pid) == spec_entry_for(
                snapshot@.subrange(i as int, n as int),
                pid,
            ),
        decreases n - i,
    {
        proof {
            lemma_entry_for_unroll(snapshot@, pid, i as int);
        }
        if snapshot[i].pid == pid {
            return Some(i);
        }
        i = i + 1;
    }
    None
}

/// Unrolls `spec_entry_for` one row at a time, on the suffix of the snapshot
/// that starts at `i`.
proof fn lemma_entry_for_unroll(snap: Seq<ProcessEntry>, pid: u32, i: int)
    requires
        0 <= i < snap.len(),
    ensures
        spec_entry_for(snap.subrange(i, snap.len() as int), pid) == (if snap[i].pid == pid {
            Some(snap[i])
        } else {
            spec_entry_for(snap.subrange(i + 1, snap.len() as int), pid)
        }),
{
    let suffix = snap.subrange(i, snap.len() as int);
    assert(suffix[0] == snap[i]);
    assert(suffix.drop_first() =~= snap.subrange(i + 1, snap.len() as int));
}

/// Walk up the process tree from `start_pid` against the given snapshot,
/// collecting the start pid and then its ancestors. The walk stops when the
/// current pid has no snapshot row, when the parent is 0 or equals the
/// current pid, when the parent's executable is denylisted (so the start pid
/// itself is always included), or after twenty hops.
pub fn get_process_tree(start_pid: u32, snapshot: &Vec<ProcessEntry>) -> (tree: Vec<u32>)
    ensures
        tree@ == spec_walk(start_pid, snapshot@),
        tree@.len() >= 1,
        tree@[0] == start_pid,
        tree@.len() <= 1 + MAX_WALK_HOPS,
{
    let mut tree: Vec<u32> = Vec::new();
    tree.push(start_pid);
    let mut current: u32 = start_pid;
    let mut hops: usize = 0;
    proof {
        assert(tree@ =~= seq![start_pid]);
        lemma_walk_from_len(snapshot@, start_pid, MAX_WALK_HOPS as nat);
    }
    while hops < MAX_WALK_HOPS
        invariant
            hops <= MAX_WALK_HOPS,
            tree@.len() >= 1,
            tree@[0] == start_pid,
            tree@.len() <= 1 + hops,
            spec_walk(start_pid, snapshot@) == tree@ + spec_walk_from(
                snapshot@,
                current,
                (MAX_WALK_HOPS - hops) as nat,
            ),
        decreases MAX_WALK_HOPS - hops,
    {
        let ghost hops_left = (MAX_WALK_HOPS - hops) as nat;
        let found = find_entry(snapshot, current);
        match found {
            Option::None => {
                proof {
                    assert(spec_walk_from(snapshot@, current, hops_left) =~= Seq::<u32>::empty());
                    assert(tree@ + Seq::<u32>::empty() =~= tree@);
                }
                return tree;
            },
            Option::Some(i) => {
                let parent = snapshot[i].parent_pid;
                if parent == 0 || parent == current {
                    proof {
                        assert(spec_walk_from(snapshot@, current, hops_left)
                            =~= Seq::<u32>::empty());
                        assert(tree@ + Seq::<u32>::empty() =~= tree@);
                    }
                    return tree;
                }
                let parent_blocked = match find_entry(snapshot, parent) {
                    Option::None => false,
                    Option::Some(j) => is_blocked_exe(snapshot[j].exe.as_str()),
                };
                if parent_blocked {
                    proof {
                        assert(spec_walk_from(snapshot@, current, hops_left)
                            =~= Seq::<u32>::empty());
                        assert(tree@ + Seq::<u32>::empty() =~= tree@);
                    }
                    return tree;
                }
                proof {
                    assert(spec_walk_from(snapshot@, current, hops_left) == seq![parent]
                        + spec_walk_from(snapshot@, parent, (hops_left - 1) as nat));
                    assert(tree@ + spec_walk_from(snapshot@, current, hops_left) =~= tree@.push(
                        parent,
                    ) + spec_walk_from(snapshot@, parent, (hops_left - 1) as nat));
                }
                tree.push(parent);
                current = parent;
                hops = hops + 1;
            },
        }
    }
    proof {
        assert(spec_walk_from(snapshot@, current, 0) =~= Seq::<u32>::empty());
        assert(tree@ + Seq::<u32>::empty() =~= tree@);
    }
    tree
}

/// Parent pid of `my_pid` according to the snapshot; `my_pid` itself when
/// the snapshot has no row for it.
pub fn get_parent_pid(my_pid: u32, snapshot: &Vec<ProcessEntry>) -> (p: u32)
    ensures
        p == (match spec_entry_for(snapshot@, my_pid) {
            Option::Some(e) => e.parent_pid,
            Option::None => my_pid,
        }),
{
    match find_entry(snapshot, my_pid) {
        Option::Some(i) => snapshot[i].parent_pid,
        Option::None => my_pid,
    }
}

} // verus!
