//! Source window resolution: given the ancestor chain of a pid and the
//! catalog of visible top-level windows, pick the best window to attribute a
//! notification to.
//!
//! The window catalog is operating-system state; the surrounding program
//! enumerates the visible top-level windows once, in z-order, and hands them
//! in as plain `(handle, owner pid, title)` rows. A handle of 0 is the
//! reserved "none" sentinel and never names a real window.

use vstd::prelude::*;
use crate::text::{contains_sub, lower_of, spec_contains_sub, str_chars, to_lowercase, ascii_lower, eq_ignore_ascii_case};
use crate::walker::ProcessEntry;

verus! {

/// One row of the window catalog: a visible top-level window, its owner pid
/// and its title, in z-order (topmost first).
#[derive(Clone, Debug)]
pub struct WindowInfo {
    pub hwnd: isize,
    pub pid: u32,
    pub title: String,
}

/// A window whose owner pid appears in the ancestor chain: (handle, pid).
pub type WindowCandidate = (isize, u32);

/// The candidates of a chain: the catalog rows whose owner pid is in the
/// chain, in catalog order.
pub open spec fn spec_candidates(windows: Seq<WindowInfo>, tree: Seq<u32>) -> Seq<WindowCandidate>
    decreases windows.len(),
{
    if windows.len() == 0 {
        Seq::empty()
    } else {
        let rest = spec_candidates(windows.drop_last(), tree);
        let w = windows.last();
        if tree.contains(w.pid) {
            rest.push((w.hwnd, w.pid))
        } else {
            rest
        }
    }
}

/// Every candidate's pid is in the chain, and its handle and pid come from a
/// catalog row.
pub proof fn lemma_candidates_pids_in_tree(windows: Seq<WindowInfo>, tree: Seq<u32>)
    ensures
        forall|k: int|
            0 <= k < spec_candidates(windows, tree).len() ==> tree.contains(
                #[trigger] spec_candidates(windows, tree)[k].1,
            ),
    decreases windows.len(),
{
    if windows.len() > 0 {
        lemma_candidates_pids_in_tree(windows.drop_last(), tree);
        let rest = spec_candidates(windows.drop_last(), tree);
        let whole = spec_candidates(windows, tree);
        if tree.contains(windows.last().pid) {
            assert(whole == rest.push((windows.last().hwnd, windows.last().pid)));
            assert(forall|k: int| 0 <= k < rest.len() ==> whole[k] == rest[k]);
            assert(whole[whole.len() - 1].1 == windows.last().pid);
        }
    }
}

/// A catalog row whose pid is in the chain appears among the candidates.
pub proof fn lemma_candidates_complete(windows: Seq<WindowInfo>, tree: Seq<u32>, k: int)
    requires
        0 <= k < windows.len(),
        tree.contains(windows[k].pid),
    ensures
        spec_candidates(windows, tree).contains((windows[k].hwnd, windows[k].pid)),
    decreases windows.len(),
{
    if k == windows.len() - 1 {
        assert(windows.last() == windows[k]);
        assert(spec_candidates(windows, tree).last() == (windows[k].hwnd, windows[k].pid));
    } else {
        assert(windows.drop_last()[k] == windows[k]);
        lemma_candidates_complete(windows.drop_last(), tree, k);
        let rest = spec_candidates(windows.drop_last(), tree);
        let i = choose|i: int| 0 <= i < rest.len() && rest[i] == (windows[k].hwnd, windows[k].pid);
        assert(spec_candidates(windows, tree)[i] == (windows[k].hwnd, windows[k].pid));
    }
}

/// First catalog row whose pid is in the chain and whose lowercase title
/// contains the lowercase hint, as a candidate.
pub open spec fn spec_title_match(
    windows: Seq<WindowInfo>,
    tree: Seq<u32>,
    hint_lower: Seq<char>,
) -> Option<WindowCandidate>
    decreases windows.len(),
{
    if windows.len() == 0 {
        None
    } else if tree.contains(windows[0].pid) && spec_contains_sub(
        lower_of(windows[0].title@),
        hint_lower,
    ) {
        Some((windows[0].hwnd, windows[0].pid))
    } else {
        spec_title_match(windows.drop_first(), tree, hint_lower)
    }
}

/// A title match is one of the candidates.
pub proof fn lemma_title_match_is_candidate(
    windows: Seq<WindowInfo>,
    tree: Seq<u32>,
    hint_lower: Seq<char>,
)
    ensures
        match spec_title_match(windows, tree, hint_lower) {
            Option::Some(c) => spec_candidates(windows, tree).contains(c) && tree.contains(c.1),
            Option::None => true,
        },
    decreases windows.len(),
{
    if windows.len() > 0 {
        if tree.contains(windows[0].pid) && spec_contains_sub(
            lower_of(windows[0].title@),
            hint_lower,
        ) {
            lemma_candidates_complete(windows, tree, 0);
        } else {
            lemma_title_match_is_candidate(windows.drop_first(), tree, hint_lower);
            match spec_title_match(windows.drop_first(), tree, hint_lower) {
                Option::Some(c) => {
                    let tail = windows.drop_first();
                    let i = choose|i: int|
                        0 <= i < spec_candidates(tail, tree).len() && spec_candidates(tail, tree)[i]
                            == c;
                    let w = choose|k: int|
                        0 <= k < tail.len() && tail[k].hwnd == c.0 && tail[k].pid == c.1
                            && tree.contains(tail[k].pid);
                    lemma_title_match_row(tail, tree, hint_lower);
                    assert(windows[w + 1] == tail[w]);
                    lemma_candidates_complete(windows, tree, w + 1);
                },
                Option::None => {},
            }
        }
    }
}

/// A title match names an actual catalog row whose pid is in the chain.
proof fn lemma_title_match_row(windows: Seq<WindowInfo>, tree: Seq<u32>, hint_lower: Seq<char>)
    ensures
        match spec_title_match(windows, tree, hint_lower) {
            Option::Some(c) => exists|k: int|
                0 <= k < windows.len() && windows[k].hwnd == c.0 && windows[k].pid == c.1
                    && tree.contains(windows[k].pid),
            Option::None => true,
        },
    decreases windows.len(),
{
    if windows.len() > 0 {
        if tree.contains(windows[0].pid) && spec_contains_sub(
            lower_of(windows[0].title@),
            hint_lower,
        ) {
            assert(windows[0].hwnd == windows[0].hwnd);
        } else {
            lemma_title_match_row(windows.drop_first(), tree, hint_lower);
            match spec_title_match(windows.drop_first(), tree, hint_lower) {
                Option::Some(c) => {
                    let tail = windows.drop_first();
                    let k = choose|k: int|
                        0 <= k < tail.len() && tail[k].hwnd == c.0 && tail[k].pid == c.1
                            && tree.contains(tail[k].pid);
                    assert(windows[k + 1] == tail[k]);
                },
                Option::None => {},
            }
        }
    }
}

/// Position of the first occurrence of a pid in the chain; the chain's
/// length when the pid is absent, so absent pids rank last.
pub open spec fn spec_tree_rank(tree: Seq<u32>, pid: u32) -> int
    decreases tree.len(),
{
    if tree.len() == 0 {
        0
    } else if tree[0] == pid {
        0
    } else {
        1 + spec_tree_rank(tree.drop_first(), pid)
    }
}

/// The candidate whose pid sits earliest in the chain (child-first); on a
/// tie, the earlier candidate. `None` only when there are no candidates.
pub open spec fn spec_best_by_rank(cands: Seq<WindowCandidate>, tree: Seq<u32>) -> Option<
    WindowCandidate,
>
    decreases cands.len(),
{
    if cands.len() == 0 {
        None
    } else {
        match spec_best_by_rank(cands.drop_last(), tree) {
            Option::None => Some(cands.last()),
            Option::Some(b) => {
                if spec_tree_rank(tree, cands.last().1) < spec_tree_rank(tree, b.1) {
                    Some(cands.last())
                } else {
                    Some(b)
                }
            },
        }
    }
}

/// The rank winner is one of the candidates, and it exists exactly when
/// there are candidates.
pub proof fn lemma_best_by_rank_member(cands: Seq<WindowCandidate>, tree: Seq<u32>)
    ensures
        match spec_best_by_rank(cands, tree) {
            Option::Some(b) => cands.contains(b),
            Option::None => cands.len() == 0,
        },
    decreases cands.len(),
{
    if cands.len() > 0 {
        lemma_best_by_rank_member(cands.drop_last(), tree);
        match spec_best_by_rank(cands.drop_last(), tree) {
            Option::None => {
                assert(cands[cands.len() - 1] == cands.last());
            },
            Option::Some(b) => {
                let i = choose|i: int|
                    0 <= i < cands.drop_last().len() && cands.drop_last()[i] == b;
                assert(cands[i] == b);
                assert(cands[cands.len() - 1] == cands.last());
            },
        }
    }
}

/// The rank winner's rank is minimal among all candidates.
pub proof fn lemma_best_by_rank_minimal(cands: Seq<WindowCandidate>, tree: Seq<u32>)
    ensures
        match spec_best_by_rank(cands, tree) {
            Option::Some(b) => forall|k: int|
                0 <= k < cands.len() ==> spec_tree_rank(tree, b.1) <= spec_tree_rank(
                    tree,
                    #[trigger] cands[k].1,
                ),
            Option::None => true,
        },
    decreases cands.len(),
{
    if cands.len() > 0 {
        lemma_best_by_rank_minimal(cands.drop_last(), tree);
        assert(forall|k: int| 0 <= k < cands.len() - 1 ==> cands[k] == cands.drop_last()[k]);
    }
}

/// What `find_source_window` picks as the best candidate: the first title
/// match when a hint is given and some candidate's title matches it, else
/// the candidate closest to the front of the chain.
pub open spec fn spec_best_window(
    windows: Seq<WindowInfo>,
    tree: Seq<u32>,
    hint: Option<Seq<char>>,
) -> Option<WindowCandidate> {
    let by_rank = spec_best_by_rank(spec_candidates(windows, tree), tree);
    match hint {
        Option::Some(h) => match spec_title_match(windows, tree, lower_of(h)) {
            Option::Some(c) => Some(c),
            Option::None => by_rank,
        },
        Option::None => by_rank,
    }
}

/// Whether `x` occurs in the chain.
fn tree_contains(tree: &Vec<u32>, x: u32) -> (r: bool)
    ensures
        r == tree@.contains(x),
{
    let n = tree.len();
    let mut i: usize = 0;
    while i < n
        invariant
            i <= n,
            n == tree@.len(),
            forall|j: int| 0 <= j < i ==> tree@[j] != x,
        decreases n - i,
    {
        if tree[i] == x {
            return true;
        }
        i = i + 1;
    }
    false
}

/// Rank of a pid in the chain: its first position, or the chain's length
/// when absent.
fn tree_rank(tree: &Vec<u32>, pid: u32) -> (r: usize)
    ensures
        r == spec_tree_rank(tree@, pid),
{
    let n = tree.len();
    let mut i: usize = 0;
    proof {
        assert(tree@.subrange(0, n as int) =~= tree@);
    }
    while i < n
        invariant
            i <= n,
            n == tree@.len(),
            spec_tree_rank(tree@, pid) == i + spec_tree_rank(
                tree@.subrange(i as int, n as int),
                pid,
            ),
        decreases n - i,
    {
        proof {
            lemma_tree_rank_unroll(tree@, pid, i as int);
        }
        if tree[i] == pid {
            return i;
        }
        i = i + 1;
    }
    n
}

/// Unrolls `spec_tree_rank` one position at a time, on the suffix of the
/// chain that starts at `i`.
proof fn lemma_tree_rank_unroll(tree: Seq<u32>, pid: u32, i: int)
    requires
        0 <= i < tree.len(),
    ensures
        spec_tree_rank(tree.subrange(i, tree.len() as int), pid) == (if tree[i] == pid {
            0
        } else {
            1 + spec_tree_rank(tree.subrange(i + 1, tree.len() as int), pid)
        }),
{
    let suffix = tree.subrange(i, tree.len() as int);
    assert(suffix[0] == tree[i]);
    assert(suffix.drop_first() =~= tree.subrange(i + 1, tree.len() as int));
}

/// Whether the window's lowercase title contains the lowercase hint.
fn title_contains_hint(title: &str, hint_lower: &Vec<char>) -> (r: bool)
    ensures
        r == spec_contains_sub(lower_of(title@), hint_lower@),
{
    let lowered = to_lowercase(title);
    let chars = str_chars(lowered.as_str());
    contains_sub(&chars, hint_lower)
}

/// Find the best visible window owned by any pid in the chain. With a title
/// hint, the first candidate whose title contains it case-insensitively
/// wins; otherwise the candidate whose pid sits earliest in the chain
/// (child-first) wins, earlier candidates breaking ties. Returns all
/// candidates and the winner; the winner is `None` exactly when there are
/// no candidates — it is never fabricated.
pub fn find_source_window(
    process_tree: &Vec<u32>,
    title_hint: Option<&str>,
    windows: &Vec<WindowInfo>,
) -> (r: (Vec<WindowCandidate>, Option<WindowCandidate>))
    ensures
        r.0@ == spec_candidates(windows@, process_tree@),
        r.1 == spec_best_window(
            windows@,
            process_tree@,
            match title_hint {
                Option::Some(h) => Some(h@),
                Option::None => None,
            },
        ),
        r.1 is Some <==> r.0@.len() > 0,
        match r.1 {
            Option::Some(b) => r.0@.contains(b) && process_tree@.contains(b.1),
            Option::None => true,
        },
{
    let candidates = collect_candidates(process_tree, windows);
    let hinted = match title_hint {
        Option::Some(h) => {
            let hint_string = to_lowercase(h);
            let hint_lower = str_chars(hint_string.as_str());
            first_title_match(process_tree, windows, &hint_lower)
        },
        Option::None => None,
    };
    proof {
        lemma_candidates_pids_in_tree(windows@, process_tree@);
        lemma_best_by_rank_member(spec_candidates(windows@, process_tree@), process_tree@);
        match title_hint {
            Option::Some(h) => {
                lemma_title_match_is_candidate(windows@, process_tree@, lower_of(h@));
            },
            Option::None => {},
        }
    }
    let best = match hinted {
        Option::Some(c) => Some(c),
        Option::None => best_by_rank(&candidates, process_tree),
    };
    (candidates, best)
}

/// The catalog rows whose owner pid is in the chain, in catalog order.
fn collect_candidates(process_tree: &Vec<u32>, windows: &Vec<WindowInfo>) -> (cands: Vec<
    WindowCandidate,
>)
    ensures
        cands@ == spec_candidates(windows@, process_tree@),
{
    let n = windows.len();
    let mut cands: Vec<WindowCandidate> = Vec::new();
    let mut i: usize = 0;
    proof {
        assert(windows@.subrange(0, 0) =~= Seq::<WindowInfo>::empty());
    }
    while i < n
        invariant
            i <= n,
            n == windows@.len(),
            cands@ == spec_candidates(windows@.subrange(0, i as int), process_tree@),
        decreases n - i,
    {
        let ghost prefix1 = windows@.subrange(0, i + 1);
        proof {
            assert(prefix1.drop_last() =~= windows@.subrange(0, i as int));
            assert(prefix1.last() == windows@[i as int]);
        }
        if tree_contains(process_tree, windows[i].pid) {
            cands.push((windows[i].hwnd, windows[i].pid));
        }
        i = i + 1;
    }
    proof {
        assert(windows@.subrange(0, n as int) =~= windows@);
    }
    cands
}

/// First catalog row whose pid is in the chain and whose lowercase title
/// contains the lowercase hint.
fn first_title_match(
    process_tree: &Vec<u32>,
    windows: &Vec<WindowInfo>,
    hint_lower: &Vec<char>,
) -> (r: Option<WindowCandidate>)
    ensures
        r == spec_title_match(windows@, process_tree@, hint_lower@),
{
    let n = windows.len();
    let mut i: usize = 0;
    proof {
        assert(windows@.subrange(0, n as int) =~= windows@);
    }
    while i < n
        invariant
            i <= n,
            n == windows@.len(),
            spec_title_match(windows@, process_tree@, hint_lower@) == spec_title_match(
                windows@.subrange(i as int, n as int),
                process_tree@,
                hint_lower@,
            ),
        decreases n - i,
    {
        proof {
            lemma_title_match_unroll(windows@, process_tree@, hint_lower@, i as int);
        }
        if tree_contains(process_tree, windows[i].pid) && title_contains_hint(
            windows[i].title.as_str(),
            hint_lower,
        ) {
            return Some((windows[i].hwnd, windows[i].pid));
        }
        i = i + 1;
    }
    None
}

/// Unrolls `spec_title_match` one row at a time, on the suffix of the
/// catalog that starts at `i`.
proof fn lemma_title_match_unroll(
    windows: Seq<WindowInfo>,
    tree: Seq<u32>,
    hint_lower: Seq<char>,
    i: int,
)
    requires
        0 <= i < windows.len(),
    ensures
        spec_title_match(windows.subrange(i, windows.len() as int), tree, hint_lower) == (if
        tree.contains(windows[i].pid) && spec_contains_sub(lower_of(windows[i].title@), hint_lower) {
            Some((windows[i].hwnd, windows[i].pid))
        } else {
            spec_title_match(windows.subrange(i + 1, windows.len() as int), tree, hint_lower)
        }),
{
    let suffix = windows.subrange(i, windows.len() as int);
    assert(suffix[0] == windows[i]);
    assert(suffix.drop_first() =~= windows.subrange(i + 1, windows.len() as int));
}

/// The candidate whose pid sits earliest in the chain; earlier candidates
/// break ties.
fn best_by_rank(cands: &Vec<WindowCandidate>, process_tree: &Vec<u32>) -> (r: Option<
    WindowCandidate,
>)
    ensures
        r == spec_best_by_rank(cands@, process_tree@),
{
    let n = cands.len();
    let mut best: Option<WindowCandidate> = None;
    let mut best_rank: usize = 0;
    let mut i: usize = 0;
    proof {
        assert(cands@.subrange(0, 0) =~= Seq::<WindowCandidate>::empty());
    }
    while i < n
        invariant
            i <= n,
            n == cands@.len(),
            best == spec_best_by_rank(cands@.subrange(0, i as int), process_tree@),
            match best {
                Option::Some(b) => best_rank == spec_tree_rank(process_tree@, b.1),
                Option::None => i == 0,
            },
        decreases n - i,
    {
        let ghost prefix1 = cands@.subrange(0, i + 1);
        proof {
            assert(prefix1.drop_last() =~= cands@.subrange(0, i as int));
            assert(prefix1.last() == cands@[i as int]);
        }
        let rank = tree_rank(process_tree, cands[i].1);
        match best {
            Option::None => {
                best = Some(cands[i]);
                best_rank = rank;
            },
            Option::Some(_) => {
                if rank < best_rank {
                    best = Some(cands[i]);
                    best_rank = rank;
                }
            },
        }
        i = i + 1;
    }
    proof {
        assert(cands@.subrange(0, n as int) =~= cands@);
    }
    best
}

/// Whether the handle names the window that currently has the foreground.
/// The reserved handle 0 is never focused, and a foreground report of 0
/// (no foreground window) focuses nothing.
pub fn is_hwnd_focused(hwnd: isize, foreground: isize) -> (r: bool)
    ensures
        r == (hwnd != 0 && foreground != 0 && foreground == hwnd),
{
    hwnd != 0 && foreground != 0 && foreground == hwnd
}

/// What activating a window does: nothing for the 0 sentinel or a handle
/// that no longer names a window; otherwise bring it to the foreground,
/// restoring it first only when it is minimized (never un-maximizing).
#[derive(PartialEq, Eq, Structural, Debug, Clone, Copy)]
pub enum ActivateAction {
    Skip,
    Foreground { restore_from_minimized: bool },
}

/// Decide what activating `hwnd` should do, given whether the handle still
/// names a window and whether that window is minimized.
pub fn activate_window(hwnd: isize, window_exists: bool, minimized: bool) -> (a: ActivateAction)
    ensures
        a == (if hwnd == 0 || !window_exists {
            ActivateAction::Skip
        } else {
            ActivateAction::Foreground { restore_from_minimized: minimized }
        }),
{
    if hwnd == 0 || !window_exists {
        ActivateAction::Skip
    } else {
        ActivateAction::Foreground { restore_from_minimized: minimized }
    }
}

/// The probed console window of a pid: the handle the console query
/// reported, and whether that window is visible. Absent when the query
/// failed or reported no window.
#[derive(Clone, Debug)]
pub struct ConsoleProbe {
    pub hwnd: isize,
    pub visible: bool,
}

/// First visible catalog row owned by a terminal-emulator process with a
/// non-empty title, topmost first.
pub open spec fn spec_terminal_window(snap: Seq<ProcessEntry>, windows: Seq<WindowInfo>) -> Option<
    isize,
>
    decreases windows.len(),
{
    if windows.len() == 0 {
        None
    } else if spec_is_terminal_pid(snap, windows[0].pid) && windows[0].title@.len() > 0 {
        Some(windows[0].hwnd)
    } else {
        spec_terminal_window(snap, windows.drop_first())
    }
}

/// Whether some snapshot row gives this pid the well-known terminal
/// emulator's executable name, compared without regard to ASCII case.
pub open spec fn spec_is_terminal_pid(snap: Seq<ProcessEntry>, pid: u32) -> bool {
    exists|i: int|
        0 <= i < snap.len() && #[trigger] snap[i].pid == pid && ascii_lower(snap[i].exe@)
            == ascii_lower("WindowsTerminal.exe"@)
}

/// Whether some snapshot row gives this pid the terminal emulator's name.
fn is_terminal_pid(snapshot: &Vec<ProcessEntry>, pid: u32) -> (r: bool)
    ensures
        r == spec_is_terminal_pid(snapshot@, pid),
{
    let n = snapshot.len();
    let mut i: usize = 0;
    while i < n
        invariant
            i <= n,
            n == snapshot@.len(),
            forall|j: int|
                0 <= j < i ==> !(#[trigger] snapshot@[j].pid == pid && ascii_lower(
                    snapshot@[j].exe@,
                ) == ascii_lower("WindowsTerminal.exe"@)),
        decreases n - i,
    {
        if snapshot[i].pid == pid && eq_ignore_ascii_case(
            snapshot[i].exe.as_str(),
            "WindowsTerminal.exe",
        ) {
            return true;
        }
        i = i + 1;
    }
    false
}

/// Scan for a visible terminal-emulator window: the first (topmost) catalog
/// row owned by the well-known terminal emulator with a non-empty title.
pub fn find_terminal_window(snapshot: &Vec<ProcessEntry>, windows: &Vec<WindowInfo>) -> (r: Option<
    isize,
>)
    ensures
        r == spec_terminal_window(snapshot@, windows@),
{
    let n = windows.len();
    let mut i: usize = 0;
    proof {
        assert(windows@.subrange(0, n as int) =~= windows@);
    }
    while i < n
        invariant
            i <= n,
            n == windows@.len(),
            spec_terminal_window(snapshot@, windows@) == spec_terminal_window(
                snapshot@,
                windows@.subrange(i as int, n as int),
            ),
        decreases n - i,
    {
        proof {
            let suffix = windows@.subrange(i as int, n as int);
            assert(suffix[0] == windows@[i as int]);
            assert(suffix.drop_first() =~= windows@.subrange(i + 1, n as int));
        }
        if is_terminal_pid(snapshot, windows[i].pid) && windows[i].title.as_str().unicode_len()
            > 0 {
            return Some(windows[i].hwnd);
        }
        i = i + 1;
    }
    None
}

/// Find the terminal window of a pid when its own windows are hidden: take
/// the probed console window when it is visible, real and not the excluded
/// handle; otherwise fall back to scanning for the well-known terminal
/// emulator's topmost visible window. A pid of 0 resolves to nothing.
pub fn find_console_window(
    pid: u32,
    exclude_hwnd: isize,
    console: &Option<ConsoleProbe>,
    snapshot: &Vec<ProcessEntry>,
    windows: &Vec<WindowInfo>,
) -> (r: Option<isize>)
    ensures
        r == (if pid == 0 {
            None::<isize>
        } else {
            match console {
                Option::Some(c) => {
                    if c.hwnd != 0 && c.hwnd != exclude_hwnd && c.visible {
                        Some(c.hwnd)
                    } else {
                        spec_terminal_window(snapshot@, windows@)
                    }
                },
                Option::None => spec_terminal_window(snapshot@, windows@),
            }
        }),
{
    if pid == 0 {
        return None;
    }
    match console {
        Option::Some(c) => {
            if c.hwnd != 0 && c.hwnd != exclude_hwnd && c.visible {
                Some(c.hwnd)
            } else {
                find_terminal_window(snapshot, windows)
            }
        },
        Option::None => find_terminal_window(snapshot, windows),
    }
}

/// Title of the first catalog row with the given handle, if any.
pub open spec fn spec_title_of(windows: Seq<WindowInfo>, hwnd: isize) -> Option<Seq<char>>
    decreases windows.len(),
{
    if windows.len() == 0 {
        None
    } else if windows[0].hwnd == hwnd {
        Some(windows[0].title@)
    } else {
        spec_title_of(windows.drop_first(), hwnd)
    }
}

/// Title of the first catalog row with the given handle; empty when the
/// handle is not in the catalog.
pub fn get_window_title(windows: &Vec<WindowInfo>, hwnd: isize) -> (t: String)
    ensures
        t@ == (match spec_title_of(windows@, hwnd) {
            Option::Some(s) => s,
            Option::None => Seq::<char>::empty(),
        }),
{
    let n = windows.len();
    let mut i: usize = 0;
    proof {
        assert(windows@.subrange(0, n as int) =~= windows@);
    }
    while i < n
        invariant
            i <= n,
            n == windows@.len(),
            spec_title_of(windows@, hwnd) == spec_title_of(
                windows@.subrange(i as int, n as int),
                hwnd,
            ),
        decreases n - i,
    {
        proof {
            let suffix = windows@.subrange(i as int, n as int);
            assert(suffix[0] == windows@[i as int]);
            assert(suffix.drop_first() =~= windows@.subrange(i + 1, n as int));
        }
        if windows[i].hwnd == hwnd {
            return windows[i].title.clone();
        }
        i = i + 1;
    }
    String::new()
}

} // verus!
