use agent_toast::resolver::{
    activate_window, find_console_window, find_source_window, find_terminal_window,
    get_window_title, is_hwnd_focused, ActivateAction, ConsoleProbe, WindowInfo,
};
use agent_toast::walker::ProcessEntry;

fn win(hwnd: isize, pid: u32, title: &str) -> WindowInfo {
    WindowInfo {
        hwnd,
        pid,
        title: title.to_string(),
    }
}

fn proc_entry(pid: u32, parent_pid: u32, exe: &str) -> ProcessEntry {
    ProcessEntry {
        pid,
        parent_pid,
        exe: exe.to_string(),
    }
}

#[test]
fn title_hint_selects_matching_candidate() {
    let windows = vec![win(1, 500, "random"), win(2, 500, "my-project — editor")];
    let tree = vec![500];
    let (cands, best) = find_source_window(&tree, Some("my-project"), &windows);
    assert_eq!(cands.len(), 2);
    assert_eq!(best, Some((2, 500)));
}

#[test]
fn title_hint_is_case_insensitive() {
    let windows = vec![win(1, 500, "random"), win(2, 500, "MY-Project — Editor")];
    let tree = vec![500];
    let (_, best) = find_source_window(&tree, Some("my-project"), &windows);
    assert_eq!(best, Some((2, 500)));
}

#[test]
fn no_hint_picks_pid_closest_in_chain() {
    let windows = vec![win(10, 300, "three"), win(20, 400, "four")];
    let tree = vec![500, 400, 300];
    let (cands, best) = find_source_window(&tree, None, &windows);
    assert_eq!(cands, vec![(10, 300), (20, 400)]);
    assert_eq!(best, Some((20, 400)));
}

#[test]
fn unmatched_hint_falls_back_to_chain_rank() {
    let windows = vec![win(10, 300, "three"), win(20, 400, "four")];
    let tree = vec![500, 400, 300];
    let (_, best) = find_source_window(&tree, Some("nothing-like-this"), &windows);
    assert_eq!(best, Some((20, 400)));
}

#[test]
fn candidates_only_from_supplied_chain() {
    let windows = vec![win(1, 111, "a"), win(2, 222, "b"), win(3, 333, "c")];
    let tree = vec![222];
    let (cands, best) = find_source_window(&tree, None, &windows);
    for (_, pid) in &cands {
        assert!(tree.contains(pid));
    }
    assert_eq!(cands, vec![(2, 222)]);
    assert_eq!(best, Some((2, 222)));
}

#[test]
fn no_candidates_means_no_best() {
    let windows = vec![win(1, 111, "a")];
    let tree = vec![999];
    let (cands, best) = find_source_window(&tree, Some("a"), &windows);
    assert!(cands.is_empty());
    assert!(best.is_none());
}

#[test]
fn rank_tie_prefers_earlier_candidate() {
    let windows = vec![win(1, 400, "first"), win(2, 400, "second")];
    let tree = vec![400];
    let (_, best) = find_source_window(&tree, None, &windows);
    assert_eq!(best, Some((1, 400)));
}

#[test]
fn is_hwnd_focused_zero_never_focused() {
    assert!(!is_hwnd_focused(0, 0));
    assert!(!is_hwnd_focused(0, 42));
    assert!(!is_hwnd_focused(42, 0));
    assert!(is_hwnd_focused(42, 42));
    assert!(!is_hwnd_focused(42, 43));
}

#[test]
fn activate_window_skips_sentinel_and_gone_windows() {
    assert_eq!(activate_window(0, true, false), ActivateAction::Skip);
    assert_eq!(activate_window(7, false, false), ActivateAction::Skip);
    assert_eq!(
        activate_window(7, true, false),
        ActivateAction::Foreground {
            restore_from_minimized: false
        }
    );
    assert_eq!(
        activate_window(7, true, true),
        ActivateAction::Foreground {
            restore_from_minimized: true
        }
    );
}

#[test]
fn console_window_uses_visible_probe() {
    let probe = Some(ConsoleProbe {
        hwnd: 55,
        visible: true,
    });
    let r = find_console_window(10, 99, &probe, &Vec::new(), &Vec::new());
    assert_eq!(r, Some(55));
}

#[test]
fn console_window_zero_pid_resolves_nothing() {
    let probe = Some(ConsoleProbe {
        hwnd: 55,
        visible: true,
    });
    let r = find_console_window(0, 0, &probe, &Vec::new(), &Vec::new());
    assert!(r.is_none());
}

#[test]
fn console_window_excluded_probe_falls_back_to_terminal_scan() {
    let probe = Some(ConsoleProbe {
        hwnd: 55,
        visible: true,
    });
    let snapshot = vec![proc_entry(70, 1, "windowsterminal.EXE")];
    let windows = vec![win(5, 70, ""), win(6, 70, "wt tab"), win(7, 71, "other")];
    let r = find_console_window(10, 55, &probe, &snapshot, &windows);
    assert_eq!(r, Some(6));
}

#[test]
fn terminal_scan_skips_empty_titles_and_foreign_pids() {
    let snapshot = vec![proc_entry(70, 1, "WindowsTerminal.exe"), proc_entry(71, 1, "notepad.exe")];
    let windows = vec![win(5, 71, "notepad"), win(6, 70, ""), win(7, 70, "topmost tab")];
    assert_eq!(find_terminal_window(&snapshot, &windows), Some(7));
}

#[test]
fn terminal_scan_without_terminal_processes_finds_nothing() {
    let snapshot = vec![proc_entry(71, 1, "notepad.exe")];
    let windows = vec![win(5, 71, "notepad")];
    assert!(find_terminal_window(&snapshot, &windows).is_none());
}

#[test]
fn window_title_lookup_by_handle() {
    let windows = vec![win(5, 1, "first"), win(6, 2, "second")];
    assert_eq!(get_window_title(&windows, 6), "second");
    assert_eq!(get_window_title(&windows, 99), "");
}
