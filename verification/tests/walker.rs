use agent_toast::walker::{get_parent_pid, get_process_tree, ProcessEntry};

fn proc_entry(pid: u32, parent_pid: u32, exe: &str) -> ProcessEntry {
    ProcessEntry {
        pid,
        parent_pid,
        exe: exe.to_string(),
    }
}

#[test]
fn walk_collects_ancestors_in_order() {
    let snapshot = vec![
        proc_entry(300, 400, "node.exe"),
        proc_entry(400, 500, "pwsh.exe"),
        proc_entry(500, 600, "wezterm.exe"),
        proc_entry(600, 0, "init.exe"),
    ];
    assert_eq!(get_process_tree(300, &snapshot), vec![300, 400, 500, 600]);
}

#[test]
fn walk_same_pid_twice_is_deterministic() {
    let snapshot = vec![
        proc_entry(300, 400, "node.exe"),
        proc_entry(400, 500, "pwsh.exe"),
        proc_entry(500, 0, "terminal.exe"),
    ];
    let first = get_process_tree(300, &snapshot);
    let second = get_process_tree(300, &snapshot);
    assert_eq!(first, second);
}

#[test]
fn walk_with_empty_snapshot_returns_start_pid() {
    assert_eq!(get_process_tree(1234, &Vec::new()), vec![1234]);
}

#[test]
fn walk_stops_at_denylisted_parent() {
    let snapshot = vec![
        proc_entry(300, 400, "node.exe"),
        proc_entry(400, 500, "pwsh.exe"),
        proc_entry(500, 600, "wezterm.exe"),
        proc_entry(600, 700, "Explorer.EXE"),
        proc_entry(700, 0, "winlogon.exe"),
    ];
    assert_eq!(get_process_tree(300, &snapshot), vec![300, 400, 500]);
}

#[test]
fn walk_stops_at_zero_parent() {
    let snapshot = vec![proc_entry(300, 0, "node.exe")];
    assert_eq!(get_process_tree(300, &snapshot), vec![300]);
}

#[test]
fn walk_stops_at_self_parent_cycle() {
    let snapshot = vec![proc_entry(300, 400, "node.exe"), proc_entry(400, 400, "stuck.exe")];
    assert_eq!(get_process_tree(300, &snapshot), vec![300, 400]);
}

#[test]
fn walk_caps_at_twenty_hops() {
    let mut snapshot = Vec::new();
    for pid in 1..=100u32 {
        snapshot.push(proc_entry(pid, pid + 1, "deep.exe"));
    }
    let tree = get_process_tree(1, &snapshot);
    assert_eq!(tree.len(), 21);
    assert_eq!(tree[0], 1);
    assert_eq!(tree[20], 21);
}

#[test]
fn walk_keeps_unknown_parent_then_stops() {
    let snapshot = vec![proc_entry(300, 999, "node.exe")];
    assert_eq!(get_process_tree(300, &snapshot), vec![300, 999]);
}

#[test]
fn walk_first_snapshot_row_wins() {
    let snapshot = vec![
        proc_entry(300, 400, "node.exe"),
        proc_entry(300, 500, "impostor.exe"),
        proc_entry(400, 0, "pwsh.exe"),
    ];
    assert_eq!(get_process_tree(300, &snapshot), vec![300, 400]);
}

#[test]
fn parent_pid_lookup() {
    let snapshot = vec![proc_entry(300, 400, "node.exe")];
    assert_eq!(get_parent_pid(300, &snapshot), 400);
    assert_eq!(get_parent_pid(777, &snapshot), 777);
}
