use agent_toast::dispatch::plan_notification;
use agent_toast::request::NotifyRequest;
use agent_toast::resolver::WindowInfo;

fn win(hwnd: isize, pid: u32, title: &str) -> WindowInfo {
    WindowInfo {
        hwnd,
        pid,
        title: title.to_string(),
    }
}

fn req(
    pid: u32,
    title_hint: Option<&str>,
    process_tree: Option<Vec<u32>>,
    source: &str,
) -> NotifyRequest {
    NotifyRequest {
        pid,
        event: "task_complete".to_string(),
        message: None,
        title_hint: title_hint.map(|s| s.to_string()),
        process_tree,
        source: source.to_string(),
    }
}

#[test]
fn focused_source_window_suppresses_notification() {
    let windows = vec![win(42, 300, "terminal")];
    let r = req(300, None, Some(vec![300, 400]), "agent");
    let plan = plan_notification(&r, vec![300], &windows, 42, true);
    assert!(plan.is_none());
}

#[test]
fn unfocused_source_window_creates_plan() {
    let windows = vec![win(42, 300, "terminal")];
    let r = req(300, None, Some(vec![300, 400]), "agent");
    let plan = plan_notification(&r, vec![300], &windows, 7, true).unwrap();
    assert_eq!(plan.source_hwnd, 42);
    assert_eq!(plan.process_tree, vec![300, 400]);
    assert_eq!(plan.window_title, "terminal");
}

#[test]
fn internal_source_skips_resolution() {
    let windows = vec![win(42, 300, "terminal")];
    let r = req(0, Some("Agent Toast"), Some(vec![]), "updater");
    let plan = plan_notification(&r, vec![], &windows, 42, true).unwrap();
    assert_eq!(plan.source_hwnd, 0);
    assert!(plan.process_tree.is_empty());
    assert_eq!(plan.window_title, "Agent Toast");
}

#[test]
fn internal_source_without_hint_uses_app_title() {
    let r = req(0, None, Some(vec![]), "updater");
    let plan = plan_notification(&r, vec![], &Vec::new(), 0, true).unwrap();
    assert_eq!(plan.window_title, "Agent Toast");
}

#[test]
fn short_carried_tree_is_replaced_by_walked_tree() {
    let windows = vec![win(42, 400, "parent window")];
    let r = req(300, None, Some(vec![300]), "agent");
    let plan = plan_notification(&r, vec![300, 400], &windows, 0, false).unwrap();
    assert_eq!(plan.process_tree, vec![300, 400]);
    assert_eq!(plan.source_hwnd, 42);
}

#[test]
fn carried_tree_with_two_entries_is_trusted() {
    let windows = vec![win(42, 400, "parent window")];
    let r = req(300, None, Some(vec![300, 400]), "agent");
    let plan = plan_notification(&r, vec![300], &windows, 0, false).unwrap();
    assert_eq!(plan.process_tree, vec![300, 400]);
}

#[test]
fn unresolved_window_uses_pid_fallback_title() {
    let r = req(1234, None, Some(vec![1234, 5678]), "agent");
    let plan = plan_notification(&r, vec![], &Vec::new(), 0, false).unwrap();
    assert_eq!(plan.source_hwnd, 0);
    assert_eq!(plan.window_title, "PID 1234");
}

#[test]
fn project_mode_prefers_title_hint() {
    let windows = vec![win(42, 300, "window title")];
    let r = req(300, Some("my-proj"), Some(vec![300, 400]), "agent");
    let plan = plan_notification(&r, vec![], &windows, 0, true).unwrap();
    assert_eq!(plan.window_title, "my-proj");
}

#[test]
fn window_mode_uses_window_title() {
    let windows = vec![win(42, 300, "window title")];
    let r = req(300, Some("window"), Some(vec![300, 400]), "agent");
    let plan = plan_notification(&r, vec![], &windows, 0, false).unwrap();
    assert_eq!(plan.window_title, "window title");
}

#[test]
fn unresolved_window_is_never_suppressed() {
    let r = req(300, None, Some(vec![300, 400]), "agent");
    let plan = plan_notification(&r, vec![], &Vec::new(), 99, true);
    assert!(plan.is_some());
}

#[test]
fn hint_that_folds_case_reaches_logic() {
    let windows = vec![win(1, 300, "random"), win(2, 300, "MY-PROJECT — Editor")];
    let r = req(300, Some("my-project"), Some(vec![300, 400]), "agent");
    let plan = plan_notification(&r, vec![], &windows, 0, false).unwrap();
    assert_eq!(plan.source_hwnd, 2);
}
