use agent_toast::request::{Cli, NotifyRequest};

fn make_request(event: &str) -> NotifyRequest {
    NotifyRequest {
        pid: 1234,
        event: event.to_string(),
        message: None,
        title_hint: None,
        process_tree: None,
        source: "agent".into(),
    }
}

#[test]
fn event_display_returns_key_as_is() {
    assert_eq!(
        make_request("task_complete").event_display(),
        "task_complete"
    );
    assert_eq!(
        make_request("user_input_required").event_display(),
        "user_input_required"
    );
    assert_eq!(make_request("error").event_display(), "error");
    assert_eq!(make_request("custom_event").event_display(), "custom_event");
}

#[test]
fn notify_request_zero_pid() {
    let req = NotifyRequest {
        pid: 0,
        event: "internal".to_string(),
        message: None,
        title_hint: None,
        process_tree: None,
        source: "updater".into(),
    };
    assert_eq!(req.pid, 0);
}

#[test]
fn notify_request_empty_event() {
    let req = NotifyRequest {
        pid: 1,
        event: "".to_string(),
        message: None,
        title_hint: None,
        process_tree: None,
        source: "agent".into(),
    };
    assert_eq!(req.event, "");
    assert_eq!(req.event_display(), "");
}

#[test]
fn notify_request_all_event_types() {
    let events = [
        "task_complete",
        "user_input_required",
        "error",
        "session_start",
        "session_end",
        "subagent_start",
        "subagent_stop",
        "update_available",
    ];
    for event in events {
        let req = make_request(event);
        assert_eq!(req.event_display(), event);
    }
}

#[test]
fn notify_request_clone() {
    let req = NotifyRequest {
        pid: 42,
        event: "test".to_string(),
        message: Some("message".to_string()),
        title_hint: Some("hint".to_string()),
        process_tree: Some(vec![1, 2, 3]),
        source: "agent".into(),
    };
    let cloned = req.clone();
    assert_eq!(cloned.pid, req.pid);
    assert_eq!(cloned.event, req.event);
    assert_eq!(cloned.message, req.message);
    assert_eq!(cloned.title_hint, req.title_hint);
    assert_eq!(cloned.process_tree, req.process_tree);
    assert_eq!(cloned.source, req.source);
}

#[test]
fn cli_parse_daemon_flag() {
    let cli = Cli::try_parse_from(&["agent-toast", "--daemon"]).unwrap();
    assert!(cli.daemon);
    assert!(!cli.setup);
    assert!(!cli.codex);
    assert!(cli.pid.is_none());
    assert!(cli.event.is_none());
}

#[test]
fn cli_parse_setup_flag() {
    let cli = Cli::try_parse_from(&["agent-toast", "--setup"]).unwrap();
    assert!(cli.setup);
    assert!(!cli.daemon);
}

#[test]
fn cli_parse_codex_flag() {
    let cli = Cli::try_parse_from(&["agent-toast", "--codex"]).unwrap();
    assert!(cli.codex);
}

#[test]
fn cli_parse_codex_with_json_payload() {
    let cli = Cli::try_parse_from(&["agent-toast", "--codex", r#"{"type":"test"}"#]).unwrap();
    assert!(cli.codex);
    assert_eq!(cli.codex_json.as_deref(), Some(r#"{"type":"test"}"#));
}

#[test]
fn cli_parse_pid_and_event() {
    let cli = Cli::try_parse_from(&[
        "agent-toast",
        "--pid",
        "1234",
        "--event",
        "task_complete",
    ])
    .unwrap();
    assert_eq!(cli.pid, Some(1234));
    assert_eq!(cli.event.as_deref(), Some("task_complete"));
}

#[test]
fn cli_parse_full_notification() {
    let cli = Cli::try_parse_from(&[
        "agent-toast",
        "--pid",
        "5678",
        "--event",
        "user_input_required",
        "--message",
        "입력이 필요합니다",
        "--title",
        "my-project",
    ])
    .unwrap();
    assert_eq!(cli.pid, Some(5678));
    assert_eq!(cli.event.as_deref(), Some("user_input_required"));
    assert_eq!(cli.message.as_deref(), Some("입력이 필요합니다"));
    assert_eq!(cli.title.as_deref(), Some("my-project"));
}

#[test]
fn cli_parse_no_args() {
    let cli = Cli::try_parse_from(&["agent-toast"]).unwrap();
    assert!(!cli.daemon);
    assert!(!cli.setup);
    assert!(!cli.codex);
    assert!(cli.pid.is_none());
    assert!(cli.event.is_none());
    assert!(cli.message.is_none());
    assert!(cli.title.is_none());
    assert!(cli.codex_json.is_none());
}

#[test]
fn cli_parse_invalid_pid_fails() {
    let result = Cli::try_parse_from(&["agent-toast", "--pid", "not-a-number"]);
    assert!(result.is_err());
}

#[test]
fn cli_parse_message_with_spaces() {
    let cli = Cli::try_parse_from(&[
        "agent-toast",
        "--event",
        "task_complete",
        "--message",
        "Build completed successfully",
    ])
    .unwrap();
    assert_eq!(cli.message.as_deref(), Some("Build completed successfully"));
}

#[test]
fn cli_parse_message_with_unicode() {
    let cli = Cli::try_parse_from(&["agent-toast", "--message", "빌드 완료 🎉"]).unwrap();
    assert_eq!(cli.message.as_deref(), Some("빌드 완료 🎉"));
}

#[test]
fn cli_parse_multiple_flags() {
    let cli = Cli::try_parse_from(&["agent-toast", "--daemon", "--setup"]).unwrap();
    assert!(cli.daemon);
    assert!(cli.setup);
}

#[test]
fn cli_parse_max_pid() {
    let max = u32::MAX.to_string();
    let cli = Cli::try_parse_from(&["agent-toast", "--pid", max.as_str()]).unwrap();
    assert_eq!(cli.pid, Some(u32::MAX));
}

#[test]
fn cli_parse_zero_pid() {
    let cli = Cli::try_parse_from(&["agent-toast", "--pid", "0"]).unwrap();
    assert_eq!(cli.pid, Some(0));
}

#[test]
fn cli_parse_pid_value_missing_fails() {
    let result = Cli::try_parse_from(&["agent-toast", "--pid"]);
    assert!(result.is_err());
}

#[test]
fn cli_parse_unknown_flag_fails() {
    let result = Cli::try_parse_from(&["agent-toast", "--unknown-flag"]);
    assert!(result.is_err());
}

#[test]
fn cli_parse_second_positional_fails() {
    let result = Cli::try_parse_from(&["agent-toast", "one", "two"]);
    assert!(result.is_err());
}

#[test]
fn cli_parse_pid_overflow_fails() {
    let result = Cli::try_parse_from(&["agent-toast", "--pid", "4294967296"]);
    assert!(result.is_err());
}
