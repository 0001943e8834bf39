use agent_toast::config::{
    default_auto_close_on_focus, default_auto_dismiss_seconds, default_locale,
    default_notification_monitor, default_notification_position, default_notification_sound,
    default_title_display_mode, extract_message, HookConfig,
};

#[test]
fn extract_message_double_quoted_equals() {
    let cmd = r#"agent-toast --event task_complete --message="빌드 완료""#;
    assert_eq!(extract_message(cmd), Some("빌드 완료".to_string()));
}

#[test]
fn extract_message_double_quoted_space() {
    let cmd = r#"agent-toast --event task_complete --message "빌드 완료""#;
    assert_eq!(extract_message(cmd), Some("빌드 완료".to_string()));
}

#[test]
fn extract_message_unquoted_equals() {
    let cmd = "agent-toast --message=hello";
    assert_eq!(extract_message(cmd), Some("hello".to_string()));
}

#[test]
fn extract_message_unquoted_equals_with_trailing_args() {
    let cmd = "agent-toast --message=hello --event task_complete";
    assert_eq!(extract_message(cmd), Some("hello".to_string()));
}

#[test]
fn extract_message_none_when_missing() {
    let cmd = "agent-toast --event task_complete";
    assert_eq!(extract_message(cmd), None);
}

#[test]
fn extract_message_empty_quoted() {
    let cmd = r#"agent-toast --message="""#;
    assert_eq!(extract_message(cmd), Some("".to_string()));
}

#[test]
fn extract_message_flag_without_value() {
    let cmd = "agent-toast --message";
    assert_eq!(extract_message(cmd), None);
}

#[test]
fn extract_message_single_quoted_not_supported() {
    let cmd = "agent-toast --message='hello'";
    assert_eq!(extract_message(cmd), Some("'hello'".to_string()));
}

#[test]
fn extract_message_with_korean() {
    let cmd = r#"agent-toast --message="한글 메시지 테스트""#;
    assert_eq!(extract_message(cmd), Some("한글 메시지 테스트".to_string()));
}

#[test]
fn extract_message_with_spaces() {
    let cmd = r#"agent-toast --message="message with multiple spaces""#;
    assert_eq!(
        extract_message(cmd),
        Some("message with multiple spaces".to_string())
    );
}

#[test]
fn extract_message_at_command_start() {
    let cmd = r#"--message="first" agent-toast"#;
    assert_eq!(extract_message(cmd), Some("first".to_string()));
}

#[test]
fn extract_message_multiple_equals() {
    let cmd = "agent-toast --message=a=b=c --other";
    assert_eq!(extract_message(cmd), Some("a=b=c".to_string()));
}

#[test]
fn hook_config_default_values() {
    let config = HookConfig::default();
    assert!(config.stop_enabled);
    assert!(config.notification_permission_enabled);
    assert!(config.notification_elicitation_enabled);
    assert!(!config.notification_idle_enabled);
    assert!(!config.session_start_enabled);
    assert!(!config.session_end_enabled);
    assert_eq!(config.title_display_mode, "project");
    assert!(config.auto_close_on_focus);
    assert_eq!(config.auto_dismiss_seconds, 0);
    assert_eq!(config.notification_position, "bottom_right");
    assert!(config.notification_sound);
    assert_eq!(config.notification_monitor, "primary");
}

#[test]
fn hook_config_all_hooks_disabled() {
    let mut config = HookConfig::default();
    config.stop_enabled = false;
    config.notification_permission_enabled = false;
    config.notification_elicitation_enabled = false;

    assert!(!config.stop_enabled);
    assert!(!config.notification_permission_enabled);
    assert!(!config.notification_elicitation_enabled);
}

#[test]
fn default_functions_return_expected_values() {
    assert_eq!(default_title_display_mode(), "project");
    assert!(default_auto_close_on_focus());
    assert_eq!(default_auto_dismiss_seconds(), 0);
    assert_eq!(default_notification_position(), "bottom_right");
    assert!(default_notification_sound());
    assert_eq!(default_notification_monitor(), "primary");
    assert_eq!(default_locale(), "ko");
}

#[test]
fn hook_config_default_messages() {
    let config = HookConfig::default();
    assert_eq!(config.stop_message, "작업이 완료되었습니다");
    assert_eq!(config.notification_permission_message, "권한 승인이 필요합니다");
    assert_eq!(config.notification_elicitation_message, "입력이 필요합니다");
    assert!(!config.codex_enabled);
}
