use agent_toast::channel::{pipe_name, retry_delay_ms, ServerBackoff};

#[test]
fn pipe_name_has_valid_format() {
    assert!(pipe_name(true).starts_with(r"\\.\pipe\"));
    assert!(pipe_name(false).starts_with(r"\\.\pipe\"));
}

#[test]
fn pipe_name_contains_app_identifier() {
    assert!(pipe_name(true).contains("agent-toast"));
    assert!(pipe_name(false).contains("agent-toast"));
}

#[test]
fn pipe_name_debug_has_dev_suffix() {
    assert!(pipe_name(true).ends_with("-dev"));
}

#[test]
fn pipe_name_release_no_dev_suffix() {
    assert!(!pipe_name(false).ends_with("-dev"));
}

#[test]
fn pipe_name_flavors_never_collide() {
    assert_ne!(pipe_name(true), pipe_name(false));
}

#[test]
fn retry_delay_grows_then_caps() {
    assert_eq!(retry_delay_ms(0), 0);
    assert_eq!(retry_delay_ms(1), 100);
    assert_eq!(retry_delay_ms(7), 700);
    assert_eq!(retry_delay_ms(50), 5000);
    assert_eq!(retry_delay_ms(51), 5000);
    assert_eq!(retry_delay_ms(1000), 5000);
}

#[test]
fn backoff_delay_is_min_of_step_times_failures_and_cap() {
    let mut b = ServerBackoff::new();
    for n in 1u64..=60 {
        let delay = b.after_failure();
        assert_eq!(delay, std::cmp::min(100 * n, 5000));
    }
}

#[test]
fn backoff_resets_on_success() {
    let mut b = ServerBackoff::new();
    b.after_failure();
    b.after_failure();
    assert_eq!(b.consecutive_failures, 2);
    b.after_success();
    assert_eq!(b.consecutive_failures, 0);
    assert_eq!(b.after_failure(), 100);
}
