use agent_toast::version::{
    is_newer, parse_version, should_check, UpdaterState, CHECK_INTERVAL_HOURS,
};

#[test]
fn parse_version_standard() {
    assert_eq!(parse_version("1.2.3"), Some((1, 2, 3)));
}

#[test]
fn parse_version_with_v_prefix() {
    assert_eq!(parse_version("v1.2.3"), Some((1, 2, 3)));
}

#[test]
fn parse_version_zero_components() {
    assert_eq!(parse_version("0.0.0"), Some((0, 0, 0)));
}

#[test]
fn parse_version_large_numbers() {
    assert_eq!(parse_version("10.20.300"), Some((10, 20, 300)));
}

#[test]
fn parse_version_two_parts_fails() {
    assert_eq!(parse_version("1.2"), None);
}

#[test]
fn parse_version_single_part_fails() {
    assert_eq!(parse_version("1"), None);
}

#[test]
fn parse_version_empty_fails() {
    assert_eq!(parse_version(""), None);
}

#[test]
fn parse_version_non_numeric_fails() {
    assert_eq!(parse_version("a.b.c"), None);
}

#[test]
fn parse_version_extra_parts_uses_first_three() {
    assert_eq!(parse_version("1.2.3.4"), Some((1, 2, 3)));
}

#[test]
fn is_newer_patch_bump() {
    assert!(is_newer("1.0.0", "1.0.1"));
}

#[test]
fn is_newer_minor_bump() {
    assert!(is_newer("1.0.0", "1.1.0"));
}

#[test]
fn is_newer_major_bump() {
    assert!(is_newer("1.0.0", "2.0.0"));
}

#[test]
fn is_newer_same_version() {
    assert!(!is_newer("1.0.0", "1.0.0"));
}

#[test]
fn is_newer_older_version() {
    assert!(!is_newer("2.0.0", "1.0.0"));
}

#[test]
fn is_newer_with_v_prefix() {
    assert!(is_newer("v1.0.0", "v1.0.1"));
    assert!(is_newer("1.0.0", "v1.0.1"));
    assert!(is_newer("v1.0.0", "1.0.1"));
}

#[test]
fn is_newer_invalid_current() {
    assert!(!is_newer("invalid", "1.0.0"));
}

#[test]
fn is_newer_invalid_latest() {
    assert!(!is_newer("1.0.0", "invalid"));
}

#[test]
fn is_newer_both_invalid() {
    assert!(!is_newer("invalid", "also-invalid"));
}

#[test]
fn is_newer_leading_zeros() {
    assert!(is_newer("01.02.03", "1.2.4"));
}

#[test]
fn parse_version_whitespace_handling() {
    assert_eq!(parse_version(" 1.2.3"), None);
}

#[test]
fn parse_version_negative_numbers_fail() {
    assert_eq!(parse_version("-1.2.3"), None);
}

#[test]
fn updater_state_default() {
    let state = UpdaterState::default();
    assert!(state.last_check.is_none());
    assert!(state.pending_version.is_none());
}

#[test]
fn check_interval_is_reasonable() {
    assert!(CHECK_INTERVAL_HOURS >= 1);
    assert!(CHECK_INTERVAL_HOURS <= 24);
}

#[test]
fn should_check_without_record() {
    assert!(should_check(None));
}

#[test]
fn should_check_at_interval_boundary() {
    assert!(!should_check(Some(11)));
    assert!(should_check(Some(12)));
    assert!(should_check(Some(13)));
}

#[test]
fn parse_version_component_overflow_fails() {
    assert_eq!(parse_version("4294967296.0.0"), None);
    assert_eq!(parse_version("4294967295.0.0"), Some((u32::MAX, 0, 0)));
}
