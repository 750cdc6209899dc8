use pve_san_fenced::status::{StatusLevel, StatusTracker};

#[test]
fn status_tracker_levels_and_lines() {
    let mut t = StatusTracker::new();
    assert_eq!(t.status_line(), "OK - Daemon is running normally\n");
    t.set_issue("b", StatusLevel::Warning, "beta".to_string());
    t.set_issue("a", StatusLevel::Warning, "alpha".to_string());
    assert_eq!(t.status_line(), "WARNING - alpha; beta\n");
    t.set_issue("c", StatusLevel::Critical, "gamma".to_string());
    assert_eq!(t.status_line(), "CRITICAL - gamma\n");
    t.set_issue("c", StatusLevel::Warning, "gamma2".to_string());
    assert_eq!(t.status_line(), "WARNING - alpha; beta; gamma2\n");
    assert!(t.clear_issue("c"));
    assert!(!t.clear_issue("c"));
    assert_eq!(t.status_line(), "WARNING - alpha; beta\n");
}

#[test]
fn status_tracker_prefix_clear_and_file() {
    let mut t = StatusTracker::new();
    t.set_issue("missing_dm_st_a", StatusLevel::Warning, "x".to_string());
    t.set_issue("missing_dm_st_b", StatusLevel::Warning, "y".to_string());
    t.set_issue("fencing", StatusLevel::Okay, "fine".to_string());
    assert!(t.clear_issues_with_prefix("missing_dm_st_"));
    assert!(!t.clear_issues_with_prefix("missing_dm_st_"));
    assert_eq!(t.status_line(), "OK - fine\n");
    assert_eq!(t.status_file(), None);
    t.set_status_file(Some("/run/x/status".to_string()));
    assert_eq!(t.status_file(), Some("/run/x/status".to_string()));
}

#[test]
fn status_tracker_basic_sequence() {
    let mut t = StatusTracker::new();
    t.set_issue("issue1", StatusLevel::Warning, "Warning message".to_string());
    t.clear_issue("issue1");
    t.set_status_file(Some("/tmp/pve-san-fenced.status".to_string()));
    assert_eq!(t.status_line(), "OK - Daemon is running normally\n");
    t.set_issue("test_warn", StatusLevel::Warning, "First warning".to_string());
    assert_eq!(t.status_line(), "WARNING - First warning\n");
    t.set_issue("another_warn", StatusLevel::Warning, "Second warning".to_string());
    assert_eq!(t.status_line(), "WARNING - First warning; Second warning\n");
    t.set_issue("critical_fail", StatusLevel::Critical, "Critical error occurred".to_string());
    assert_eq!(t.status_line(), "CRITICAL - Critical error occurred\n");
    t.clear_issue("critical_fail");
    assert_eq!(t.status_line(), "WARNING - First warning; Second warning\n");
    t.clear_issues_with_prefix("test_");
    assert_eq!(t.status_line(), "WARNING - Second warning\n");
    t.clear_issue("another_warn");
    assert_eq!(t.status_line(), "OK - Daemon is running normally\n");
}

#[test]
fn status_clear_undoes_set() {
    let mut t = StatusTracker::new();
    t.set_issue("a", StatusLevel::Warning, "alpha".to_string());
    let before = t.status_line();
    t.set_issue("z", StatusLevel::Critical, "zeta".to_string());
    assert_ne!(t.status_line(), before);
    assert!(t.clear_issue("z"));
    assert_eq!(t.status_line(), before);
}
