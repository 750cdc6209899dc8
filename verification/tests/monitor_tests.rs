use pve_san_fenced::monitor::{
    is_dm_device, is_multipath_name, note_config_query, note_discovery, note_lun_freshness, note_maps_query,
};
use pve_san_fenced::status::StatusTracker;

#[test]
fn stale_data_skips_the_cycle_and_is_reported() {
    let mut t = StatusTracker::new();
    assert!(!note_lun_freshness(&mut t, true));
    assert!(t.status_line().starts_with("WARNING - Active LUN data is stale"));
    assert!(note_lun_freshness(&mut t, false));
    assert_eq!(t.status_line(), "OK - Daemon is running normally\n");
}

#[test]
fn multipathd_query_outcomes() {
    let mut t = StatusTracker::new();
    assert!(!note_maps_query(&mut t, Some("timed out")));
    assert_eq!(t.status_line(), "WARNING - Failed to query multipathd: timed out\n");
    note_config_query(&mut t, Some("refused"));
    assert_eq!(
        t.status_line(),
        "WARNING - Failed to query multipathd config: refused; Failed to query multipathd: timed out\n"
    );
    assert!(note_maps_query(&mut t, None));
    note_config_query(&mut t, None);
    assert_eq!(t.status_line(), "OK - Daemon is running normally\n");
}

#[test]
fn discovery_failures_count_and_reset() {
    let mut t = StatusTracker::new();
    assert_eq!(note_discovery(&mut t, 0, Some("boom".to_string())), 1);
    assert_eq!(note_discovery(&mut t, 1, Some("boom".to_string())), 2);
    assert_eq!(note_discovery(&mut t, u64::MAX, Some("boom".to_string())), u64::MAX);
    assert_eq!(t.status_line(), "WARNING - boom\n");
    assert_eq!(note_discovery(&mut t, 2, None), 0);
    assert_eq!(t.status_line(), "OK - Daemon is running normally\n");
}

#[test]
fn device_name_prefixes() {
    assert!(is_multipath_name("mpatha"));
    assert!(!is_multipath_name("vg-lv"));
    assert!(is_dm_device("dm-3"));
    assert!(!is_dm_device("sda"));
    assert!(!is_dm_device("dm"));
}
