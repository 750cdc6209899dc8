use pve_san_fenced::fencer::Fencer;
use pve_san_fenced::multipath::{is_map_dead, map_state, MpathPath, MultipathMap, PathGroup};
use pve_san_fenced::reply::{
    max_response_size, parse_multipathd_response, parse_multipathd_response_within, DEFAULT_MAX_RESPONSE_SIZE,
};
use pve_san_fenced::status::{StatusLevel, StatusTracker};

fn path(st: Option<&str>) -> MpathPath {
    MpathPath { dm_st: st.map(|s| s.to_string()) }
}

fn group(st: Option<&str>, paths: Option<Vec<MpathPath>>) -> PathGroup {
    PathGroup { dm_st: st.map(|s| s.to_string()), paths }
}

fn map(name: &str, uuid: &str, groups: Option<Vec<PathGroup>>) -> MultipathMap {
    MultipathMap { name: name.to_string(), uuid: uuid.to_string(), vend: None, prod: None, path_groups: groups }
}

fn simple(name: &str, uuid: &str, st: &str) -> MultipathMap {
    map(name, uuid, Some(vec![group(Some(st), Some(vec![path(Some(st))]))]))
}

fn luns(v: &[&str]) -> Vec<String> {
    v.iter().map(|s| s.to_string()).collect()
}

#[test]
fn lib_test_is_map_dead_alive_cases() {
    let alive_map = map(
        "mpatha",
        "36001405a415ff6800000000000000000",
        Some(vec![group(Some("active"), Some(vec![path(Some("active")), path(Some("failed"))]))]),
    );
    assert!(!is_map_dead(&alive_map));

    let missing_st_map = map("mpatha", "36001", Some(vec![group(None, Some(vec![path(None)]))]));
    assert!(!is_map_dead(&missing_st_map));

    let undef_path_map = map("mpatha", "36002", Some(vec![group(Some("active"), Some(vec![path(Some("undef"))]))]));
    assert!(!is_map_dead(&undef_path_map));

    let enabled_pg_map = map("mpatha", "36003", Some(vec![group(Some("enabled"), Some(vec![path(Some("active"))]))]));
    assert!(!is_map_dead(&enabled_pg_map));

    let disabled_pg_map = map("mpatha", "36004", Some(vec![group(Some("disabled"), Some(vec![path(Some("active"))]))]));
    assert!(!is_map_dead(&disabled_pg_map));

    let undef_pg_map = map("mpatha", "36005", Some(vec![group(Some("undef"), Some(vec![path(Some("active"))]))]));
    assert!(!is_map_dead(&undef_pg_map));
}

#[test]
fn lib_test_is_map_dead_failed_cases() {
    let dead_map = map(
        "mpatha",
        "368a",
        Some(vec![group(Some("active"), Some(vec![path(Some("failed")), path(Some("failed"))]))]),
    );
    assert!(is_map_dead(&dead_map));

    let empty_map = map("mpatha", "368b", Some(vec![group(Some("active"), Some(Vec::new()))]));
    assert!(is_map_dead(&empty_map));

    let no_pg_map = map("mpatha", "368c", None);
    assert!(is_map_dead(&no_pg_map));

    let ghost_map = map("mpatha", "368d", Some(vec![group(Some("active"), Some(vec![path(Some("ghost"))]))]));
    assert!(is_map_dead(&ghost_map));

    let inactive_pg_map = map("mpatha", "368e", Some(vec![group(Some("offline"), Some(vec![path(Some("active"))]))]));
    assert!(is_map_dead(&inactive_pg_map));

    let failed_pg_map = map("mpatha", "368f", Some(vec![group(Some("failed"), Some(vec![path(Some("active"))]))]));
    assert!(is_map_dead(&failed_pg_map));

    let faulty_path_map = map("mpatha", "368g", Some(vec![group(Some("active"), Some(vec![path(Some("faulty"))]))]));
    assert!(is_map_dead(&faulty_path_map));
}

#[test]
fn daemon_tests_test_is_map_dead_alive_cases() {
    let alive_map = map(
        "mpatha",
        "368c",
        Some(vec![
            group(None, Some(vec![path(Some("active")), path(Some("failed"))])),
            group(None, Some(vec![path(Some("enabled"))])),
        ]),
    );
    assert!(!is_map_dead(&alive_map));

    let missing_st_map = map("mpatha", "368c", Some(vec![group(None, Some(vec![path(None)]))]));
    assert!(!is_map_dead(&missing_st_map));
}

#[test]
fn daemon_tests_test_is_map_dead_failed_cases() {
    let dead_map = map(
        "mpatha",
        "368c",
        Some(vec![
            group(None, Some(vec![path(Some("failed")), path(Some("failed"))])),
            group(None, Some(vec![path(Some("failed"))])),
        ]),
    );
    assert!(is_map_dead(&dead_map));

    let empty_map = map("mpatha", "368c", Some(vec![]));
    assert!(is_map_dead(&empty_map));

    let no_pg_map = map("mpatha", "368c", None);
    assert!(is_map_dead(&no_pg_map));
}

#[test]
fn test_fencer_update_large_json_and_recursion() {
    let mut fencer = Fencer::new(3, Vec::new());
    let active: Vec<String> = Vec::new();

    let large_str = " ".repeat(10 * 1024 * 1024 + 1);
    assert!(!fencer.update(&large_str, &active));

    let mut nested = String::new();
    for _ in 0..150 {
        nested.push_str("{\"maps\":[");
    }
    nested.push_str("{}");
    for _ in 0..150 {
        nested.push_str("]}");
    }
    assert!(!fencer.update(&nested, &active));

    assert!(!fencer.update("invalid json", &active));
    assert!(!fencer.update("\u{FFFD}\u{FFFD}\u{FFFD}", &active));
}

#[test]
fn test_fencer_consecutive_failures_overflow() {
    let mut fencer = Fencer::new(3, Vec::new());
    fencer.consecutive_failures = u64::MAX;

    let active = luns(&["mpathb"]);
    let maps = vec![map(
        "mpathb",
        "368f",
        Some(vec![group(Some("failed"), Some(vec![path(Some("failed"))]))]),
    )];
    fencer.update_with_maps(&maps, &active);
    assert_eq!(fencer.consecutive_failures(), u64::MAX);
}

#[test]
fn test_fencer_previous_map_states_pruning() {
    let mut fencer = Fencer::new(3, Vec::new());
    let mut active = luns(&["mpatha", "mpathb"]);

    let maps = vec![simple("mpatha", "uuid-a", "active"), simple("mpathb", "uuid-b", "active")];

    fencer.update_with_maps(&maps, &active);
    assert!(fencer.previous_map_state("mpatha").is_some());
    assert!(fencer.previous_map_state("mpathb").is_some());

    active.retain(|l| l != "mpathb");
    fencer.update_with_maps(&maps, &active);
    assert!(fencer.previous_map_state("mpatha").is_some());
    assert!(!fencer.previous_map_state("mpathb").is_some());
}

#[test]
fn test_fencing_spanned_vg_in_memory() {
    let mut fencer = Fencer::new(3, Vec::new());
    let active = luns(&["mpatha+mpathb", "mpathc"]);

    let maps_all_healthy = vec![
        simple("mpatha", "uuid-a", "active"),
        simple("mpathb", "uuid-b", "active"),
        simple("mpathc", "uuid-c", "active"),
    ];
    let triggered = fencer.update_with_maps(&maps_all_healthy, &active);
    assert!(!triggered);
    assert_eq!(fencer.consecutive_failures(), 0);

    let maps_mpatha_failed = vec![
        simple("mpatha", "uuid-a", "failed"),
        simple("mpathb", "uuid-b", "active"),
        simple("mpathc", "uuid-c", "active"),
    ];
    let triggered = fencer.update_with_maps(&maps_mpatha_failed, &active);
    assert!(!triggered);
    assert_eq!(fencer.consecutive_failures(), 1);

    fencer.update_with_maps(&maps_mpatha_failed, &active);
    let triggered = fencer.update_with_maps(&maps_mpatha_failed, &active);
    assert!(triggered);
    assert_eq!(fencer.consecutive_failures(), 3);
}

#[test]
fn test_fencing_spanned_vg_mix_single_failed() {
    let mut fencer = Fencer::new(3, Vec::new());
    let active = luns(&["mpatha+mpathb", "mpathc"]);

    let maps_mpathc_failed = vec![
        simple("mpatha", "uuid-a", "active"),
        simple("mpathb", "uuid-b", "active"),
        simple("mpathc", "uuid-c", "failed"),
    ];
    let triggered = fencer.update_with_maps(&maps_mpathc_failed, &active);
    assert!(!triggered);
    assert_eq!(fencer.consecutive_failures(), 0);
}

#[test]
fn fencer_consecutive_failures_reach_max_then_reset() {
    let mut fencer = Fencer::new(2, Vec::new());
    let active = luns(&["mpatha"]);
    let dead = vec![simple("mpatha", "uuid-a", "failed")];
    let alive = vec![simple("mpatha", "uuid-a", "active")];
    assert!(!fencer.update_with_maps(&dead, &active));
    assert_eq!(fencer.consecutive_failures(), 1);
    assert!(fencer.update_with_maps(&dead, &active));
    assert_eq!(fencer.consecutive_failures(), 2);
    assert!(!fencer.update_with_maps(&alive, &active));
    assert_eq!(fencer.consecutive_failures(), 0);
    assert_eq!(fencer.previous_map_state("mpatha"), Some(false));
}

#[test]
fn fencer_ignores_maps_not_in_use() {
    let mut fencer = Fencer::new(1, Vec::new());
    let dead = vec![simple("mpatha", "uuid-a", "failed")];
    assert!(!fencer.update_with_maps(&dead, &luns(&["mpathz"])));
    assert_eq!(fencer.consecutive_failures(), 0);
    assert_eq!(fencer.previous_map_state("mpatha"), None);
}

#[test]
fn fencer_target_wwids_limit_monitoring() {
    let mut fencer = Fencer::new(1, vec!["uuid-b".to_string()]);
    let active = luns(&["mpatha+mpathb"]);
    let maps = vec![simple("mpatha", "uuid-a", "failed"), simple("mpathb", "uuid-b", "active")];
    assert!(!fencer.update_with_maps(&maps, &active));
    let maps2 = vec![simple("mpatha", "uuid-a", "active"), simple("mpathb", "uuid-b", "failed")];
    assert!(fencer.update_with_maps(&maps2, &active));
    assert_eq!(fencer.max_failures(), 1);
}

#[test]
fn fencer_update_parses_reply() {
    let mut fencer = Fencer::new(1, Vec::new());
    let json = r#"{"major_version":0,"minor_version":1,"maps":[{"name":"mpatha","uuid":"u1","path_groups":[{"dm_st":"active","paths":[{"dm_st":"failed"}]}]}]}"#;
    assert!(fencer.update(json, &luns(&["mpatha"])));
    assert_eq!(fencer.consecutive_failures(), 1);
}

#[test]
fn fencer_records_status_issues() {
    let mut fencer = Fencer::new(2, Vec::new());
    let mut status = StatusTracker::new();
    let active = luns(&["mpatha"]);
    let dead = vec![map("mpatha", "u1", Some(vec![group(None, Some(vec![path(Some("failed"))]))]))];
    assert!(!fencer.update_with_maps_tracked(&dead, &active, &mut status));
    let line = status.status_line();
    assert_eq!(line, "WARNING - Consecutive storage failure: 1/2; dm_st is missing for map 'mpatha'\n");
    assert!(fencer.update_with_maps_tracked(&dead, &active, &mut status));
    let line = status.status_line();
    assert!(line.starts_with("CRITICAL - Fencing decision reached: DECISION: Rebooting node"));
    assert!(line.contains("Failed monitored maps: [\"mpatha (u1)\"]"));
    assert_eq!(StatusLevel::Critical.label(), "CRITICAL");
}

#[test]
fn reply_parsing_accepts_arrays_and_missing_maps() {
    let r = parse_multipathd_response(r#"{"major_version":0,"minor_version":1}"#).unwrap();
    assert!(r.is_empty());
    let r = parse_multipathd_response(r#"{"maps":[{"name":"a","uuid":"u","path_groups":null,"vend":"V","prod":"P"}]}"#).unwrap();
    assert_eq!(r.len(), 1);
    assert_eq!(r[0].vend.as_deref(), Some("V"));
    assert!(parse_multipathd_response(r#"{"maps":[{"name":"a"}]}"#).is_none());
    assert!(parse_multipathd_response(r#"{"maps":"x"}"#).is_none());
}

#[test]
fn map_state_reports_missing_state() {
    let m = map("mpatha", "u", Some(vec![group(None, Some(vec![path(Some("active"))]))]));
    assert_eq!(map_state(&m), (false, true));
    let m2 = map("mpatha", "u", Some(vec![group(Some("active"), Some(vec![path(Some("failed"))]))]));
    assert_eq!(map_state(&m2), (true, false));
}

#[test]
fn response_size_limit_applies() {
    let json = r#"{"major_version":0,"minor_version":1,"maps":[]}"#;
    assert_eq!(parse_multipathd_response_within(json, json.len()).map(|m| m.len()), Some(0));
    assert!(parse_multipathd_response_within(json, json.len() - 1).is_none());
    assert_eq!(DEFAULT_MAX_RESPONSE_SIZE, 104857600);
    let padded = format!("{json}{}", " ".repeat(11 * 1024 * 1024));
    assert!(parse_multipathd_response(&padded).is_some());
    let too_big = format!("{json}{}", " ".repeat(DEFAULT_MAX_RESPONSE_SIZE));
    assert!(parse_multipathd_response(&too_big).is_none());
}

#[test]
fn fencer_unwatched_map_changes_nothing() {
    let active = luns(&["mpatha"]);
    let mut plain = Fencer::new(2, Vec::new());
    let mut extra = Fencer::new(2, Vec::new());
    let base = vec![simple("mpatha", "uuid-a", "failed")];
    let with_unused = vec![simple("mpathz", "uuid-z", "active"), simple("mpatha", "uuid-a", "failed")];
    for expected in [false, true] {
        assert_eq!(plain.update_with_maps(&base, &active), expected);
        assert_eq!(extra.update_with_maps(&with_unused, &active), expected);
        assert_eq!(plain.consecutive_failures(), extra.consecutive_failures());
    }
    assert_eq!(extra.previous_map_state("mpathz"), None);
    assert_eq!(extra.previous_map_state("mpatha"), Some(true));
}

#[test]
fn offline_paths_count_as_down() {
    let offline = map("mpatha", "36001", Some(vec![group(Some("active"), Some(vec![path(Some("offline"))]))]));
    assert!(is_map_dead(&offline));
    let mixed = map(
        "mpatha",
        "36001",
        Some(vec![group(Some("active"), Some(vec![path(Some("offline")), path(Some("active"))]))]),
    );
    assert!(!is_map_dead(&mixed));
}

#[test]
fn response_size_setting() {
    assert_eq!(max_response_size(None), DEFAULT_MAX_RESPONSE_SIZE);
    assert_eq!(max_response_size(Some(" 2048 ")), 2048);
    assert_eq!(max_response_size(Some("lots")), DEFAULT_MAX_RESPONSE_SIZE);
    assert_eq!(max_response_size(Some("")), DEFAULT_MAX_RESPONSE_SIZE);
}
