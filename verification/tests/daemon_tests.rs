use pve_san_fenced::daemon::{
    backoff_message, check_intervals, discovery_backoff, reboot_timeout_secs, stale_after, status_outdated_message,
    status_query_report, sysrq_char_to_bit, sysrq_chars, sysrq_state_issues, validate_sysrq_chars,
    ActiveLunsWithTimestamp,
};
use pve_san_fenced::discovery::{active_luns, lun_entry_exec};
use pve_san_fenced::pve::{SanStorageInfo, VmDisk, VmInfo};

#[test]
fn test_sysrq_char_to_bit() {
    assert_eq!(sysrq_char_to_bit('s'), Some(16));
    assert_eq!(sysrq_char_to_bit('b'), Some(128));
    assert_eq!(sysrq_char_to_bit('o'), Some(128));
    assert_eq!(sysrq_char_to_bit('c'), Some(2));
    assert_eq!(sysrq_char_to_bit('u'), Some(32));
    assert_eq!(sysrq_char_to_bit('r'), Some(4));
    assert_eq!(sysrq_char_to_bit('e'), Some(64));
    assert_eq!(sysrq_char_to_bit('i'), Some(64));
    assert_eq!(sysrq_char_to_bit('f'), Some(64));
    assert_eq!(sysrq_char_to_bit('t'), Some(8));
    assert_eq!(sysrq_char_to_bit('p'), Some(8));
    assert_eq!(sysrq_char_to_bit('m'), Some(8));
    assert_eq!(sysrq_char_to_bit('w'), Some(8));
    assert_eq!(sysrq_char_to_bit('x'), None);
}

#[test]
fn test_validate_sysrq_characters() {
    assert!(validate_sysrq_chars("s,b").is_ok());
    assert!(validate_sysrq_chars("c").is_ok());
    assert!(validate_sysrq_chars("s,b,u").is_ok());

    assert!(validate_sysrq_chars("x").is_err());
    assert!(validate_sysrq_chars("s,b,x").is_err());
    assert!(validate_sysrq_chars("s,b,@").is_err());
    assert!(validate_sysrq_chars("").is_err());
    assert!(validate_sysrq_chars(",,").is_err());
}

#[test]
fn sysrq_setting_messages() {
    assert_eq!(validate_sysrq_chars(" , ").unwrap_err(), "sysrq-char configuration cannot be empty");
    assert_eq!(validate_sysrq_chars("s, bx").unwrap_err(), "Invalid SysRq character 'x' specified in configuration");
    assert_eq!(sysrq_chars(" s , b ,, ub"), vec!['s', 'b', 'u', 'b']);
}

#[test]
fn sysrq_bitmask_issues() {
    let chars = vec!['s', 'b'];
    assert_eq!(
        sysrq_state_issues(&chars, "0\n"),
        vec![(
            "sysrq".to_string(),
            "SysRq is disabled (value is 0) in /proc/sys/kernel/sysrq. Fencing operations will fail!".to_string()
        )]
    );
    assert!(sysrq_state_issues(&chars, "1\n").is_empty());
    assert!(sysrq_state_issues(&chars, "176\n").is_empty());
    assert_eq!(
        sysrq_state_issues(&chars, "16\n"),
        vec![(
            "sysrq_b".to_string(),
            "Configured SysRq char 'b' is disabled by /proc/sys/kernel/sysrq bitmask (16)!".to_string()
        )]
    );
    assert_eq!(
        sysrq_state_issues(&chars, "abc"),
        vec![("sysrq_parse".to_string(), "Could not parse /proc/sys/kernel/sysrq value: abc".to_string())]
    );
    assert!(sysrq_state_issues(&chars, "-1").is_empty());
}

#[test]
fn status_query_exit_codes() {
    assert_eq!(status_query_report("OK - fine\n"), ("OK - fine".to_string(), 0));
    assert_eq!(status_query_report("WARNING - x"), ("WARNING - x".to_string(), 1));
    assert_eq!(status_query_report("  CRITICAL - y "), ("CRITICAL - y".to_string(), 2));
    assert_eq!(status_query_report("  \n"), ("UNKNOWN - Status file is empty".to_string(), 3));
    assert_eq!(status_query_report("garbage"), ("UNKNOWN - Badly formatted status file: garbage".to_string(), 3));
    assert_eq!(
        status_outdated_message(31, 5),
        Some("UNKNOWN - Status file is outdated (last modified 31 seconds ago)".to_string())
    );
    assert_eq!(status_outdated_message(30, 5), None);
    assert_eq!(status_outdated_message(45, 20), None);
}

#[test]
fn interval_settings_must_not_be_zero() {
    assert_eq!(check_intervals(0, 0, 0), Some("poll-interval cannot be 0".to_string()));
    assert_eq!(check_intervals(5, 0, 0), Some("max-failures cannot be 0".to_string()));
    assert_eq!(check_intervals(5, 6, 0), Some("discovery-interval cannot be 0".to_string()));
    assert_eq!(check_intervals(5, 6, 60), None);
}

#[test]
fn discovery_backoff_grows_and_caps() {
    assert_eq!(discovery_backoff(0, 5, 1, 30), None);
    assert_eq!(discovery_backoff(4, 5, 1, 30), None);
    assert_eq!(discovery_backoff(5, 0, 1, 30), None);
    assert_eq!(discovery_backoff(5, 5, 1, 30), Some(1));
    assert_eq!(discovery_backoff(7, 5, 1, 30), Some(4));
    assert_eq!(discovery_backoff(20, 5, 1, 30), Some(30));
    assert_eq!(discovery_backoff(68, 5, u64::MAX, 30), Some(30));
    assert_eq!(
        backoff_message(7, 4),
        "Discovery thread: 7 consecutive failures, backing off for 4 seconds"
    );
}

#[test]
fn staleness_and_timeouts() {
    assert!(!stale_after(120, 0, 60));
    assert!(stale_after(120, 1, 60));
    assert!(stale_after(121, 0, 60));
    assert!(!stale_after(10, 999, 60));
    let fresh = ActiveLunsWithTimestamp::new(vec!["mpatha".to_string()]);
    assert!(!fresh.is_stale(60));
    assert_eq!(fresh.luns, vec!["mpatha".to_string()]);
    assert_eq!(reboot_timeout_secs(None), 10);
    assert_eq!(reboot_timeout_secs(Some("25")), 25);
    assert_eq!(reboot_timeout_secs(Some("x")), 10);
}

fn disk(dm: Option<&str>) -> VmDisk {
    VmDisk {
        device_id: "scsi0".to_string(),
        storage: "s:v".to_string(),
        device_path: None,
        device_mapper_name: dm.map(|s| s.to_string()),
        size_bytes: None,
        metadata: None,
    }
}

#[test]
fn active_luns_from_running_vms() {
    assert_eq!(lun_entry_exec("mpathb / mpatha"), "mpatha+mpathb");
    assert_eq!(lun_entry_exec("mpatha"), "mpatha");
    let info = SanStorageInfo {
        node: "pve".to_string(),
        vms: vec![
            VmInfo {
                vmid: 1,
                name: "a".to_string(),
                status: "running".to_string(),
                disks: vec![disk(Some("mpatha / mpathb")), disk(None), disk(Some("mpathc")), disk(Some("mpathc"))],
            },
            VmInfo { vmid: 2, name: "b".to_string(), status: "stopped".to_string(), disks: vec![disk(Some("mpathd"))] },
        ],
        block_devices: None,
        multipath_devices: None,
    };
    let mut l = active_luns(&info);
    l.sort();
    assert_eq!(l, vec!["mpatha+mpathb".to_string(), "mpathc".to_string()]);
}
