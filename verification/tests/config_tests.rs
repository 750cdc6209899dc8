use pve_san_fenced::config::{
    check_maps_config, check_maps_config_in_range, compile_devices, get_merged_config, get_merged_config_compiled,
    is_known_key, merge_device_configs, parse_multipath_config, tokenize, validate_merged_device_config,
    CompiledPattern, DeviceConfig, Token,
};
use pve_san_fenced::multipath::{MpathPath, MultipathMap, PathGroup};
use pve_san_fenced::status::StatusTracker;

fn s(x: &str) -> Option<String> {
    Some(x.to_string())
}

#[test]
fn test_parse_multipath_config_defaults() {
    let config_str = r#"
defaults {
    polling_interval 5
    no_path_retry "queue"
    fast_io_fail_tmo 5
    dev_loss_tmo "infinity"
}
"#;
    let config = parse_multipath_config(config_str);
    assert_eq!(config.defaults.dev_loss_tmo.as_deref(), Some("infinity"));
    assert_eq!(config.defaults.no_path_retry.as_deref(), Some("queue"));
}

#[test]
fn test_parse_multipath_config_bug1_and_bug3() {
    let config_str = r#"
devices {
    device {
        vendor "HUAWEI"
        some_block {
            foo bar
        }
        product "XSG1"
        dev_loss_tmo 30
    }
}
"#;
    let config = parse_multipath_config(config_str);
    assert_eq!(config.devices.len(), 1);
    assert_eq!(config.devices[0].vendor.as_deref(), Some("HUAWEI"));
    assert_eq!(config.devices[0].product.as_deref(), Some("XSG1"));
    assert_eq!(config.devices[0].dev_loss_tmo.as_deref(), Some("30"));

    let config_str_bug3 = r#"
defaults {
    vendor
    dev_loss_tmo "infinity"
    no_path_retry "queue"
}
"#;
    let config_bug3 = parse_multipath_config(config_str_bug3);
    assert_eq!(config_bug3.defaults.vendor, None);
    assert_eq!(config_bug3.defaults.dev_loss_tmo.as_deref(), Some("infinity"));
    assert_eq!(config_bug3.defaults.no_path_retry.as_deref(), Some("queue"));
}

#[test]
fn test_regex_compilation_warning() {
    let config_str = r#"
devices {
    device {
        vendor "["
        product "XSG1"
        dev_loss_tmo 30
    }
}
"#;
    let parsed = parse_multipath_config(config_str);
    let merged = get_merged_config(&parsed, "HUAWEI", "XSG1");
    assert_ne!(merged.dev_loss_tmo.as_deref(), Some("30"));
}

#[test]
fn test_parse_multipath_config_overrides() {
    let config_str = r#"
defaults {
    no_path_retry "queue"
    dev_loss_tmo "120"
}
devices {
    device {
        vendor "HUAWEI"
        product "XSG1"
        dev_loss_tmo 30
    }
}
overrides {
    dev_loss_tmo "infinity"
}
"#;
    let config = parse_multipath_config(config_str);

    let expected_defaults = DeviceConfig {
        vendor: None,
        product: None,
        dev_loss_tmo: s("120"),
        no_path_retry: s("queue"),
        polling_interval: None,
    };
    assert_eq!(config.defaults, expected_defaults);

    let expected_overrides = DeviceConfig {
        vendor: None,
        product: None,
        dev_loss_tmo: s("infinity"),
        no_path_retry: None,
        polling_interval: None,
    };
    assert_eq!(config.overrides, expected_overrides);

    let merged = get_merged_config(&config, "HUAWEI", "XSG1");
    let expected_merged = DeviceConfig {
        vendor: None,
        product: None,
        dev_loss_tmo: s("infinity"),
        no_path_retry: s("queue"),
        polling_interval: None,
    };
    assert_eq!(merged, expected_merged);
}

#[test]
fn test_parse_multipath_config_numeric_no_path_retry() {
    let config_str = r#"
defaults {
    no_path_retry 12
    dev_loss_tmo 120
}
"#;
    let config = parse_multipath_config(config_str);
    let expected_defaults = DeviceConfig {
        vendor: None,
        product: None,
        dev_loss_tmo: s("120"),
        no_path_retry: s("12"),
        polling_interval: None,
    };
    assert_eq!(config.defaults, expected_defaults);
}

#[test]
fn test_parse_multipath_config_numeric_polling_interval() {
    let config_str = r#"
defaults {
    no_path_retry 12
    polling_interval 10
}
"#;
    let config = parse_multipath_config(config_str);
    let expected_defaults = DeviceConfig {
        vendor: None,
        product: None,
        dev_loss_tmo: None,
        no_path_retry: s("12"),
        polling_interval: Some(10),
    };
    assert_eq!(config.defaults, expected_defaults);
}

#[test]
fn test_validate_merged_device_config() {
    let fencing_time_sec = 30;

    let mut config = DeviceConfig {
        vendor: None,
        product: None,
        dev_loss_tmo: s("infinity"),
        no_path_retry: s("12"),
        polling_interval: Some(5),
    };
    let warnings = validate_merged_device_config(&config, fencing_time_sec);
    assert!(warnings.is_empty());

    config.dev_loss_tmo = s("90");
    let warnings = validate_merged_device_config(&config, fencing_time_sec);
    assert!(warnings.is_empty());

    config.no_path_retry = s("0");
    let warnings = validate_merged_device_config(&config, fencing_time_sec);
    assert!(warnings.iter().any(|w| w.contains("queueing disabled")));

    config.no_path_retry = s("fail");
    let warnings = validate_merged_device_config(&config, fencing_time_sec);
    assert!(warnings.iter().any(|w| w.contains("queueing disabled")));

    config.no_path_retry = s("invalid");
    let warnings = validate_merged_device_config(&config, fencing_time_sec);
    assert!(warnings.iter().any(|w| w.contains("instead of 'queue' or a safe high numeric value")));

    config.no_path_retry = s("queue");
    config.dev_loss_tmo = s("invalid");
    let warnings = validate_merged_device_config(&config, fencing_time_sec);
    assert!(warnings.iter().any(|w| w.contains("instead of 'infinity' or a safe high number")));

    config.dev_loss_tmo = s("80");
    let warnings = validate_merged_device_config(&config, fencing_time_sec);
    assert!(warnings.iter().any(|w| w.contains("which is too low")));

    config.dev_loss_tmo = s("infinity");
    config.no_path_retry = s("8");
    let warnings = validate_merged_device_config(&config, fencing_time_sec);
    assert!(warnings.iter().any(|w| w.contains("yielding a queue time of 40s")));

    config.no_path_retry = s("20");
    config.dev_loss_tmo = s("100");
    let warnings = validate_merged_device_config(&config, fencing_time_sec);
    assert!(warnings.iter().any(|w| w.contains("must be strictly greater than")));

    config.dev_loss_tmo = None;
    let warnings = validate_merged_device_config(&config, fencing_time_sec);
    assert!(warnings.iter().any(|w| w.contains("dev_loss_tmo is not configured")));

    config.no_path_retry = None;
    config.dev_loss_tmo = s("infinity");
    let warnings = validate_merged_device_config(&config, fencing_time_sec);
    assert!(warnings.iter().any(|w| w.contains("no_path_retry is not configured")));
}

#[test]
fn validation_messages_are_exact() {
    let config = DeviceConfig {
        vendor: None,
        product: None,
        dev_loss_tmo: s("30"),
        no_path_retry: s("8"),
        polling_interval: None,
    };
    let warnings = validate_merged_device_config(&config, 30);
    assert_eq!(
        warnings,
        vec![
            "no_path_retry is set to '8', yielding a queue time of 40s (with 5s polling_interval). This is too low (expected >= 45s to allow fencing)".to_string(),
            "dev_loss_tmo is set to '30' which is too low (expected 'infinity' or >= 90)".to_string(),
            "dev_loss_tmo (30s) must be strictly greater than no_path_retry queue time (40s) to avoid deadlocks".to_string(),
        ]
    );
}

#[test]
fn test_compile_devices_and_get_merged_config_compiled() {
    let config_str = r#"
defaults {
    no_path_retry "queue"
    dev_loss_tmo "120"
}
devices {
    device {
        vendor "HUAWEI"
        product "XSG1"
        dev_loss_tmo 30
    }
    device {
        vendor "DELL"
        product "ME4"
        no_path_retry 20
    }
}
overrides {
    dev_loss_tmo "infinity"
}
"#;
    let config = parse_multipath_config(config_str);
    let compiled = compile_devices(&config);
    assert_eq!(compiled.len(), 2);

    assert!(matches!(compiled[0].vendor, CompiledPattern::Compiled(_)));
    assert!(matches!(compiled[0].product, CompiledPattern::Compiled(_)));
    assert!(matches!(compiled[1].vendor, CompiledPattern::Compiled(_)));
    assert!(matches!(compiled[1].product, CompiledPattern::Compiled(_)));

    let merged = get_merged_config_compiled(&config.defaults, &compiled, &config.overrides, "HUAWEI", "XSG1");
    let expected = DeviceConfig {
        vendor: None,
        product: None,
        dev_loss_tmo: s("infinity"),
        no_path_retry: s("queue"),
        polling_interval: None,
    };
    assert_eq!(merged, expected);

    let merged_dell = get_merged_config_compiled(&config.defaults, &compiled, &config.overrides, "DELL", "ME4");
    assert_eq!(merged_dell.no_path_retry.as_deref(), Some("20"));
    assert_eq!(merged_dell.dev_loss_tmo.as_deref(), Some("infinity"));

    let merged_unknown =
        get_merged_config_compiled(&config.defaults, &compiled, &config.overrides, "UNKNOWN", "UNKNOWN");
    assert_eq!(merged_unknown.no_path_retry.as_deref(), Some("queue"));
    assert_eq!(merged_unknown.dev_loss_tmo.as_deref(), Some("infinity"));
}

#[test]
fn test_compile_devices_invalid_regex() {
    let config_str = r#"
devices {
    device {
        vendor "["
        product "XSG1"
        dev_loss_tmo 30
    }
}
"#;
    let config = parse_multipath_config(config_str);
    let compiled = compile_devices(&config);
    assert_eq!(compiled.len(), 1);
    assert!(matches!(compiled[0].vendor, CompiledPattern::Invalid));
    assert!(matches!(compiled[0].product, CompiledPattern::Compiled(_)));

    let merged = get_merged_config_compiled(&config.defaults, &compiled, &config.overrides, "HUAWEI", "XSG1");
    assert_ne!(merged.dev_loss_tmo.as_deref(), Some("30"));
}

#[test]
fn test_compile_devices_wildcard_patterns() {
    let config_str = r#"
devices {
    device {
        vendor ".*"
        product ".*"
        dev_loss_tmo 60
    }
}
"#;
    let config = parse_multipath_config(config_str);
    let compiled = compile_devices(&config);
    assert_eq!(compiled.len(), 1);
    assert!(matches!(compiled[0].vendor, CompiledPattern::Compiled(_)));
    assert!(matches!(compiled[0].product, CompiledPattern::Compiled(_)));

    let merged = get_merged_config_compiled(&config.defaults, &compiled, &config.overrides, "ANYTHING", "ANYTHING");
    assert_eq!(merged.dev_loss_tmo.as_deref(), Some("60"));
}

#[test]
fn tokenizer_handles_quotes_and_comments() {
    let toks = tokenize("a \"b \"\"c\"\"\" # comment { }\n{ ! x\n}\"\"");
    assert_eq!(
        toks,
        vec![
            Token::Word("a".to_string()),
            Token::Word("b \"c\"".to_string()),
            Token::OpenBrace,
            Token::CloseBrace,
            Token::Word(String::new()),
        ]
    );
    assert!(is_known_key("polling_interval"));
    assert!(!is_known_key("HUAWEI"));
}

#[test]
fn merge_follows_applies_flags() {
    let defaults = DeviceConfig { dev_loss_tmo: s("1"), ..Default::default() };
    let devices = vec![
        DeviceConfig { dev_loss_tmo: s("2"), ..Default::default() },
        DeviceConfig { no_path_retry: s("queue"), polling_interval: Some(3), ..Default::default() },
    ];
    let overrides = DeviceConfig::default();
    let m = merge_device_configs(&defaults, &devices, &[false, true], &overrides);
    assert_eq!(m.dev_loss_tmo.as_deref(), Some("1"));
    assert_eq!(m.no_path_retry.as_deref(), Some("queue"));
    assert_eq!(m.polling_interval, Some(3));
}

fn map(name: &str, vend: &str, prod: &str) -> MultipathMap {
    MultipathMap {
        name: name.to_string(),
        uuid: format!("uuid-{name}"),
        vend: Some(vend.to_string()),
        prod: Some(prod.to_string()),
        path_groups: Some(vec![PathGroup {
            dm_st: Some("active".to_string()),
            paths: Some(vec![MpathPath { dm_st: Some("active".to_string()) }]),
        }]),
    }
}

#[test]
fn check_maps_config_records_warnings() {
    let config = "defaults {\n no_path_retry queue\n dev_loss_tmo infinity\n}\ndevices {\n device {\n vendor DELL\n dev_loss_tmo 30\n }\n}\n";
    let maps = vec![map("mpatha", "HUAWEI", "XSG1"), map("mpathb", "DELL", "ME4"), map("mpathc", "DELL", "ME4")];
    let luns = vec!["mpatha".to_string(), "mpathb".to_string()];
    let mut status = StatusTracker::new();
    check_maps_config(&maps, &luns, config, 30, &mut status);
    assert_eq!(
        status.status_line(),
        "WARNING - Multipath configuration recommendation warnings: Map mpathb (vendor: DELL, product: ME4): dev_loss_tmo is set to '30' which is too low (expected 'infinity' or >= 90)\n"
    );
    let ok = "defaults {\n no_path_retry queue\n dev_loss_tmo infinity\n}\n";
    assert!(check_maps_config_in_range(&maps, &luns, ok, 30, &mut status));
    assert_eq!(status.status_line(), "OK - Daemon is running normally\n");
}

#[test]
fn check_maps_config_in_range_refuses_overflowing_queue_time() {
    let config = "defaults {\n no_path_retry 18446744073709551615\n polling_interval 2\n}\n";
    let maps = vec![map("mpatha", "X", "Y")];
    let luns = vec!["mpatha".to_string()];
    let mut status = StatusTracker::new();
    assert!(!check_maps_config_in_range(&maps, &luns, config, 30, &mut status));
    assert_eq!(status.status_line(), "OK - Daemon is running normally\n");
}

#[test]
fn later_device_entry_wins() {
    let cfg = parse_multipath_config(
        "devices {\n device {\n vendor \"ACME\"\n dev_loss_tmo 100\n }\n device {\n vendor \"AC.*\"\n dev_loss_tmo 200\n }\n device {\n vendor \"OTHER\"\n dev_loss_tmo 300\n }\n}\n",
    );
    let merged = get_merged_config(&cfg, "ACME", "X");
    assert_eq!(merged.dev_loss_tmo.as_deref(), Some("200"));
    let merged = get_merged_config(&cfg, "OTHER", "X");
    assert_eq!(merged.dev_loss_tmo.as_deref(), Some("300"));
}

#[test]
fn quotes_protect_braces_and_comments() {
    let t = tokenize("defaults { vendor \"a{b}#c d\" }");
    assert_eq!(
        t,
        vec![
            Token::Word("defaults".to_string()),
            Token::OpenBrace,
            Token::Word("vendor".to_string()),
            Token::Word("a{b}#c d".to_string()),
            Token::CloseBrace,
        ]
    );
}
