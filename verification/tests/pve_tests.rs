use pve_san_fenced::pve::{
    BlockDeviceFacts, LsblkDevice, PveMode, PveSanClient, PveSanConfig, PveSanError, SizeRequest, VmDisk,
};

/// The whole size parser: the library's answer, with a number that is not a
/// whole number read as a float the way the daemon reads it.
fn parse_size(s: &str) -> Option<u64> {
    match PveSanClient::size_request(s) {
        SizeRequest::Known(r) => r,
        SizeRequest::Fraction(num, mult) => {
            let n: f64 = num.parse().ok()?;
            if n < 0.0 || n.is_nan() || n.is_infinite() {
                return None;
            }
            let bytes = n * (mult as f64);
            if bytes > 112589990684262400u64 as f64 {
                return None;
            }
            let bytes = bytes as u64;
            if bytes <= 112589990684262400 { Some(bytes) } else { None }
        }
    }
}

fn pairs(v: &[(&str, &str)]) -> Vec<(String, String)> {
    v.iter().map(|(a, b)| (a.to_string(), b.to_string())).collect()
}

fn client() -> PveSanClient {
    PveSanClient::new(PveSanConfig::with_node("test").unwrap())
}

#[test]
fn test_parse_size() {
    assert_eq!(parse_size("10G"), Some(10 * 1024 * 1024 * 1024));
    assert_eq!(parse_size("10GB"), Some(10 * 1024 * 1024 * 1024));
    assert_eq!(parse_size("1T"), Some(1024u64.pow(4)));
    assert_eq!(parse_size("100M"), Some(100 * 1024 * 1024));
    assert_eq!(parse_size("1024K"), Some(1024 * 1024));
    assert_eq!(parse_size("1048576"), Some(1048576));
    assert_eq!(parse_size("invalid"), None);

    assert_eq!(parse_size("18446744073709551615G"), None);
    assert_eq!(parse_size("99999999999999999999G"), None);
    assert_eq!(parse_size("101PB"), None);

    assert_eq!(parse_size("-1G"), None);
    assert_eq!(parse_size("-100"), None);
}

#[test]
fn size_request_hands_fractions_on() {
    match PveSanClient::size_request(" 1.5g ") {
        SizeRequest::Fraction(n, m) => {
            assert_eq!(n, "1.5");
            assert_eq!(m, 1073741824);
        }
        SizeRequest::Known(_) => panic!("expected a fraction"),
    }
    assert_eq!(parse_size("102400T"), Some(102400u64 * 1024u64.pow(4)));
    assert_eq!(parse_size("102401T"), None);
    assert_eq!(parse_size("1BKB"), Some(1024));
    assert_eq!(parse_size("1KBB"), None);
    assert!(matches!(PveSanClient::size_request("1KBB"), SizeRequest::Fraction(_, 1)));
    assert!(matches!(PveSanClient::size_request("-1G"), SizeRequest::Fraction(_, 1073741824)));
    assert_eq!(parse_size("1.5G"), Some(1610612736));
}

#[test]
fn test_config_requires_node() {
    let config_result = PveSanConfig::with_node("");
    assert!(matches!(config_result, Err(PveSanError::NoNodeError)));
}

#[test]
fn test_node_not_specified_error() {
    let config_result = PveSanConfig::with_node("");
    assert!(matches!(config_result, Err(PveSanError::NoNodeError)));
}

#[test]
fn config_validates_pvesh_command() {
    let c = PveSanConfig::new("pve01", None).unwrap();
    assert_eq!(c.node(), "pve01");
    assert_eq!(c.pvesh_command(), "pvesh");
    assert_eq!(c.mode(), PveMode::LocalFiles);
    let c = c.with_mode(PveMode::Pvesh);
    assert_eq!(c.mode(), PveMode::Pvesh);
    assert_eq!(PveMode::default(), PveMode::LocalFiles);
    match PveSanConfig::new("pve01", Some("pvesh; rm -rf /")) {
        Err(PveSanError::PveshError(m)) => assert_eq!(m, "Invalid pvesh command path: pvesh; rm -rf /"),
        _ => panic!("expected an invalid command"),
    }
    assert!(matches!(PveSanConfig::new("pve01", Some("")), Err(PveSanError::PveshError(_))));
    assert!(PveSanClient::with_node_and_pvesh("pve01", "/usr/bin/pvesh-mock_2").is_ok());
    assert!(matches!(PveSanClient::with_node(""), Err(PveSanError::NoNodeError)));
    let e = PveSanError::VmConfigError(104, "boom".to_string());
    assert_eq!(e.message(), "Failed to get VM config for VMID 104: boom");
    assert_eq!(PveSanError::NoNodeError.message(), "No node name specified");
}

#[test]
fn test_parse_disk_value() {
    let client = client();

    let result = client.parse_disk_value("local-lvm:vm-100-disk-0,size=10G").unwrap();
    let expected = ("local-lvm:vm-100-disk-0".to_string(), pairs(&[("size", "10G")]));
    assert_eq!(result, expected);

    let result = client.parse_disk_value("local-lvm:vm-100-disk-0").unwrap();
    let expected = ("local-lvm:vm-100-disk-0".to_string(), Vec::new());
    assert_eq!(result, expected);

    let result = client.parse_disk_value("local-lvm:vm-100-disk-0,size=10G,backup=0").unwrap();
    let expected = ("local-lvm:vm-100-disk-0".to_string(), pairs(&[("size", "10G"), ("backup", "0")]));
    assert_eq!(result, expected);
}

#[test]
fn parse_disk_value_later_key_wins() {
    let result = client().parse_disk_value("s:v,size=1G,cache,size=2G").unwrap();
    assert_eq!(result, ("s:v".to_string(), pairs(&[("size", "2G")])));
}

#[test]
fn test_extract_disks() {
    let client = client();
    let config_map = pairs(&[
        ("name", "test-vm"),
        ("scsi0", "local-lvm:vm-100-disk-0,size=10G"),
        ("scsi1", "local-lvm:vm-100-disk-1"),
        ("virtio0", "local-lvm:vm-100-disk-2,size=20G,backup=0"),
        ("status", "running"),
        ("scsi999", "local-lvm:vm-100-disk-excessive,size=10G"),
        ("scsi", "local-lvm:vm-100-disk-missing-index,size=10G"),
        ("scsiaux", "local-lvm:vm-100-disk-invalid-index,size=10G"),
    ]);

    let mut disks = client.extract_disks(&config_map).unwrap();
    assert_eq!(disks.len(), 3);

    let mut expected_disks = vec![
        VmDisk {
            device_id: "scsi0".to_string(),
            storage: "local-lvm:vm-100-disk-0".to_string(),
            device_path: None,
            device_mapper_name: None,
            size_bytes: Some(10 * 1024 * 1024 * 1024),
            metadata: Some(pairs(&[("size", "10G")])),
        },
        VmDisk {
            device_id: "scsi1".to_string(),
            storage: "local-lvm:vm-100-disk-1".to_string(),
            device_path: None,
            device_mapper_name: None,
            size_bytes: None,
            metadata: Some(Vec::new()),
        },
        VmDisk {
            device_id: "virtio0".to_string(),
            storage: "local-lvm:vm-100-disk-2".to_string(),
            device_path: None,
            device_mapper_name: None,
            size_bytes: Some(20 * 1024 * 1024 * 1024),
            metadata: Some(pairs(&[("size", "20G"), ("backup", "0")])),
        },
    ];

    disks.sort_by(|a, b| a.device_id.cmp(&b.device_id));
    expected_disks.sort_by(|a, b| a.device_id.cmp(&b.device_id));
    assert_eq!(disks, expected_disks);
}

#[test]
fn extract_disks_sorts_and_normalises_indices() {
    let disks = client()
        .extract_disks(&pairs(&[
            ("virtio4", "a:b"),
            ("efidisk0", "c:d,size=1M"),
            ("ide02", "e:f"),
            ("sata1", "g:h"),
        ]))
        .unwrap();
    let ids: Vec<&str> = disks.iter().map(|d| d.device_id.as_str()).collect();
    assert_eq!(ids, vec!["efidisk0", "ide2", "sata1", "virtio4"]);
    assert_eq!(disks[0].size_bytes, Some(1048576));
}

#[test]
fn test_parse_vm_config() {
    let client = client();
    let config_text = "name: test-vm\nscsi0: local-lvm:vm-100-disk-0,size=10G\nstatus: running\n\n[PENDING]\nscsi1: local-lvm:vm-100-disk-1,size=20G";
    let result = client.parse_vm_config(config_text);
    assert!(result.is_ok());
    let config_map = result.unwrap();
    let get = |k: &str| config_map.iter().find(|(key, _)| key == k).map(|(_, v)| v.clone());
    assert_eq!(get("name"), Some("test-vm".to_string()));
    assert_eq!(get("scsi0"), Some("local-lvm:vm-100-disk-0,size=10G".to_string()));
    assert_eq!(get("status"), Some("running".to_string()));
    assert_eq!(get("scsi1"), None);
}

#[test]
fn test_parse_vm_config_json() {
    let client = client();
    let config_text = r#"{"name": "test-vm", "scsi0": "local-lvm:vm-100-disk-0,size=10G", "status": "running"}"#;
    let result = client.parse_vm_config(config_text);
    assert!(result.is_ok());
    let config_map = result.unwrap();
    let get = |k: &str| config_map.iter().find(|(key, _)| key == k).map(|(_, v)| v.clone());
    assert_eq!(get("name"), Some("test-vm".to_string()));
    assert_eq!(get("scsi0"), Some("local-lvm:vm-100-disk-0,size=10G".to_string()));
    assert_eq!(get("status"), Some("running".to_string()));
}

#[test]
fn parse_vm_config_json_values_become_text() {
    let m = client().parse_vm_config(r#"{"cores": 4, "onboot": true, "tags": null, "net": [1,2]}"#).unwrap();
    let get = |k: &str| m.iter().find(|(key, _)| key == k).map(|(_, v)| v.clone());
    assert_eq!(get("cores"), Some("4".to_string()));
    assert_eq!(get("onboot"), Some("true".to_string()));
    assert_eq!(get("tags"), Some(String::new()));
    assert_eq!(get("net"), Some("[1,2]".to_string()));
}

#[test]
fn test_robust_vmid_parsing() {
    let json_input = r#"[
            {"vmid": 123, "status": "running"},
            {"vmid": "456", "status": "running"},
            {"subdir": 789, "status": "running"},
            {"subdir": "999", "status": "running"}
        ]"#;
    let vms = client().running_vms_from_json(json_input).unwrap();
    let extracted: Vec<u64> = vms.iter().map(|(id, _)| *id).collect();
    assert_eq!(extracted, vec![123, 456, 789, 999]);
}

#[test]
fn running_vms_skip_stopped_and_reject_missing_ids() {
    let c = client();
    let vms = c
        .running_vms_from_json(r#"[{"vmid": 1, "status": "stopped"}, {"vmid": 2, "status": "running"}]"#)
        .unwrap();
    assert_eq!(vms, vec![(2, "running".to_string())]);
    match c.running_vms_from_json(r#"[{"status": "running"}]"#) {
        Err(PveSanError::ListVmError(m)) => assert_eq!(m, "VMID is missing or not a number"),
        _ => panic!("expected a missing VMID"),
    }
    assert!(matches!(c.running_vms_from_json("{}"), Err(PveSanError::JsonParseError(_))));
}

#[test]
fn config_files_give_sorted_vms() {
    let names: Vec<String> = vec!["117.conf", "104.conf", "notes.txt", "x.conf", "999.conf"]
        .into_iter()
        .map(String::from)
        .collect();
    let vms = client().vms_from_config_files(&names);
    let ids: Vec<u64> = vms.iter().map(|(id, _)| *id).collect();
    assert_eq!(ids, vec![104, 117, 999]);
    assert!(vms.iter().all(|(_, s)| s == "running"));
}

#[test]
fn test_storage_to_dm_name() {
    let c = client();
    assert_eq!(
        c.storage_to_dm_name_legacy("storage-pool-001:vm-104-disk-0.qcow2"),
        "storage-pool-001-vm--104--disk--0.qcow2"
    );
    assert_eq!(
        c.storage_to_dm_name_legacy("storage-nvme-001:vm-141-disk-0"),
        "storage-nvme-001-vm--141--disk--0"
    );
    assert_eq!(c.storage_to_dm_name_legacy("local-lvm:vm-100-disk-0"), "local-lvm-vm--100--disk--0");
    assert_eq!(c.storage_to_dm_name_legacy("some-direct-device"), "some-direct-device");
}

#[test]
fn dm_names_escape_dashes() {
    let c = client();
    assert_eq!(c.storage_to_dm_name("storage-pool-001:vm-104-disk-0.qcow2"), "storage--pool--001-vm--104--disk--0.qcow2");
    assert_eq!(c.storage_to_dm_name("some-direct-device"), "some-direct-device");
    assert_eq!(c.storage_to_dm_name("a-b:c:d-e"), "a--b-c:d--e");
}

fn dev(name: &str, ty: &str, children: Option<Vec<LsblkDevice>>) -> LsblkDevice {
    LsblkDevice { name: name.to_string(), device_type: ty.to_string(), children }
}

fn lookup<'a>(m: &'a [(String, Vec<String>)], k: &str) -> Option<&'a Vec<String>> {
    m.iter().find(|(key, _)| key == k).map(|(_, v)| v)
}

#[test]
fn test_build_mpath_map() {
    let devices = vec![
        dev(
            "sda",
            "disk",
            Some(vec![dev(
                "mpatha",
                "mpath",
                Some(vec![
                    dev("storage-pool-001-vm--104--disk--0.qcow2", "lvm", None),
                    dev("storage-pool-001-vm--116--disk--0.qcow2", "lvm", None),
                ]),
            )]),
        ),
        dev(
            "sdb",
            "disk",
            Some(vec![dev("mpathb", "mpath", Some(vec![dev("storage-pool-001-vm--104--disk--0.qcow2", "lvm", None)]))]),
        ),
    ];

    let mut mpath_map: Vec<(String, Vec<String>)> = Vec::new();
    client().build_mpath_map(&devices, None, 0, &mut mpath_map);

    let mpaths_104 = lookup(&mpath_map, "storage-pool-001-vm--104--disk--0.qcow2").unwrap();
    assert_eq!(mpaths_104.len(), 2);
    assert!(mpaths_104.contains(&"mpatha".to_string()));
    assert!(mpaths_104.contains(&"mpathb".to_string()));

    let mpaths_116 = lookup(&mpath_map, "storage-pool-001-vm--116--disk--0.qcow2").unwrap();
    assert_eq!(mpaths_116.len(), 1);
    assert!(mpaths_116.contains(&"mpatha".to_string()));
    assert_eq!(lookup(&mpath_map, "mpatha").unwrap(), &vec!["mpatha".to_string()]);
    assert!(lookup(&mpath_map, "sda").is_none());
}

#[test]
fn build_mpath_map_stops_below_depth_limit() {
    let mut chain = dev("leaf", "lvm", None);
    for i in 0..40 {
        chain = dev(&format!("n{i}"), if i == 39 { "mpath" } else { "lvm" }, Some(vec![chain]));
    }
    let mut m: Vec<(String, Vec<String>)> = Vec::new();
    client().build_mpath_map(&[chain], None, 0, &mut m);
    assert!(lookup(&m, "n39").is_some());
    assert!(lookup(&m, "n7").is_some());
    assert!(lookup(&m, "n6").is_none());
    assert!(lookup(&m, "leaf").is_none());
}

#[test]
fn vm_info_annotates_disks_with_mpaths() {
    let c = client();
    let config = pairs(&[("scsi0", "storage-pool-001:vm-104-disk-0.qcow2,size=1G"), ("scsi1", "other:vm-1")]);
    let mpath_map = vec![(
        "storage-pool-001-vm--104--disk--0.qcow2".to_string(),
        vec!["mpatha".to_string(), "mpathb".to_string()],
    )];
    let (info, mpaths) = c.vm_info_from_config(104, "running".to_string(), &config, &mpath_map);
    assert_eq!(info.name, "vm-104");
    assert_eq!(info.disks[0].device_mapper_name.as_deref(), Some("mpatha / mpathb"));
    assert_eq!(info.disks[0].device_path.as_deref(), Some("/dev/mapper/mpatha / /dev/mapper/mpathb"));
    assert_eq!(info.disks[1].device_mapper_name, None);
    assert_eq!(mpaths, vec!["mpatha".to_string(), "mpathb".to_string()]);
}

#[test]
fn block_device_conversion() {
    let facts = BlockDeviceFacts {
        name: "dm-3".to_string(),
        path: "/dev/dm-3".to_string(),
        uuid: Some("abc".to_string()),
        partuuid: None,
        partlabel: None,
        id: Some("dm-name-mpatha".to_string()),
        capacity_sectors: Some(2048),
    };
    let info = client().convert_block_device(&facts);
    assert_eq!(info.device_type, "mpath");
    assert_eq!(info.dm_name.as_deref(), Some("dm-3"));
    assert_eq!(info.size, 1048576);
    assert_eq!(info.serial.as_deref(), Some("dm-name-mpatha"));
}
