use pve_san_fenced::mock::{
    command_length_ok, command_to_subdir, decode_command, default_filename_for_command, is_real_multipathd_socket,
    parse_file_mapping, pick_response, FileCounters,
};
use pve_san_fenced::protocol::{
    decode_reply, encode_command, encode_reply, parse_reply_length, reply_payload_bytes, u64_from_le, u64_le_bytes,
};

#[test]
fn command_frames_carry_length_and_nul() {
    let f = encode_command("show maps json").ok().unwrap();
    assert_eq!(&f[..8], &15u64.to_le_bytes());
    assert_eq!(&f[8..22], b"show maps json");
    assert_eq!(f[22], 0);
    let e = encode_command("bad\0cmd").err().unwrap();
    assert_eq!(e.position, 3);
}

#[test]
fn reply_frames_round_trip() {
    let text = "{\"maps\": []}";
    let f = encode_reply(text);
    let n = parse_reply_length(&f[..8]).unwrap();
    assert_eq!(n, f.len() - 8);
    assert_eq!(decode_reply(f[8..].to_vec()).unwrap(), text);
    assert_eq!(decode_command(&encode_command("list maps").ok().unwrap()[8..]), "list maps");
}

#[test]
fn reply_lengths_are_checked() {
    assert_eq!(parse_reply_length(&0u64.to_le_bytes()).unwrap_err(), "Invalid reply length: 0");
    assert_eq!(
        parse_reply_length(&(32u64 * 1024 * 1024 + 1).to_le_bytes()).unwrap_err(),
        "Invalid reply length: 33554433"
    );
    assert_eq!(
        parse_reply_length(&(32u64 * 1024 * 1024).to_le_bytes()).unwrap_err(),
        "Invalid reply length: 33554432"
    );
    assert_eq!(parse_reply_length(&(32u64 * 1024 * 1024 - 1).to_le_bytes()).unwrap(), 33554431);
    assert_eq!(u64_from_le(&u64_le_bytes(0x0102030405060708)), 0x0102030405060708);
    assert_eq!(u64_le_bytes(258), vec![2, 1, 0, 0, 0, 0, 0, 0]);
}

#[test]
fn reply_bodies_end_at_nul_and_must_be_utf8() {
    assert_eq!(reply_payload_bytes(vec![b'a', b'b', 0, b'c', b'd']), b"ab".to_vec());
    assert_eq!(reply_payload_bytes(vec![b'a', b'b', b'c']), b"ab".to_vec());
    assert_eq!(decode_reply(vec![b'h', b'i', b'!']).unwrap(), "hi");
    assert!(decode_reply(vec![0xff, 0xfe, 0]).unwrap_err().starts_with("Invalid UTF-8: "));
}

#[test]
fn mock_command_tables() {
    assert_eq!(command_to_subdir("show maps json"), "show_maps_json");
    assert_eq!(command_to_subdir("show config"), "show_config");
    assert_eq!(command_to_subdir("reconfigure"), "");
    assert_eq!(default_filename_for_command("show maps json"), "all_active_running.json");
    assert_eq!(default_filename_for_command("list maps"), "list_maps.txt");
    assert_eq!(default_filename_for_command("nope"), "");
    assert!(is_real_multipathd_socket("@/org/kernel/linux/storage/multipathd"));
    assert!(is_real_multipathd_socket("org/kernel/linux/storage/multipathd"));
    assert!(!is_real_multipathd_socket("@/org/kernel/linux/storage/multipathd-mock"));
    assert!(command_length_ok(1024 * 1024));
    assert!(!command_length_ok(1024 * 1024 + 1));
    assert_eq!(
        parse_file_mapping(" show maps json = a.json, b.json "),
        Some(("show maps json".to_string(), vec!["a.json".to_string(), "b.json".to_string()]))
    );
    assert_eq!(parse_file_mapping("no mapping"), None);
}

#[test]
fn mock_cycles_round_robin() {
    let responses = vec![
        ("show maps json".to_string(), vec!["m0".to_string(), "m1".to_string(), "m2".to_string()]),
        ("show status".to_string(), vec!["s".to_string()]),
    ];
    let mut counters = FileCounters::new();
    let got: Vec<String> = (0..5).map(|_| pick_response(&responses, &mut counters, "show maps json")).collect();
    assert_eq!(got, vec!["m0", "m1", "m2", "m0", "m1"]);
    assert_eq!(pick_response(&responses, &mut counters, "show status"), "s");
    assert_eq!(pick_response(&responses, &mut counters, "unknown"), "m2");
    assert_eq!(counters.next_index("other", 4), 0);
    assert_eq!(counters.next_index("other", 4), 1);
    let none: Vec<(String, Vec<String>)> = Vec::new();
    assert_eq!(pick_response(&none, &mut FileCounters::new(), "x"), "{\"error\": \"unknown command\"}");
}

#[test]
fn mock_commands_decode_lossily() {
    assert_eq!(decode_command(&[0x66, 0xff, 0x6f, 0, 0x78]), "f\u{FFFD}o");
    assert_eq!(decode_command(b"show maps json"), "show maps json");
}
