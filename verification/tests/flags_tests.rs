use verix::flags::{init, parse_build_prop, parse_prop_line, PhoneVar, PropMap, TargetOs, UseFilePath};

#[test]
fn prop_line_splits_at_first_equals_and_trims() {
    assert_eq!(
        parse_prop_line("  ro.a = x = y \t"),
        Some(("ro.a".to_string(), "x = y".to_string()))
    );
    assert_eq!(parse_prop_line("="), Some((String::new(), String::new())));
    assert_eq!(parse_prop_line("# comment"), None);
    assert_eq!(parse_prop_line(""), None);
}

#[test]
fn build_prop_later_setting_wins() {
    let map = parse_build_prop("ro.a = 1\n# note\n k=v=w\r\nro.a=2\nbroken\n");
    assert_eq!(PhoneVar::get_prop_value(&map, "ro.a"), "2");
    assert_eq!(PhoneVar::get_prop_value(&map, "k"), "v=w");
    assert_eq!(PhoneVar::get_prop_value(&map, "broken"), "");
    assert_eq!(PhoneVar::get_prop_value(&map, "missing"), "");
    assert_eq!(map.get("ro.a"), Some("2".to_string()));
    assert_eq!(map.get("# note"), None);
}

#[test]
fn prop_to_map_of_unreadable_file_is_empty() {
    let map = PhoneVar::prop_to_map(None);
    assert_eq!(map.get("ro.a"), None);
    let map = PhoneVar::prop_to_map(Some("ro.a=x"));
    assert_eq!(map.get("ro.a"), Some("x".to_string()));
}

#[test]
fn prop_map_insert_replaces() {
    let mut map = PropMap::new();
    map.insert("a".to_string(), "1".to_string());
    map.insert("b".to_string(), "2".to_string());
    map.insert("a".to_string(), "3".to_string());
    assert_eq!(map.get("a"), Some("3".to_string()));
    assert_eq!(map.get("b"), Some("2".to_string()));
}

#[test]
fn first_line_of_device_file() {
    assert_eq!(PhoneVar::get_first_line(Some("SN123\r\nnext\n")), "SN123");
    assert_eq!(PhoneVar::get_first_line(Some("")), "");
    assert_eq!(PhoneVar::get_first_line(None), "");
}

#[test]
fn init_reads_identity_and_installs_now() {
    let prop = "ro.vendor.xlp.rom.helper.device=model-x\nro.system.build.fingerprint = fp/1 \n";
    let v = init(Some(prop), Some("board-7\n"), Some("sm8550"), 1700000000);
    assert_eq!(v.board_id, "board-7");
    assert_eq!(v.phone_model, "model-x");
    assert_eq!(v.chip_name, "sm8550");
    assert_eq!(v.finger, "fp/1");
    assert!(!v.verify_status);
    assert_eq!(v.check_time, 0);
    assert_eq!(v.install_time, 1700000000);
    let empty = init(None, None, None, 5);
    assert_eq!(empty.board_id, "");
    assert_eq!(empty.phone_model, "");
    assert_eq!(empty.install_time, 5);
}

#[test]
fn phone_var_new_default_and_clone() {
    let v = PhoneVar::new("b".into(), "m".into(), "c".into(), "f".into(), true, 3, 4);
    let w = v.clone();
    assert_eq!(w.board_id, "b");
    assert_eq!(w.phone_model, "m");
    assert_eq!(w.chip_name, "c");
    assert_eq!(w.finger, "f");
    assert!(w.verify_status);
    assert_eq!((w.check_time, w.install_time), (3, 4));
    let d = PhoneVar::default();
    assert_eq!(d.board_id, "");
    assert!(!d.verify_status);
    assert_eq!((d.check_time, d.install_time), (0, 0));
}

#[test]
fn file_paths_per_target() {
    let android = UseFilePath::for_target(TargetOs::Android);
    assert_eq!(android.build_prop, "/odm/etc/build.prop");
    assert_eq!(android.board_id, "/sys/devices/soc0/serial_number");
    assert_eq!(android.chip_name, "/sys/devices/soc0/chip_name");
    assert_eq!(android.data_binary, "/data/system/battery");
    assert_eq!(android.log_file, "/data/system/log.txt");
    let other = UseFilePath::for_target(TargetOs::Other);
    assert_eq!(other.data_binary, "test/test.bin");
    let mac = UseFilePath::for_target(TargetOs::MacOs);
    assert_eq!(mac.log_file, "/Users/pp/CLionProjects/verix-rs/test/log.txt");
}
