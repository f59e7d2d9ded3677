use verix::aes_utils::aes_encrypt;
use verix::check::{
    create_and_read_local_file, environment_check, exec_cmd, fake_id, online_check,
    online_check_url, online_verdict, reboot_shell, wait_check_finish, wait_check_plan,
    wait_check_reset, OnlineError,
};
use verix::flags::PhoneVar;
use verix::log::Plog;
use verix::system_utils::ShellError;

fn record(board: &str, install_time: u64) -> PhoneVar {
    PhoneVar::new(board.into(), "model".into(), "chip".into(), "fp".into(), false, 0, install_time)
}

#[test]
fn genuine_environment_passes_and_is_logged() {
    let mut log = Plog::new();
    let ok = fake_id(&mut log, Some("B1\n"), Err(ShellError { message: "no".into() }), &record("B1", 0));
    assert!(ok);
    assert_eq!(log.all_log(), "[INFO]:挂载表检测:\n[INFO]:主板ID新旧对比:B1 B1\n");
}

#[test]
fn mounted_serial_or_other_board_fails() {
    let mut log = Plog::new();
    assert!(!fake_id(&mut log, Some("B1"), Ok("/dev/x on serial_number".into()), &record("B1", 0)));
    assert!(!fake_id(&mut log, Some("B2"), Ok(String::new()), &record("B1", 0)));
    assert!(!fake_id(&mut log, None, Ok(String::new()), &record("B1", 0)));
    assert!(fake_id(&mut log, None, Ok(String::new()), &record("", 0)));
}

#[test]
fn reboot_runs_commands_only_in_release_builds() {
    let mut log = Plog::new();
    assert_eq!(reboot_shell(&mut log, "why", true), vec!["reboot", "setprop sys.powerctl reboot"]);
    assert_eq!(log.all_log(), "[ERR]:Reboot reason:why\n[ERR]:Reboot\n");
    let mut log = Plog::new();
    assert!(reboot_shell(&mut log, "why", false).is_empty());
    assert_eq!(log.all_log(), "[ERR]:Reboot reason:why\n");
}

#[test]
fn command_outcomes_are_logged() {
    let mut log = Plog::new();
    exec_cmd(&mut log, Ok("done".into()));
    exec_cmd(&mut log, Err(ShellError { message: "failed".into() }));
    assert_eq!(log.all_log(), "[INFO]:done\n[ERR]:failed\n");
}

#[test]
fn unsafe_environment_requests_reboot() {
    let mut log = Plog::new();
    assert!(environment_check(&mut log, true, true).is_empty());
    assert_eq!(log.all_log(), "[INFO]:设备环境检查:true\n");
    let mut log = Plog::new();
    assert_eq!(environment_check(&mut log, false, true).len(), 2);
    assert_eq!(
        log.all_log(),
        "[INFO]:设备环境检查:false\n[ERR]:Reboot reason:Phone Environment Unsafe\n[ERR]:Reboot\n"
    );
}

#[test]
fn stored_record_restores_verification_state() {
    let mut log = Plog::new();
    let mut flags = record("B1", 500);
    let mut first = false;
    let mut stored = record("OLD", 100);
    stored.verify_status = true;
    stored.check_time = 150;
    let got = create_and_read_local_file(&mut log, &mut flags, &mut first, Some(stored));
    assert_eq!(got.board_id, "OLD");
    assert_eq!(flags.board_id, "B1");
    assert_eq!((flags.install_time, flags.check_time, flags.verify_status), (100, 150, true));
    assert!(!first);
    assert_eq!(log.all_log(), "[INFO]:Found File\n");
}

#[test]
fn missing_record_marks_first_start() {
    let mut log = Plog::new();
    let mut flags = record("B1", 500);
    let mut first = false;
    let got = create_and_read_local_file(&mut log, &mut flags, &mut first, None);
    assert_eq!(got.board_id, "B1");
    assert_eq!(got.install_time, 500);
    assert!(first);
    assert_eq!(log.all_log(), "[WARN]:Not Found\n");
}

#[test]
fn clock_set_back_resets_installation_time() {
    let mut flags = record("B1", 1000);
    assert!(wait_check_reset(&mut flags, 400));
    assert_eq!(flags.install_time, 400);
    assert!(!wait_check_reset(&mut flags, 900));
    assert_eq!(flags.install_time, 400);
}

#[test]
fn waiting_plan_sleeps_for_the_rest_of_the_period() {
    let mut log = Plog::new();
    assert_eq!(wait_check_plan(&mut log, 1000, false, 1100), 3500);
    assert_eq!(
        log.all_log(),
        "[INFO]:等待时间:3500\n[INFO]:第一次启动:false\n[INFO]:当前时间:1100 安装时间:1000 经过时间:100 休眠时间:3500\n"
    );
    let mut log = Plog::new();
    assert_eq!(wait_check_plan(&mut log, 0, false, 5000), 0);
    let mut log = Plog::new();
    assert_eq!(wait_check_plan(&mut log, 0, true, 5000), 3600);
}

#[test]
fn waiting_ends_in_reboot_unless_verified() {
    let mut log = Plog::new();
    assert!(wait_check_finish(&mut log, true, true).is_empty());
    assert_eq!(log.all_log(), "[INFO]:验证通过!\n");
    let mut log = Plog::new();
    assert_eq!(wait_check_finish(&mut log, false, true).len(), 2);
    assert_eq!(log.all_log(), "[ERR]:Reboot reason:验证超时\n[ERR]:Reboot\n");
}

#[test]
fn online_list_location() {
    assert_eq!(online_check_url("PX7"), "/PX7-rs.vf");
}

#[test]
fn verdict_looks_for_the_board() {
    let list = vec!["A".to_string(), "B".to_string()];
    assert!(online_verdict(&list, "B"));
    assert!(!online_verdict(&list, "C"));
    assert!(!online_verdict(&Vec::new(), "A"));
}

#[test]
fn online_check_reads_the_sealed_list() {
    let key = vec![0x42u8; 32];
    let iv = vec![0x11u8; 16];
    let list = bincode::serialize(&vec!["A".to_string(), "B1".to_string()]).unwrap();
    let body = aes_encrypt(&key, &iv, &list).unwrap();
    assert!(online_check(200, &body, &key, "B1").unwrap());
    assert!(!online_check(200, &body, &key, "B2").unwrap());
    assert!(!online_check(404, &Vec::new(), &key, "B1").unwrap());
}

#[test]
fn online_check_rejects_unreadable_answers() {
    let key = vec![0x42u8; 32];
    let iv = vec![0x11u8; 16];
    let junk = aes_encrypt(&key, &iv, &vec![0xffu8; 3]).unwrap();
    assert!(matches!(online_check(200, &junk, &key, "B1"), Err(OnlineError::Malformed)));
    let mut other_key = key.clone();
    other_key[0] ^= 1;
    match online_check(200, &junk, &other_key, "B1") {
        Err(OnlineError::Decrypt(_)) | Err(OnlineError::Malformed) => {}
        Ok(_) => panic!("a list was read under the wrong key"),
    }
}

#[test]
fn online_list_allows_trailing_bytes_and_needs_utf8() {
    let key = vec![0x42u8; 32];
    let iv = vec![0x11u8; 16];
    let mut list = bincode::serialize(&vec!["B1".to_string()]).unwrap();
    list.extend_from_slice(&[9, 9, 9]);
    let body = aes_encrypt(&key, &iv, &list).unwrap();
    assert!(online_check(200, &body, &key, "B1").unwrap());
    let mut bad = 1u64.to_le_bytes().to_vec();
    bad.extend_from_slice(&1u64.to_le_bytes());
    bad.push(0xff);
    let body = aes_encrypt(&key, &iv, &bad).unwrap();
    assert!(matches!(online_check(200, &body, &key, "B1"), Err(OnlineError::Malformed)));
    let mut short = 2u64.to_le_bytes().to_vec();
    short.extend_from_slice(&1u64.to_le_bytes());
    short.push(b'A');
    let body = aes_encrypt(&key, &iv, &short).unwrap();
    assert!(matches!(online_check(200, &body, &key, "A"), Err(OnlineError::Malformed)));
}
