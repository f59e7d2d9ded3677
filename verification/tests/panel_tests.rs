use verix::flags::PhoneVar;
use verix::log::Plog;
use verix::panel::{dev_log, dev_password_ok, dev_reboot, dev_shell, index, panel_url, verify_api};
use verix::system_utils::ShellError;

#[test]
fn developer_password() {
    assert!(dev_password_ok("114514"));
    assert!(!dev_password_ok("114515"));
    assert!(!dev_password_ok(""));
}

#[test]
fn start_page_depends_on_verification() {
    assert_eq!(index(true, b"<p>ok</p>", b"<p>login</p>"), "<p>ok</p>");
    assert_eq!(index(false, b"<p>ok</p>", b"<p>login</p>"), "<p>login</p>");
    assert_eq!(index(false, b"", &[0xff]), "");
}

#[test]
fn verification_marks_the_record() {
    let mut flags = PhoneVar::new("B1".into(), "m".into(), "c".into(), "f".into(), false, 0, 10);
    let reply = verify_api(&mut flags, false, 99);
    assert_eq!(reply.id, "B1");
    assert!(!reply.verify);
    assert!(!flags.verify_status);
    assert_eq!(flags.check_time, 0);
    let reply = verify_api(&mut flags, true, 99);
    assert!(reply.verify);
    assert!(flags.verify_status);
    assert_eq!(flags.check_time, 99);
    let reply = verify_api(&mut flags, false, 120);
    assert!(!reply.verify);
    assert!(flags.verify_status);
    assert_eq!(flags.check_time, 99);
}

#[test]
fn developer_pages_need_the_password() {
    let mut log = Plog::new();
    let (page, commands) = dev_reboot(&mut log, "nope", true);
    assert_eq!(page, "<h1>Error</h1>");
    assert!(commands.is_empty());
    let (page, commands) = dev_reboot(&mut log, "114514", true);
    assert_eq!(page, "<h1>Reboot</h1>");
    assert_eq!(commands, vec!["reboot", "setprop sys.powerctl reboot"]);
    let text = "[INFO]:dev reboot\n[INFO]:dev reboot\n[ERR]:Reboot reason:Test\n[ERR]:Reboot\n";
    assert_eq!(dev_log(&log, "114514"), text);
    assert_eq!(dev_log(&log, "x"), "<h1>Error</h1>");
}

#[test]
fn shell_page_shows_output_or_error() {
    assert_eq!(dev_shell(Ok("out".into())), "out");
    assert_eq!(dev_shell(Err(ShellError { message: "bad".into() })), "bad");
}

#[test]
fn panel_address_message() {
    assert_eq!(panel_url("0.0.0.0", "8888"), "Panel URL: localhost:8888");
    assert_eq!(panel_url("10.0.0.2", "80"), "Panel URL: 10.0.0.2:80");
}
