use verix::system_utils::{execute_shell_command, get_non_system_app_list, ShellError};

#[test]
fn successful_command_gives_its_output() {
    assert_eq!(execute_shell_command(true, b"out put\n", b"ignored").unwrap(), "out put\n");
}

#[test]
fn failed_command_gives_its_trimmed_error_output() {
    let err = execute_shell_command(false, b"partial", b"  permission denied \n").unwrap_err();
    assert_eq!(err.message, "执行命令出错：permission denied");
}

#[test]
fn output_that_is_not_utf8_is_an_error() {
    let err = execute_shell_command(true, &[0xff, 0xfe], b"").unwrap_err();
    assert_eq!(err.message, std::str::from_utf8(&[0xff, 0xfe]).unwrap_err().to_string());
    assert!(execute_shell_command(false, b"", &[0xc3]).is_err());
}

#[test]
fn app_list_is_trimmed_output_cut_at_line_feeds() {
    let apps = get_non_system_app_list(Ok("  com.a\ncom.b\n \n".to_string())).unwrap();
    assert_eq!(apps, vec!["com.a", "com.b"]);
    let none = get_non_system_app_list(Ok(String::new())).unwrap();
    assert_eq!(none, vec![""]);
    let err = get_non_system_app_list(Err(ShellError { message: "x".to_string() })).unwrap_err();
    assert_eq!(err.message, "x");
}
