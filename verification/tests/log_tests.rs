use verix::log::Plog;

#[test]
fn log_keeps_every_line_in_order() {
    let mut log = Plog::new();
    assert_eq!(log.all_log(), "");
    log.info("start".to_string());
    log.warn("careful".to_string());
    log.error("broken".to_string());
    log.write("plain".to_string());
    assert_eq!(log.all_log(), "[INFO]:start\n[WARN]:careful\n[ERR]:broken\nplain\n");
}

#[test]
fn pending_lines_are_handed_out_once() {
    let mut log = Plog::new();
    log.info("a".to_string());
    assert_eq!(log.take_unflushed(), "[INFO]:a\n");
    assert_eq!(log.take_unflushed(), "");
    log.error("b".to_string());
    assert_eq!(log.take_unflushed(), "[ERR]:b\n");
    assert_eq!(log.all_log(), "[INFO]:a\n[ERR]:b\n");
}

#[test]
fn log_file_is_restarted_above_one_mebibyte() {
    assert!(!Plog::should_truncate(1024 * 1024));
    assert!(Plog::should_truncate(1024 * 1024 + 1));
    assert!(!Plog::should_truncate(0));
}
