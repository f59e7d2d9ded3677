use verix::text::{
    bool_as_text, chars_of, is_white_space_char, join, split_file_lines, split_newline_pieces,
    trim_text, u64_text,
};

#[test]
fn trim_removes_unicode_white_space_at_both_ends() {
    assert_eq!(trim_text("  \t key = value \r\n"), "key = value");
    assert_eq!(trim_text("\u{3000}\u{a0}x\u{2028}"), "x");
    assert_eq!(trim_text("   "), "");
    assert_eq!(trim_text(""), "");
    assert_eq!(trim_text("a b"), "a b");
}

#[test]
fn white_space_matches_std() {
    for c in ['\t', '\n', '\u{b}', '\u{c}', '\r', ' ', '\u{85}', '\u{a0}', '\u{1680}', '\u{2000}',
        '\u{200a}', '\u{2028}', '\u{2029}', '\u{202f}', '\u{205f}', '\u{3000}', 'a', '\u{200b}',
        '\u{180e}', '0', '=', '\u{feff}']
    {
        assert_eq!(is_white_space_char(c), c.is_whitespace(), "char {:?}", c);
    }
}

#[test]
fn file_lines_follow_bufread_lines() {
    assert_eq!(split_file_lines("a\r\nb\nc"), vec!["a", "b", "c"]);
    assert_eq!(split_file_lines("a\n\nb\n"), vec!["a", "", "b"]);
    assert_eq!(split_file_lines("a\r"), vec!["a\r"]);
    assert_eq!(split_file_lines("\n"), vec![""]);
    assert!(split_file_lines("").is_empty());
}

#[test]
fn newline_pieces_follow_str_split() {
    assert_eq!(split_newline_pieces(""), vec![""]);
    assert_eq!(split_newline_pieces("a\nb"), vec!["a", "b"]);
    assert_eq!(split_newline_pieces("a\n"), vec!["a", ""]);
    assert_eq!(split_newline_pieces("\n\n"), vec!["", "", ""]);
}

#[test]
fn numbers_and_booleans_render_as_display_does() {
    assert_eq!(u64_text(0), "0");
    assert_eq!(u64_text(305), "305");
    assert_eq!(u64_text(u64::MAX), u64::MAX.to_string());
    assert_eq!(bool_as_text(true), "true");
    assert_eq!(bool_as_text(false), "false");
}

#[test]
fn chars_and_join() {
    assert_eq!(chars_of("主板a"), vec!['主', '板', 'a']);
    assert_eq!(join("ab", "丁"), "ab丁");
}
