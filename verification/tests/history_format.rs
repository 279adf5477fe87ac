use hcommander::history::strip_history_number;

#[test]
fn strips_number_and_blanks() {
    assert_eq!(strip_history_number("  12  ls -la"), Some("ls -la".to_string()));
    assert_eq!(strip_history_number("7\tmake all"), Some("make all".to_string()));
    assert_eq!(strip_history_number("100 cd  /tmp "), Some("cd  /tmp ".to_string()));
}

#[test]
fn command_may_be_empty() {
    assert_eq!(strip_history_number("42 "), Some(String::new()));
    assert_eq!(strip_history_number(" 42 \t "), Some(String::new()));
}

#[test]
fn rejects_lines_without_number_prefix() {
    assert_eq!(strip_history_number(""), None);
    assert_eq!(strip_history_number("ls -la"), None);
    assert_eq!(strip_history_number("   "), None);
    assert_eq!(strip_history_number("12abc"), None);
    assert_eq!(strip_history_number("  42"), None);
    assert_eq!(strip_history_number("-1 ls"), None);
}

#[test]
fn unicode_blanks_count_as_blanks() {
    assert_eq!(strip_history_number("\u{3000}7\u{a0}cmd"), Some("cmd".to_string()));
    assert_eq!(strip_history_number("9\u{2028}\u{2003}échec"), Some("échec".to_string()));
}

#[test]
fn non_ascii_digits_are_no_number() {
    assert_eq!(strip_history_number("\u{663} ls"), None);
}
