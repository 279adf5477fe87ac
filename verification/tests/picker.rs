use hcommander::histrionic::{command_keystrokes, Histrionic, KeyAction};
use hcommander::keys::{key_index, key_label, KEY_COUNT};

fn commands(n: usize) -> Vec<String> {
    (0..n).map(|i| format!("cmd{}", i)).collect()
}

#[test]
fn page_height_leaves_three_lines_and_caps_at_key_count() {
    let h = Histrionic::new(commands(5), 13);
    assert_eq!(h.visible_rows().len(), 5);
    let h = Histrionic::new(commands(200), 100);
    assert_eq!(h.visible_rows().len(), 60);
    let h = Histrionic::new(commands(200), 13);
    assert_eq!(h.visible_rows().len(), 10);
    let h = Histrionic::new(commands(200), 3);
    assert_eq!(h.visible_rows().len(), 0);
}

#[test]
fn rows_pair_keys_with_commands() {
    let h = Histrionic::new(commands(25), 13);
    let rows = h.visible_rows();
    assert_eq!(rows[0], (b'0', "cmd0".to_string()));
    assert_eq!(rows[9], (b'9', "cmd9".to_string()));
}

#[test]
fn paging_down_and_up() {
    let mut h = Histrionic::new(commands(25), 13);
    assert!(h.handle_page_down(0x36));
    let rows = h.visible_rows();
    assert_eq!(rows.len(), 10);
    assert_eq!(rows[0], (b'0', "cmd10".to_string()));
    assert!(h.handle_page_down(0x36));
    let rows = h.visible_rows();
    assert_eq!(rows.len(), 5);
    assert_eq!(rows[4], (b'4', "cmd24".to_string()));
    // no page after the last one
    h.handle_page_down(0x36);
    assert_eq!(h.visible_rows()[0].1, "cmd20");
    h.handle_page_up(0x35);
    assert_eq!(h.visible_rows()[0].1, "cmd10");
    h.handle_page_up(0x35);
    h.handle_page_up(0x35);
    assert_eq!(h.visible_rows()[0].1, "cmd0");
}

#[test]
fn exact_multiple_of_page_height_has_no_empty_page() {
    let mut h = Histrionic::new(commands(20), 13);
    h.handle_page_down(0x36);
    h.handle_page_down(0x36);
    assert_eq!(h.visible_rows()[0].1, "cmd10");
}

#[test]
fn quit_keys_quit() {
    let mut h = Histrionic::new(commands(25), 13);
    assert_eq!(h.handle_key(b'q'), KeyAction::Quit);
    assert_eq!(h.handle_key(b'Q'), KeyAction::Quit);
    assert_eq!(h.visible_rows()[0].1, "cmd0");
}

#[test]
fn escape_asks_for_the_sequence() {
    let mut h = Histrionic::new(commands(25), 13);
    assert_eq!(h.handle_key(0x1b), KeyAction::ReadEscape);
    assert_eq!(h.handle_escape(0x36), KeyAction::Redraw);
    assert_eq!(h.visible_rows()[0].1, "cmd10");
    assert_eq!(h.handle_escape(0x35), KeyAction::Redraw);
    assert_eq!(h.visible_rows()[0].1, "cmd0");
    assert_eq!(h.handle_escape(b'q'), KeyAction::Quit);
    assert_eq!(h.handle_escape(b'x'), KeyAction::Redraw);
}

#[test]
fn keys_select_rows_of_the_page() {
    let mut h = Histrionic::new(commands(25), 13);
    assert_eq!(h.handle_key(b'3'), KeyAction::Select(3));
    assert_eq!(h.command_for_key(3).map(|s| s.as_str()), Some("cmd3"));
    h.handle_page_down(0x36);
    assert_eq!(h.command_for_key(3).map(|s| s.as_str()), Some("cmd13"));
    assert_eq!(h.handle_key(b'a'), KeyAction::Select(10));
    assert_eq!(h.command_for_key(10).map(|s| s.as_str()), Some("cmd20"));
    assert_eq!(h.command_for_key(15), None);
    assert_eq!(h.handle_key(b'~'), KeyAction::Redraw);
    assert_eq!(h.handle_key(0xc3), KeyAction::Redraw);
}

#[test]
fn digit_six_pages_down_then_selects() {
    let mut h = Histrionic::new(commands(25), 13);
    assert_eq!(h.handle_key(b'6'), KeyAction::Select(6));
    assert_eq!(h.command_for_key(6).map(|s| s.as_str()), Some("cmd16"));
    assert_eq!(h.handle_key(b'5'), KeyAction::Select(5));
    assert_eq!(h.command_for_key(5).map(|s| s.as_str()), Some("cmd5"));
}

#[test]
fn overflow_check_only_for_zero_height() {
    let h = Histrionic::new(commands(3), 13);
    assert!(!h.page_down_overflows());
    let h = Histrionic::new(commands(3), 3);
    assert!(!h.page_down_overflows());
}

#[test]
fn key_labels_and_indices_agree() {
    let expected = "0123456789abcdefghijklmnoprstuvwxyzABCDEFGHIJKLMNOPRSTUVWXYZ";
    assert_eq!(expected.len(), KEY_COUNT);
    for (i, b) in expected.bytes().enumerate() {
        assert_eq!(key_label(i), b);
        assert_eq!(key_index(b), Some(i));
    }
    assert_eq!(key_index(b'q'), None);
    assert_eq!(key_index(b'Q'), None);
    assert_eq!(key_index(0x1b), None);
}

#[test]
fn keystrokes_end_command_with_carriage_return() {
    assert_eq!(command_keystrokes("ls -la", ""), "ls -la\r");
    assert_eq!(command_keystrokes("echo", "x"), "echo\rx");
}
