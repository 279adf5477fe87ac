use hcommander::commands::{dedup_commands, newest_first_commands};
use hcommander::fileops;
use hcommander::filter::{filter_lines, HistoryError};
use hcommander::read_in_commands::read_in_commands;

fn strings(v: &[&str]) -> Vec<String> {
    v.iter().map(|s| s.to_string()).collect()
}

#[test]
fn newest_command_comes_first() {
    let lines = strings(&["1 first", "2 second", "not a history line", "3 third"]);
    let keep = vec![true, true, true, true];
    assert_eq!(newest_first_commands(&lines, &keep), strings(&["third", "second", "first"]));
}

#[test]
fn flags_decide_which_lines_count() {
    let lines = strings(&["1 a", "2 b", "3 c"]);
    let keep = vec![true, false, true];
    assert_eq!(newest_first_commands(&lines, &keep), strings(&["c", "a"]));
}

#[test]
fn dedup_keeps_first_occurrence() {
    let cmds = strings(&["ls", "cd", "ls", "make", "cd"]);
    assert_eq!(dedup_commands(&cmds), strings(&["ls", "cd", "make"]));
    let once = dedup_commands(&cmds);
    assert_eq!(dedup_commands(&once), once);
}

#[test]
fn filter_lines_uses_the_regex() {
    let lines = strings(&["1 git status", "2 ls", "3 git log"]);
    assert_eq!(filter_lines(&lines, Some("^\\s*\\d+ git")), Ok(vec![true, false, true]));
    assert_eq!(filter_lines(&lines, Some("nothing")), Ok(vec![false, false, false]));
    assert_eq!(filter_lines(&lines, None), Ok(vec![true, true, true]));
}

#[test]
fn invalid_filter_is_an_error() {
    let lines = strings(&["1 git status"]);
    assert_eq!(filter_lines(&lines, Some("[unclosed")), Err(HistoryError::InvalidRegex));
    assert_eq!(read_in_commands(&lines, Some("[unclosed")), Err(HistoryError::InvalidRegex));
    assert_eq!(fileops::read_in_commands(&lines, Some("(")), Err(HistoryError::InvalidRegex));
    let none: Vec<String> = Vec::new();
    assert_eq!(fileops::read_in_commands(&none, Some("[unclosed")), Ok(Vec::new()));
}

#[test]
fn fileops_version_keeps_the_invocation() {
    let lines = strings(&["1 ls", "2 make", "3 ls", "4 hcommander"]);
    assert_eq!(
        fileops::read_in_commands(&lines, None),
        Ok(strings(&["hcommander", "ls", "make"]))
    );
}

#[test]
fn invocation_is_dropped_without_filter() {
    let lines = strings(&["1 hcommander", "2 ls", "3 make", "4 hcommander"]);
    assert_eq!(read_in_commands(&lines, None), Ok(strings(&["make", "ls"])));
}

#[test]
fn invocation_is_kept_with_filter() {
    let lines = strings(&["1 make test", "2 ls", "3 make", "4 hcommander make"]);
    assert_eq!(
        read_in_commands(&lines, Some("make")),
        Ok(strings(&["hcommander make", "make", "make test"]))
    );
}

#[test]
fn repeated_commands_are_kept_at_their_latest_use() {
    let lines = strings(&["1 a", "2 b", "3 a", "4 c", "5 b", "6 me"]);
    assert_eq!(read_in_commands(&lines, None), Ok(strings(&["b", "c", "a"])));
}

#[test]
fn filter_matches_the_whole_line_including_number() {
    let lines = strings(&["  17 ls", "  18 pwd"]);
    assert_eq!(read_in_commands(&lines, Some("17")), Ok(strings(&["ls"])));
}
