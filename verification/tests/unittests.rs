use std::io::{self, Error};

use hcommander::read_in_commands::read_in_commands;

const SAMPLE: &str = r#"        1 6 ls a
    2 5 ls b
    1 4 ls a
    3 3 ls c
    4 2 git 1
    5 1 git a
    6 a
"#;

fn gen_sample() -> Vec<String> {
    SAMPLE.lines().map(String::from).collect()
}

fn intparse(s: &str) -> io::Result<usize> {
    match s.parse::<usize>() {
        Ok(i) => Ok(i),
        Err(_) => Err(Error::other("failed to parse")),
    }
}

#[test]
fn test_reading_commands() -> io::Result<()> {
    let lines = gen_sample();

    let commands = match read_in_commands(&lines, None) {
        Ok(c) => c,
        Err(_) => return Err(Error::other("failed to read")),
    };
    assert_eq!(commands.len(), 6);

    for (i, command) in commands.iter().enumerate() {
        let s2 = &command[0..1];
        let j = intparse(s2)?;
        assert_eq!(j, i + 1);
    }

    Ok(())
}

#[test]
fn test_reading_command_w_filter() -> io::Result<()> {
    let lines = gen_sample();

    let commands = match read_in_commands(&lines, Some("git")) {
        Ok(c) => c,
        Err(_) => return Err(Error::other("failed to parse")),
    };
    assert_eq!(commands.len(), 2);

    for (i, command) in commands.iter().enumerate() {
        let s2 = &command[0..1];
        let j = intparse(s2)?;
        assert_eq!(j, i + 1);
    }

    Ok(())
}
