# hcommander

Pick a command from your shell history and have it typed back into the
terminal.

`src/` is the library, verified with Verus:

- `history` — the format of a `history` line (blanks, entry number, blanks,
  command) and stripping the number from it;
- `filter` — matching lines against a user regular expression (the only call
  into the `regex` crate, behind one trusted wrapper);
- `commands` — the commands of a history newest first, and removing repeats
  while keeping each command at its most recent use, with the laws of both;
- `fileops`, `read_in_commands` — the two ways of reading the commands (the
  second leaves out the picker's own invocation when there is no filter);
- `keys`, `histrionic` — the picker's page and key handling as a state
  machine.

`app/` is the program: argument parsing, reading the history, drawing the
page, reading keys from the terminal and typing the chosen command.
