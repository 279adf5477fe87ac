//! The state of the interactive picker: the commands, the page height and the
//! page shown, and what each key pressed does to it. Drawing the page and
//! reading the keys belong to the program around this library.

use vstd::prelude::*;

use crate::filter::texts;
use crate::keys::{
    key_code, key_index, key_label, key_position, lemma_key_codes_distinct,
    lemma_key_position_inverts_key_code, KEY_COUNT,
};

verus! {

/// Byte of the `6` key, also the last byte of a Page-Down escape sequence.
pub const PAGE_DOWN_KEY: u8 = 0x36;

/// Byte of the `5` key, also the last byte of a Page-Up escape sequence.
pub const PAGE_UP_KEY: u8 = 0x35;

/// Byte of the escape key, which starts an escape sequence.
pub const ESCAPE_KEY: u8 = 0x1b;

/// Byte of `Q`.
pub const QUIT_UPPER_KEY: u8 = 0x51;

/// Byte of `q`.
pub const QUIT_LOWER_KEY: u8 = 0x71;

/// Terminal lines that are not used for rows of commands.
pub const RESERVED_LINES: usize = 3;

/// What the program does after a key has been handled.
#[derive(Debug, Clone, Copy, PartialEq, Eq, Structural)]
pub enum KeyAction {
    /// Draw the page again and wait for the next key.
    Redraw,
    /// Read the two bytes that follow an escape and hand the second one to
    /// `handle_escape`.
    ReadEscape,
    /// Leave the picker without choosing a command.
    Quit,
    /// The key for this row of the page was pressed.
    Select(usize),
}

/// The picker's state as a mathematical value.
pub struct PagerState {
    pub commands: Seq<Seq<char>>,
    pub height: nat,
    pub page_offset: nat,
}

impl PagerState {
    /// At most one row per key, and a page other than the first starts at a
    /// command.
    pub open spec fn wf(self) -> bool {
        &&& self.height <= KEY_COUNT
        &&& self.page_offset * self.height <= self.commands.len()
        &&& (self.page_offset == 0 || self.page_offset * self.height < self.commands.len())
    }

    /// Index of the first command of the page shown.
    pub open spec fn page_start(self) -> int {
        (self.page_offset * self.height) as int
    }

    /// Index just past the last command of the page shown.
    pub open spec fn page_end(self) -> int {
        let full = ((self.page_offset + 1) * self.height) as int;
        if full < self.commands.len() {
            full
        } else {
            self.commands.len() as int
        }
    }

    /// Whether a page follows the one shown.
    pub open spec fn has_next_page(self) -> bool {
        (self.page_offset + 1) * self.height < self.commands.len()
    }

    /// The state after Page-Down: the next page, if there is one.
    pub open spec fn paged_down(self) -> PagerState {
        if self.has_next_page() {
            PagerState { page_offset: self.page_offset + 1, ..self }
        } else {
            self
        }
    }

    /// The state after Page-Up: the previous page, if there is one.
    pub open spec fn paged_up(self) -> PagerState {
        if self.page_offset > 0 {
            PagerState { page_offset: (self.page_offset - 1) as nat, ..self }
        } else {
            self
        }
    }

    /// Whether moving to the next page would push the page number past
    /// `usize::MAX` (possible only with a page height of zero).
    pub open spec fn page_down_overflows(self) -> bool {
        self.has_next_page() && self.page_offset == usize::MAX
    }

    /// Index of the command that the key for row `row` selects.
    pub open spec fn slot(self, row: nat) -> int {
        (self.height * self.page_offset + row) as int
    }

    /// The state after the key `c` has been pressed.
    pub open spec fn after_key(self, c: u8) -> PagerState {
        if c == PAGE_DOWN_KEY {
            self.paged_down()
        } else if c == PAGE_UP_KEY {
            self.paged_up()
        } else {
            self
        }
    }
}

/// What the program does after the key `c` has been pressed.
pub open spec fn key_action(c: u8) -> KeyAction {
    if c == QUIT_UPPER_KEY || c == QUIT_LOWER_KEY {
        KeyAction::Quit
    } else if c == ESCAPE_KEY {
        KeyAction::ReadEscape
    } else {
        match key_position(c) {
            Some(row) => KeyAction::Select(row),
            None => KeyAction::Redraw,
        }
    }
}

/// What the program does after an escape sequence whose second byte is `c`.
pub open spec fn escape_action(c: u8) -> KeyAction {
    if c == QUIT_UPPER_KEY || c == QUIT_LOWER_KEY {
        KeyAction::Quit
    } else {
        KeyAction::Redraw
    }
}

/// Page height for a terminal of `terminal_height` lines: the lines left for
/// rows, but no more rows than there are keys.
pub open spec fn page_height(terminal_height: nat) -> nat {
    let avail = (terminal_height - RESERVED_LINES) as nat;
    if avail < KEY_COUNT {
        avail
    } else {
        KEY_COUNT as nat
    }
}

/// The picker: the commands to choose from, how many fit on a page, and the
/// page shown.
pub struct Histrionic {
    commands: Vec<String>,
    height: usize,
    page_offset: usize,
}

impl View for Histrionic {
    type V = PagerState;

    closed spec fn view(&self) -> PagerState {
        PagerState {
            commands: texts(self.commands@),
            height: self.height as nat,
            page_offset: self.page_offset as nat,
        }
    }
}

impl Histrionic {
    #[verifier::type_invariant]
    spec fn inv(self) -> bool {
        self@.wf()
    }

    /// A picker over `lines` on the first page, for a terminal of
    /// `terminal_height` lines (three of which are kept for other output).
    pub fn new(lines: Vec<String>, terminal_height: usize) -> (h: Self)
        requires
            terminal_height >= RESERVED_LINES,
        ensures
            h@ == (PagerState {
                commands: texts(lines@),
                height: page_height(terminal_height as nat),
                page_offset: 0,
            }),
            h@.wf(),
    {
        let avail = terminal_height - RESERVED_LINES;
        let height = if avail < KEY_COUNT {
            avail
        } else {
            KEY_COUNT
        };
        Histrionic { commands: lines, height, page_offset: 0 }
    }

    /// Whether moving to the next page would push the page number past
    /// `usize::MAX`.
    pub fn page_down_overflows(&self) -> (b: bool)
        ensures
            b == self@.page_down_overflows(),
    {
        proof {
            use_type_invariant(self);
        }
        assert(self.page_offset * self.height <= self.commands.len());
        let start = self.page_offset * self.height;
        let ghost o = self.page_offset as int;
        let ghost h = self.height as int;
        assert((o + 1) * h == o * h + h) by (nonlinear_arith);
        self.height < self.commands.len() - start && self.page_offset == usize::MAX
    }

    /// Moves to the next page, if there is one. Always asks to go on.
    pub fn handle_page_down(&mut self, _key: u8) -> (go_on: bool)
        requires
            !old(self)@.page_down_overflows(),
        ensures
            final(self)@ == old(self)@.paged_down(),
            final(self)@.wf(),
            go_on,
    {
        proof {
            use_type_invariant(&*self);
        }
        let ghost o = self.page_offset as int;
        let ghost h = self.height as int;
        assert(self.page_offset * self.height <= self.commands.len());
        let start = self.page_offset * self.height;
        assert((o + 1) * h == o * h + h) by (nonlinear_arith);
        if self.height < self.commands.len() - start {
            assert(h > 0 ==> o + 1 <= (o + 1) * h) by (nonlinear_arith)
                requires
                    o >= 0,
            ;
            self.page_offset = self.page_offset + 1;
        }
        proof {
            use_type_invariant(&*self);
        }
        true
    }

    /// Moves to the previous page, if there is one. Always asks to go on.
    pub fn handle_page_up(&mut self, _key: u8) -> (go_on: bool)
        ensures
            final(self)@ == old(self)@.paged_up(),
            final(self)@.wf(),
            go_on,
    {
        proof {
            use_type_invariant(&*self);
        }
        if self.page_offset > 0 {
            let ghost o = self.page_offset as int;
            let ghost h = self.height as int;
            assert((o - 1) * h <= o * h) by (nonlinear_arith)
                requires
                    o >= 1,
                    h >= 0,
            ;
            assert(o - 1 == 0 || (o - 1) * h < self.commands.len()) by {
                assert(o * h < self.commands.len());
            }
            self.page_offset = self.page_offset - 1;
        }
        proof {
            use_type_invariant(&*self);
        }
        true
    }

    /// Handles one byte read from the terminal: `6` and `5` turn the page
    /// (and then, being keys, also select their row), `q` and `Q` quit, the
    /// escape byte asks for the rest of the sequence, and a key selects its
    /// row.
    pub fn handle_key(&mut self, c: u8) -> (action: KeyAction)
        requires
            c == PAGE_DOWN_KEY ==> !old(self)@.page_down_overflows(),
        ensures
            final(self)@ == old(self)@.after_key(c),
            final(self)@.wf(),
            action == key_action(c),
    {
        proof {
            use_type_invariant(&*self);
        }
        if c == PAGE_DOWN_KEY {
            self.handle_page_down(c);
        } else if c == PAGE_UP_KEY {
            self.handle_page_up(c);
        } else if c == QUIT_UPPER_KEY || c == QUIT_LOWER_KEY {
            return KeyAction::Quit;
        }
        if c == ESCAPE_KEY {
            return KeyAction::ReadEscape;
        }
        match key_index(c) {
            Some(row) => KeyAction::Select(row),
            None => KeyAction::Redraw,
        }
    }

    /// Handles the second byte after an escape: the Page-Down and Page-Up
    /// sequences turn the page, `q` and `Q` quit.
    pub fn handle_escape(&mut self, c: u8) -> (action: KeyAction)
        requires
            c == PAGE_DOWN_KEY ==> !old(self)@.page_down_overflows(),
        ensures
            final(self)@ == old(self)@.after_key(c),
            final(self)@.wf(),
            action == escape_action(c),
    {
        proof {
            use_type_invariant(&*self);
        }
        if c == PAGE_DOWN_KEY {
            self.handle_page_down(c);
        } else if c == PAGE_UP_KEY {
            self.handle_page_up(c);
        } else if c == QUIT_UPPER_KEY || c == QUIT_LOWER_KEY {
            return KeyAction::Quit;
        }
        KeyAction::Redraw
    }

    /// The rows of the page shown: each command of the page with the key
    /// (as an ASCII code) that selects it.
    pub fn visible_rows(&self) -> (rows: Vec<(u8, String)>)
        ensures
            rows.len() == self@.page_end() - self@.page_start(),
            forall|i: int|
                0 <= i < rows.len() ==> (#[trigger] rows@[i]).0 == key_code(i) && rows@[i].1@
                    == self@.commands[self@.page_start() + i],
    {
        proof {
            use_type_invariant(self);
        }
        let ghost o = self.page_offset as int;
        let ghost h = self.height as int;
        assert((o + 1) * h == o * h + h) by (nonlinear_arith);
        assert(self.page_offset * self.height <= self.commands.len());
        let start = self.page_offset * self.height;
        let n = self.commands.len();
        let end = if n - start < self.height {
            n
        } else {
            start + self.height
        };
        let mut rows: Vec<(u8, String)> = Vec::new();
        let mut i = start;
        while i < end
            invariant
                start <= i <= end,
                end <= n,
                n == self.commands.len(),
                end - start <= KEY_COUNT,
                start == self@.page_start(),
                end == self@.page_end(),
                rows.len() == i - start,
                forall|j: int|
                    0 <= j < rows.len() ==> (#[trigger] rows@[j]).0 == key_code(j) && rows@[j].1@
                        == self@.commands[start + j],
            decreases end - i,
        {
            let label = key_label(i - start);
            rows.push((label, self.commands[i].clone()));
            i = i + 1;
        }
        rows
    }

    /// The command that the key for row `row` selects on the page shown, or
    /// `None` when that index is past the end of the commands.
    pub fn command_for_key(&self, row: usize) -> (cmd: Option<&String>)
        ensures
            match cmd {
                Some(s) => 0 <= self@.slot(row as nat) < self@.commands.len() && s@
                    == self@.commands[self@.slot(row as nat)],
                None => self@.slot(row as nat) >= self@.commands.len(),
            },
    {
        proof {
            use_type_invariant(self);
        }
        assert(self.page_offset * self.height <= self.commands.len());
        let start = self.page_offset * self.height;
        let n = self.commands.len();
        if row < n - start {
            let ghost o = self.page_offset as int;
            let ghost h = self.height as int;
            assert(h * o == o * h) by (nonlinear_arith);
            Some(&self.commands[start + row])
        } else {
            let ghost o = self.page_offset as int;
            let ghost h = self.height as int;
            assert(h * o == o * h) by (nonlinear_arith);
            None
        }
    }
}

/// The keystrokes typed into the terminal for a chosen command: the command,
/// a carriage return, then `extra`.
pub fn command_keystrokes(command: &str, extra: &str) -> (text: String)
    ensures
        text@ == command@ + seq!['\r'] + extra@,
{
    let mut text = String::from_str(command);
    let cr = "\r";
    proof {
        reveal_strlit("\r");
    }
    text.append(cr);
    text.append(extra);
    text
}

/// Page-Down followed by Page-Up comes back to the page shown before.
pub proof fn lemma_page_down_then_up(s: PagerState)
    requires
        s.wf(),
    ensures
        s.paged_down().paged_up() == s || !s.has_next_page(),
        !s.has_next_page() ==> s.paged_down() == s,
{
}

/// Page-Up followed by Page-Down comes back to the page shown before, unless
/// the first page was shown.
pub proof fn lemma_page_up_then_down(s: PagerState)
    requires
        s.wf(),
    ensures
        s.page_offset > 0 ==> s.paged_up().paged_down() == s,
        s.page_offset == 0 ==> s.paged_up() == s,
{
    if s.page_offset > 0 {
        let o = s.page_offset as int;
        let h = s.height as int;
        assert((o - 1 + 1) * h == o * h);
    }
}

/// Paging keeps the state well formed and leaves the commands and the page
/// height as they were.
pub proof fn lemma_paging_preserves(s: PagerState)
    requires
        s.wf(),
    ensures
        s.paged_down().wf(),
        s.paged_up().wf(),
        s.paged_down().commands == s.commands && s.paged_down().height == s.height,
        s.paged_up().commands == s.commands && s.paged_up().height == s.height,
{
    let o = s.page_offset as int;
    let h = s.height as int;
    assert((o + 1) * h == o * h + h) by (nonlinear_arith);
    if o > 0 {
        assert((o - 1) * h <= o * h) by (nonlinear_arith)
            requires
                o >= 1,
                h >= 0,
        ;
    }
}

/// A page shows at most one page height of commands, all of them within the
/// list, and at most one per key.
pub proof fn lemma_page_bounds(s: PagerState)
    requires
        s.wf(),
    ensures
        0 <= s.page_start() <= s.page_end() <= s.commands.len(),
        s.page_end() - s.page_start() <= s.height <= KEY_COUNT,
{
    let o = s.page_offset as int;
    let h = s.height as int;
    assert((o + 1) * h == o * h + h) by (nonlinear_arith);
    assert(0 <= o * h) by (nonlinear_arith)
        requires
            o >= 0,
            h >= 0,
    ;
}

/// The key shown beside a row of the page selects the command of that row.
pub proof fn lemma_row_key_selects_row(s: PagerState, row: nat)
    requires
        s.wf(),
        row < s.page_end() - s.page_start(),
    ensures
        key_position(key_code(row as int) as u8) == Some(row as usize),
        s.slot(row) == s.page_start() + row,
        0 <= s.slot(row) < s.commands.len(),
{
    lemma_page_bounds(s);
    let o = s.page_offset as int;
    let h = s.height as int;
    assert(h * o == o * h) by (nonlinear_arith);
}

/// `q` and `Q` quit and never select a row; the escape byte never selects a
/// row either.
pub proof fn lemma_quit_keys(s: PagerState)
    ensures
        key_action(QUIT_LOWER_KEY) == KeyAction::Quit,
        key_action(QUIT_UPPER_KEY) == KeyAction::Quit,
        escape_action(QUIT_LOWER_KEY) == KeyAction::Quit,
        escape_action(QUIT_UPPER_KEY) == KeyAction::Quit,
        key_position(QUIT_LOWER_KEY) is None,
        key_position(QUIT_UPPER_KEY) is None,
        key_position(ESCAPE_KEY) is None,
        s.after_key(QUIT_LOWER_KEY) == s,
        s.after_key(QUIT_UPPER_KEY) == s,
{
}

/// Only the paging keys turn the page; in particular an escape sequence
/// ending in the Page-Down (Page-Up) byte turns exactly one page forward
/// (back) from where the picker was.
pub proof fn lemma_only_paging_keys_turn_pages(s: PagerState, c: u8)
    ensures
        c != PAGE_DOWN_KEY && c != PAGE_UP_KEY ==> s.after_key(c) == s,
        s.after_key(ESCAPE_KEY).after_key(PAGE_DOWN_KEY) == s.paged_down(),
        s.after_key(ESCAPE_KEY).after_key(PAGE_UP_KEY) == s.paged_up(),
        s.after_key(PAGE_DOWN_KEY) == s.paged_down(),
        s.after_key(PAGE_UP_KEY) == s.paged_up(),
{
}

/// Page-Down shows the commands right after the page shown, when the page
/// shown does not reach the end of the list, and stays put otherwise;
/// Page-Up shows the commands right before it, unless the first page is shown.
pub proof fn lemma_pages_are_adjacent(s: PagerState)
    requires
        s.wf(),
    ensures
        s.page_end() < s.commands.len() ==> s.paged_down().page_start() == s.page_end()
            && s.paged_down().page_offset == s.page_offset + 1,
        s.page_end() >= s.commands.len() ==> s.paged_down() == s,
        s.page_offset > 0 ==> s.paged_up().page_end() == s.page_start()
            && s.paged_up().page_offset + 1 == s.page_offset,
        s.page_offset == 0 ==> s.paged_up() == s,
{
    let o = s.page_offset as int;
    let h = s.height as int;
    assert((o + 1) * h == o * h + h) by (nonlinear_arith);
    if o > 0 {
        assert((o - 1 + 1) * h == o * h);
        assert((o - 1) * h + h == o * h) by (nonlinear_arith);
    }
}

/// Each key selects the row it labels, a byte that labels no row (other
/// than `q`, `Q` and escape) does nothing, and the only keys that quit,
/// alone or after an escape, are `q` and `Q`; any other byte after an escape
/// is ignored.
pub proof fn lemma_key_actions(c: u8)
    ensures
        forall|row: int|
            0 <= row < KEY_COUNT ==> key_action(#[trigger] key_code(row) as u8) == KeyAction::Select(
                row as usize,
            ),
        (forall|row: int| 0 <= row < KEY_COUNT ==> #[trigger] key_code(row) != c) && c
            != QUIT_LOWER_KEY && c != QUIT_UPPER_KEY && c != ESCAPE_KEY ==> key_action(c)
            == KeyAction::Redraw,
        key_action(c) == KeyAction::Quit <==> (c == QUIT_LOWER_KEY || c == QUIT_UPPER_KEY),
        escape_action(c) == KeyAction::Quit <==> (c == QUIT_LOWER_KEY || c == QUIT_UPPER_KEY),
        escape_action(c) != KeyAction::Quit ==> escape_action(c) == KeyAction::Redraw,
{
    assert forall|row: int| 0 <= row < KEY_COUNT implies key_action(
        #[trigger] key_code(row) as u8,
    ) == KeyAction::Select(row as usize) by {
        let k = key_code(row) as u8;
        lemma_key_position_inverts_key_code(k);
        match key_position(k) {
            Some(r) => {
                if r as int != row {
                    lemma_key_codes_distinct(r as int, row);
                }
            },
            None => {},
        }
    }
    lemma_key_position_inverts_key_code(c);
}

} // verus!
