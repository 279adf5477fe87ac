//! The format of one line of shell `history` output: optional blanks, the
//! entry number, at least one blank, then the command itself.

use vstd::prelude::*;

verus! {

/// The characters that the history-number prefix treats as blanks: the
/// Unicode `White_Space` property.
pub open spec fn is_history_space(c: char) -> bool {
    let u = c as u32;
    ||| (0x09 <= u && u <= 0x0d)
    ||| u == 0x20
    ||| u == 0x85
    ||| u == 0xa0
    ||| u == 0x1680
    ||| (0x2000 <= u && u <= 0x200a)
    ||| u == 0x2028
    ||| u == 0x2029
    ||| u == 0x202f
    ||| u == 0x205f
    ||| u == 0x3000
}

/// ASCII decimal digits, the characters of a history entry number.
pub open spec fn is_entry_digit(c: char) -> bool {
    '0' as u32 <= c as u32 && c as u32 <= '9' as u32
}

/// Length of the run of blanks in `s` starting at index `i`.
pub open spec fn space_run(s: Seq<char>, i: int) -> nat
    decreases s.len() - i,
{
    if 0 <= i < s.len() && is_history_space(s[i]) {
        1 + space_run(s, i + 1)
    } else {
        0
    }
}

/// Length of the run of digits in `s` starting at index `i`.
pub open spec fn digit_run(s: Seq<char>, i: int) -> nat
    decreases s.len() - i,
{
    if 0 <= i < s.len() && is_entry_digit(s[i]) {
        1 + digit_run(s, i + 1)
    } else {
        0
    }
}

/// Length of the history-number prefix of `line` (leading blanks, the
/// number, and every blank after it), or `None` when the line does not start
/// with a number followed by a blank.
pub open spec fn number_prefix_len(line: Seq<char>) -> Option<nat> {
    let lead = space_run(line, 0);
    let digits = digit_run(line, lead as int);
    let gap = space_run(line, (lead + digits) as int);
    if digits > 0 && gap > 0 {
        Some(lead + digits + gap)
    } else {
        None
    }
}

/// The command recorded on a history line: the line without its number
/// prefix, or `None` for a line that has no such prefix.
pub open spec fn history_command(line: Seq<char>) -> Option<Seq<char>> {
    match number_prefix_len(line) {
        Some(k) => Some(line.skip(k as int)),
        None => None,
    }
}

fn is_space_char(c: char) -> (b: bool)
    ensures
        b == is_history_space(c),
{
    let u = c as u32;
    (0x09 <= u && u <= 0x0d) || u == 0x20 || u == 0x85 || u == 0xa0 || u == 0x1680 || (0x2000
        <= u && u <= 0x200a) || u == 0x2028 || u == 0x2029 || u == 0x202f || u == 0x205f || u
        == 0x3000
}

fn is_digit_char(c: char) -> (b: bool)
    ensures
        b == is_entry_digit(c),
{
    let u = c as u32;
    '0' as u32 <= u && u <= '9' as u32
}

/// Index just past the run of blanks that starts at `from`.
fn skip_spaces(s: &str, len: usize, from: usize) -> (to: usize)
    requires
        len == s@.len(),
        from <= len,
    ensures
        to == from + space_run(s@, from as int),
        to <= len,
{
    let mut i = from;
    while i < len && is_space_char(s.get_char(i))
        invariant
            from <= i <= len,
            len == s@.len(),
            space_run(s@, from as int) == (i - from) + space_run(s@, i as int),
        decreases len - i,
    {
        i = i + 1;
    }
    i
}

/// Index just past the run of digits that starts at `from`.
fn skip_digits(s: &str, len: usize, from: usize) -> (to: usize)
    requires
        len == s@.len(),
        from <= len,
    ensures
        to == from + digit_run(s@, from as int),
        to <= len,
{
    let mut i = from;
    while i < len && is_digit_char(s.get_char(i))
        invariant
            from <= i <= len,
            len == s@.len(),
            digit_run(s@, from as int) == (i - from) + digit_run(s@, i as int),
        decreases len - i,
    {
        i = i + 1;
    }
    i
}

/// Strips the entry number from one line of `history` output, giving the
/// command; `None` when the line does not start with a number and a blank.
pub fn strip_history_number(line: &str) -> (r: Option<String>)
    ensures
        match r {
            Some(cmd) => history_command(line@) == Some(cmd@),
            None => history_command(line@) is None,
        },
{
    let len = line.unicode_len();
    let lead = skip_spaces(line, len, 0);
    let digits_end = skip_digits(line, len, lead);
    if digits_end == lead {
        return None;
    }
    let end = skip_spaces(line, len, digits_end);
    if end == digits_end {
        return None;
    }
    let rest = line.substring_char(end, len);
    Some(String::from_str(rest))
}

/// A run of blanks that ends at `k` (at the end of `s` or before a
/// non-blank) has length `k - i` from any of its positions `i`.
pub proof fn lemma_space_run_exact(s: Seq<char>, i: int, k: int)
    requires
        0 <= i <= k <= s.len(),
        forall|j: int| i <= j < k ==> is_history_space(#[trigger] s[j]),
        k == s.len() || !is_history_space(s[k]),
    ensures
        space_run(s, i) == k - i,
    decreases k - i,
{
    if i < k {
        lemma_space_run_exact(s, i + 1, k);
    }
}

/// A run of digits that ends at `k` (at the end of `s` or before a
/// non-digit) has length `k - i` from any of its positions `i`.
pub proof fn lemma_digit_run_exact(s: Seq<char>, i: int, k: int)
    requires
        0 <= i <= k <= s.len(),
        forall|j: int| i <= j < k ==> is_entry_digit(#[trigger] s[j]),
        k == s.len() || !is_entry_digit(s[k]),
    ensures
        digit_run(s, i) == k - i,
    decreases k - i,
{
    if i < k {
        lemma_digit_run_exact(s, i + 1, k);
    }
}

/// A line written as blanks, an entry number, at least one blank and a
/// command that does not start with a blank reads back as that command.
pub proof fn lemma_history_line_round_trip(
    lead: Seq<char>,
    number: Seq<char>,
    gap: Seq<char>,
    command: Seq<char>,
)
    requires
        forall|j: int| 0 <= j < lead.len() ==> is_history_space(#[trigger] lead[j]),
        number.len() > 0,
        forall|j: int| 0 <= j < number.len() ==> is_entry_digit(#[trigger] number[j]),
        gap.len() > 0,
        forall|j: int| 0 <= j < gap.len() ==> is_history_space(#[trigger] gap[j]),
        command.len() == 0 || !is_history_space(command[0]),
    ensures
        history_command(lead + number + gap + command) == Some(command),
{
    let line = lead + number + gap + command;
    let a = lead.len() as int;
    let b = a + number.len();
    let c = b + gap.len();
    assert forall|j: int| 0 <= j < a implies is_history_space(#[trigger] line[j]) by {
        assert(line[j] == lead[j]);
    }
    assert(line[a] == number[0]);
    lemma_space_run_exact(line, 0, a);
    assert forall|j: int| a <= j < b implies is_entry_digit(#[trigger] line[j]) by {
        assert(line[j] == number[j - a]);
    }
    assert(line[b] == gap[0]);
    lemma_digit_run_exact(line, a, b);
    assert forall|j: int| b <= j < c implies is_history_space(#[trigger] line[j]) by {
        assert(line[j] == gap[j - b]);
    }
    if c < line.len() {
        assert(line[c] == command[0]);
    }
    lemma_space_run_exact(line, b, c);
    assert(line.skip(c) =~= command);
}

} // verus!
