//! The keys that pick a row of a page: `0`-`9`, then the lower-case and the
//! upper-case letters without `q` and `Q`, which quit.

use vstd::prelude::*;

verus! {

/// How many rows a page can label with a key.
pub const KEY_COUNT: usize = 60;

/// The ASCII code of the key that labels row `i` of a page.
pub open spec fn key_code(i: int) -> int {
    if i < 10 {
        48 + i
    } else if i < 26 {
        97 + (i - 10)
    } else if i < 35 {
        114 + (i - 26)
    } else if i < 51 {
        65 + (i - 35)
    } else {
        82 + (i - 51)
    }
}

/// The row that the key with ASCII code `c` selects, if `c` is a key.
pub open spec fn key_position(c: u8) -> Option<usize> {
    if 48 <= c <= 57 {
        Some((c - 48) as usize)
    } else if 97 <= c <= 112 {
        Some((c - 97 + 10) as usize)
    } else if 114 <= c <= 122 {
        Some((c - 114 + 26) as usize)
    } else if 65 <= c <= 80 {
        Some((c - 65 + 35) as usize)
    } else if 82 <= c <= 90 {
        Some((c - 82 + 51) as usize)
    } else {
        None
    }
}

/// `key_position` finds exactly the row whose key has the given code.
pub proof fn lemma_key_position_inverts_key_code(c: u8)
    ensures
        match key_position(c) {
            Some(k) => k < KEY_COUNT && key_code(k as int) == c,
            None => forall|i: int| 0 <= i < KEY_COUNT ==> key_code(i) != c,
        },
{
}

/// Distinct rows have distinct keys.
pub proof fn lemma_key_codes_distinct(i: int, j: int)
    requires
        0 <= i < KEY_COUNT,
        0 <= j < KEY_COUNT,
        i != j,
    ensures
        key_code(i) != key_code(j),
{
}

/// The ASCII code of the key that labels row `i`.
pub fn key_label(i: usize) -> (c: u8)
    requires
        i < KEY_COUNT,
    ensures
        c == key_code(i as int),
{
    if i < 10 {
        48 + i as u8
    } else if i < 26 {
        97 + (i - 10) as u8
    } else if i < 35 {
        114 + (i - 26) as u8
    } else if i < 51 {
        65 + (i - 35) as u8
    } else {
        82 + (i - 51) as u8
    }
}

/// The row selected by the byte `c` read from the terminal, if it is a key.
pub fn key_index(c: u8) -> (r: Option<usize>)
    ensures
        r == key_position(c),
{
    if 48 <= c && c <= 57 {
        Some((c - 48) as usize)
    } else if 97 <= c && c <= 112 {
        Some((c - 97 + 10) as usize)
    } else if 114 <= c && c <= 122 {
        Some((c - 114 + 26) as usize)
    } else if 65 <= c && c <= 80 {
        Some((c - 65 + 35) as usize)
    } else if 82 <= c && c <= 90 {
        Some((c - 82 + 51) as usize)
    } else {
        None
    }
}

} // verus!
