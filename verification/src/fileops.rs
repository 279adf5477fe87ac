//! Reading the commands of a history, newest first and without repeats.

use vstd::prelude::*;

use crate::commands::{dedup_commands, newest_first_commands, offered_commands};
use crate::filter::{filter_fails, filter_lines, filter_view, texts, HistoryError};

verus! {

/// The commands of the history `lines` that pass the optional regular
/// expression `filter`, with the entry numbers stripped, the most recent
/// first and each command only once (at its most recent use).
pub fn read_in_commands(lines: &Vec<String>, filter: Option<&str>) -> (r: Result<
    Vec<String>,
    HistoryError,
>)
    ensures
        match r {
            Ok(commands) => texts(commands@) == offered_commands(
                texts(lines@),
                filter_view(filter),
            ),
            Err(e) => e == HistoryError::InvalidRegex,
        },
        r is Err <==> filter_fails(filter_view(filter), lines.len() as nat),
{
    let keep = filter_lines(lines, filter)?;
    let newest_first = newest_first_commands(lines, &keep);
    Ok(dedup_commands(&newest_first))
}

} // verus!
