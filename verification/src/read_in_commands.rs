//! Reading the commands of a history for the picker: as in
//! `fileops::read_in_commands`, but without a filter the most recent command,
//! which is the picker's own invocation, is left out.

use vstd::prelude::*;

use crate::commands::{
    lemma_first_occurrences_nonempty, lemma_history_commands_nonempty, lemma_offered_commands,
    lemma_offered_commands_by_recency, lemma_offered_commands_newest, offered_commands, used_at,
};
use crate::filter::{filter_fails, filter_flags, filter_view, passes, texts, HistoryError};
use crate::history::history_command;

verus! {

/// The commands the picker offers for the history `lines` and the optional
/// filter: those of `offered_commands`, without the first (most recent) one
/// when there is no filter.
pub open spec fn picker_commands(lines: Seq<Seq<char>>, filter: Option<Seq<char>>) -> Seq<
    Seq<char>,
> {
    match filter {
        None => offered_commands(lines, filter).drop_first(),
        Some(_) => offered_commands(lines, filter),
    }
}

/// Whether some line of the history carries a command.
pub open spec fn has_command(lines: Seq<Seq<char>>) -> bool {
    exists|i: int| 0 <= i < lines.len() && #[trigger] history_command(lines[i]) is Some
}

/// Reads the commands of the history `lines` that pass the optional regular
/// expression `filter`: entry numbers stripped, the most recent first, each
/// command once; without a filter the most recent command is dropped. Without
/// a filter, some line must carry a command.
pub fn read_in_commands(lines: &Vec<String>, filter: Option<&str>) -> (r: Result<
    Vec<String>,
    HistoryError,
>)
    requires
        filter is Some || has_command(texts(lines@)),
    ensures
        match r {
            Ok(commands) => texts(commands@) == picker_commands(
                texts(lines@),
                filter_view(filter),
            ),
            Err(e) => e == HistoryError::InvalidRegex,
        },
        r is Err <==> filter_fails(filter_view(filter), lines.len() as nat),
{
    let mut commands = crate::fileops::read_in_commands(lines, filter)?;
    if filter.is_none() {
        proof {
            let ls = texts(lines@);
            let i = choose|i: int| 0 <= i < ls.len() && #[trigger] history_command(ls[i]) is Some;
            let keep = filter_flags(None, ls);
            lemma_history_commands_nonempty(ls, keep, i);
            lemma_first_occurrences_nonempty(crate::commands::history_commands(ls, keep));
        }
        let ghost before = commands@;
        commands.remove(0);
        assert(texts(commands@) =~= texts(before).drop_first());
    }
    Ok(commands)
}

/// The picker offers no command twice. Without a filter, it leaves out the
/// most recent command (the picker's own invocation) entirely and offers
/// every other command of the history.
pub proof fn lemma_picker_commands(lines: Seq<Seq<char>>, filter: Option<Seq<char>>)
    requires
        filter is Some || has_command(lines),
    ensures
        picker_commands(lines, filter).no_duplicates(),
        filter is Some ==> picker_commands(lines, filter) == offered_commands(lines, filter),
        filter is None ==> {
            let newest = offered_commands(lines, filter)[0];
            &&& offered_commands(lines, filter).len() > 0
            &&& !picker_commands(lines, filter).contains(newest)
            &&& forall|x: Seq<char>|
                picker_commands(lines, filter).contains(x) <==> (x != newest && exists|i: int|
                    0 <= i < lines.len() && #[trigger] history_command(lines[i]) == Some(x))
        },
{
    let o = offered_commands(lines, filter);
    lemma_offered_commands(lines, filter);
    if filter is None {
        let i = choose|i: int| 0 <= i < lines.len() && #[trigger] history_command(lines[i]) is Some;
        assert(o.contains(history_command(lines[i])->0));
        let p = o.drop_first();
        assert forall|x: Seq<char>| p.contains(x) <==> (x != o[0] && o.contains(x)) by {
            if p.contains(x) {
                let k = choose|k: int| 0 <= k < p.len() && p[k] == x;
                assert(o[k + 1] == x);
            }
            if x != o[0] && o.contains(x) {
                let k = choose|k: int| 0 <= k < o.len() && o[k] == x;
                assert(p[k - 1] == x);
            }
        }
        assert forall|x: Seq<char>|
            p.contains(x) <==> (x != o[0] && exists|i: int|
                0 <= i < lines.len() && #[trigger] history_command(lines[i]) == Some(x)) by {
            if exists|i: int| 0 <= i < lines.len() && #[trigger] history_command(lines[i]) == Some(x) {
                let i = choose|i: int|
                    0 <= i < lines.len() && #[trigger] history_command(lines[i]) == Some(x);
                assert(passes(filter, lines[i]));
            }
        }
        assert(p.no_duplicates());
    }
}

/// The picker's list is newest first: of two offered commands, the earlier
/// one was used (on a line that passes the filter) after every use of the
/// later one. Without a filter, the command of the newest line that carries
/// one is not offered at all.
pub proof fn lemma_picker_commands_by_recency(
    lines: Seq<Seq<char>>,
    filter: Option<Seq<char>>,
    a: int,
    b: int,
)
    requires
        filter is Some || has_command(lines),
        0 <= a < b < picker_commands(lines, filter).len(),
    ensures
        exists|i: int|
            #[trigger] used_at(lines, filter, i, picker_commands(lines, filter)[a]) && forall|
                j: int,
            |
                #[trigger] used_at(lines, filter, j, picker_commands(lines, filter)[b]) ==> j < i,
{
    let o = offered_commands(lines, filter);
    lemma_picker_commands(lines, filter);
    if filter is None {
        assert(o.len() > 0);
        assert(picker_commands(lines, filter) == o.drop_first());
        lemma_offered_commands_by_recency(lines, filter, a + 1, b + 1);
        assert(picker_commands(lines, filter)[a] == o[a + 1]);
        assert(picker_commands(lines, filter)[b] == o[b + 1]);
    } else {
        lemma_offered_commands_by_recency(lines, filter, a, b);
    }
}

/// Without a filter, the command of the newest line that carries a command
/// (the picker's own invocation) is not offered, and every other command of
/// the history is.
pub proof fn lemma_picker_drops_newest(lines: Seq<Seq<char>>, j: int)
    requires
        0 <= j < lines.len(),
        history_command(lines[j]) is Some,
        forall|k: int| j < k < lines.len() ==> #[trigger] history_command(lines[k]) is None,
    ensures
        !picker_commands(lines, None).contains(history_command(lines[j])->0),
        forall|x: Seq<char>|
            picker_commands(lines, None).contains(x) <==> (x != history_command(lines[j])->0
                && exists|i: int| 0 <= i < lines.len() && #[trigger] history_command(lines[i]) == Some(x)),
{
    assert forall|k: int|
        j < k < lines.len() implies !(passes(None, lines[k]) && #[trigger] history_command(
            lines[k],
        ) is Some) by {
        assert(history_command(lines[k]) is None);
    }
    lemma_offered_commands_newest(lines, None, j);
    assert(has_command(lines)) by {
        assert(history_command(lines[j]) is Some);
    }
    lemma_picker_commands(lines, None);
}

} // verus!
