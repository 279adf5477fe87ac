//! Turning history lines into the list of commands the picker offers:
//! newest first, each command once.

use vstd::prelude::*;

use crate::filter::{filter_flags, passes, texts};
use crate::history::{history_command, strip_history_number};

verus! {

/// The commands of the kept lines, newest first: the line at the end of the
/// history gives the first command. Lines without a number prefix give none.
pub open spec fn history_commands(lines: Seq<Seq<char>>, keep: Seq<bool>) -> Seq<Seq<char>>
    decreases lines.len(),
{
    if lines.len() == 0 {
        Seq::empty()
    } else {
        let rest = history_commands(lines.drop_last(), keep);
        let last = lines.last();
        if keep[lines.len() - 1] && history_command(last) is Some {
            seq![history_command(last)->0] + rest
        } else {
            rest
        }
    }
}

/// The first occurrence of each element, in their original order.
pub open spec fn first_occurrences(s: Seq<Seq<char>>) -> Seq<Seq<char>>
    decreases s.len(),
{
    if s.len() == 0 {
        Seq::empty()
    } else {
        let rest = first_occurrences(s.drop_last());
        if s.drop_last().contains(s.last()) {
            rest
        } else {
            rest.push(s.last())
        }
    }
}

/// Collects the commands of the lines whose flag is set, newest first.
pub fn newest_first_commands(lines: &Vec<String>, keep: &Vec<bool>) -> (r: Vec<String>)
    requires
        keep.len() == lines.len(),
    ensures
        texts(r@) == history_commands(texts(lines@), keep@),
{
    let mut commands: Vec<String> = Vec::new();
    let n = lines.len();
    for i in 0..n
        invariant
            n == lines.len(),
            keep.len() == n,
            texts(commands@) == history_commands(texts(lines@).take(i as int), keep@),
    {
        let ghost prefix = texts(lines@).take(i + 1);
        assert(prefix.drop_last() =~= texts(lines@).take(i as int));
        assert(prefix.last() == lines@[i as int]@);
        if keep[i] {
            match strip_history_number(lines[i].as_str()) {
                Some(cmd) => {
                    let ghost before = commands@;
                    commands.insert(0, cmd);
                    assert(texts(commands@) =~= seq![cmd@] + texts(before));
                },
                None => {},
            }
        }
    }
    assert(texts(lines@).take(n as int) =~= texts(lines@));
    commands
}

/// Every element of `s` appears among its first occurrences, and nothing else
/// does.
pub proof fn lemma_first_occurrences_same_elements(s: Seq<Seq<char>>)
    ensures
        forall|x: Seq<char>| first_occurrences(s).contains(x) <==> s.contains(x),
    decreases s.len(),
{
    if s.len() > 0 {
        lemma_first_occurrences_same_elements(s.drop_last());
        assert forall|x: Seq<char>| first_occurrences(s).contains(x) <==> s.contains(x) by {
            if s.contains(x) {
                let j = choose|j: int| 0 <= j < s.len() && s[j] == x;
                if j < s.len() - 1 {
                    assert(s.drop_last()[j] == x);
                }
            }
            if s.drop_last().contains(x) {
                let j = choose|j: int| 0 <= j < s.drop_last().len() && s.drop_last()[j] == x;
                assert(s[j] == x);
            }
            if !s.drop_last().contains(s.last()) {
                let r = first_occurrences(s.drop_last());
                if r.push(s.last()).contains(x) {
                    let j = choose|j: int| 0 <= j < r.push(s.last()).len() && r.push(s.last())[j] == x;
                    if j < r.len() {
                        assert(r[j] == x);
                    }
                }
                if r.contains(x) {
                    let j = choose|j: int| 0 <= j < r.len() && r[j] == x;
                    assert(r.push(s.last())[j] == x);
                }
                assert(r.push(s.last())[r.len() as int] == s.last());
            }
            assert(s[s.len() - 1] == s.last());
        }
    }
}

/// Whether `v` holds a string equal to `s`.
fn holds(v: &Vec<String>, s: &String) -> (b: bool)
    ensures
        b == texts(v@).contains(s@),
{
    let n = v.len();
    for i in 0..n
        invariant
            n == v.len(),
            forall|j: int| 0 <= j < i ==> v@[j]@ != s@,
    {
        if v[i] == *s {
            assert(texts(v@)[i as int] == s@);
            return true;
        }
    }
    assert forall|j: int| 0 <= j < texts(v@).len() implies texts(v@)[j] != s@ by {
        assert(texts(v@)[j] == v@[j]@);
    }
    false
}

/// Removes repeated commands, keeping the first occurrence of each: in a
/// newest-first list, the most recent use.
pub fn dedup_commands(commands: &Vec<String>) -> (r: Vec<String>)
    ensures
        texts(r@) == first_occurrences(texts(commands@)),
{
    let mut out: Vec<String> = Vec::new();
    let n = commands.len();
    for i in 0..n
        invariant
            n == commands.len(),
            texts(out@) == first_occurrences(texts(commands@).take(i as int)),
    {
        let ghost prefix = texts(commands@).take(i + 1);
        assert(prefix.drop_last() =~= texts(commands@).take(i as int));
        assert(prefix.last() == commands@[i as int]@);
        proof {
            lemma_first_occurrences_same_elements(texts(commands@).take(i as int));
        }
        if !holds(&out, &commands[i]) {
            let ghost before = out@;
            out.push(commands[i].clone());
            assert(texts(out@) =~= texts(before).push(commands@[i as int]@));
        }
    }
    assert(texts(commands@).take(n as int) =~= texts(commands@));
    out
}

/// The commands offered for a history and an optional filter: the commands
/// of the lines that pass the filter, newest first, each command once.
pub open spec fn offered_commands(lines: Seq<Seq<char>>, filter: Option<Seq<char>>) -> Seq<
    Seq<char>,
> {
    first_occurrences(history_commands(lines, filter_flags(filter, lines)))
}

/// A history in which some kept line carries a command yields at least one
/// command.
pub proof fn lemma_history_commands_nonempty(lines: Seq<Seq<char>>, keep: Seq<bool>, i: int)
    requires
        0 <= i < lines.len(),
        i < keep.len(),
        keep[i],
        history_command(lines[i]) is Some,
    ensures
        history_commands(lines, keep).len() > 0,
    decreases lines.len(),
{
    if i < lines.len() - 1 {
        lemma_history_commands_nonempty(lines.drop_last(), keep, i);
    }
}

/// A non-empty list has a non-empty list of first occurrences.
pub proof fn lemma_first_occurrences_nonempty(s: Seq<Seq<char>>)
    requires
        s.len() > 0,
    ensures
        first_occurrences(s).len() > 0,
{
    lemma_first_occurrences_same_elements(s);
    assert(s.contains(s[0]));
}

/// The first occurrences hold no element twice.
pub proof fn lemma_first_occurrences_no_duplicates(s: Seq<Seq<char>>)
    ensures
        first_occurrences(s).no_duplicates(),
    decreases s.len(),
{
    if s.len() > 0 {
        let d = s.drop_last();
        lemma_first_occurrences_no_duplicates(d);
        lemma_first_occurrences_same_elements(d);
        let r = first_occurrences(d);
        if !d.contains(s.last()) {
            assert forall|i: int, j: int|
                0 <= i < r.push(s.last()).len() && 0 <= j < r.push(s.last()).len() && i
                    != j implies r.push(s.last())[i] != r.push(s.last())[j] by {
                if i < r.len() && j < r.len() {
                } else if i < r.len() {
                    assert(r.contains(r[i]));
                } else {
                    assert(r.contains(r[j]));
                }
            }
        }
    }
}

/// A list without repeats is its own list of first occurrences; in
/// particular removing repeats twice is the same as removing them once.
pub proof fn lemma_first_occurrences_of_distinct(s: Seq<Seq<char>>)
    requires
        s.no_duplicates(),
    ensures
        first_occurrences(s) == s,
    decreases s.len(),
{
    if s.len() > 0 {
        let d = s.drop_last();
        assert(d.no_duplicates());
        lemma_first_occurrences_of_distinct(d);
        if d.contains(s.last()) {
            let j = choose|j: int| 0 <= j < d.len() && d[j] == s.last();
            assert(s[j] == s[s.len() - 1]);
        }
        assert(d.push(s.last()) =~= s);
    }
}

/// Removing repeats twice is the same as removing them once.
pub proof fn lemma_first_occurrences_idempotent(s: Seq<Seq<char>>)
    ensures
        first_occurrences(first_occurrences(s)) == first_occurrences(s),
{
    lemma_first_occurrences_no_duplicates(s);
    lemma_first_occurrences_of_distinct(first_occurrences(s));
}

/// The first element always survives the removal of repeats.
pub proof fn lemma_first_occurrences_keeps_first(s: Seq<Seq<char>>)
    requires
        s.len() > 0,
    ensures
        first_occurrences(s).len() > 0,
        first_occurrences(s)[0] == s[0],
    decreases s.len(),
{
    let d = s.drop_last();
    if s.len() > 1 {
        lemma_first_occurrences_keeps_first(d);
        assert(d[0] == s[0]);
    } else {
        assert(first_occurrences(d) =~= Seq::<Seq<char>>::empty());
        assert(!d.contains(s.last()));
    }
}

/// Removing repeats keeps the order of first appearance: of two kept
/// elements, the earlier one appears in `s` before any occurrence of the
/// later one.
pub proof fn lemma_first_occurrences_order(s: Seq<Seq<char>>, a: int, b: int)
    requires
        0 <= a < b < first_occurrences(s).len(),
    ensures
        exists|i: int|
            0 <= i < s.len() && s[i] == first_occurrences(s)[a] && !(#[trigger] s.take(
                i + 1,
            )).contains(first_occurrences(s)[b]),
    decreases s.len(),
{
    let d = s.drop_last();
    let r = first_occurrences(d);
    lemma_first_occurrences_same_elements(d);
    if b < r.len() {
        lemma_first_occurrences_order(d, a, b);
        let i = choose|i: int|
            0 <= i < d.len() && d[i] == r[a] && !(#[trigger] d.take(i + 1)).contains(r[b]);
        assert(s.take(i + 1) =~= d.take(i + 1));
        assert(s[i] == d[i]);
    } else {
        assert(!d.contains(s.last()));
        assert(first_occurrences(s) == r.push(s.last()));
        assert(first_occurrences(s)[a] == r[a]);
        assert(first_occurrences(s)[b] == s.last());
        assert(r.contains(r[a]));
        assert(d.contains(r[a]));
        let i = choose|i: int| 0 <= i < d.len() && d[i] == r[a];
        assert(s[i] == d[i]);
        if s.take(i + 1).contains(s.last()) {
            let t = s.take(i + 1);
            let k = choose|k: int| 0 <= k < t.len() && t[k] == s.last();
            assert(d[k] == s.last());
        }
    }
}

/// The commands of a history are exactly those carried by its kept lines.
pub proof fn lemma_history_commands_elements(lines: Seq<Seq<char>>, keep: Seq<bool>)
    requires
        keep.len() >= lines.len(),
    ensures
        forall|x: Seq<char>|
            history_commands(lines, keep).contains(x) <==> exists|i: int|
                0 <= i < lines.len() && keep[i] && #[trigger] history_command(lines[i]) == Some(
                    x,
                ),
    decreases lines.len(),
{
    if lines.len() > 0 {
        let d = lines.drop_last();
        let n = lines.len() - 1;
        lemma_history_commands_elements(d, keep);
        let rest = history_commands(d, keep);
        assert forall|x: Seq<char>|
            history_commands(lines, keep).contains(x) <==> exists|i: int|
                0 <= i < lines.len() && keep[i] && #[trigger] history_command(lines[i]) == Some(
                    x,
                ) by {
            if keep[n] && history_command(lines[n]) is Some {
                let c = history_command(lines[n])->0;
                let all = seq![c] + rest;
                if all.contains(x) {
                    let k = choose|k: int| 0 <= k < all.len() && all[k] == x;
                    if k > 0 {
                        assert(rest[k - 1] == x);
                        assert(rest.contains(x));
                        let i = choose|i: int|
                            0 <= i < d.len() && keep[i] && #[trigger] history_command(
                                d[i],
                            ) == Some(x);
                        assert(lines[i] == d[i]);
                    } else {
                        assert(history_command(lines[n]) == Some(x));
                    }
                }
                if exists|i: int|
                    0 <= i < lines.len() && keep[i] && #[trigger] history_command(lines[i])
                        == Some(x) {
                    let i = choose|i: int|
                        0 <= i < lines.len() && keep[i] && #[trigger] history_command(lines[i])
                            == Some(x);
                    if i < n {
                        assert(d[i] == lines[i]);
                        assert(rest.contains(x));
                        let k = choose|k: int| 0 <= k < rest.len() && rest[k] == x;
                        assert(all[k + 1] == x);
                    } else {
                        assert(all[0] == x);
                    }
                }
            } else {
                if rest.contains(x) {
                    let i = choose|i: int|
                        0 <= i < d.len() && keep[i] && #[trigger] history_command(d[i])
                            == Some(x);
                    assert(lines[i] == d[i]);
                }
                if exists|i: int|
                    0 <= i < lines.len() && keep[i] && #[trigger] history_command(lines[i])
                        == Some(x) {
                    let i = choose|i: int|
                        0 <= i < lines.len() && keep[i] && #[trigger] history_command(lines[i])
                            == Some(x);
                    assert(i < n);
                    assert(d[i] == lines[i]);
                }
            }
        }
    }
}

/// How many kept lines after line `i` carry a command.
pub open spec fn later_commands(lines: Seq<Seq<char>>, keep: Seq<bool>, i: int) -> nat
    decreases lines.len(),
{
    if lines.len() == 0 || i + 1 >= lines.len() {
        0
    } else {
        later_commands(lines.drop_last(), keep, i) + (if keep[lines.len() - 1] && history_command(
            lines.last(),
        ) is Some {
            1nat
        } else {
            0nat
        })
    }
}

/// The command of a kept line stands after the commands of all later kept
/// lines: at the position given by their number.
pub proof fn lemma_history_commands_position(lines: Seq<Seq<char>>, keep: Seq<bool>, i: int)
    requires
        0 <= i < lines.len(),
        keep.len() >= lines.len(),
        keep[i],
        history_command(lines[i]) is Some,
    ensures
        later_commands(lines, keep, i) < history_commands(lines, keep).len(),
        history_commands(lines, keep)[later_commands(lines, keep, i) as int]
            == history_command(lines[i])->0,
    decreases lines.len(),
{
    if i + 1 < lines.len() {
        let d = lines.drop_last();
        assert(d[i] == lines[i]);
        lemma_history_commands_position(d, keep, i);
    }
}

/// Newest first: the command of a later kept line comes before the command
/// of an earlier one.
pub proof fn lemma_history_commands_newest_first(
    lines: Seq<Seq<char>>,
    keep: Seq<bool>,
    i: int,
    j: int,
)
    requires
        0 <= i < j < lines.len(),
        keep.len() >= lines.len(),
        keep[j],
        history_command(lines[j]) is Some,
    ensures
        later_commands(lines, keep, j) < later_commands(lines, keep, i),
    decreases lines.len(),
{
    if j + 1 < lines.len() {
        let d = lines.drop_last();
        assert(d[j] == lines[j]);
        lemma_history_commands_newest_first(d, keep, i, j);
    } else {
        assert(lines.last() == lines[j]);
    }
}

/// The offered commands hold no command twice, and hold exactly the commands
/// of the lines that pass the filter.
pub proof fn lemma_offered_commands(lines: Seq<Seq<char>>, filter: Option<Seq<char>>)
    ensures
        offered_commands(lines, filter).no_duplicates(),
        forall|x: Seq<char>|
            offered_commands(lines, filter).contains(x) <==> exists|i: int|
                0 <= i < lines.len() && passes(filter, lines[i]) && #[trigger] history_command(
                    lines[i],
                ) == Some(x),
{
    let keep = filter_flags(filter, lines);
    let h = history_commands(lines, keep);
    lemma_first_occurrences_no_duplicates(h);
    lemma_first_occurrences_same_elements(h);
    lemma_history_commands_elements(lines, keep);
    assert forall|x: Seq<char>|
        offered_commands(lines, filter).contains(x) <==> exists|i: int|
            0 <= i < lines.len() && passes(filter, lines[i]) && #[trigger] history_command(lines[i])
                == Some(x) by {
        if h.contains(x) {
            let i = choose|i: int|
                0 <= i < lines.len() && keep[i] && #[trigger] history_command(lines[i]) == Some(x);
        }
        if exists|i: int|
            0 <= i < lines.len() && passes(filter, lines[i]) && #[trigger] history_command(lines[i])
                == Some(x) {
            let i = choose|i: int|
                0 <= i < lines.len() && passes(filter, lines[i]) && #[trigger] history_command(
                    lines[i],
                ) == Some(x);
            assert(keep[i]);
        }
    }
}

/// The first offered command is that of the newest line that passes the
/// filter and carries a command.
pub proof fn lemma_offered_commands_newest(
    lines: Seq<Seq<char>>,
    filter: Option<Seq<char>>,
    j: int,
)
    requires
        0 <= j < lines.len(),
        passes(filter, lines[j]),
        history_command(lines[j]) is Some,
        forall|k: int|
            j < k < lines.len() ==> !(passes(filter, lines[k]) && #[trigger] history_command(
                lines[k],
            ) is Some),
    ensures
        offered_commands(lines, filter).len() > 0,
        offered_commands(lines, filter)[0] == history_command(lines[j])->0,
{
    let keep = filter_flags(filter, lines);
    assert(later_commands(lines, keep, j) == 0) by {
        lemma_no_later_commands(lines, keep, j);
    }
    lemma_history_commands_position(lines, keep, j);
    lemma_first_occurrences_keeps_first(history_commands(lines, keep));
}

/// No kept line after `j` carries a command, so none is counted.
proof fn lemma_no_later_commands(lines: Seq<Seq<char>>, keep: Seq<bool>, j: int)
    requires
        0 <= j < lines.len(),
        keep.len() >= lines.len(),
        forall|k: int|
            j < k < lines.len() ==> !(keep[k] && #[trigger] history_command(lines[k]) is Some),
    ensures
        later_commands(lines, keep, j) == 0,
    decreases lines.len(),
{
    if j + 1 < lines.len() {
        let d = lines.drop_last();
        assert forall|k: int| j < k < d.len() implies !(keep[k] && #[trigger] history_command(
            d[k],
        ) is Some) by {
            assert(d[k] == lines[k]);
        }
        lemma_no_later_commands(d, keep, j);
        assert(!(keep[lines.len() - 1] && history_command(lines[lines.len() - 1]) is Some));
    }
}

/// Every command of a history stands there for some kept line: the one
/// with exactly that many later kept lines carrying commands.
pub proof fn lemma_history_commands_source(lines: Seq<Seq<char>>, keep: Seq<bool>, p: int)
    requires
        keep.len() >= lines.len(),
        0 <= p < history_commands(lines, keep).len(),
    ensures
        exists|i: int|
            0 <= i < lines.len() && keep[i] && history_command(lines[i]) is Some
                && #[trigger] later_commands(lines, keep, i) == p,
    decreases lines.len(),
{
    let d = lines.drop_last();
    let n = lines.len() - 1;
    if keep[n] && history_command(lines[n]) is Some {
        if p == 0 {
            assert(later_commands(lines, keep, n) == 0);
        } else {
            lemma_history_commands_source(d, keep, p - 1);
            let i = choose|i: int|
                0 <= i < d.len() && keep[i] && history_command(d[i]) is Some
                    && #[trigger] later_commands(d, keep, i) == p - 1;
            assert(d[i] == lines[i]);
            assert(later_commands(lines, keep, i) == p);
        }
    } else {
        lemma_history_commands_source(d, keep, p);
        let i = choose|i: int|
            0 <= i < d.len() && keep[i] && history_command(d[i]) is Some
                && #[trigger] later_commands(d, keep, i) == p;
        assert(d[i] == lines[i]);
        assert(later_commands(lines, keep, i) == p);
    }
}

/// Line `i` passes the filter and carries the command `x`.
pub open spec fn used_at(lines: Seq<Seq<char>>, filter: Option<Seq<char>>, i: int, x: Seq<char>) -> bool {
    &&& 0 <= i < lines.len()
    &&& passes(filter, lines[i])
    &&& history_command(lines[i]) == Some(x)
}

/// Newest first throughout: of two offered commands, the earlier one was
/// used (on a line that passes the filter) after every use of the later one.
pub proof fn lemma_offered_commands_by_recency(
    lines: Seq<Seq<char>>,
    filter: Option<Seq<char>>,
    a: int,
    b: int,
)
    requires
        0 <= a < b < offered_commands(lines, filter).len(),
    ensures
        exists|i: int|
            #[trigger] used_at(lines, filter, i, offered_commands(lines, filter)[a]) && forall|
                j: int,
            |
                #[trigger] used_at(lines, filter, j, offered_commands(lines, filter)[b]) ==> j < i,
{
    let keep = filter_flags(filter, lines);
    let h = history_commands(lines, keep);
    let o = first_occurrences(h);
    lemma_first_occurrences_no_duplicates(h);
    lemma_first_occurrences_order(h, a, b);
    let p = choose|p: int|
        0 <= p < h.len() && h[p] == o[a] && !(#[trigger] h.take(p + 1)).contains(o[b]);
    lemma_history_commands_source(lines, keep, p);
    let l = choose|i: int|
        0 <= i < lines.len() && keep[i] && history_command(lines[i]) is Some
            && #[trigger] later_commands(lines, keep, i) == p;
    lemma_history_commands_position(lines, keep, l);
    assert(used_at(lines, filter, l, o[a]));
    assert forall|j: int| #[trigger] used_at(lines, filter, j, o[b]) implies j < l by {
        assert(keep[j]);
        lemma_history_commands_position(lines, keep, j);
        let q = later_commands(lines, keep, j) as int;
        assert(h[q] == o[b]);
        if q <= p {
            assert(h.take(p + 1)[q] == o[b]);
            assert(h.take(p + 1).contains(o[b]));
        }
        if j == l {
            assert(o[a] == o[b]);
        }
        if j > l {
            lemma_history_commands_newest_first(lines, keep, l, j);
        }
    }
}

} // verus!
