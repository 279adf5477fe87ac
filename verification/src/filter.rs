//! Filtering history lines by a user-supplied regular expression.

use vstd::prelude::*;

verus! {

#[verifier::external_type_specification]
#[verifier::external_body]
pub struct ExRegexError(regex::Error);

/// Whether `regex::Regex::new` accepts `pattern`.
pub uninterp spec fn regex_compiles(pattern: Seq<char>) -> bool;

/// Whether the regex built from `pattern` by `regex::Regex::new` finds a match
/// anywhere in `haystack` (`regex::Regex::is_match`).
pub uninterp spec fn regex_matches(pattern: Seq<char>, haystack: Seq<char>) -> bool;

/// Compiles `pattern` with `regex::Regex::new` and, when that succeeds, asks
/// `regex::Regex::is_match` whether it matches `haystack`. Trusted: the error
/// comes back exactly when `regex_compiles` is false of the pattern, and the
/// answer is `regex_matches` of the pattern and the haystack; nothing more is
/// claimed of the regex engine.
#[verifier::external_body]
fn regex_is_match(pattern: &str, haystack: &str) -> (r: Result<bool, regex::Error>)
    ensures
        r is Ok <==> regex_compiles(pattern@),
        r matches Ok(b) ==> b == regex_matches(pattern@, haystack@),
{
    match regex::Regex::new(pattern) {
        Ok(re) => Ok(re.is_match(haystack)),
        Err(e) => Err(e),
    }
}

/// Why the commands of a history could not be read.
#[derive(Debug, PartialEq, Eq, Structural)]
pub enum HistoryError {
    /// The filter is not a valid regular expression.
    InvalidRegex,
}

/// The views of a vector of strings.
pub open spec fn texts(v: Seq<String>) -> Seq<Seq<char>> {
    v.map_values(|s: String| s@)
}

/// Whether a line passes the optional filter: every line passes when there is
/// none, otherwise the lines in which the pattern finds a match.
pub open spec fn passes(filter: Option<Seq<char>>, line: Seq<char>) -> bool {
    match filter {
        None => true,
        Some(p) => regex_matches(p, line),
    }
}

/// For each line, whether it passes the filter.
pub open spec fn filter_flags(filter: Option<Seq<char>>, lines: Seq<Seq<char>>) -> Seq<bool> {
    Seq::new(lines.len(), |i: int| passes(filter, lines[i]))
}

/// Whether testing `n` lines against the filter fails: there is a pattern,
/// it does not compile, and there is a line to test.
pub open spec fn filter_fails(filter: Option<Seq<char>>, n: nat) -> bool {
    match filter {
        None => false,
        Some(p) => !regex_compiles(p) && n > 0,
    }
}

/// The filter as a value of the specification.
pub open spec fn filter_view(filter: Option<&str>) -> Option<Seq<char>> {
    match filter {
        None => None,
        Some(p) => Some(p@),
    }
}

/// Tests every line against the optional filter pattern. Fails exactly when
/// there is a pattern, it is not a valid regular expression, and there is at
/// least one line to test.
pub fn filter_lines(lines: &Vec<String>, filter: Option<&str>) -> (r: Result<
    Vec<bool>,
    HistoryError,
>)
    ensures
        match r {
            Ok(flags) => flags@ == filter_flags(filter_view(filter), texts(lines@)),
            Err(e) => e == HistoryError::InvalidRegex,
        },
        r is Err <==> filter_fails(filter_view(filter), lines.len() as nat),
{
    let mut flags: Vec<bool> = Vec::new();
    let n = lines.len();
    for i in 0..n
        invariant
            n == lines.len(),
            flags.len() == i,
            forall|j: int|
                0 <= j < i ==> flags@[j] == passes(filter_view(filter), #[trigger] lines@[j]@),
            i > 0 ==> !filter_fails(filter_view(filter), lines.len() as nat),
    {
        let keep = match filter {
            None => true,
            Some(p) => match regex_is_match(p, lines[i].as_str()) {
                Ok(b) => b,
                Err(_) => {
                    return Err(HistoryError::InvalidRegex);
                },
            },
        };
        flags.push(keep);
    }
    assert(flags@ =~= filter_flags(filter_view(filter), texts(lines@)));
    Ok(flags)
}

} // verus!
