//! Regular-expression checks on command lines.

use vstd::prelude::*;
use crate::text::{contains_seq, occurs_at};

verus! {

/// Whether `pattern` compiles (`Some`) and, if so, whether it matches
/// somewhere in `hay`.
pub uninterp spec fn regex_search(pattern: Seq<char>, hay: Seq<char>) -> Option<bool>;

/// Relies on `regex::Regex::new`, which fails on a pattern that does not
/// compile, and `regex::Regex::is_match`, which tells whether the compiled
/// pattern matches anywhere in `hay`. What the four patterns below match
/// follows from regex's syntax, where `.` stands for any character but a
/// line break, `*` for any number of repeats and `+?` for at least one.
#[verifier::external_body]
pub(crate) fn regex_is_match(pattern: &str, hay: &str) -> (r: Option<bool>)
    ensures
        r == regex_search(pattern@, hay@),
        pattern@ == LOAD_SHAPE@ ==> r == Some(load_shape(hay@)),
        pattern@ == SELECT_MARKER@ ==> r == Some(contains_seq(hay@, "select()"@)),
        pattern@ == WILDCARD_COLS@ ==> r == Some(wildcard_clause(hay@)),
        pattern@ == COLS_CLAUSE@ ==> r == Some(cols_clause_from(hay@, 0) is Some),
{
    match regex::Regex::new(pattern) {
        Ok(re) => Some(re.is_match(hay)),
        Err(_) => None,
    }
}

/// The shape of a load command: `load(` a path holding a `.`, `)`, then
/// `.separator(` one character `)`.
pub const LOAD_SHAPE: &'static str = "load\\(.+\\..+\\)\\.separator\\(.{1}\\)";

/// The marker that a select command holds.
pub const SELECT_MARKER: &'static str = "select\\(\\)";

/// A `.cols()` clause holding only wildcard stars.
pub const WILDCARD_COLS: &'static str = "\\.cols\\(\\**\\)";

/// A `.cols(...)` clause.
pub const COLS_CLAUSE: &'static str = "\\.cols\\((.*)+?\\)";

/// `s` holds `load(`, then a run of at least three characters, none a
/// line break, with a `.` neither first nor last, then `).separator(`,
/// one character that is not a line break, and `)`.
pub open spec fn load_shape(s: Seq<char>) -> bool {
    exists|a: int, d: int, c: int|
        #[trigger] occurs_at(s, "load("@, a) && a + 6 <= d && d + 2 <= c && #[trigger] s[d] == '.'
            && #[trigger] occurs_at(
            s,
            ").separator("@,
            c,
        ) && c + 14 <= s.len() && s[c + 12] != '\n' && s[c + 13] == ')' && forall|m: int|
            a + 5 <= m < c ==> #[trigger] s[m] != '\n'
}

/// `s` holds `.cols(`, then only `*`s (perhaps none), then `)`.
pub open spec fn wildcard_clause(s: Seq<char>) -> bool {
    exists|i: int, k: int|
        #[trigger] occurs_at(s, ".cols("@, i) && i + 6 <= k < s.len() && #[trigger] s[k] == ')' && forall|m: int|
            i + 6 <= m < k ==> #[trigger] s[m] == '*'
}

/// The first `)` at or after `j` with no line break before it from `j` on.
pub open spec fn close_on_line(s: Seq<char>, j: int) -> Option<int>
    decreases s.len() - j,
{
    if j < 0 || j >= s.len() {
        None
    } else if s[j] == ')' {
        Some(j)
    } else if s[j] == '\n' {
        None
    } else {
        close_on_line(s, j + 1)
    }
}

/// The first position at or after `i` where `.cols(` starts with a `)`
/// later on the same line.
pub open spec fn cols_clause_from(s: Seq<char>, i: int) -> Option<int>
    decreases s.len() + 1 - i,
{
    if i < 0 || i > s.len() {
        None
    } else if occurs_at(s, ".cols("@, i) && close_on_line(s, i + 6) is Some {
        Some(i)
    } else {
        cols_clause_from(s, i + 1)
    }
}

} // verus!
