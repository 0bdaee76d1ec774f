//! Parsing command lines: which command a line holds, the arguments of
//! a load command, and the column list of a select command.

use vstd::prelude::*;
use crate::loader::{get_file_data, load_result_matches};
use crate::models::{Command, FileData, FileName, ProjectionRequest, QueryError, Selection, string_views};
use crate::pattern::{
    COLS_CLAUSE, LOAD_SHAPE, SELECT_MARKER, WILDCARD_COLS, close_on_line, cols_clause_from,
    load_shape, regex_is_match, wildcard_clause,
};
use crate::projection::{Projection, project, resolve};
use crate::text::{
    chars_of, contains_chars, contains_seq, occurs_at, occurs_at_exec, positions, positions_of,
    split, split_chars, string_from, sub_chars, views,
};

verus! {

/// The command that a line holds, by the words `load` and `select` in it.
pub open spec fn command_of(s: Seq<char>) -> Command {
    let l = contains_seq(s, "load"@);
    let sl = contains_seq(s, "select"@);
    if l && !sl {
        Command::LOAD
    } else if sl && !l {
        Command::SELECT
    } else if sl && l {
        Command::UMBIGUOUS
    } else {
        Command::UNKNOWN
    }
}

/// Tells which command `arg` holds.
pub fn find_query(arg: &str) -> (r: Command)
    ensures
        r == command_of(arg@),
{
    let s = chars_of(arg);
    let l = contains_chars(&s, &chars_of("load"));
    let sl = contains_chars(&s, &chars_of("select"));
    if l && !sl {
        Command::LOAD
    } else if sl && !l {
        Command::SELECT
    } else if sl && l {
        Command::UMBIGUOUS
    } else {
        Command::UNKNOWN
    }
}

/// A line holding both `load(` and `select()` is ambiguous.
pub proof fn law_load_and_select_ambiguous(s: Seq<char>)
    requires
        contains_seq(s, "load("@),
        contains_seq(s, "select()"@),
    ensures
        command_of(s) == Command::UMBIGUOUS,
{
    reveal_strlit("load(");
    reveal_strlit("load");
    reveal_strlit("select()");
    reveal_strlit("select");
    let i = choose|i: int| occurs_at(s, "load("@, i);
    assert(s.subrange(i, i + 4) =~= s.subrange(i, i + 5).subrange(0, 4));
    assert("load("@.subrange(0, 4) =~= "load"@);
    assert(occurs_at(s, "load"@, i));
    let j = choose|j: int| occurs_at(s, "select()"@, j);
    assert(s.subrange(j, j + 6) =~= s.subrange(j, j + 8).subrange(0, 6));
    assert("select()"@.subrange(0, 6) =~= "select"@);
    assert(occurs_at(s, "select"@, j));
}

/// Checks that `arg` has the shape of a load command.
pub fn verify_load_input(arg: &str) -> (r: Result<(), QueryError>)
    ensures
        r is Ok <==> load_shape(arg@),
        r is Err ==> r->Err_0 is MalformedLoad,
{
    match regex_is_match(LOAD_SHAPE, arg) {
        Some(true) => Ok(()),
        _ => Err(QueryError::MalformedLoad),
    }
}

/// Checks that `arg` holds the `select()` marker.
pub fn verify_select_input(arg: &str) -> (r: Result<(), QueryError>)
    ensures
        r is Ok <==> contains_seq(arg@, "select()"@),
        r is Err ==> r->Err_0 is MissingSelect,
{
    match regex_is_match(SELECT_MARKER, arg) {
        Some(true) => Ok(()),
        _ => Err(QueryError::MissingSelect),
    }
}

/// The path and separator of a load command: the text inside the first
/// and inside the second pair of parentheses.
pub open spec fn load_arguments(s: Seq<char>) -> Result<(Seq<char>, Seq<char>), QueryError> {
    let o = positions(s, '(');
    let c = positions(s, ')');
    if o.len() != c.len() {
        Err(QueryError::UnbalancedParentheses)
    } else if o.len() < 2 || o[0] >= c[0] || o[1] >= c[1] {
        Err(QueryError::MalformedLoad)
    } else {
        Ok((s.subrange(o[0] + 1, c[0]), s.subrange(o[1] + 1, c[1])))
    }
}

/// Reads the file path and the separator out of a load command.
pub fn get_file_name_and_separator(arg: String) -> (r: Result<FileName, QueryError>)
    ensures
        match (r, load_arguments(arg@)) {
            (Ok(f), Ok((n, sep))) => f.name@ == n && f.separator@ == sep,
            (Err(QueryError::UnbalancedParentheses), Err(QueryError::UnbalancedParentheses)) => true,
            (Err(QueryError::MalformedLoad), Err(QueryError::MalformedLoad)) => true,
            _ => false,
        },
{
    let s = chars_of(arg.as_str());
    let opens = positions_of(&s, '(');
    let closes = positions_of(&s, ')');
    let ghost o = positions(s@, '(');
    let ghost c = positions(s@, ')');
    assert(opens@.len() == o.len());
    assert(closes@.len() == c.len());
    if opens.len() != closes.len() {
        return Err(QueryError::UnbalancedParentheses);
    }
    if opens.len() < 2 || opens[0] >= closes[0] || opens[1] >= closes[1] {
        proof {
            if opens.len() >= 2 {
                assert(o[0] == opens@[0] as int);
                assert(o[1] == opens@[1] as int);
                assert(c[0] == closes@[0] as int);
                assert(c[1] == closes@[1] as int);
            }
        }
        return Err(QueryError::MalformedLoad);
    }
    assert(o[0] == opens@[0] as int);
    assert(o[1] == opens@[1] as int);
    assert(c[0] == closes@[0] as int);
    assert(c[1] == closes@[1] as int);
    let name = string_from(&sub_chars(&s, opens[0] + 1, closes[0]));
    let separator = string_from(&sub_chars(&s, opens[1] + 1, closes[1]));
    Ok(FileName { name, separator })
}

/// The text of the first `.cols(...)` clause closed on its line: from
/// after its `(` up to the first `)`.
pub open spec fn cols_content(s: Seq<char>) -> Option<Seq<char>> {
    match cols_clause_from(s, 0) {
        Some(i) => Some(s.subrange(i + 6, close_on_line(s, i + 6)->0)),
        None => None,
    }
}

/// The column choice of a select command, given whether it holds a
/// wildcard-only `.cols()` clause (`wildcard`) and whether it holds a
/// `.cols(...)` clause at all (`clause`); `None` when it names none.
pub open spec fn selection_of(s: Seq<char>, wildcard: Option<bool>, clause: Option<bool>) -> Option<
    Selection,
> {
    if wildcard == Some(true) {
        Some(Selection::All)
    } else if clause == Some(true) {
        match cols_content(s) {
            Some(c) => Some(Selection::Columns(split(c, ','))),
            None => None,
        }
    } else {
        None
    }
}

/// The column choice of the select command `s`: every column for a
/// wildcard-only `.cols()` clause, else the comma-separated names of its
/// first `.cols(...)` clause closed on its line; `None` when it has neither.
pub open spec fn select_selection(s: Seq<char>) -> Option<Selection> {
    selection_of(s, Some(wildcard_clause(s)), Some(cols_clause_from(s, 0) is Some))
}

proof fn lemma_close_on_line(s: Seq<char>, j: int)
    ensures
        close_on_line(s, j) matches Some(k) ==> j <= k < s.len() && s[k] == ')',
    decreases s.len() - j,
{
    if 0 <= j < s.len() && s[j] != ')' && s[j] != '\n' {
        lemma_close_on_line(s, j + 1);
    }
}

/// The first `)` at or after `j` in `s` with no line break before it.
fn find_close_on_line(s: &Vec<char>, j: usize) -> (r: Option<usize>)
    ensures
        match r {
            Some(k) => close_on_line(s@, j as int) == Some(k as int),
            None => close_on_line(s@, j as int) is None,
        },
{
    let mut k: usize = j;
    while k < s.len()
        invariant
            j <= k,
            close_on_line(s@, j as int) == close_on_line(s@, k as int),
        decreases s.len() - k,
    {
        if s[k] == ')' {
            return Some(k);
        }
        if s[k] == '\n' {
            return None;
        }
        k = k + 1;
    }
    None
}

/// Reads the column choice out of `arg`, given the outcome of the
/// wildcard-only and the clause pattern searches on it.
pub fn projection_request(arg: &str, wildcard: Option<bool>, clause: Option<bool>) -> (r: Result<
    ProjectionRequest,
    QueryError,
>)
    ensures
        match (r, selection_of(arg@, wildcard, clause)) {
            (Ok(req), Some(sel)) => req@ == sel,
            (Err(QueryError::MissingCols), None) => true,
            _ => false,
        },
{
    if wildcard == Some(true) {
        return Ok(ProjectionRequest::All);
    }
    if clause != Some(true) {
        return Err(QueryError::MissingCols);
    }
    let s = chars_of(arg);
    let open = chars_of(".cols(");
    proof {
        reveal_strlit(".cols(");
    }
    assert(open@.len() == 6);
    let mut i: usize = 0;
    loop
        invariant
            i <= s@.len(),
            open@ == ".cols("@,
            open@.len() == 6,
            s@ == arg@,
            clause == Some(true),
            wildcard != Some(true),
            cols_clause_from(s@, 0) == cols_clause_from(s@, i as int),
        decreases s@.len() - i,
    {
        if occurs_at_exec(&s, &open, i) {
            let total = s.len();
            assert(i + 6 <= total);
            match find_close_on_line(&s, i + 6) {
                Some(j) => {
                    proof {
                        lemma_close_on_line(s@, i + 6);
                    }
                    let content = sub_chars(&s, i + 6, j);
                    let pieces = split_chars(&content, ',');
                    let mut names: Vec<String> = Vec::new();
                    let mut k: usize = 0;
                    while k < pieces.len()
                        invariant
                            k <= pieces@.len(),
                            string_views(names@) == views(pieces@).take(k as int),
                        decreases pieces@.len() - k,
                    {
                        let name = string_from(&pieces[k]);
                        let ghost prev = string_views(names@);
                        names.push(name);
                        assert(string_views(names@) =~= prev.push(name@));
                        assert(views(pieces@).take(k as int + 1) =~= views(pieces@).take(
                            k as int,
                        ).push(pieces@[k as int]@));
                        k = k + 1;
                    }
                    assert(views(pieces@).take(k as int) =~= views(pieces@));
                    return Ok(ProjectionRequest::Columns(names));
                },
                None => {},
            }
        }
        if i == s.len() {
            assert(cols_clause_from(s@, i + 1) is None);
            return Err(QueryError::MissingCols);
        }
        i = i + 1;
    }
}

/// Reads the column choice of a select command.
pub fn parse_select(arg: &str) -> (r: Result<ProjectionRequest, QueryError>)
    ensures
        match (
            r,
            select_selection(arg@),
        ) {
            (Ok(req), Some(sel)) => req@ == sel,
            (Err(QueryError::MissingCols), None) => true,
            _ => false,
        },
{
    let wildcard = regex_is_match(WILDCARD_COLS, arg);
    let clause = regex_is_match(COLS_CLAUSE, arg);
    projection_request(arg, wildcard, clause)
}

/// Runs the column part of a select command against `file_data`.
pub fn execute_columns<'a>(arg: &str, file_data: &'a FileData) -> (r: Result<
    Projection<'a>,
    QueryError,
>)
    requires
        file_data.wf(),
    ensures
        match select_selection(arg@) {
            Some(sel) => r is Ok && r->Ok_0.wf() && r->Ok_0.table == file_data && r->Ok_0@
                == resolve(file_data, sel),
            None => r is Err && r->Err_0 is MissingCols,
        },
{
    match parse_select(arg) {
        Ok(req) => Ok(project(file_data, &req)),
        Err(e) => Err(e),
    }
}

/// Runs a select command against `file_data`: it must hold the
/// `select()` marker, then its column choice is resolved.
pub fn execute_query<'a>(arg: String, file_data: &'a FileData) -> (r: Result<
    Projection<'a>,
    QueryError,
>)
    requires
        file_data.wf(),
    ensures
        !contains_seq(arg@, "select()"@) ==> r is Err && r->Err_0 is MissingSelect,
        contains_seq(arg@, "select()"@) ==> match select_selection(arg@) {
            Some(sel) => r is Ok && r->Ok_0.wf() && r->Ok_0.table == file_data && r->Ok_0@
                == resolve(file_data, sel),
            None => r is Err && r->Err_0 is MissingCols,
        },
{
    match verify_select_input(arg.as_str()) {
        Ok(()) => execute_columns(arg.as_str(), file_data),
        Err(e) => Err(e),
    }
}

/// Loads `file_content`, the text of the file that `file_name` names,
/// with its separator; the separator must be one character.
pub fn execute_load_query(file_name: &FileName, file_content: &str) -> (r: Result<
    FileData,
    QueryError,
>)
    ensures
        file_name.separator@.len() != 1 ==> r is Err && r->Err_0 is MalformedLoad,
        file_name.separator@.len() == 1 ==> load_result_matches(
            r,
            file_content@,
            file_name.separator@[0],
        ),
{
    if file_name.separator.as_str().unicode_len() != 1 {
        return Err(QueryError::MalformedLoad);
    }
    get_file_data(file_content, file_name.separator.as_str())
}

} // verus!
