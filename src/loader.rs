//! Turning delimited text into a table: the header line names the
//! columns, every later line is one row.

use vstd::prelude::*;
use crate::models::{FileData, QueryError, string_views};
use crate::text::{chars_of, lines, split, split_chars, split_lines, string_from, views};

verus! {

/// Why loading fails, as a value of the model.
pub enum LoadFailure {
    Duplicate(Seq<char>),
    RowShape(int),
}

/// The first index at or after `j` whose name already occurs before it.
pub open spec fn first_repeat(h: Seq<Seq<char>>, j: int) -> Option<int>
    decreases h.len() - j,
{
    if j < 0 || j >= h.len() {
        None
    } else if h.take(j).contains(h[j]) {
        Some(j)
    } else {
        first_repeat(h, j + 1)
    }
}

/// The first line at or after `i` whose field count is not `n`.
pub open spec fn first_bad_row(ls: Seq<Seq<char>>, n: int, sep: char, i: int) -> Option<int>
    decreases ls.len() - i,
{
    if i < 0 || i >= ls.len() {
        None
    } else if split(ls[i], sep).len() != n {
        Some(i)
    } else {
        first_bad_row(ls, n, sep, i + 1)
    }
}

/// The table that the lines `ls` describe: the header's fields as names,
/// and for column `k` the `k`-th field of each later line, in order.
pub open spec fn table_of(ls: Seq<Seq<char>>, sep: char) -> (
    Seq<Seq<char>>,
    Seq<Seq<Seq<char>>>,
) {
    let h = split(ls[0], sep);
    (
        h,
        Seq::new(
            h.len(),
            |k: int| Seq::new((ls.len() - 1) as nat, |i: int| split(ls[i + 1], sep)[k]),
        ),
    )
}

/// What loading `text` with separator `sep` gives: no lines give an empty
/// table; a repeated header name fails first; then the first row of the
/// wrong width; else the table.
pub open spec fn load_outcome(text: Seq<char>, sep: char) -> Result<
    (Seq<Seq<char>>, Seq<Seq<Seq<char>>>),
    LoadFailure,
> {
    let ls = lines(text);
    if ls.len() == 0 {
        Ok((Seq::empty(), Seq::empty()))
    } else {
        let h = split(ls[0], sep);
        match first_repeat(h, 0) {
            Some(j) => Err(LoadFailure::Duplicate(h[j])),
            None => match first_bad_row(ls, h.len() as int, sep, 1) {
                Some(i) => Err(LoadFailure::RowShape(i)),
                None => Ok(table_of(ls, sep)),
            },
        }
    }
}

/// Whether `r` is what loading `text` with `sep` gives.
pub open spec fn load_result_matches(
    r: Result<FileData, QueryError>,
    text: Seq<char>,
    sep: char,
) -> bool {
    match r {
        Ok(t) => t.wf() && load_outcome(text, sep) == Ok::<
            (Seq<Seq<char>>, Seq<Seq<Seq<char>>>),
            LoadFailure,
        >((t.names_view(), t.columns_view())),
        Err(QueryError::DuplicateColumn(n)) => load_outcome(text, sep) == Err::<
            (Seq<Seq<char>>, Seq<Seq<Seq<char>>>),
            LoadFailure,
        >(LoadFailure::Duplicate(n@)),
        Err(QueryError::RowShape(i)) => load_outcome(text, sep) == Err::<
            (Seq<Seq<char>>, Seq<Seq<Seq<char>>>),
            LoadFailure,
        >(LoadFailure::RowShape(i as int)),
        Err(_) => false,
    }
}

proof fn lemma_first_repeat(h: Seq<Seq<char>>, j: int)
    requires
        0 <= j,
    ensures
        match first_repeat(h, j) {
            Some(x) => j <= x < h.len() && h.take(x).contains(h[x]),
            None => forall|x: int| j <= x < h.len() ==> !(#[trigger] h.take(x)).contains(h[x]),
        },
    decreases h.len() - j,
{
    if j < h.len() && !h.take(j).contains(h[j]) {
        lemma_first_repeat(h, j + 1);
    }
}

proof fn lemma_first_bad_row(ls: Seq<Seq<char>>, n: int, sep: char, i: int)
    requires
        0 <= i,
    ensures
        match first_bad_row(ls, n, sep, i) {
            Some(x) => i <= x < ls.len() && split(ls[x], sep).len() != n && forall|y: int|
                i <= y < x ==> #[trigger] split(ls[y], sep).len() == n,
            None => forall|y: int| i <= y < ls.len() ==> #[trigger] split(ls[y], sep).len() == n,
        },
    decreases ls.len() - i,
{
    if i < ls.len() && split(ls[i], sep).len() == n {
        lemma_first_bad_row(ls, n, sep, i + 1);
    }
}

/// Loading text whose header line has N distinct names, and whose every
/// later line has N fields, succeeds with N columns, each holding one cell
/// per later line.
pub proof fn law_uniform_rows_load(text: Seq<char>, sep: char)
    requires
        lines(text).len() >= 1,
        split(lines(text)[0], sep).no_duplicates(),
        forall|i: int|
            1 <= i < lines(text).len() ==> #[trigger] split(lines(text)[i], sep).len() == split(
                lines(text)[0],
                sep,
            ).len(),
    ensures
        load_outcome(text, sep) is Ok,
        load_outcome(text, sep)->Ok_0.0.len() == split(lines(text)[0], sep).len(),
        load_outcome(text, sep)->Ok_0.1.len() == split(lines(text)[0], sep).len(),
        forall|k: int|
            0 <= k < split(lines(text)[0], sep).len() ==> (#[trigger] load_outcome(
                text,
                sep,
            )->Ok_0.1[k]).len() == lines(text).len() - 1,
{
    let ls = lines(text);
    let h = split(ls[0], sep);
    lemma_first_repeat(h, 0);
    if first_repeat(h, 0) is Some {
        let x = first_repeat(h, 0)->0;
        let a = choose|a: int| 0 <= a < h.take(x).len() && h.take(x)[a] == h[x];
        assert(h[a] == h[x]);
    }
    lemma_first_bad_row(ls, h.len() as int, sep, 1);
}

/// Loading a header in which some name occurs twice fails with a
/// duplicate-column error, and the name it reports occurs twice in the
/// header.
pub proof fn law_repeated_name_fails(text: Seq<char>, sep: char, a: int, b: int)
    requires
        lines(text).len() >= 1,
        0 <= a < b < split(lines(text)[0], sep).len(),
        split(lines(text)[0], sep)[a] == split(lines(text)[0], sep)[b],
    ensures
        load_outcome(text, sep) is Err,
        load_outcome(text, sep)->Err_0 is Duplicate,
        exists|p: int, q: int|
            0 <= p < q < split(lines(text)[0], sep).len() && split(lines(text)[0], sep)[p]
                == load_outcome(text, sep)->Err_0->Duplicate_0 && split(lines(text)[0], sep)[q]
                == load_outcome(text, sep)->Err_0->Duplicate_0,
{
    let ls = lines(text);
    let h = split(ls[0], sep);
    lemma_first_repeat(h, 0);
    assert(h.take(b)[a] == h[b]);
    assert(h.take(b).contains(h[b]));
    let x = first_repeat(h, 0)->0;
    let p = choose|p: int| 0 <= p < h.take(x).len() && h.take(x)[p] == h[x];
    assert(h[p] == h[x]);
}

/// When the header's names are distinct and data line `i` (the header
/// being line 0) is the first whose field count differs from the
/// header's, loading fails with a row-shape error reporting `i`.
pub proof fn law_bad_row_reported(text: Seq<char>, sep: char, i: int)
    requires
        split(lines(text)[0], sep).no_duplicates(),
        1 <= i < lines(text).len(),
        split(lines(text)[i], sep).len() != split(lines(text)[0], sep).len(),
        forall|y: int|
            1 <= y < i ==> #[trigger] split(lines(text)[y], sep).len() == split(
                lines(text)[0],
                sep,
            ).len(),
    ensures
        load_outcome(text, sep) == Err::<(Seq<Seq<char>>, Seq<Seq<Seq<char>>>), LoadFailure>(
            LoadFailure::RowShape(i),
        ),
{
    let ls = lines(text);
    let h = split(ls[0], sep);
    lemma_first_repeat(h, 0);
    if first_repeat(h, 0) is Some {
        let x = first_repeat(h, 0)->0;
        let a = choose|a: int| 0 <= a < h.take(x).len() && h.take(x)[a] == h[x];
        assert(h[a] == h[x]);
    }
    lemma_first_bad_row(ls, h.len() as int, sep, 1);
}

/// Whether `names` holds a string equal to `n`.
fn names_contain(names: &Vec<String>, n: &String) -> (r: bool)
    ensures
        r == string_views(names@).contains(n@),
{
    let mut i: usize = 0;
    while i < names.len()
        invariant
            i <= names.len(),
            forall|j: int| 0 <= j < i ==> names@[j]@ != n@,
        decreases names.len() - i,
    {
        if names[i] == *n {
            assert(string_views(names@)[i as int] == n@);
            return true;
        }
        i = i + 1;
    }
    false
}

/// Loads `file_content` into a table, splitting each line at `separator`.
pub fn get_file_data(file_content: &str, separator: &str) -> (r: Result<FileData, QueryError>)
    requires
        separator@.len() == 1,
    ensures
        load_result_matches(r, file_content@, separator@[0]),
{
    let sep = separator.get_char(0);
    let cs = chars_of(file_content);
    let ls = split_lines(&cs);
    let ghost lsv = lines(file_content@);
    if ls.len() == 0 {
        let t = FileData::new();
        assert(t.names_view() =~= Seq::<Seq<char>>::empty());
        assert(t.columns_view() =~= Seq::<Seq<Seq<char>>>::empty());
        return Ok(t);
    }
    let header = split_chars(&ls[0], sep);
    let ghost h = split(lsv[0], sep);
    let n = header.len();
    let mut names: Vec<String> = Vec::new();
    let mut j: usize = 0;
    while j < n
        invariant
            views(ls@) == lsv,
            lsv == lines(file_content@),
            separator@.len() == 1,
            sep == separator@[0],
            h == split(lsv[0], sep),
            lsv.len() > 0,
            views(header@) == h,
            n == header.len(),
            j <= n,
            string_views(names@) == h.take(j as int),
            string_views(names@).no_duplicates(),
            first_repeat(h, 0) == first_repeat(h, j as int),
        decreases n - j,
    {
        let name = string_from(&header[j]);
        assert(name@ == h[j as int]);
        if names_contain(&names, &name) {
            assert(first_repeat(h, j as int) == Some(j as int));
            return Err(QueryError::DuplicateColumn(name));
        }
        let ghost prev = string_views(names@);
        names.push(name);
        assert(string_views(names@) =~= prev.push(h[j as int]));
        assert(h.take(j as int + 1) =~= h.take(j as int).push(h[j as int]));
        j = j + 1;
    }
    assert(h.take(n as int) =~= h);
    assert(first_repeat(h, n as int) == None::<int>);
    let mut rows: Vec<Vec<Vec<char>>> = Vec::new();
    let mut i: usize = 1;
    while i < ls.len()
        invariant
            views(ls@) == lsv,
            lsv == lines(file_content@),
            separator@.len() == 1,
            sep == separator@[0],
            h == split(lsv[0], sep),
            1 <= i <= ls.len(),
            first_repeat(h, 0) == None::<int>,
            n == h.len(),
            rows@.len() == i - 1,
            forall|r: int| 0 <= r < i - 1 ==> #[trigger] views(rows@[r]@) == split(lsv[r + 1], sep),
            forall|r: int| 0 <= r < i - 1 ==> (#[trigger] rows@[r]@).len() == n,
            first_bad_row(lsv, n as int, sep, 1) == first_bad_row(lsv, n as int, sep, i as int),
        decreases ls.len() - i,
    {
        assert(ls@[i as int]@ == lsv[i as int]);
        let fields = split_chars(&ls[i], sep);
        if fields.len() != n {
            return Err(QueryError::RowShape(i));
        }
        rows.push(fields);
        i = i + 1;
    }
    assert(first_bad_row(lsv, n as int, sep, ls.len() as int) == None::<int>);
    let ghost want = table_of(lsv, sep);
    let mut columns: Vec<Vec<String>> = Vec::new();
    let mut k: usize = 0;
    while k < n
        invariant
            views(ls@) == lsv,
            lsv == lines(file_content@),
            separator@.len() == 1,
            sep == separator@[0],
            h == split(lsv[0], sep),
            n == h.len(),
            want == table_of(lsv, sep),
            want.0 == h,
            rows@.len() == ls@.len() - 1,
            forall|r: int| 0 <= r < rows@.len() ==> #[trigger] views(rows@[r]@) == split(lsv[r + 1], sep),
            forall|r: int| 0 <= r < rows@.len() ==> (#[trigger] rows@[r]@).len() == n,
            k <= n,
            columns@.len() == k,
            forall|c: int| 0 <= c < k ==> (#[trigger] columns@[c]@).len() == rows@.len(),
            columns@.map_values(|c: Vec<String>| string_views(c@)) == want.1.take(k as int),
        decreases n - k,
    {
        let mut col: Vec<String> = Vec::new();
        let mut r: usize = 0;
        assert(lsv.len() == ls@.len());
        assert(want.1[k as int].len() == rows@.len());
        assert(string_views(col@) =~= want.1[k as int].take(0));
        while r < rows.len()
            invariant
                views(ls@) == lsv,
                h == split(lsv[0], sep),
                n == h.len(),
                want == table_of(lsv, sep),
                k < n,
                forall|q: int| 0 <= q < rows@.len() ==> #[trigger] views(rows@[q]@) == split(lsv[q + 1], sep),
                forall|q: int| 0 <= q < rows@.len() ==> (#[trigger] rows@[q]@).len() == n,
                rows@.len() == ls@.len() - 1,
                lsv.len() == ls@.len(),
                want.1[k as int].len() == rows@.len(),
                r <= rows.len(),
                string_views(col@) == want.1[k as int].take(r as int),
            decreases rows.len() - r,
        {
            assert(views(rows@[r as int]@)[k as int] == rows@[r as int]@[k as int]@);
            assert(want.1[k as int][r as int] == split(lsv[r + 1], sep)[k as int]);
            let cell = string_from(&rows[r][k]);
            let ghost prev = string_views(col@);
            col.push(cell);
            assert(string_views(col@) =~= prev.push(cell@));
            assert(want.1[k as int].take(r as int + 1) =~= want.1[k as int].take(r as int).push(
                want.1[k as int][r as int],
            ));
            r = r + 1;
        }
        assert(want.1[k as int].take(r as int) =~= want.1[k as int]);
        let ghost prevc = columns@.map_values(|c: Vec<String>| string_views(c@));
        columns.push(col);
        assert(columns@.map_values(|c: Vec<String>| string_views(c@)) =~= prevc.push(
            want.1[k as int],
        ));
        assert(want.1.take(k as int + 1) =~= want.1.take(k as int).push(want.1[k as int]));
        k = k + 1;
    }
    assert(want.1.take(n as int) =~= want.1);
    let t = FileData { names, columns };
    assert(t.names_view() =~= h);
    Ok(t)
}

} // verus!
