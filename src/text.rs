//! Character-level text handling: splitting on a separator, line
//! breaking and substring search, each stated over `Seq<char>`.

use vstd::prelude::*;

verus! {

/// The characters of `s`, in order.
pub fn chars_of(s: &str) -> (r: Vec<char>)
    ensures
        r@ == s@,
{
    broadcast use vstd::string::axiom_spec_iter;
    let mut out: Vec<char> = Vec::new();
    for c in it: s.chars()
        invariant
            it.seq() == s@,
            out@ == it.seq().take(it.index() as int),
    {
        out.push(c);
        assert(out@ =~= it.seq().take(it.index() as int + 1));
    }
    assert(out@ =~= s@);
    out
}

/// Relies on `String: FromIterator<&char>`: a string made of the given characters.
#[verifier::external_body]
pub(crate) fn string_from(cs: &Vec<char>) -> (r: String)
    ensures
        r@ == cs@,
{
    cs.iter().collect()
}

/// The character sequences that a list of character vectors holds.
pub open spec fn views(v: Seq<Vec<char>>) -> Seq<Seq<char>> {
    v.map_values(|x: Vec<char>| x@)
}

/// The pieces of `s` between occurrences of `c`; there is always one
/// more piece than there are occurrences.
pub open spec fn split(s: Seq<char>, c: char) -> Seq<Seq<char>>
    decreases s.len(),
{
    if s.len() == 0 {
        seq![Seq::<char>::empty()]
    } else {
        let p = split(s.drop_last(), c);
        if s.last() == c {
            p.push(Seq::<char>::empty())
        } else {
            p.update(p.len() - 1, p.last().push(s.last()))
        }
    }
}

pub proof fn lemma_split_nonempty(s: Seq<char>, c: char)
    ensures
        split(s, c).len() >= 1,
    decreases s.len(),
{
    if s.len() > 0 {
        lemma_split_nonempty(s.drop_last(), c);
    }
}

/// A line without the carriage return that ends it, if any.
pub open spec fn strip_cr(l: Seq<char>) -> Seq<char> {
    if l.len() > 0 && l.last() == '\r' {
        l.drop_last()
    } else {
        l
    }
}

/// The lines of `s`: pieces ended by `\n` (or `\r\n`); a last piece is a
/// line only when it is not empty, so text ending in a newline has no
/// empty last line, and empty text has no lines.
pub open spec fn lines(s: Seq<char>) -> Seq<Seq<char>> {
    let p = split(s, '\n');
    let body = p.drop_last().map_values(|l: Seq<char>| strip_cr(l));
    if p.last().len() == 0 {
        body
    } else {
        body.push(p.last())
    }
}

/// `p` occurs in `s` starting at `i`.
pub open spec fn occurs_at(s: Seq<char>, p: Seq<char>, i: int) -> bool {
    0 <= i && i + p.len() <= s.len() && s.subrange(i, i + p.len()) == p
}

/// `p` occurs somewhere in `s`.
pub open spec fn contains_seq(s: Seq<char>, p: Seq<char>) -> bool {
    exists|i: int| occurs_at(s, p, i)
}

/// Splits `s` at every occurrence of `c`.
pub fn split_chars(s: &Vec<char>, c: char) -> (r: Vec<Vec<char>>)
    ensures
        views(r@) == split(s@, c),
{
    let mut out: Vec<Vec<char>> = Vec::new();
    let mut cur: Vec<char> = Vec::new();
    let mut i: usize = 0;
    while i < s.len()
        invariant
            i <= s.len(),
            split(s@.take(i as int), c) == views(out@).push(cur@),
        decreases s.len() - i,
    {
        assert(s@.take(i as int + 1).drop_last() =~= s@.take(i as int));
        let ghost prev = views(out@);
        if s[i] == c {
            out.push(cur);
            cur = Vec::new();
            assert(views(out@) =~= prev.push(split(s@.take(i as int), c).last()));
        } else {
            cur.push(s[i]);
            assert(views(out@) =~= prev);
        }
        i = i + 1;
        assert(split(s@.take(i as int), c) =~= views(out@).push(cur@));
    }
    assert(s@.take(s.len() as int) =~= s@);
    let ghost before = views(out@);
    out.push(cur);
    assert(views(out@) =~= before.push(cur@));
    out
}

/// Breaks `s` into its lines.
pub fn split_lines(s: &Vec<char>) -> (r: Vec<Vec<char>>)
    ensures
        views(r@) == lines(s@),
{
    let mut pieces = split_chars(s, '\n');
    proof {
        lemma_split_nonempty(s@, '\n');
    }
    let ghost p = views(pieces@);
    let last = pieces.pop().unwrap();
    assert(views(pieces@) =~= p.drop_last());
    let mut out: Vec<Vec<char>> = Vec::new();
    let mut i: usize = 0;
    while i < pieces.len()
        invariant
            i <= pieces.len(),
            p.len() >= 1,
            views(pieces@) == p.drop_last(),
            views(out@) == p.drop_last().take(i as int).map_values(
                |l: Seq<char>| strip_cr(l),
            ),
        decreases pieces.len() - i,
    {
        let mut l = pieces[i].clone();
        assert(l@ =~= pieces@[i as int]@);
        let n = l.len();
        if n > 0 && l[n - 1] == '\r' {
            l.pop();
        }
        assert(l@ == strip_cr(p.drop_last()[i as int]));
        let ghost prev = views(out@);
        out.push(l);
        assert(views(out@) =~= prev.push(l@));
        assert(p.drop_last().take(i as int + 1) =~= p.drop_last().take(i as int).push(
            p.drop_last()[i as int],
        ));
        i = i + 1;
        assert(views(out@) =~= p.drop_last().take(i as int).map_values(
            |l: Seq<char>| strip_cr(l),
        ));
    }
    assert(p.drop_last().take(i as int) =~= p.drop_last());
    if last.len() > 0 {
        let ghost before = views(out@);
        out.push(last);
        assert(views(out@) =~= before.push(p.last()));
    }
    out
}

/// Whether `p` occurs at position `i` of `s`.
pub fn occurs_at_exec(s: &Vec<char>, p: &Vec<char>, i: usize) -> (r: bool)
    ensures
        r == occurs_at(s@, p@, i as int),
{
    if i > s.len() || p.len() > s.len() - i {
        return false;
    }
    let mut k: usize = 0;
    while k < p.len()
        invariant
            i + p.len() <= s.len(),
            k <= p.len(),
            forall|j: int| 0 <= j < k ==> s@[i + j] == p@[j],
        decreases p.len() - k,
    {
        if s[i + k] != p[k] {
            assert(s@.subrange(i as int, i + p.len())[k as int] != p@[k as int]);
            return false;
        }
        k = k + 1;
    }
    assert(s@.subrange(i as int, i + p.len()) =~= p@);
    true
}

/// The first position at or after `from` where `p` occurs in `s`.
pub fn find_from(s: &Vec<char>, p: &Vec<char>, from: usize) -> (r: Option<usize>)
    ensures
        match r {
            Some(i) => from <= i && occurs_at(s@, p@, i as int) && forall|j: int|
                from <= j < i ==> !occurs_at(s@, p@, j),
            None => forall|j: int| from <= j ==> !occurs_at(s@, p@, j),
        },
{
    if p.len() > s.len() || from > s.len() - p.len() {
        return None;
    }
    let last: usize = s.len() - p.len();
    let mut i: usize = from;
    loop
        invariant
            from <= i <= last,
            last == s.len() - p.len(),
            forall|j: int| from <= j < i ==> !occurs_at(s@, p@, j),
        decreases last - i,
    {
        if occurs_at_exec(s, p, i) {
            return Some(i);
        }
        if i == last {
                return None;
        }
        i = i + 1;
    }
}

/// Whether `p` occurs anywhere in `s`.
pub fn contains_chars(s: &Vec<char>, p: &Vec<char>) -> (r: bool)
    ensures
        r == contains_seq(s@, p@),
{
    match find_from(s, p, 0) {
        Some(i) => true,
        None => false,
    }
}

/// The positions in `s` where `c` stands, in increasing order.
pub open spec fn positions(s: Seq<char>, c: char) -> Seq<int>
    decreases s.len(),
{
    if s.len() == 0 {
        Seq::empty()
    } else {
        let p = positions(s.drop_last(), c);
        if s.last() == c {
            p.push(s.len() - 1)
        } else {
            p
        }
    }
}

/// Lists the positions in `s` where `c` stands.
pub fn positions_of(s: &Vec<char>, c: char) -> (r: Vec<usize>)
    ensures
        r@.map_values(|i: usize| i as int) == positions(s@, c),
        forall|q: int| 0 <= q < r@.len() ==> #[trigger] r@[q] < s@.len(),
{
    let mut out: Vec<usize> = Vec::new();
    let mut i: usize = 0;
    while i < s.len()
        invariant
            i <= s.len(),
            out@.map_values(|i: usize| i as int) == positions(s@.take(i as int), c),
            forall|q: int| 0 <= q < out@.len() ==> #[trigger] out@[q] < i,
        decreases s.len() - i,
    {
        assert(s@.take(i as int + 1).drop_last() =~= s@.take(i as int));
        let ghost prev = out@.map_values(|i: usize| i as int);
        if s[i] == c {
            out.push(i);
            assert(out@.map_values(|i: usize| i as int) =~= prev.push(i as int));
        } else {
            assert(out@.map_values(|i: usize| i as int) =~= prev);
        }
        i = i + 1;
    }
    assert(s@.take(s.len() as int) =~= s@);
    out
}

/// The characters of `s` from `a` up to, not including, `b`.
pub fn sub_chars(s: &Vec<char>, a: usize, b: usize) -> (r: Vec<char>)
    requires
        a <= b <= s@.len(),
    ensures
        r@ == s@.subrange(a as int, b as int),
{
    let mut out: Vec<char> = Vec::new();
    let mut i: usize = a;
    while i < b
        invariant
            a <= i <= b,
            b <= s@.len(),
            out@ == s@.subrange(a as int, i as int),
        decreases b - i,
    {
        out.push(s[i]);
        i = i + 1;
        assert(out@ =~= s@.subrange(a as int, i as int));
    }
    out
}

} // verus!
