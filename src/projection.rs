//! Resolving a column choice against a table: the result borrows the
//! table's columns and names each chosen column once.

use vstd::prelude::*;
use crate::models::{FileData, ProjectionRequest, Selection, string_views};

verus! {

/// The columns of `table` at the positions `picks`.
pub struct Projection<'a> {
    pub table: &'a FileData,
    pub picks: Vec<usize>,
}

/// Whether one of the positions `picks` of `t` holds the name `n`.
pub open spec fn picks_name(t: &FileData, picks: Seq<usize>, n: Seq<char>) -> bool {
    exists|q: int| 0 <= q < picks.len() && #[trigger] t.names_view()[picks[q] as int] == n
}

/// The map of columns that a choice gives on `t`: all of them, or those
/// whose names are listed.
pub open spec fn resolve(t: &FileData, sel: Selection) -> Map<Seq<char>, Seq<Seq<char>>> {
    match sel {
        Selection::All => t.view(),
        Selection::Columns(v) => t.view().restrict(v.to_set()),
    }
}

impl<'a> Projection<'a> {
    /// Positions within the table, each chosen once.
    pub open spec fn wf(&self) -> bool {
        &&& self.table.wf()
        &&& self.picks@.no_duplicates()
        &&& forall|q: int| 0 <= q < self.picks@.len() ==> #[trigger] self.picks@[q] < self.table.names@.len()
    }

    /// Whether the column named `n` is chosen.
    pub open spec fn selects(&self, n: Seq<char>) -> bool {
        picks_name(self.table, self.picks@, n)
    }

    /// The chosen columns, by name.
    pub open spec fn view(&self) -> Map<Seq<char>, Seq<Seq<char>>> {
        Map::new(|n: Seq<char>| self.selects(n), |n: Seq<char>| self.table.view()[n])
    }

    /// How many columns are chosen.
    pub fn len(&self) -> (r: usize)
        ensures
            r == self.picks@.len(),
    {
        self.picks.len()
    }

    /// The name of the `i`-th chosen column.
    pub fn name(&self, i: usize) -> (r: &String)
        requires
            self.wf(),
            i < self.picks@.len(),
        ensures
            r@ == self.table.names_view()[self.picks@[i as int] as int],
            self@.contains_key(r@),
    {
        let k = self.picks[i];
        &self.table.names[k]
    }

    /// The cells of the `i`-th chosen column.
    pub fn values(&self, i: usize) -> (r: &Vec<String>)
        requires
            self.wf(),
            i < self.picks@.len(),
        ensures
            string_views(r@) == self@[self.table.names_view()[self.picks@[i as int] as int]],
    {
        let k = self.picks[i];
        proof {
            self.table.lemma_index_of(k as int);
        }
        &self.table.columns[k]
    }

    /// The cells of the chosen column named `name`, if it is chosen.
    pub fn get(&self, name: &str) -> (r: Option<&Vec<String>>)
        requires
            self.wf(),
        ensures
            match r {
                Some(c) => self@.contains_key(name@) && self@[name@] == string_views(c@),
                None => !self@.contains_key(name@),
            },
    {
        match self.table.index_of(name) {
            Some(k) => {
                if holds(&self.picks, k) {
                    proof {
                        self.table.lemma_index_of(k as int);
                        let q = choose|q: int| 0 <= q < self.picks@.len() && self.picks@[q] == k;
                        assert(self.table.names_view()[self.picks@[q] as int] == name@);
                    }
                    Some(&self.table.columns[k])
                } else {
                    proof {
                        assert forall|q: int| 0 <= q < self.picks@.len() implies #[trigger] self.table.names_view()[self.picks@[q] as int] != name@ by {
                            if self.table.names_view()[self.picks@[q] as int] == name@ {
                                assert(self.picks@[q] as int == k as int);
                            }
                        }
                    }
                    None
                }
            },
            None => {
                proof {
                    assert forall|q: int| 0 <= q < self.picks@.len() implies #[trigger] self.table.names_view()[self.picks@[q] as int] != name@ by {
                        assert(0 <= self.picks@[q] < self.table.names@.len());
                    }
                }
                None
            },
        }
    }
}

/// Whether `v` holds `k`.
fn holds(v: &Vec<usize>, k: usize) -> (r: bool)
    ensures
        r == v@.contains(k),
{
    let mut i: usize = 0;
    while i < v.len()
        invariant
            i <= v@.len(),
            forall|j: int| 0 <= j < i ==> v@[j] != k,
        decreases v@.len() - i,
    {
        if v[i] == k {
            return true;
        }
        i = i + 1;
    }
    false
}

/// Resolves `req` against `table`: every column for the wildcard, else
/// each listed name that the table has, once, skipping the others.
pub fn project<'a>(table: &'a FileData, req: &ProjectionRequest) -> (r: Projection<'a>)
    requires
        table.wf(),
    ensures
        r.wf(),
        r.table == table,
        r@ == resolve(table, req@),
{
    let mut picks: Vec<usize> = Vec::new();
    match req {
        ProjectionRequest::All => {
            let mut k: usize = 0;
            while k < table.names.len()
                invariant
                    table.wf(),
                    k <= table.names@.len(),
                    picks@.len() == k,
                    forall|q: int| 0 <= q < k ==> #[trigger] picks@[q] == q,
                decreases table.names@.len() - k,
            {
                picks.push(k);
                k = k + 1;
            }
            let r = Projection { table, picks };
            proof {
                assert forall|n: Seq<char>| r.selects(n) == table.view().dom().contains(n) by {
                    if r.selects(n) {
                        let q = choose|q: int| 0 <= q < r.picks@.len() && #[trigger] table.names_view()[r.picks@[q] as int] == n;
                        assert(r.picks@[q] == q);
                        assert(table.names_view()[q] == n);
                    }
                    if table.names_view().contains(n) {
                        let j = choose|j: int| 0 <= j < table.names_view().len() && table.names_view()[j] == n;
                        assert(r.picks@[j] == j);
                        assert(table.names_view()[r.picks@[j] as int] == n);
                    }
                }
                assert(r@ =~= table.view());
            }
            r
        },
        ProjectionRequest::Columns(v) => {
            let ghost want = string_views(v@);
            let mut i: usize = 0;
            while i < v.len()
                invariant
                    table.wf(),
                    want == string_views(v@),
                    i <= v@.len(),
                    picks@.no_duplicates(),
                    forall|q: int| 0 <= q < picks@.len() ==> #[trigger] picks@[q] < table.names@.len(),
                    forall|n: Seq<char>|
                        #[trigger] picks_name(table, picks@, n) <==> (want.take(i as int).contains(n)
                            && table.names_view().contains(n)),
                decreases v@.len() - i,
            {
                let ghost before = picks@;
                assert(want.take(i as int + 1) =~= want.take(i as int).push(want[i as int]));
                match table.index_of(v[i].as_str()) {
                    Some(k) => {
                        if !holds(&picks, k) {
                            picks.push(k);
                            proof {
                                assert forall|n: Seq<char>|
                                    #[trigger] picks_name(table, picks@, n) <==> (want.take(i as int + 1).contains(n)
                                        && table.names_view().contains(n)) by {
                                    if want.take(i as int + 1).contains(n) && table.names_view().contains(n) {
                                        if n == want[i as int] {
                                            assert(picks@[before.len() as int] == k);
                                            assert(table.names_view()[picks@[before.len() as int] as int] == n);
                                        } else {
                                            let a = choose|a: int| 0 <= a < want.take(i as int + 1).len() && #[trigger] want.take(i as int + 1)[a] == n;
                                            assert(want.take(i as int)[a] == n);
                                            assert(picks_name(table, before, n));
                                            let q = choose|q: int| 0 <= q < before.len() && #[trigger] table.names_view()[before[q] as int] == n;
                                            assert(picks@[q] == before[q]);
                                        }
                                    }
                                    if picks_name(table, picks@, n) {
                                        let q = choose|q: int| 0 <= q < picks@.len() && #[trigger] table.names_view()[picks@[q] as int] == n;
                                        assert(table.names_view().contains(n)) by {
                                            assert(table.names_view()[picks@[q] as int] == n);
                                        }
                                        if q < before.len() {
                                            assert(before[q] == picks@[q]);
                                            assert(picks_name(table, before, n));
                                            assert(want.take(i as int).contains(n));
                                            let a = choose|a: int| 0 <= a < want.take(i as int).len() && #[trigger] want.take(i as int)[a] == n;
                                            assert(want.take(i as int + 1)[a] == n);
                                        } else {
                                            assert(want.take(i as int + 1)[i as int] == n);
                                        }
                                    }
                                }
                            }
                        } else {
                            proof {
                                let q0 = choose|q: int| 0 <= q < picks@.len() && picks@[q] == k;
                                assert(table.names_view()[picks@[q0] as int] == want[i as int]);
                                assert forall|n: Seq<char>|
                                    #[trigger] picks_name(table, picks@, n) <==> (want.take(i as int + 1).contains(n)
                                        && table.names_view().contains(n)) by {
                                    if want.take(i as int + 1).contains(n) && table.names_view().contains(n) && n != want[i as int] {
                                        let a = choose|a: int| 0 <= a < want.take(i as int + 1).len() && #[trigger] want.take(i as int + 1)[a] == n;
                                        assert(want.take(i as int)[a] == n);
                                    }
                                    if picks_name(table, picks@, n) {
                                        assert(picks_name(table, before, n));
                                        assert(want.take(i as int).contains(n));
                                        let a = choose|a: int| 0 <= a < want.take(i as int).len() && #[trigger] want.take(i as int)[a] == n;
                                        assert(want.take(i as int + 1)[a] == n);
                                    }
                                }
                            }
                        }
                    },
                    None => {
                        proof {
                            assert forall|n: Seq<char>|
                                #[trigger] picks_name(table, picks@, n) <==> (want.take(i as int + 1).contains(n)
                                    && table.names_view().contains(n)) by {
                                if want.take(i as int + 1).contains(n) && table.names_view().contains(n) {
                                    let a = choose|a: int| 0 <= a < want.take(i as int + 1).len() && #[trigger] want.take(i as int + 1)[a] == n;
                                    if a < i {
                                        assert(want.take(i as int)[a] == n);
                                    }
                                }
                                if picks_name(table, picks@, n) {
                                    assert(picks_name(table, before, n));
                                    assert(want.take(i as int).contains(n));
                                    let a = choose|a: int| 0 <= a < want.take(i as int).len() && #[trigger] want.take(i as int)[a] == n;
                                    assert(want.take(i as int + 1)[a] == n);
                                }
                            }
                        }
                    },
                }
                i = i + 1;
            }
            let r = Projection { table, picks };
            proof {
                assert(want.take(v@.len() as int) =~= want);
                assert forall|n: Seq<char>| r.selects(n) == table.view().restrict(want.to_set()).dom().contains(n) by {
                    assert(picks_name(table, r.picks@, n) == (want.take(v@.len() as int).contains(n) && table.names_view().contains(n)));
                    if want.contains(n) {
                        assert(want.to_set().contains(n));
                    }
                    if want.to_set().contains(n) {
                        assert(want.contains(n));
                    }
                }
                assert(r@ =~= table.view().restrict(want.to_set()));
            }
            r
        },
    }
}

/// A wildcard choice keeps exactly the table's columns, with their cells.
pub proof fn law_wildcard_keeps_every_column(t: &FileData)
    requires
        t.wf(),
    ensures
        resolve(t, Selection::All) == t.view(),
        forall|n: Seq<char>|
            #[trigger] resolve(t, Selection::All).contains_key(n) <==> t.names_view().contains(n),
{
}

/// A listed choice keeps exactly the listed names that the table has,
/// each with the cells the table stores under it.
pub proof fn law_listed_columns_kept(t: &FileData, v: Seq<Seq<char>>)
    requires
        t.wf(),
    ensures
        forall|n: Seq<char>|
            #[trigger] resolve(t, Selection::Columns(v)).contains_key(n) <==> (v.contains(n)
                && t.names_view().contains(n)),
        forall|n: Seq<char>|
            #[trigger] resolve(t, Selection::Columns(v)).contains_key(n) ==> resolve(
                t,
                Selection::Columns(v),
            )[n] == t.lookup(n)->0,
{
    assert forall|n: Seq<char>|
        #[trigger] resolve(t, Selection::Columns(v)).contains_key(n) <==> (v.contains(n)
            && t.names_view().contains(n)) by {
        if v.contains(n) {
            assert(v.to_set().contains(n));
        }
    }
}

} // verus!
