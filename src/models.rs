//! The data the engine works on: the loaded table, parsed requests,
//! command kinds and errors.

use vstd::prelude::*;

verus! {

/// What kind of command an input line holds.
#[derive(PartialEq, Eq, Structural, Clone, Copy, Debug)]
pub enum Command {
    LOAD,
    SELECT,
    UMBIGUOUS,
    UNKNOWN,
}

/// Why a command or a load was abandoned.
#[derive(Debug)]
pub enum QueryError {
    /// The numbers of `(` and `)` differ.
    UnbalancedParentheses,
    /// A `load(...)` command without the `load(<path>).separator(<char>)` shape.
    MalformedLoad,
    /// A select command without the `select()` marker.
    MissingSelect,
    /// A select command without a `.cols(...)` clause.
    MissingCols,
    /// The header names this column more than once.
    DuplicateColumn(String),
    /// The data row on this line (the header being line 0) has another
    /// number of fields than the header.
    RowShape(usize),
}

/// A parsed load command: the file to read and the field separator.
pub struct FileName {
    pub name: String,
    pub separator: String,
}

/// A parsed select command: every column, or the listed names in the
/// order written.
pub enum ProjectionRequest {
    All,
    Columns(Vec<String>),
}

/// A select command's column choice, as a value of the model.
pub enum Selection {
    All,
    Columns(Seq<Seq<char>>),
}

impl ProjectionRequest {
    pub open spec fn view(&self) -> Selection {
        match self {
            ProjectionRequest::All => Selection::All,
            ProjectionRequest::Columns(v) => Selection::Columns(string_views(v@)),
        }
    }
}

/// A table of named columns of text cells, in header order.
/// `names[k]` is the name of the column whose cells are `columns[k]`.
pub struct FileData {
    pub names: Vec<String>,
    pub columns: Vec<Vec<String>>,
}

/// The character sequences that a list of strings holds.
pub open spec fn string_views(v: Seq<String>) -> Seq<Seq<char>> {
    v.map_values(|s: String| s@)
}

impl FileData {
    /// The column names, in header order.
    pub open spec fn names_view(&self) -> Seq<Seq<char>> {
        string_views(self.names@)
    }

    /// The columns' cells, in header order.
    pub open spec fn columns_view(&self) -> Seq<Seq<Seq<char>>> {
        self.columns@.map_values(|c: Vec<String>| string_views(c@))
    }

    /// One column per name, names distinct, all columns of one length.
    pub open spec fn wf(&self) -> bool {
        &&& self.names@.len() == self.columns@.len()
        &&& self.names_view().no_duplicates()
        &&& forall|k: int, l: int|
            0 <= k < self.columns@.len() && 0 <= l < self.columns@.len()
                ==> #[trigger] self.columns@[k]@.len() == #[trigger] self.columns@[l]@.len()
    }

    /// The cells of the column named `n`, if there is one.
    pub open spec fn lookup(&self, n: Seq<char>) -> Option<Seq<Seq<char>>> {
        if self.names_view().contains(n) {
            Some(self.columns_view()[self.names_view().index_of(n)])
        } else {
            None
        }
    }

    /// The table as a map from column name to cells.
    pub open spec fn view(&self) -> Map<Seq<char>, Seq<Seq<char>>> {
        Map::new(|n: Seq<char>| self.lookup(n) is Some, |n: Seq<char>| self.lookup(n)->0)
    }

    /// The position of the column named `name`, if there is one.
    pub fn index_of(&self, name: &str) -> (r: Option<usize>)
        requires
            self.wf(),
        ensures
            match r {
                Some(k) => k < self.names@.len() && self.names_view()[k as int] == name@,
                None => !self.names_view().contains(name@),
            },
    {
        let target: String = name.to_owned();
        let mut k: usize = 0;
        while k < self.names.len()
            invariant
                target@ == name@,
                k <= self.names@.len(),
                forall|j: int| 0 <= j < k ==> self.names_view()[j] != name@,
            decreases self.names@.len() - k,
        {
            if self.names[k] == target {
                return Some(k);
            }
            k = k + 1;
        }
        None
    }

    /// The cells of the column named `name`, if there is one.
    pub fn get(&self, name: &str) -> (r: Option<&Vec<String>>)
        requires
            self.wf(),
        ensures
            match r {
                Some(c) => self.lookup(name@) == Some(string_views(c@)),
                None => self.lookup(name@) is None,
            },
    {
        match self.index_of(name) {
            Some(k) => {
                proof {
                    self.lemma_index_of(k as int);
                }
                Some(&self.columns[k])
            },
            None => None,
        }
    }

    /// In a well-formed table, a name's position is the one it stands at.
    pub proof fn lemma_index_of(&self, k: int)
        requires
            self.wf(),
            0 <= k < self.names@.len(),
        ensures
            self.names_view().index_of(self.names_view()[k]) == k,
            self.lookup(self.names_view()[k]) == Some(self.columns_view()[k]),
    {
        let n = self.names_view()[k];
        assert(self.names_view().contains(n));
        let j = self.names_view().index_of(n);
        assert(0 <= j < self.names_view().len() && self.names_view()[j] == n);
    }

    /// An empty table: no columns, no rows.
    pub fn new() -> (r: FileData)
        ensures
            r.wf(),
            r.names@.len() == 0,
            r.columns@.len() == 0,
    {
        FileData { names: Vec::new(), columns: Vec::new() }
    }
}

} // verus!
