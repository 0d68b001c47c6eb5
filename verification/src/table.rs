//! The table abstraction: an ordered sequence of named columns that all
//! share the same row count.
//!
//! Row order is significant and preserved throughout. Construction checks
//! that the columns agree on their length and that names are unique; column
//! lookup finds the first column of a given name.

use vstd::prelude::*;

use crate::column::{Column, ColumnView};
use crate::errors::AnalysisError;
use crate::fuzzy::str_equal;

verus! {

/// The mathematical model of a table: its columns, in order, and its row
/// count.
#[verifier::ext_equal]
pub struct TableView<N> {
    pub columns: Seq<ColumnView<N>>,
    pub height: nat,
}

impl<N> TableView<N> {
    /// Every column holds exactly `height` rows.
    pub open spec fn wf(&self) -> bool {
        forall|j: int| 0 <= j < self.columns.len() ==> (#[trigger] self.columns[j]).len()
            == self.height
    }

    /// The column names, in table order.
    pub open spec fn names(&self) -> Seq<Seq<char>> {
        self.columns.map(|i: int, c: ColumnView<N>| c.name)
    }

    /// The position of the first column named `name`, if any.
    pub open spec fn col_index(&self, name: Seq<char>) -> Option<int> {
        self.names().index_of_first(name)
    }

    /// Some column is named `name`.
    pub open spec fn has_column(&self, name: Seq<char>) -> bool {
        self.names().contains(name)
    }

    /// Every requested name has a column.
    pub open spec fn sel_ok(&self, names: Seq<Seq<char>>) -> bool {
        forall|j: int| 0 <= j < names.len() ==> self.col_index(#[trigger] names[j]) is Some
    }

    /// The projection to the named columns, in the order given; meaningful
    /// when every name resolves.
    pub open spec fn spec_select(&self, names: Seq<Seq<char>>) -> TableView<N> {
        TableView {
            columns: Seq::new(names.len(), |j: int| self.columns[self.col_index(names[j]).unwrap()]),
            height: self.height,
        }
    }
}

/// The position of the first occurrence, pinned down from its defining
/// properties: a match at `i` with no match before it.
pub proof fn lemma_index_of_first_is(s: Seq<Seq<char>>, needle: Seq<char>, i: int)
    requires
        0 <= i < s.len(),
        s[i] == needle,
        forall|k: int| 0 <= k < i ==> s[k] != needle,
    ensures
        s.index_of_first(needle) == Some(i),
{
    s.index_of_first_ensures(needle);
    match s.index_of_first(needle) {
        Some(idx) => {
            if idx < i {
            } else if idx > i {
                assert(s[i] != needle);
            }
        },
        None => {
            assert(s[i] != needle);
        },
    }
}

/// When no element matches, there is no first occurrence.
pub proof fn lemma_index_of_first_none(s: Seq<Seq<char>>, needle: Seq<char>)
    requires
        forall|k: int| 0 <= k < s.len() ==> s[k] != needle,
    ensures
        s.index_of_first(needle) is None,
{
    s.index_of_first_ensures(needle);
    match s.index_of_first(needle) {
        Some(idx) => {
            assert(s[idx] != needle);
        },
        None => {},
    }
}

/// A table of named, typed columns sharing one row count.
#[derive(Debug, PartialEq)]
pub struct Table<N> {
    columns: Vec<Column<N>>,
    height: usize,
}

impl<N> View for Table<N> {
    type V = TableView<N>;

    closed spec fn view(&self) -> TableView<N> {
        TableView {
            columns: self.columns@.map(|i: int, c: Column<N>| c@),
            height: self.height as nat,
        }
    }
}

impl<N> Table<N> {
    /// Builds a table from columns, inferring the row count from the first
    /// column. Fails when a column's length disagrees with the first's, or
    /// when two columns share a name.
    pub fn new(columns: Vec<Column<N>>) -> (r: Result<Table<N>, AnalysisError>)
        ensures
            ({
                let cols = columns@.map(|i: int, c: Column<N>| c@);
                let lens_ok = forall|j: int|
                    0 <= j < cols.len() ==> (#[trigger] cols[j]).len() == cols[0].len();
                match r {
                    Ok(t) => {
                        &&& lens_ok
                        &&& t@.names().no_duplicates()
                        &&& t@.columns == cols
                        &&& t@.height == if cols.len() == 0 {
                            0nat
                        } else {
                            cols[0].len()
                        }
                        &&& t@.wf()
                    },
                    Err(AnalysisError::ShapeMismatch { name }) => {
                        !lens_ok && exists|j: int|
                            0 <= j < cols.len() && (#[trigger] cols[j]).len() != cols[0].len()
                                && cols[j].name == name@
                    },
                    Err(AnalysisError::DuplicateColumn { name }) => {
                        lens_ok && !cols.map(|i: int, c: ColumnView<N>| c.name).no_duplicates()
                            && exists|j1: int, j2: int|
                            0 <= j1 < j2 < cols.len() && (#[trigger] cols[j1]).name == (
                            #[trigger] cols[j2]).name && cols[j2].name == name@
                    },
                    Err(_) => false,
                }
            }),
    {
        let ghost cols = columns@.map(|i: int, c: Column<N>| c@);
        let n = columns.len();
        let height: usize = if n == 0 {
            0
        } else {
            columns[0].len()
        };
        let mut j: usize = 0;
        while j < n
            invariant
                n == columns@.len(),
                cols == columns@.map(|i: int, c: Column<N>| c@),
                n > 0 ==> height == cols[0].len(),
                n == 0 ==> height == 0,
                forall|k: int| 0 <= k < j ==> (#[trigger] cols[k]).len() == height as nat,
            decreases n - j,
        {
            if columns[j].len() != height {
                assert(cols[j as int].len() != cols[0].len());
                return Err(AnalysisError::ShapeMismatch { name: columns[j].name.clone() });
            }
            j = j + 1;
        }
        let mut j1: usize = 0;
        while j1 < n
            invariant
                n == columns@.len(),
                cols == columns@.map(|i: int, c: Column<N>| c@),
                n > 0 ==> height == cols[0].len(),
                forall|k: int| 0 <= k < n ==> (#[trigger] cols[k]).len() == height as nat,
                forall|a: int, b: int|
                    0 <= a < b < cols.len() && b < j1 ==> (#[trigger] cols[a]).name != (
                    #[trigger] cols[b]).name,
            decreases n - j1,
        {
            let mut j2: usize = 0;
            while j2 < j1
                invariant
                    n == columns@.len(),
                    j1 < n,
                    cols == columns@.map(|i: int, c: Column<N>| c@),
                    n > 0 ==> height == cols[0].len(),
                    forall|k: int| 0 <= k < n ==> (#[trigger] cols[k]).len() == height as nat,
                    forall|a: int| 0 <= a < j2 ==> (#[trigger] cols[a]).name != cols[j1 as int].name,
                decreases j1 - j2,
            {
                if str_equal(columns[j2].name.as_str(), columns[j1].name.as_str()) {
                    proof {
                        let names = cols.map(|i: int, c: ColumnView<N>| c.name);
                        assert(cols[j2 as int].name == cols[j1 as int].name);
                        assert(names[j2 as int] == names[j1 as int]);
                        assert(!names.no_duplicates());
                    }
                    return Err(AnalysisError::DuplicateColumn { name: columns[j1].name.clone() });
                }
                j2 = j2 + 1;
            }
            j1 = j1 + 1;
        }
        let t = Table { columns, height };
        proof {
            assert(t@.columns =~= cols);
            let names = t@.names();
            assert forall|a: int, b: int| 0 <= a < names.len() && 0 <= b < names.len() && a != b
                implies names[a] != names[b] by {
                if a < b {
                    assert(cols[a].name != cols[b].name);
                } else {
                    assert(cols[b].name != cols[a].name);
                }
            }
        }
        Ok(t)
    }

    /// Assembles a table from columns whose lengths the caller has already
    /// established; internal counterpart of `new` for verified construction
    /// steps whose result may repeat a name.
    pub(crate) fn from_parts(columns: Vec<Column<N>>, height: usize) -> (r: Table<N>)
        ensures
            r@.columns == columns@.map(|i: int, c: Column<N>| c@),
            r@.height == height as nat,
    {
        Table { columns, height }
    }

    /// The shape as (row count, column count).
    pub fn shape(&self) -> (r: (usize, usize))
        ensures
            r.0 == self@.height,
            r.1 == self@.columns.len(),
    {
        (self.height, self.columns.len())
    }

    /// The columns, in table order.
    pub fn columns(&self) -> (r: &Vec<Column<N>>)
        ensures
            r@.map(|i: int, c: Column<N>| c@) == self@.columns,
    {
        &self.columns
    }

    /// The column names, in table order, borrowed from the table.
    pub fn get_column_names<'a>(&'a self) -> (r: Vec<&'a str>)
        ensures
            r@.map(|i: int, s: &str| s@) =~= self@.names(),
    {
        let mut r: Vec<&'a str> = Vec::new();
        let n = self.columns.len();
        for i in 0..n
            invariant
                n == self.columns@.len(),
                r@.len() == i,
                forall|k: int| 0 <= k < i ==> #[trigger] r@[k]@ == self@.names()[k],
        {
            r.push(self.columns[i].name.as_str());
        }
        r
    }

    /// The first column named `name`, or a schema error naming the missing
    /// column.
    pub fn column<'a>(&'a self, name: &str) -> (r: Result<&'a Column<N>, AnalysisError>)
        ensures
            match self@.col_index(name@) {
                Some(j) => r matches Ok(c) && c@ == self@.columns[j],
                None => r matches Err(AnalysisError::NoSuchColumn { name: n }) && n@ == name@,
            },
    {
        let n = self.columns.len();
        for i in 0..n
            invariant
                n == self.columns@.len(),
                forall|k: int| 0 <= k < i ==> self@.names()[k] != name@,
        {
            if str_equal(self.columns[i].name.as_str(), name) {
                proof {
                    lemma_index_of_first_is(self@.names(), name@, i as int);
                }
                return Ok(&self.columns[i]);
            }
        }
        proof {
            lemma_index_of_first_none(self@.names(), name@);
        }
        Err(AnalysisError::NoSuchColumn { name: name.to_owned() })
    }
}

impl<N: Copy> Table<N> {
    /// The table projected to the named columns, in the order given; each
    /// entry picks the first column of that name. Fails on the first name
    /// that no column carries.
    pub fn select(&self, names: &Vec<String>) -> (r: Result<Table<N>, AnalysisError>)
        ensures
            match r {
                Ok(t) => {
                    &&& t@.height == self@.height
                    &&& t@.columns.len() == names@.len()
                    &&& forall|j: int|
                        0 <= j < names@.len() ==> self@.col_index(#[trigger] names@[j]@) is Some
                            && t@.columns[j] == self@.columns[self@.col_index(names@[j]@).unwrap()]
                },
                Err(AnalysisError::NoSuchColumn { name }) => {
                    exists|j: int|
                        0 <= j < names@.len() && #[trigger] names@[j]@ == name@ && self@.col_index(
                            name@,
                        ) is None
                },
                Err(_) => false,
            },
    {
        let mut out: Vec<Column<N>> = Vec::new();
        let n = names.len();
        for j in 0..n
            invariant
                n == names@.len(),
                out@.len() == j,
                forall|k: int|
                    0 <= k < j ==> self@.col_index(#[trigger] names@[k]@) is Some && out@.map(
                        |i: int, c: Column<N>| c@,
                    )[k] == self@.columns[self@.col_index(names@[k]@).unwrap()],
        {
            let got = self.column(names[j].as_str());
            match got {
                Ok(c) => {
                    let dup = c.duplicate();
                    out.push(dup);
                    assert(out@.map(|i: int, c: Column<N>| c@)[j as int] == dup@);
                },
                Err(e) => {
                    return Err(e);
                },
            }
        }
        let t = Table { columns: out, height: self.height };
        Ok(t)
    }

    /// Replaces the first column of the same name, or appends the column
    /// when the name is new. Fails when the column's length disagrees with
    /// the table's row count (unless the table has no columns yet, in which
    /// case the row count is adopted from the column).
    pub fn with_column(&mut self, column: Column<N>) -> (r: Result<(), AnalysisError>)
        ensures
            match r {
                Ok(()) => {
                    &&& if old(self)@.columns.len() == 0 {
                        final(self)@.height == column@.len() && final(self)@.columns =~= seq![
                            column@,
                        ]
                    } else {
                        final(self)@.height == old(self)@.height && column@.len() == old(
                            self,
                        )@.height && match old(self)@.col_index(column@.name) {
                            Some(j) => final(self)@.columns =~= old(self)@.columns.update(
                                j,
                                column@,
                            ),
                            None => final(self)@.columns =~= old(self)@.columns.push(column@),
                        }
                    }
                },
                Err(AnalysisError::ShapeMismatch { name }) => {
                    &&& old(self)@.columns.len() > 0
                    &&& column@.len() != old(self)@.height
                    &&& name@ == column@.name
                    &&& final(self)@ == old(self)@
                },
                Err(_) => false,
            },
    {
        if self.columns.len() == 0 {
            let h = column.len();
            self.height = h;
            self.columns.push(column);
            return Ok(());
        }
        if column.len() != self.height {
            return Err(AnalysisError::ShapeMismatch { name: column.name.clone() });
        }
        let n = self.columns.len();
        for i in 0..n
            invariant
                n == self.columns@.len(),
                forall|k: int| 0 <= k < i ==> self@.names()[k] != column@.name,
                column@.len() == self@.height,
                self@.height == old(self)@.height,
                self@ == old(self)@,
        {
            if str_equal(self.columns[i].name.as_str(), column.name.as_str()) {
                proof {
                    lemma_index_of_first_is(self@.names(), column@.name, i as int);
                }
                self.columns.set(i, column);
                assert(self@.columns =~= old(self)@.columns.update(i as int, column@));
                return Ok(());
            }
        }
        proof {
            lemma_index_of_first_none(self@.names(), column@.name);
        }
        self.columns.push(column);
        assert(self@.columns =~= old(self)@.columns.push(column@));
        Ok(())
    }
}

} // verus!
