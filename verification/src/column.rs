//! The column abstraction: a named sequence of values of one declared type,
//! possibly containing missing entries.
//!
//! The numeric element type is the type parameter `N`: the core never
//! inspects numeric values, it only moves them, so callers pick the scalar
//! (typically a 64-bit float) and supply its zero and one where a cast or an
//! intercept is needed.

use vstd::prelude::*;

use crate::errors::AnalysisError;

verus! {

/// The mathematical model of a column's values.
#[verifier::ext_equal]
pub enum ColumnDataView<N> {
    Num(Seq<Option<N>>),
    Text(Seq<Option<Seq<char>>>),
    Bool(Seq<Option<bool>>),
}

/// The mathematical model of a column: its name and its values.
#[verifier::ext_equal]
pub struct ColumnView<N> {
    pub name: Seq<char>,
    pub data: ColumnDataView<N>,
}

impl<N> ColumnDataView<N> {
    /// The number of rows in the column.
    pub open spec fn len(&self) -> nat {
        match self {
            ColumnDataView::Num(v) => v.len(),
            ColumnDataView::Text(v) => v.len(),
            ColumnDataView::Bool(v) => v.len(),
        }
    }

    /// The column's type can be cast to the numeric element type: numeric
    /// and boolean columns can, text columns cannot.
    pub open spec fn castable(&self) -> bool {
        !(self is Text)
    }

    /// No entry is missing.
    pub open spec fn complete(&self) -> bool {
        match self {
            ColumnDataView::Num(v) => forall|r: int| 0 <= r < v.len() ==> v[r] is Some,
            ColumnDataView::Text(v) => forall|r: int| 0 <= r < v.len() ==> v[r] is Some,
            ColumnDataView::Bool(v) => forall|r: int| 0 <= r < v.len() ==> v[r] is Some,
        }
    }

    /// The numeric value of row `r` under the cast that the flattener
    /// applies: numeric entries stand as they are, boolean entries become
    /// `one` or `zero`. Meaningful for castable, complete columns.
    pub open spec fn num_at(&self, r: int, zero: N, one: N) -> N {
        match self {
            ColumnDataView::Num(v) => match v[r] {
                Some(x) => x,
                None => zero,
            },
            ColumnDataView::Bool(v) => match v[r] {
                Some(b) => if b {
                    one
                } else {
                    zero
                },
                None => zero,
            },
            ColumnDataView::Text(v) => zero,
        }
    }
}

impl<N> ColumnView<N> {
    /// The number of rows in the column.
    pub open spec fn len(&self) -> nat {
        self.data.len()
    }
}

/// The values of one column: numeric, text, or boolean, each entry possibly
/// missing.
#[derive(Debug, PartialEq)]
pub enum ColumnData<N> {
    Num(Vec<Option<N>>),
    Text(Vec<Option<String>>),
    Bool(Vec<Option<bool>>),
}

/// A named column of uniform element type.
#[derive(Debug, PartialEq)]
pub struct Column<N> {
    pub name: String,
    pub data: ColumnData<N>,
}

impl<N> View for ColumnData<N> {
    type V = ColumnDataView<N>;

    open spec fn view(&self) -> ColumnDataView<N> {
        match self {
            ColumnData::Num(v) => ColumnDataView::Num(v@),
            ColumnData::Text(v) => ColumnDataView::Text(v.deep_view()),
            ColumnData::Bool(v) => ColumnDataView::Bool(v@),
        }
    }
}

impl<N> View for Column<N> {
    type V = ColumnView<N>;

    open spec fn view(&self) -> ColumnView<N> {
        ColumnView { name: self.name@, data: self.data@ }
    }
}

impl<N> ColumnData<N> {
    pub fn len(&self) -> (r: usize)
        ensures
            r == self@.len(),
    {
        match self {
            ColumnData::Num(v) => v.len(),
            ColumnData::Text(v) => v.len(),
            ColumnData::Bool(v) => v.len(),
        }
    }
}

impl<N: Copy> ColumnData<N> {
    /// An independent copy of the values, entry for entry.
    pub fn duplicate(&self) -> (r: ColumnData<N>)
        ensures
            r@ == self@,
    {
        match self {
            ColumnData::Num(v) => {
                let mut out: Vec<Option<N>> = Vec::new();
                let n = v.len();
                for i in 0..n
                    invariant
                        n == v@.len(),
                        out@ =~= v@.take(i as int),
                {
                    out.push(v[i]);
                }
                assert(out@ =~= v@);
                ColumnData::Num(out)
            },
            ColumnData::Bool(v) => {
                let mut out: Vec<Option<bool>> = Vec::new();
                let n = v.len();
                for i in 0..n
                    invariant
                        n == v@.len(),
                        out@ =~= v@.take(i as int),
                {
                    out.push(v[i]);
                }
                assert(out@ =~= v@);
                ColumnData::Bool(out)
            },
            ColumnData::Text(v) => {
                let mut out: Vec<Option<String>> = Vec::new();
                let n = v.len();
                for i in 0..n
                    invariant
                        n == v@.len(),
                        out@.len() == i,
                        forall|k: int| 0 <= k < i ==> out@[k] == v@[k],
                {
                    let entry: Option<String> = match &v[i] {
                        Some(s) => Some(s.clone()),
                        None => None,
                    };
                    assert(entry == v@[i as int]);
                    out.push(entry);
                }
                proof {
                    assert(out@ =~= v@);
                    assert(out.deep_view() =~~= v.deep_view());
                }
                ColumnData::Text(out)
            },
        }
    }
}

/// The views of a sequence of columns, in order.
pub open spec fn views_of<N>(s: Seq<Column<N>>) -> Seq<ColumnView<N>> {
    s.map(|i: int, c: Column<N>| c@)
}

/// Whether any entry of a sequence of optional values is missing.
pub fn any_none<T>(v: &Vec<Option<T>>) -> (r: bool)
    ensures
        r == exists|k: int| 0 <= k < v@.len() && v@[k] is None,
{
    let m = v.len();
    let mut rr: usize = 0;
    while rr < m
        invariant
            m == v@.len(),
            0 <= rr <= m,
            forall|k: int| 0 <= k < rr ==> v@[k] is Some,
        decreases m - rr,
    {
        if v[rr].is_none() {
            assert(v@[rr as int] is None);
            return true;
        }
        rr = rr + 1;
    }
    false
}

impl<N> Column<N> {
    pub fn len(&self) -> (r: usize)
        ensures
            r == self@.len(),
    {
        self.data.len()
    }
}

impl<N: Copy> Column<N> {
    /// Casts the column to a plain numeric vector: numeric entries stand as
    /// they are, booleans become `one` or `zero`. A text column cannot be
    /// cast; a missing entry is a data-integrity error.
    pub fn cast_values(&self, zero: N, one: N) -> (r: Result<Vec<N>, AnalysisError>)
        ensures
            match r {
                Ok(v) => {
                    &&& self@.data.castable()
                    &&& self@.data.complete()
                    &&& v@.len() == self@.len()
                    &&& forall|rr: int|
                        0 <= rr < v@.len() ==> v@[rr] == self@.data.num_at(rr, zero, one)
                },
                Err(AnalysisError::CastFailed { name }) => !self@.data.castable() && name@
                    == self@.name,
                Err(AnalysisError::MissingValue { name }) => self@.data.castable()
                    && !self@.data.complete() && name@ == self@.name,
                Err(_) => false,
            },
    {
        match &self.data {
            ColumnData::Text(_) => Err(AnalysisError::CastFailed { name: self.name.clone() }),
            ColumnData::Num(v) => {
                let mut out: Vec<N> = Vec::new();
                let n = v.len();
                for rr in 0..n
                    invariant
                        n == v@.len(),
                        self@.data == ColumnDataView::Num(v@),
                        out@.len() == rr,
                        forall|k: int| 0 <= k < rr ==> v@[k] is Some,
                        forall|k: int|
                            0 <= k < rr ==> out@[k] == self@.data.num_at(k, zero, one),
                {
                    match v[rr] {
                        Some(x) => {
                            out.push(x);
                        },
                        None => {
                            assert(!self@.data.complete());
                            return Err(AnalysisError::MissingValue { name: self.name.clone() });
                        },
                    }
                }
                Ok(out)
            },
            ColumnData::Bool(v) => {
                let mut out: Vec<N> = Vec::new();
                let n = v.len();
                for rr in 0..n
                    invariant
                        n == v@.len(),
                        self@.data == ColumnDataView::<N>::Bool(v@),
                        out@.len() == rr,
                        forall|k: int| 0 <= k < rr ==> v@[k] is Some,
                        forall|k: int|
                            0 <= k < rr ==> out@[k] == self@.data.num_at(k, zero, one),
                {
                    match v[rr] {
                        Some(b) => {
                            out.push(if b { one } else { zero });
                        },
                        None => {
                            assert(!self@.data.complete());
                            return Err(AnalysisError::MissingValue { name: self.name.clone() });
                        },
                    }
                }
                Ok(out)
            },
        }
    }

    /// An independent copy of the column, name and values alike.
    pub fn duplicate(&self) -> (r: Column<N>)
        ensures
            r@ == self@,
    {
        Column { name: self.name.clone(), data: self.data.duplicate() }
    }
}

} // verus!
