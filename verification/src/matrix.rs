//! The main struct: hosts the data required to move through the phases of
//! the test-and-control analysis, from role resolution through dummy
//! expansion to the flat design matrix and the inputs of the logit
//! optimization.

use vstd::prelude::*;

use crate::column::{Column, ColumnData, ColumnDataView, ColumnView};
use crate::config::FieldNamesCfg;
use crate::errors::AnalysisError;
use crate::header::{names_of, Header};
use crate::propensity::{
    build_dummies, expand_columns, BinaryTarget, Predictors, PropensityCfg,
};
use crate::table::{Table, TableView};
use crate::{
    all_castable, all_complete, first_incomplete, first_uncastable, get_fuzzy_binary_target,
    get_fuzzy_predictors, row_major_of, spec_fuzzy_predictors, spec_fuzzy_targets, to_row_dominant,
};

verus! {

/// Transient list of the columns that define a logit model: the target
/// first, the predictors after it.
pub struct LogitColumns<'a> {
    inner: Vec<&'a str>,
}

impl<'a> LogitColumns<'a> {
    /// The column names, target first.
    pub closed spec fn spec_names(&self) -> Seq<Seq<char>> {
        names_of(self.inner@)
    }

    /// Wraps a non-empty name list; the first name is the target.
    pub fn from_fields(fields: Vec<&'a str>) -> (r: Self)
        requires
            fields@.len() > 0,
        ensures
            r.spec_names() == names_of(fields@),
    {
        LogitColumns { inner: fields }
    }

    /// The dependent variable's column name.
    pub fn target(&self) -> (r: &'a str)
        requires
            self.spec_names().len() > 0,
        ensures
            r@ == self.spec_names()[0],
    {
        self.inner[0]
    }

    /// The predictors' column names, in order.
    pub fn predictors(&self) -> (r: Vec<&'a str>)
        requires
            self.spec_names().len() > 0,
        ensures
            names_of(r@) == self.spec_names().skip(1),
    {
        let mut out: Vec<&'a str> = Vec::new();
        let n = self.inner.len();
        let mut i: usize = 1;
        while i < n
            invariant
                1 <= i <= n,
                n == self.inner@.len(),
                out@.len() == i - 1,
                forall|k: int| 0 <= k < i - 1 ==> out@[k]@ == self.spec_names()[k + 1],
            decreases n - i,
        {
            out.push(self.inner[i]);
            i = i + 1;
        }
        proof {
            assert(names_of(out@) =~= self.spec_names().skip(1));
        }
        out
    }
}

/// The fitted coefficients that a logit solver hands back: one intercept and
/// one coefficient per predictor column.
#[derive(Debug)]
pub struct LogitFindings<N> {
    pub intercept: N,
    pub coefficients: Vec<N>,
}

/// Hosts the table through the phases of the analysis.
#[derive(Debug)]
pub struct Matrix<T> {
    pub inner: T,
}

/// The table after projection to the selected columns and expansion of every
/// text-typed column into dummy columns.
pub open spec fn spec_projected<N>(t: TableView<N>, names: Seq<Seq<char>>) -> TableView<N> {
    TableView {
        columns: expand_columns(t.spec_select(names).columns, None, None),
        height: t.height,
    }
}

impl<N: Copy> Matrix<Table<N>> {
    pub fn new(inner: Table<N>) -> (r: Self)
        ensures
            r.inner@ == inner@,
    {
        Matrix { inner }
    }

    /// A fresh read-only view over the current column names.
    pub fn header<'a>(&'a self) -> (h: Header<'a>)
        ensures
            h.names() == self.inner@.names(),
    {
        Header::new(self.inner.get_column_names())
    }

    /// The predictor columns that the tag configuration selects: quality tag
    /// as a prefix, derived tag past the start of the name. Used to specify
    /// the logit model.
    pub fn predictors(&self, cfg: FieldNamesCfg) -> (r: Predictors<'_>)
        ensures
            r.spec_names() == spec_fuzzy_predictors(
                self.inner@.names(),
                cfg.quality_field_tag@,
                cfg.derived_field_tag@,
            ),
    {
        Predictors::from_fields(get_fuzzy_predictors(self.inner.get_column_names(), cfg))
    }

    /// The binary-target column that the tag configuration selects. Exactly
    /// one column name may contain the target tag; zero or several matches
    /// are a configuration error carrying the match count.
    pub fn binary_target(&self, cfg: FieldNamesCfg) -> (r: Result<
        BinaryTarget<'_>,
        AnalysisError,
    >)
        ensures
            ({
                let m = spec_fuzzy_targets(self.inner@.names(), cfg.binary_target_field_tag@);
                match r {
                    Ok(t) => m.len() == 1 && t.spec_name() == m[0],
                    Err(AnalysisError::TagCardinality { found }) => m.len() != 1 && found
                        == m.len(),
                    Err(_) => false,
                }
            }),
    {
        BinaryTarget::from_fields(get_fuzzy_binary_target(self.inner.get_column_names(), cfg))
    }

    /// Converts the selected columns of the matrix to a flat row-major
    /// buffer with an appended intercept column. The dummy variables are
    /// built here, so callers name the original columns, before dummy
    /// making. Fails on an unknown column name, on a column that cannot be
    /// cast after expansion, and on a missing value.
    pub fn to_row_dominant(&self, columns: &Vec<String>, zero: N, one: N) -> (r: Result<
        (Vec<N>, usize),
        AnalysisError,
    >)
        requires
            self.inner@.wf(),
            self.inner@.sel_ok(columns.deep_view()) ==> ({
                let t2 = spec_projected(self.inner@, columns.deep_view());
                t2.columns.len() + 1 <= usize::MAX && t2.height * (t2.columns.len() + 1)
                    <= usize::MAX
            }),
        ensures
            ({
                let t = self.inner@;
                let t2 = spec_projected(t, columns.deep_view());
                match r {
                    Ok((buf, rows)) => {
                        &&& t.sel_ok(columns.deep_view())
                        &&& all_castable(t2)
                        &&& all_complete(t2)
                        &&& rows == t.height
                        &&& row_major_of(t2, buf@, zero, one)
                    },
                    Err(AnalysisError::NoSuchColumn { name }) => {
                        exists|j: int|
                            0 <= j < columns@.len() && #[trigger] columns@[j]@ == name@
                                && t.col_index(name@) is None
                    },
                    Err(AnalysisError::CastFailed { name }) => {
                        &&& t.sel_ok(columns.deep_view())
                        &&& exists|j: int|
                            #[trigger] first_uncastable(t2, j) && name@ == t2.columns[j].name
                    },
                    Err(AnalysisError::MissingValue { name }) => {
                        &&& t.sel_ok(columns.deep_view())
                        &&& all_castable(t2)
                        &&& exists|j: int|
                            #[trigger] first_incomplete(t2, j) && name@ == t2.columns[j].name
                    },
                    Err(_) => false,
                }
            }),
    {
        let ghost t = self.inner@;
        let ghost sel_names = columns.deep_view();
        let selected = match self.inner.select(columns) {
            Ok(s) => s,
            Err(e) => {
                proof {
                    assert forall|j: int| 0 <= j < columns@.len() implies columns.deep_view()[j]
                        == #[trigger] columns@[j]@ by {}
                }
                return Err(e);
            },
        };
        proof {
            assert forall|j: int| 0 <= j < columns@.len() implies columns.deep_view()[j]
                == #[trigger] columns@[j]@ by {}
            assert(t.sel_ok(sel_names));
            assert(selected@ =~= t.spec_select(sel_names));
            assert forall|j: int| 0 <= j < selected@.columns.len() implies (
            #[trigger] selected@.columns[j]).len() == selected@.height by {
                t.names().index_of_first_ensures(sel_names[j]);
            }
            assert(selected@.wf());
        }
        let expanded = match build_dummies(selected, None, None) {
            Ok(x) => x,
            Err(e) => {
                proof {
                    assert(false);
                }
                return Err(e);
            },
        };
        proof {
            assert(expanded@ =~= spec_projected(t, sel_names));
        }
        to_row_dominant(&expanded, zero, one)
    }

    /// Marks each row as included or excluded: a boolean "inclusion" column is
    /// added (or replaced) that is true exactly where the subject identifier
    /// is not missing. Returns how many rows are included and how many are
    /// excluded.
    pub fn with_inclusion_tag(&mut self) -> (r: (usize, usize))
        requires
            old(self).inner@.wf(),
            old(self).inner@.has_column("subject_idx"@),
        ensures
            ({
                let t = old(self).inner@;
                let subject = t.columns[t.col_index("subject_idx"@).unwrap()];
                let inclusion = ColumnView {
                    name: "inclusion"@,
                    data: ColumnDataView::<N>::Bool(
                        Seq::new(subject.len(), |rr: int| Some(present_at(subject.data, rr))),
                    ),
                };
                &&& r.0 == count_some_up_to(subject.data, subject.len() as int)
                &&& r.0 + r.1 == t.height
                &&& final(self).inner@.height == t.height
                &&& match t.col_index("inclusion"@) {
                    Some(k) => final(self).inner@.columns =~= t.columns.update(k, inclusion),
                    None => final(self).inner@.columns =~= t.columns.push(inclusion),
                }
            }),
    {
        let ghost t = self.inner@;
        proof {
            t.names().index_of_first_ensures("subject_idx"@);
        }
        let (flags, count): (Vec<Option<bool>>, usize) = match self.inner.column("subject_idx") {
            Ok(c) => {
                proof {
                    assert(c@ == t.columns[t.col_index("subject_idx"@).unwrap()]);
                }
                let ghost subject = t.columns[t.col_index("subject_idx"@).unwrap()];
                match &c.data {
                    ColumnData::Num(v) => {
                        let pr = presence_scan(v);
                        proof {
                            lemma_count_eq(c@.data, v@, v@.len() as int);
                            assert(pr.0@ =~= Seq::new(
                                subject.len(),
                                |rr: int| Some(present_at(subject.data, rr)),
                            ));
                            assert(pr.1 == count_some_up_to(subject.data, subject.len() as int));
                        }
                        pr
                    },
                    ColumnData::Text(v) => {
                        let pr = presence_scan(v);
                        proof {
                            assert forall|k: int| 0 <= k < v@.len() implies present_at(c@.data, k)
                                == (v@[k] is Some) by {
                                assert(v.deep_view()[k] == v@[k].deep_view());
                            }
                            lemma_count_eq(c@.data, v@, v@.len() as int);
                            assert(pr.0@ =~= Seq::new(
                                subject.len(),
                                |rr: int| Some(present_at(subject.data, rr)),
                            ));
                            assert(pr.1 == count_some_up_to(subject.data, subject.len() as int));
                        }
                        pr
                    },
                    ColumnData::Bool(v) => {
                        let pr = presence_scan(v);
                        proof {
                            lemma_count_eq(c@.data, v@, v@.len() as int);
                            assert(pr.0@ =~= Seq::new(
                                subject.len(),
                                |rr: int| Some(present_at(subject.data, rr)),
                            ));
                            assert(pr.1 == count_some_up_to(subject.data, subject.len() as int));
                        }
                        pr
                    },
                }
            },
            Err(_) => {
                proof {
                    assert(false);
                }
                (Vec::new(), 0)
            },
        };
        let (height, _) = self.inner.shape();
        proof {
            let subject = t.columns[t.col_index("subject_idx"@).unwrap()];
            lemma_count_some_bounds(subject.data, subject.len() as int);
            assert(count <= height);
        }
        let inclusion = Column { name: "inclusion".to_owned(), data: ColumnData::Bool(flags) };
        match self.inner.with_column(inclusion) {
            Ok(()) => {},
            Err(_) => {
                proof {
                    assert(false);
                }
            },
        }
        (count, height - count)
    }

    /// The inputs of the logit optimization: the flat row-major design
    /// matrix X built from the configured predictors (dummies expanded,
    /// intercept appended), the target vector y, and the row count.
    pub fn propensity_inputs(&self, cfg: &PropensityCfg, zero: N, one: N) -> (r: Result<
        (Vec<N>, Vec<N>, usize),
        AnalysisError,
    >)
        requires
            self.inner@.wf(),
            self.inner@.sel_ok(cfg.predictors.spec_names()) ==> ({
                let t2 = spec_projected(self.inner@, cfg.predictors.spec_names());
                t2.columns.len() + 1 <= usize::MAX && t2.height * (t2.columns.len() + 1)
                    <= usize::MAX
            }),
        ensures
            ({
                let t = self.inner@;
                let t2 = spec_projected(t, cfg.predictors.spec_names());
                match r {
                    Ok((x, y, rows)) => {
                        &&& t.sel_ok(cfg.predictors.spec_names())
                        &&& all_castable(t2)
                        &&& all_complete(t2)
                        &&& rows == t.height
                        &&& row_major_of(t2, x@, zero, one)
                        &&& t.col_index(cfg.target.spec_name()) is Some
                        &&& ({
                            let tc = t.columns[t.col_index(cfg.target.spec_name()).unwrap()];
                            &&& tc.data.castable()
                            &&& tc.data.complete()
                            &&& y@.len() == tc.len()
                            &&& forall|rr: int|
                                0 <= rr < y@.len() ==> y@[rr] == tc.data.num_at(rr, zero, one)
                        })
                    },
                    Err(_) => true,
                }
            }),
            r is Err ==> !({
                let t = self.inner@;
                let t2 = spec_projected(t, cfg.predictors.spec_names());
                &&& t.sel_ok(cfg.predictors.spec_names())
                &&& all_castable(t2)
                &&& all_complete(t2)
                &&& match t.col_index(cfg.target.spec_name()) {
                    Some(j) => t.columns[j].data.castable() && t.columns[j].data.complete(),
                    None => false,
                }
            }),
            ({
                let t = self.inner@;
                let t2 = spec_projected(t, cfg.predictors.spec_names());
                match r {
                    Ok(_) => true,
                    Err(AnalysisError::NoSuchColumn { name }) => {
                        t.col_index(name@) is None && (cfg.predictors.spec_names().contains(name@)
                            || name@ == cfg.target.spec_name())
                    },
                    Err(AnalysisError::CastFailed { name }) => {
                        (exists|j: int|
                            #[trigger] first_uncastable(t2, j) && name@ == t2.columns[j].name)
                            || name@ == cfg.target.spec_name()
                    },
                    Err(AnalysisError::MissingValue { name }) => {
                        (exists|j: int|
                            #[trigger] first_incomplete(t2, j) && name@ == t2.columns[j].name)
                            || name@ == cfg.target.spec_name()
                    },
                    Err(_) => false,
                }
            }),
    {
        let ghost t = self.inner@;
        let preds = cfg.predictors.names();
        assert(preds.deep_view() == cfg.predictors.spec_names());
        let x_and_rows = match self.to_row_dominant(preds, zero, one) {
            Ok(p) => p,
            Err(e) => {
                proof {
                    let t2 = spec_projected(t, cfg.predictors.spec_names());
                    match &e {
                        AnalysisError::NoSuchColumn { name } => {
                            let j = choose|j: int|
                                0 <= j < preds@.len() && #[trigger] preds@[j]@ == name@
                                    && t.col_index(name@) is None;
                            assert(t.col_index(#[trigger] cfg.predictors.spec_names()[j])
                                is None);
                            assert(!t.sel_ok(cfg.predictors.spec_names()));
                            assert(cfg.predictors.spec_names()[j] == name@);
                            assert(cfg.predictors.spec_names().contains(name@));
                        },
                        AnalysisError::CastFailed { name } => {
                            let j = choose|j: int|
                                #[trigger] first_uncastable(t2, j) && name@ == t2.columns[j].name;
                            assert(!all_castable(t2));
                        },
                        AnalysisError::MissingValue { name } => {
                            let j = choose|j: int|
                                #[trigger] first_incomplete(t2, j) && name@ == t2.columns[j].name;
                            assert(!all_complete(t2));
                        },
                        _ => {
                            assert(false);
                        },
                    }
                }
                return Err(e);
            },
        };
        let (x, row_count) = x_and_rows;
        proof {
            t.names().index_of_first_ensures(cfg.target.spec_name());
        }
        let y = match self.inner.column(cfg.target.as_str()) {
            Ok(c) => {
                proof {
                    assert(c@ == t.columns[t.col_index(cfg.target.spec_name()).unwrap()]);
                }
                match c.cast_values(zero, one) {
                    Ok(v) => v,
                    Err(e) => {
                        return Err(e);
                    },
                }
            },
            Err(e) => {
                return Err(e);
            },
        };
        Ok((x, y, row_count))
    }

    /// Appends the solver's predictions back onto the table as the
    /// "propensity" column (replacing an existing one of that name). Fails
    /// when the prediction count disagrees with the row count.
    pub fn with_propensity_column(&mut self, values: Vec<N>) -> (r: Result<(), AnalysisError>)
        ensures
            ({
                let t = old(self).inner@;
                let col = ColumnView {
                    name: "propensity"@,
                    data: ColumnDataView::<N>::Num(
                        Seq::new(values@.len(), |rr: int| Some(values@[rr])),
                    ),
                };
                match r {
                    Ok(()) => {
                        &&& if t.columns.len() == 0 {
                            final(self).inner@.height == values@.len() && final(self).inner@.columns
                                =~= seq![col]
                        } else {
                            final(self).inner@.height == t.height && values@.len() == t.height
                                && match t.col_index("propensity"@) {
                                Some(k) => final(self).inner@.columns =~= t.columns.update(k, col),
                                None => final(self).inner@.columns =~= t.columns.push(col),
                            }
                        }
                    },
                    Err(AnalysisError::ShapeMismatch { name }) => {
                        &&& t.columns.len() > 0
                        &&& values@.len() != t.height
                        &&& name@ == "propensity"@
                        &&& final(self).inner@ == t
                    },
                    Err(_) => false,
                }
            }),
    {
        let mut data: Vec<Option<N>> = Vec::new();
        let n = values.len();
        for i in 0..n
            invariant
                n == values@.len(),
                data@ =~= Seq::new(i as nat, |rr: int| Some(values@[rr])),
        {
            data.push(Some(values[i]));
            assert(data@ =~= Seq::new(i as nat + 1, |rr: int| Some(values@[rr])));
        }
        let col = Column { name: "propensity".to_owned(), data: ColumnData::Num(data) };
        self.inner.with_column(col)
    }
}

/// The entry of row `r` is present (not missing).
pub open spec fn present_at<N>(d: ColumnDataView<N>, r: int) -> bool {
    match d {
        ColumnDataView::Num(v) => v[r] is Some,
        ColumnDataView::Text(v) => v[r] is Some,
        ColumnDataView::Bool(v) => v[r] is Some,
    }
}

/// How many of the first `n` entries are present.
pub open spec fn count_some_up_to<N>(d: ColumnDataView<N>, n: int) -> int
    decreases n,
{
    if n <= 0 {
        0
    } else {
        count_some_up_to(d, n - 1) + if present_at(d, n - 1) {
            1int
        } else {
            0int
        }
    }
}

/// The presence counts agree when presence agrees entry for entry.
proof fn lemma_count_eq<N, T>(d: ColumnDataView<N>, v: Seq<Option<T>>, n: int)
    requires
        forall|k: int| 0 <= k < n ==> present_at(d, k) == (#[trigger] v[k] is Some),
    ensures
        count_some_up_to(d, n) == count_some_up_to_opts(v, n),
    decreases n,
{
    if n > 0 {
        lemma_count_eq(d, v, n - 1);
    }
}

/// The presence count of a prefix never exceeds its length.
pub proof fn lemma_count_some_bounds<N>(d: ColumnDataView<N>, n: int)
    ensures
        0 <= count_some_up_to(d, n) <= if n <= 0 {
            0int
        } else {
            n
        },
    decreases n,
{
    if n > 0 {
        lemma_count_some_bounds(d, n - 1);
    }
}

/// Scans a column's entries: a presence flag per row, and the count of
/// present entries.
fn presence_scan<T>(v: &Vec<Option<T>>) -> (r: (Vec<Option<bool>>, usize))
    ensures
        r.0@ =~= Seq::new(v@.len(), |rr: int| Some(v@[rr] is Some)),
        r.1 == count_some_up_to_opts(v@, v@.len() as int),
{
    let mut flags: Vec<Option<bool>> = Vec::new();
    let mut count: usize = 0;
    let n = v.len();
    for i in 0..n
        invariant
            n == v@.len(),
            flags@ =~= Seq::new(i as nat, |rr: int| Some(v@[rr] is Some)),
            count == count_some_up_to_opts(v@, i as int),
            count <= i,
    {
        let here = v[i].is_some();
        flags.push(Some(here));
        if here {
            count = count + 1;
        }
        assert(flags@ =~= Seq::new(i as nat + 1, |rr: int| Some(v@[rr] is Some)));
    }
    (flags, count)
}

/// How many of the first `n` optional entries are present.
pub open spec fn count_some_up_to_opts<T>(v: Seq<Option<T>>, n: int) -> int
    decreases n,
{
    if n <= 0 {
        0
    } else {
        count_some_up_to_opts(v, n - 1) + if v[n - 1] is Some {
            1int
        } else {
            0int
        }
    }
}

} // verus!
