//! Builds a numeric design matrix from a labeled tabular dataset for a
//! logistic-regression-based propensity score.
//!
//! The core pieces are: resolving which columns play which statistical role
//! from naming conventions (fuzzy tag matching), expanding categorical
//! columns into indicator ("dummy") columns with a deterministic k-1
//! encoding, and flattening the resulting table into a single row-major
//! numeric buffer with an appended intercept term.
//!
//! Loading tables from files, configuration parsing, the regression solver
//! itself and all presentation concerns are external collaborators and live
//! outside this crate.

pub mod column;
pub mod config;
pub mod errors;
pub mod fuzzy;
pub mod header;
pub mod matrix;
pub mod prelude;
pub mod propensity;
pub mod table;
pub mod tnc_analysis_cfg;
pub mod to_dummies;

use vstd::prelude::*;

use crate::column::ColumnData;
use crate::config::FieldNamesCfg;
use crate::errors::AnalysisError;
use crate::table::{Table, TableView};

verus! {

/// The names among `names` that pass the predictor filter, in order: the
/// quality tag is a prefix, or the derived tag occurs past the start of the
/// name. These fuzzy lookups depend on how the producing application names
/// fields; coordination happens through [`FieldNamesCfg`].
pub open spec fn spec_fuzzy_predictors(
    names: Seq<Seq<char>>,
    quality: Seq<char>,
    derived: Seq<char>,
) -> Seq<Seq<char>>
    decreases names.len(),
{
    if names.len() == 0 {
        Seq::empty()
    } else {
        let pre = spec_fuzzy_predictors(names.drop_last(), quality, derived);
        if fuzzy::is_predictor_name(names.last(), quality, derived) {
            pre.push(names.last())
        } else {
            pre
        }
    }
}

/// The names among `names` that contain the binary-target tag, in order.
pub open spec fn spec_fuzzy_targets(names: Seq<Seq<char>>, tag: Seq<char>) -> Seq<Seq<char>>
    decreases names.len(),
{
    if names.len() == 0 {
        Seq::empty()
    } else {
        let pre = spec_fuzzy_targets(names.drop_last(), tag);
        if fuzzy::contains_tag(names.last(), tag) {
            pre.push(names.last())
        } else {
            pre
        }
    }
}

/// The field names classified as predictors by the tag configuration: the
/// quality tag as a prefix, or the derived tag past the start of the name.
pub fn get_fuzzy_predictors<'a>(fields: Vec<&'a str>, cfg: FieldNamesCfg) -> (r: Vec<&'a str>)
    ensures
        header::names_of(r@) == spec_fuzzy_predictors(
            header::names_of(fields@),
            cfg.quality_field_tag@,
            cfg.derived_field_tag@,
        ),
{
    let ghost all = header::names_of(fields@);
    let mut r: Vec<&'a str> = Vec::new();
    let n = fields.len();
    assert(header::names_of(r@) =~= spec_fuzzy_predictors(
        all.take(0),
        cfg.quality_field_tag@,
        cfg.derived_field_tag@,
    ));
    for i in 0..n
        invariant
            n == fields@.len(),
            all == header::names_of(fields@),
            header::names_of(r@) == spec_fuzzy_predictors(
                all.take(i as int),
                cfg.quality_field_tag@,
                cfg.derived_field_tag@,
            ),
    {
        proof {
            assert(all.take(i + 1).drop_last() =~= all.take(i as int));
            assert(all.take(i + 1).last() == all[i as int]);
        }
        let ghost before = r@;
        if fuzzy::match_predictor(
            fields[i],
            cfg.quality_field_tag.as_str(),
            cfg.derived_field_tag.as_str(),
        ) {
            r.push(fields[i]);
            assert(header::names_of(r@) =~= header::names_of(before).push(all[i as int]));
        }
    }
    assert(all.take(n as int) =~= all);
    r
}

/// The field names that contain the binary-target tag anywhere.
pub fn get_fuzzy_binary_target<'a>(fields: Vec<&'a str>, cfg: FieldNamesCfg) -> (r: Vec<&'a str>)
    ensures
        header::names_of(r@) == spec_fuzzy_targets(
            header::names_of(fields@),
            cfg.binary_target_field_tag@,
        ),
{
    let ghost all = header::names_of(fields@);
    let mut r: Vec<&'a str> = Vec::new();
    let n = fields.len();
    assert(header::names_of(r@) =~= spec_fuzzy_targets(all.take(0), cfg.binary_target_field_tag@));
    for i in 0..n
        invariant
            n == fields@.len(),
            all == header::names_of(fields@),
            header::names_of(r@) == spec_fuzzy_targets(
                all.take(i as int),
                cfg.binary_target_field_tag@,
            ),
    {
        proof {
            assert(all.take(i + 1).drop_last() =~= all.take(i as int));
            assert(all.take(i + 1).last() == all[i as int]);
        }
        let ghost before = r@;
        if fuzzy::match_contains(fields[i], cfg.binary_target_field_tag.as_str()) {
            r.push(fields[i]);
            assert(header::names_of(r@) =~= header::names_of(before).push(all[i as int]));
        }
    }
    assert(all.take(n as int) =~= all);
    r
}

/// Every column of the table can be cast to the numeric element type.
pub open spec fn all_castable<N>(t: TableView<N>) -> bool {
    forall|j: int| 0 <= j < t.columns.len() ==> (#[trigger] t.columns[j]).data.castable()
}

/// No column of the table has a missing entry.
pub open spec fn all_complete<N>(t: TableView<N>) -> bool {
    forall|j: int| 0 <= j < t.columns.len() ==> (#[trigger] t.columns[j]).data.complete()
}

/// The buffer is the row-major flattening of the table with an intercept
/// column appended: for row `r` and logical column `c` of the widened table,
/// the element sits at `r * (cols + 1) + c`, and the last logical column of
/// every row is `one`.
pub open spec fn row_major_of<N>(t: TableView<N>, buf: Seq<N>, zero: N, one: N) -> bool {
    let w = t.columns.len() + 1;
    &&& buf.len() == t.height * w
    &&& forall|rr: int, j: int|
        0 <= rr < t.height && 0 <= j < t.columns.len() ==> buf[rr * w + j] == t.columns[
            j
        ].data.num_at(rr, zero, one)
    &&& forall|rr: int| 0 <= rr < t.height ==> #[trigger] buf[rr * w + t.columns.len()] == one
}

/// Column `j` is the first column, in table order, that cannot be cast.
pub open spec fn first_uncastable<N>(t: TableView<N>, j: int) -> bool {
    &&& 0 <= j < t.columns.len()
    &&& !t.columns[j].data.castable()
    &&& forall|k: int| 0 <= k < j ==> (#[trigger] t.columns[k]).data.castable()
}

/// Column `j` is the first column, in table order, with a missing entry.
pub open spec fn first_incomplete<N>(t: TableView<N>, j: int) -> bool {
    &&& 0 <= j < t.columns.len()
    &&& !t.columns[j].data.complete()
    &&& forall|k: int| 0 <= k < j ==> (#[trigger] t.columns[k]).data.complete()
}

/// A row-major position is in bounds.
proof fn lemma_rowmajor_bound(r: int, j: int, rows: int, w: int)
    by (nonlinear_arith)
    requires
        0 <= r < rows,
        0 <= j < w,
    ensures
        0 <= r * w + j < rows * w,
{
}

/// Row-major positions are unambiguous: a flat index determines its row and
/// its logical column.
proof fn lemma_rowmajor_inj(r1: int, j1: int, r2: int, j2: int, w: int)
    by (nonlinear_arith)
    requires
        0 <= j1 < w,
        0 <= j2 < w,
        0 <= r1,
        0 <= r2,
        r1 * w + j1 == r2 * w + j2,
    ensures
        r1 == r2,
        j1 == j2,
{
}

/// Distinct (row, column) positions land on distinct flat indices.
proof fn lemma_distinct_cell(r1: int, j1: int, r2: int, j2: int, w: int)
    requires
        0 <= j1 < w,
        0 <= j2 < w,
        0 <= r1,
        0 <= r2,
        !(r1 == r2 && j1 == j2),
    ensures
        r1 * w + j1 != r2 * w + j2,
{
    if r1 * w + j1 == r2 * w + j2 {
        lemma_rowmajor_inj(r1, j1, r2, j2, w);
    }
}

/// Converts a table that is safe to transpose into a single row-major
/// buffer, appending a constant intercept ("bias") column after all the
/// table's columns. Used to build the X input of the propensity score.
///
/// For row `r` and logical column `c` of the widened table, the element
/// lands at `r * (cols + 1) + c`; the last logical column of every row is
/// `one`. Fails with a cast error on the first text-typed column, and
/// otherwise with a data-integrity error on the first column that has a
/// missing entry.
pub fn to_row_dominant<N: Copy>(table: &Table<N>, zero: N, one: N) -> (r: Result<
    (Vec<N>, usize),
    AnalysisError,
>)
    requires
        table@.wf(),
        table@.columns.len() + 1 <= usize::MAX,
        table@.height * (table@.columns.len() + 1) <= usize::MAX,
    ensures
        ({
            let t = table@;
            let w = t.columns.len() + 1;
            match r {
                Ok((buf, rows)) => {
                    &&& all_castable(t)
                    &&& all_complete(t)
                    &&& rows == t.height
                    &&& row_major_of(t, buf@, zero, one)
                },
                Err(AnalysisError::CastFailed { name }) => {
                    exists|j: int| #[trigger] first_uncastable(t, j) && name@ == t.columns[j].name
                },
                Err(AnalysisError::MissingValue { name }) => {
                    &&& all_castable(t)
                    &&& exists|j: int|
                        #[trigger] first_incomplete(t, j) && name@ == t.columns[j].name
                },
                Err(_) => false,
            }
        }),
{
    let ghost t = table@;
    let cols = table.columns();
    let n = cols.len();
    let (rows, _) = table.shape();
    // every column must cast to the numeric type before any value moves
    for j in 0..n
        invariant
            t == table@,
            n == cols@.len(),
            cols@.map(|i: int, c: column::Column<N>| c@) == t.columns,
            forall|k: int| 0 <= k < j ==> (#[trigger] t.columns[k]).data.castable(),
    {
        assert(cols@[j as int]@ == t.columns[j as int]);
        match &cols[j].data {
            ColumnData::Text(_) => {
                let nm = cols[j].name.clone();
                proof {
                    assert(first_uncastable(t, j as int));
                    assert(nm@ == t.columns[j as int].name);
                }
                return Err(AnalysisError::CastFailed { name: nm });
            },
            _ => {},
        }
    }
    // every column must be complete: a missing value is a fatal error
    for j in 0..n
        invariant
            t == table@,
            n == cols@.len(),
            rows == t.height,
            t.wf(),
            cols@.map(|i: int, c: column::Column<N>| c@) == t.columns,
            all_castable(t),
            forall|k: int| 0 <= k < j ==> (#[trigger] t.columns[k]).data.complete(),
    {
        assert(cols@[j as int]@ == t.columns[j as int]);
        let missing: bool = match &cols[j].data {
            ColumnData::Num(v) => column::any_none(v),
            ColumnData::Bool(v) => column::any_none(v),
            ColumnData::Text(_) => {
                proof {
                    assert(t.columns[j as int].data.castable());
                }
                false
            },
        };
        if missing {
            let nm = cols[j].name.clone();
            proof {
                assert(first_incomplete(t, j as int));
                assert(nm@ == t.columns[j as int].name);
            }
            return Err(AnalysisError::MissingValue { name: nm });
        }
        assert(t.columns[j as int].data.complete());
    }
    // scatter: write each column at stride w, shifted by its position
    let w = n + 1;
    let total = rows * w;
    let mut data: Vec<N> = Vec::new();
    let mut filled: usize = 0;
    while filled < total
        invariant
            data@.len() == filled <= total,
        decreases total - filled,
    {
        data.push(zero);
        filled = filled + 1;
    }
    for j in 0..n
        invariant
            t == table@,
            n == cols@.len(),
            w == n + 1,
            rows == t.height,
            total == rows * w,
            t.wf(),
            data@.len() == total,
            cols@.map(|i: int, c: column::Column<N>| c@) == t.columns,
            all_castable(t),
            all_complete(t),
            forall|rr: int, jj: int|
                0 <= rr < rows && 0 <= jj < j ==> data@[rr * (w as int) + jj] == t.columns[jj
                    as int].data.num_at(rr, zero, one),
    {
        assert(cols@[j as int]@ == t.columns[j as int]);
        match &cols[j].data {
            ColumnData::Num(v) => {
                assert(v@.len() == rows);
                for rr in 0..rows
                    invariant
                        t == table@,
                        n == cols@.len(),
                        j < n,
                        w == n + 1,
                        rows == t.height,
                        total == rows * w,
                        data@.len() == total,
                        v@.len() == rows,
                        t.columns[j as int].data == column::ColumnDataView::Num(v@),
                        t.columns[j as int].data.complete(),
                        forall|r2: int, jj: int|
                            0 <= r2 < rows && 0 <= jj < j ==> data@[r2 * (w as int) + jj]
                                == t.columns[jj as int].data.num_at(r2, zero, one),
                        forall|r2: int|
                            0 <= r2 < rr ==> data@[r2 * (w as int) + j] == t.columns[j
                                as int].data.num_at(r2, zero, one),
                {
                    proof {
                        lemma_rowmajor_bound(rr as int, j as int, rows as int, w as int);
                    }
                    let x: N = match v[rr] {
                        Some(x) => x,
                        None => {
                            proof {
                                assert(v@[rr as int] is Some);
                            }
                            zero
                        },
                    };
                    let idx = rr * w + j;
                    data.set(idx, x);
                    proof {
                        assert forall|r2: int, jj: int|
                            0 <= r2 < rows && 0 <= jj < j implies data@[r2 * (w as int) + jj]
                            == t.columns[jj as int].data.num_at(r2, zero, one) by {
                            lemma_rowmajor_bound(r2, jj, rows as int, w as int);
                            lemma_distinct_cell(r2, jj, rr as int, j as int, w as int);
                        }
                        assert forall|r2: int|
                            0 <= r2 < rr + 1 implies #[trigger] data@[r2 * (w as int) + j]
                            == t.columns[j as int].data.num_at(r2, zero, one) by {
                            lemma_rowmajor_bound(r2, j as int, rows as int, w as int);
                            if r2 < rr as int {
                                lemma_distinct_cell(r2, j as int, rr as int, j as int, w as int);
                            }
                        }
                    }
                }
            },
            ColumnData::Bool(v) => {
                assert(v@.len() == rows);
                for rr in 0..rows
                    invariant
                        t == table@,
                        n == cols@.len(),
                        j < n,
                        w == n + 1,
                        rows == t.height,
                        total == rows * w,
                        data@.len() == total,
                        v@.len() == rows,
                        t.columns[j as int].data == column::ColumnDataView::<N>::Bool(v@),
                        t.columns[j as int].data.complete(),
                        forall|r2: int, jj: int|
                            0 <= r2 < rows && 0 <= jj < j ==> data@[r2 * (w as int) + jj]
                                == t.columns[jj as int].data.num_at(r2, zero, one),
                        forall|r2: int|
                            0 <= r2 < rr ==> data@[r2 * (w as int) + j] == t.columns[j
                                as int].data.num_at(r2, zero, one),
                {
                    proof {
                        lemma_rowmajor_bound(rr as int, j as int, rows as int, w as int);
                    }
                    let x: N = match v[rr] {
                        Some(b) => if b {
                            one
                        } else {
                            zero
                        },
                        None => {
                            proof {
                                assert(v@[rr as int] is Some);
                            }
                            zero
                        },
                    };
                    let idx = rr * w + j;
                    data.set(idx, x);
                    proof {
                        assert forall|r2: int, jj: int|
                            0 <= r2 < rows && 0 <= jj < j implies data@[r2 * (w as int) + jj]
                            == t.columns[jj as int].data.num_at(r2, zero, one) by {
                            lemma_rowmajor_bound(r2, jj, rows as int, w as int);
                            lemma_distinct_cell(r2, jj, rr as int, j as int, w as int);
                        }
                        assert forall|r2: int|
                            0 <= r2 < rr + 1 implies #[trigger] data@[r2 * (w as int) + j]
                            == t.columns[j as int].data.num_at(r2, zero, one) by {
                            lemma_rowmajor_bound(r2, j as int, rows as int, w as int);
                            if r2 < rr as int {
                                lemma_distinct_cell(r2, j as int, rr as int, j as int, w as int);
                            }
                        }
                    }
                }
            },
            ColumnData::Text(_) => {
                proof {
                    assert(t.columns[j as int].data.castable());
                }
            },
        }
    }
    // the bias or intercept slot fills the last column of every row
    for rr in 0..rows
        invariant
            t == table@,
            w == n + 1,
            rows == t.height,
            n == t.columns.len(),
            total == rows * w,
            data@.len() == total,
            forall|r2: int, jj: int|
                0 <= r2 < rows && 0 <= jj < n ==> data@[r2 * (w as int) + jj] == t.columns[jj
                    as int].data.num_at(r2, zero, one),
            forall|r2: int| 0 <= r2 < rr ==> #[trigger] data@[r2 * (w as int) + n] == one,
    {
        proof {
            lemma_rowmajor_bound(rr as int, n as int, rows as int, w as int);
        }
        let idx = rr * w + n;
        data.set(idx, one);
        proof {
            assert forall|r2: int, jj: int|
                0 <= r2 < rows && 0 <= jj < n implies data@[r2 * (w as int) + jj] == t.columns[jj
                as int].data.num_at(r2, zero, one) by {
                lemma_rowmajor_bound(r2, jj, rows as int, w as int);
                lemma_distinct_cell(r2, jj, rr as int, n as int, w as int);
            }
            assert forall|r2: int|
                0 <= r2 < rr + 1 implies #[trigger] data@[r2 * (w as int) + n] == one by {
                lemma_rowmajor_bound(r2, n as int, rows as int, w as int);
                if r2 < rr as int {
                    lemma_distinct_cell(r2, n as int, rr as int, n as int, w as int);
                }
            }
        }
    }
    Ok((data, rows))
}

} // verus!

