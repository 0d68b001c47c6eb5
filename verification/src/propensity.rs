//! The propensity configuration and its staged builder, plus table-level
//! dummy expansion.
//!
//! The resolved roles exist in two forms: transient view forms
//! (`BinaryTarget`, `Predictors`) that borrow names from a table snapshot,
//! and owned forms that a configuration can hold while the source table is
//! mutated. The builder's `build` is the single point where borrowed data is
//! copied into owned data.

use vstd::prelude::*;

use crate::column::{views_of, Column, ColumnView};
use crate::errors::AnalysisError;
use crate::fuzzy::str_equal;
use crate::header::names_of;
use crate::table::Table;
use crate::to_dummies::{lemma_to_dummies_properties, spec_to_dummies, CategoryField};

verus! {

/// A borrowed column name.
pub type FieldName<'a> = &'a str;

/// Exactly one resolved column name designating the dependent variable,
/// borrowed from a table snapshot. Must not be retained across a mutation of
/// that table: `build` copies it into an owned form first.
pub struct BinaryTarget<'a> {
    inner: FieldName<'a>,
}

impl<'a> BinaryTarget<'a> {
    /// The resolved column name.
    pub closed spec fn spec_name(&self) -> Seq<char> {
        self.inner@
    }

    /// Wraps a single resolved field name.
    pub fn from_field(fieldname: FieldName<'a>) -> (r: Self)
        ensures
            r.spec_name() == fieldname@,
    {
        BinaryTarget { inner: fieldname }
    }

    /// Wraps a resolved-name list. A list that does not hold exactly one
    /// entry is a configuration error: the cardinality violation carries how
    /// many names matched.
    pub fn from_fields(fields: Vec<FieldName<'a>>) -> (r: Result<Self, AnalysisError>)
        ensures
            match r {
                Ok(t) => fields@.len() == 1 && t.spec_name() == fields@[0]@,
                Err(AnalysisError::TagCardinality { found }) => fields@.len() != 1 && found
                    == fields@.len(),
                Err(_) => false,
            },
    {
        if fields.len() == 1 {
            Ok(BinaryTarget { inner: fields[0] })
        } else {
            Err(AnalysisError::TagCardinality { found: fields.len() })
        }
    }

    /// The resolved name.
    pub fn name(&self) -> (r: FieldName<'a>)
        ensures
            r@ == self.spec_name(),
    {
        self.inner
    }

    /// Copies the borrowed name into an owned form.
    pub fn to_owned_target(&self) -> (r: BinaryTargetOwned)
        ensures
            r.spec_name() == self.spec_name(),
    {
        BinaryTargetOwned { inner: self.inner.to_owned() }
    }
}

/// An ordered set of resolved column names designating independent
/// variables, borrowed from a table snapshot. Duplicates are not
/// deduplicated: callers must ensure tag patterns do not overlap if
/// uniqueness matters.
pub struct Predictors<'a> {
    inner: Vec<FieldName<'a>>,
}

impl<'a> Predictors<'a> {
    /// The resolved column names, in order.
    pub closed spec fn spec_names(&self) -> Seq<Seq<char>> {
        names_of(self.inner@)
    }

    pub fn from_fields(fields: Vec<FieldName<'a>>) -> (r: Self)
        ensures
            r.spec_names() == names_of(fields@),
    {
        Predictors { inner: fields }
    }

    /// The resolved names, in order.
    pub fn names(&self) -> (r: &Vec<FieldName<'a>>)
        ensures
            names_of(r@) == self.spec_names(),
    {
        &self.inner
    }

    pub fn len(&self) -> (r: usize)
        ensures
            r == self.spec_names().len(),
    {
        self.inner.len()
    }

    /// Copies the borrowed names into an owned form.
    pub fn to_owned_predictors(&self) -> (r: PredictorsOwned)
        ensures
            r.spec_names() == self.spec_names(),
    {
        let mut out: Vec<String> = Vec::new();
        let n = self.inner.len();
        for i in 0..n
            invariant
                n == self.inner@.len(),
                out.deep_view() == names_of(self.inner@).take(i as int),
        {
            let w = self.inner[i].to_owned();
            assert(w@ == names_of(self.inner@)[i as int]);
            let ghost before = out.deep_view();
            out.push(w);
            proof {
                assert(out.deep_view() =~= before.push(names_of(self.inner@)[i as int]));
                assert(names_of(self.inner@).take(i as int + 1) =~= before.push(
                    names_of(self.inner@)[i as int],
                ));
            }
        }
        proof {
            assert(names_of(self.inner@).take(n as int) =~= names_of(self.inner@));
        }
        PredictorsOwned { inner: out }
    }
}

/// Owned version of `BinaryTarget`, safe to hold in a configuration after
/// the source table is mutated.
#[derive(Debug, Clone)]
pub struct BinaryTargetOwned {
    inner: String,
}

impl BinaryTargetOwned {
    /// The resolved column name.
    pub closed spec fn spec_name(&self) -> Seq<char> {
        self.inner@
    }

    pub fn as_str(&self) -> (r: &str)
        ensures
            r@ == self.spec_name(),
    {
        self.inner.as_str()
    }
}

/// Owned version of `Predictors`, safe to hold in a configuration after the
/// source table is mutated.
#[derive(Debug, Clone)]
pub struct PredictorsOwned {
    inner: Vec<String>,
}

impl PredictorsOwned {
    /// The resolved column names, in order.
    pub closed spec fn spec_names(&self) -> Seq<Seq<char>> {
        self.inner.deep_view()
    }

    /// The resolved names, in order.
    pub fn names(&self) -> (r: &Vec<String>)
        ensures
            r.deep_view() == self.spec_names(),
    {
        &self.inner
    }
}

/// How to engage the logit optimization for the propensity score. Values do
/// not borrow from the table: use the builder to copy them as needed.
#[derive(Debug, Clone)]
pub struct PropensityCfg {
    pub target: BinaryTargetOwned,
    pub predictors: PredictorsOwned,
    pub bin_count: u32,
    pub name: String,
}

impl PropensityCfg {
    /// Entry point for building the configuration. See exit: `build`.
    pub fn builder<'a>(target: BinaryTarget<'a>, predictors: Predictors<'a>) -> (r:
        PropensityCfgBuilder<'a>)
        ensures
            r.spec_target() == target.spec_name(),
            r.spec_predictors() == predictors.spec_names(),
            r.spec_bin_count() == 5,
            r.spec_name() == "propensity"@,
    {
        PropensityCfgBuilder::new(target, predictors)
    }

    /// The name of the derived bin column.
    pub fn bin_name(&self) -> (r: String)
        ensures
            r@ == self.name@ + "_bin"@,
    {
        self.name.clone().concat("_bin")
    }
}

/// Phased build of the parameters required to run and append the propensity
/// score: target and predictors first, optional overrides next, and a
/// terminal `build` that consumes the builder and copies every borrowed name
/// into the owned configuration.
pub struct PropensityCfgBuilder<'a> {
    pub target: BinaryTarget<'a>,
    pub predictors: Predictors<'a>,
    bin_count: u32,
    name: &'a str,
}

impl<'a> PropensityCfgBuilder<'a> {
    /// The target name that `build` will store.
    pub closed spec fn spec_target(&self) -> Seq<char> {
        self.target.spec_name()
    }

    /// The predictor names that `build` will store.
    pub closed spec fn spec_predictors(&self) -> Seq<Seq<char>> {
        self.predictors.spec_names()
    }

    /// The bin count that `build` will store (defaults to 5).
    pub closed spec fn spec_bin_count(&self) -> u32 {
        self.bin_count
    }

    /// The human-readable name that `build` will store (defaults to
    /// "propensity").
    pub closed spec fn spec_name(&self) -> Seq<char> {
        self.name@
    }

    pub fn new(target: BinaryTarget<'a>, predictors: Predictors<'a>) -> (r: Self)
        ensures
            r.spec_target() == target.spec_name(),
            r.spec_predictors() == predictors.spec_names(),
            r.spec_bin_count() == 5,
            r.spec_name() == "propensity"@,
    {
        PropensityCfgBuilder { target, predictors, bin_count: 5, name: "propensity" }
    }

    /// Overrides the bin count.
    pub fn bin_count(self, bin_count: u32) -> (r: Self)
        ensures
            r.spec_target() == self.spec_target(),
            r.spec_predictors() == self.spec_predictors(),
            r.spec_bin_count() == bin_count,
            r.spec_name() == self.spec_name(),
    {
        PropensityCfgBuilder { bin_count, ..self }
    }

    /// Overrides the human-readable name.
    pub fn with_name(self, name: &'a str) -> (r: Self)
        ensures
            r.spec_target() == self.spec_target(),
            r.spec_predictors() == self.spec_predictors(),
            r.spec_bin_count() == self.spec_bin_count(),
            r.spec_name() == name@,
    {
        PropensityCfgBuilder { name, ..self }
    }

    /// Finalizes the configuration, copying all borrowed string data into an
    /// owned `PropensityCfg` that can outlive mutation of the source table.
    /// The builder is consumed: "built" is terminal.
    pub fn build(self) -> (r: PropensityCfg)
        ensures
            r.target.spec_name() == self.spec_target(),
            r.predictors.spec_names() == self.spec_predictors(),
            r.bin_count == self.spec_bin_count(),
            r.name@ == self.spec_name(),
    {
        let name = self.name.to_owned();
        PropensityCfg {
            target: self.target.to_owned_target(),
            predictors: self.predictors.to_owned_predictors(),
            bin_count: self.bin_count,
            name,
        }
    }
}

/// Whether the encoder is applied to a column: every text-typed column when
/// no explicit list is given, else exactly the named ones.
pub open spec fn col_selected<N>(c: ColumnView<N>, sel: Option<Seq<Seq<char>>>) -> bool {
    match sel {
        None => c.data is Text,
        Some(names) => names.contains(c.name),
    }
}

/// The selection that an optional predictor list denotes.
pub open spec fn sel_of(columns: Option<Predictors>) -> Option<Seq<Seq<char>>> {
    match columns {
        None => None,
        Some(p) => Some(p.spec_names()),
    }
}

/// The table's columns after dummy expansion: each selected column is
/// replaced in place by its indicator columns, every other column stands
/// unchanged.
pub open spec fn expand_columns<N>(
    cols: Seq<ColumnView<N>>,
    sel: Option<Seq<Seq<char>>>,
    separator: Option<&str>,
) -> Seq<ColumnView<N>>
    decreases cols.len(),
{
    if cols.len() == 0 {
        Seq::empty()
    } else {
        expand_columns(cols.drop_last(), sel, separator) + (if col_selected(cols.last(), sel) {
            spec_to_dummies(cols.last(), separator)
        } else {
            seq![cols.last()]
        })
    }
}

/// Every selected column is text-typed, so the encoder accepts it.
pub open spec fn selected_all_text<N>(cols: Seq<ColumnView<N>>, sel: Option<Seq<Seq<char>>>) -> bool {
    forall|j: int|
        0 <= j < cols.len() && col_selected(#[trigger] cols[j], sel) ==> cols[j].data is Text
}

/// Whether a list of borrowed names holds the given one.
fn fields_contain(v: &Vec<&str>, s: &str) -> (r: bool)
    ensures
        r == names_of(v@).contains(s@),
{
    let n = v.len();
    for k in 0..n
        invariant
            n == v@.len(),
            forall|j: int| 0 <= j < k ==> names_of(v@)[j] != s@,
    {
        if str_equal(v[k], s) {
            assert(names_of(v@)[k as int] == s@);
            return true;
        }
    }
    false
}

/// Expands categorical columns of a table into dummy columns. The default,
/// with no explicit column list, converts every text-typed column; an
/// explicit list converts exactly the named columns, which must exist and be
/// text-typed. Non-selected columns pass through unchanged, in place.
pub fn build_dummies<N: Copy>(
    df: Table<N>,
    columns: Option<Predictors<'_>>,
    separator: Option<&str>,
) -> (r: Result<Table<N>, AnalysisError>)
    requires
        df@.wf(),
    ensures
        match r {
            Ok(t2) => {
                &&& t2@.columns == expand_columns(df@.columns, sel_of(columns), separator)
                &&& t2@.height == df@.height
                &&& t2@.wf()
                &&& selected_all_text(df@.columns, sel_of(columns))
                &&& (columns matches Some(p) ==> forall|j: int|
                    0 <= j < p.spec_names().len() ==> df@.has_column(#[trigger] p.spec_names()[j]))
            },
            Err(AnalysisError::NoSuchColumn { name }) => {
                &&& columns matches Some(p) && p.spec_names().contains(name@) && !df@.has_column(
                    name@,
                )
            },
            Err(AnalysisError::EncodingUnsupported { name }) => {
                exists|j: int|
                    0 <= j < df@.columns.len() && col_selected(
                        #[trigger] df@.columns[j],
                        sel_of(columns),
                    ) && !(df@.columns[j].data is Text) && name@ == df@.columns[j].name
            },
            Err(_) => false,
        },
{
    let ghost sel = sel_of(columns);
    // an explicit selection must name existing columns
    if let Some(p) = &columns {
        let pnames = p.names();
        let m = pnames.len();
        for k in 0..m
            invariant
                columns == Some(*p),
                m == pnames@.len(),
                names_of(pnames@) == p.spec_names(),
                forall|j: int| 0 <= j < k ==> df@.has_column(#[trigger] p.spec_names()[j]),
        {
            match df.column(pnames[k]) {
                Ok(_) => {
                    proof {
                        df@.names().index_of_first_ensures(pnames@[k as int]@);
                        assert(df@.has_column(p.spec_names()[k as int]));
                    }
                },
                Err(e) => {
                    proof {
                        df@.names().index_of_first_ensures(pnames@[k as int]@);
                        assert(!df@.names().contains(pnames@[k as int]@));
                        assert(p.spec_names()[k as int] == pnames@[k as int]@);
                        assert(p.spec_names().contains(pnames@[k as int]@));
                    }
                    return Err(e);
                },
            }
        }
    }
    let (height, ncols) = df.shape();
    let cols = df.columns();
    let mut out: Vec<Column<N>> = Vec::new();
    assert(views_of(out@) =~= expand_columns(df@.columns.take(0), sel, separator));
    for j in 0..ncols
        invariant
            ncols == cols@.len(),
            height == df@.height,
            df@.wf(),
            sel == sel_of(columns),
            views_of(cols@) =~= df@.columns,
            views_of(out@) == expand_columns(df@.columns.take(j as int), sel, separator),
            forall|k: int|
                0 <= k < j && col_selected(#[trigger] df@.columns[k], sel) ==> df@.columns[k].data
                    is Text,
            forall|k: int|
                0 <= k < out@.len() ==> (#[trigger] views_of(out@)[k]).len() == df@.height,
    {
        let col = &cols[j];
        assert(col@ == df@.columns[j as int]);
        let selected: bool = match &columns {
            None => matches!(&col.data, crate::column::ColumnData::Text(_)),
            Some(p) => fields_contain(p.names(), col.name.as_str()),
        };
        assert(selected == col_selected(df@.columns[j as int], sel));
        proof {
            assert(df@.columns.take(j + 1).drop_last() =~= df@.columns.take(j as int));
            assert(df@.columns.take(j + 1).last() == df@.columns[j as int]);
        }
        let ghost out_before = views_of(out@);
        if selected {
            let field = CategoryField::from_column(col.duplicate());
            match field.to_dummies(separator) {
                Ok(mut dummies) => {
                    proof {
                        lemma_to_dummies_properties::<N>(col@, separator);
                        assert forall|k: int|
                            0 <= k < views_of(dummies@).len() implies (#[trigger] views_of(
                            dummies@,
                        )[k]).len() == df@.height by {
                            assert(views_of(dummies@)[k].len() == crate::to_dummies::text_values(
                                col@.data,
                            ).len());
                            assert(col@.len() == df@.height);
                        }
                    }
                    let ghost dviews = views_of(dummies@);
                    out.append(&mut dummies);
                    proof {
                        assert(views_of(out@) =~= out_before + dviews);
                        assert(views_of(out@) =~= expand_columns(
                            df@.columns.take(j + 1),
                            sel,
                            separator,
                        ));
                    }
                },
                Err(e) => {
                    proof {
                        assert(!(df@.columns[j as int].data is Text));
                    }
                    return Err(e);
                },
            }
        } else {
            out.push(col.duplicate());
            proof {
                assert(views_of(out@) =~= out_before + seq![df@.columns[j as int]]);
                assert(views_of(out@) =~= expand_columns(df@.columns.take(j + 1), sel, separator));
            }
        }
    }
    assert(df@.columns.take(ncols as int) =~= df@.columns);
    let t2 = Table::from_parts(out, height);
    Ok(t2)
}

} // verus!
