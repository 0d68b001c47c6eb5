//! Expansion of one categorical column into indicator ("dummy") columns.
//!
//! For each distinct observed value except the first - in first-appearance
//! order, so that the dropped level is deterministic and reproducible - one
//! boolean indicator column is generated, named
//! `{original_name}{separator}{value}`. Rows with a missing original value
//! get a zero in every indicator column. The generated columns are sorted
//! lexicographically by name, a separate determinism guarantee over column
//! order. Keeping k-1 of the k levels avoids collinearity with the intercept
//! term that the flattener appends later.

use vstd::prelude::*;

use crate::column::{views_of, Column, ColumnData, ColumnDataView, ColumnView};
use crate::errors::AnalysisError;
use crate::fuzzy::str_equal;

verus! {

/// Lexicographic order on character sequences, by code point.
pub open spec fn lex_leq(a: Seq<char>, b: Seq<char>) -> bool
    decreases a.len(),
{
    if a.len() == 0 {
        true
    } else if b.len() == 0 {
        false
    } else if a[0] != b[0] {
        a[0] < b[0]
    } else {
        lex_leq(a.drop_first(), b.drop_first())
    }
}

/// The lexicographic order is total: of any two names, one precedes the
/// other.
pub proof fn lemma_lex_total(a: Seq<char>, b: Seq<char>)
    ensures
        lex_leq(a, b) || lex_leq(b, a),
    decreases a.len(),
{
    if a.len() == 0 || b.len() == 0 {
    } else if a[0] != b[0] {
    } else {
        lemma_lex_total(a.drop_first(), b.drop_first());
    }
}

/// The distinct non-missing values of a column, in first-appearance order.
/// This grouping order is stable across runs on the same input, so the level
/// that the encoder drops is deterministic and reproducible.
pub open spec fn levels_of(vals: Seq<Option<Seq<char>>>) -> Seq<Seq<char>>
    decreases vals.len(),
{
    if vals.len() == 0 {
        Seq::empty()
    } else {
        let pre = levels_of(vals.drop_last());
        match vals.last() {
            None => pre,
            Some(v) => if pre.contains(v) {
                pre
            } else {
                pre.push(v)
            },
        }
    }
}

/// The indicator entries for one level: a one (true) exactly in the rows
/// whose source value equals the level; rows with a missing source value get
/// a zero.
pub open spec fn indicator_data(vals: Seq<Option<Seq<char>>>, level: Seq<char>) -> Seq<
    Option<bool>,
> {
    Seq::new(vals.len(), |r: int| Some(vals[r] == Some(level)))
}

/// The generated indicator-column name: `{original}{separator}{value}`.
pub open spec fn dummy_name(prefix: Seq<char>, sep: Seq<char>, level: Seq<char>) -> Seq<char> {
    prefix + sep + level
}

/// The indicator column for one level of a source column.
pub open spec fn dummy_column<N>(
    name: Seq<char>,
    sep: Seq<char>,
    vals: Seq<Option<Seq<char>>>,
    level: Seq<char>,
) -> ColumnView<N> {
    ColumnView {
        name: dummy_name(name, sep, level),
        data: ColumnDataView::Bool(indicator_data(vals, level)),
    }
}

/// The generated indicator columns in level order: one per distinct observed
/// value except the first.
pub open spec fn dummy_columns<N>(
    name: Seq<char>,
    sep: Seq<char>,
    vals: Seq<Option<Seq<char>>>,
) -> Seq<ColumnView<N>> {
    if levels_of(vals).len() == 0 {
        Seq::empty()
    } else {
        levels_of(vals).skip(1).map(|i: int, l: Seq<char>| dummy_column(name, sep, vals, l))
    }
}

/// Insertion into a name-sorted sequence of columns: the new column lands
/// before the first entry that it precedes or equals.
pub open spec fn insert_sorted<N>(s: Seq<ColumnView<N>>, c: ColumnView<N>) -> Seq<ColumnView<N>>
    decreases s.len(),
{
    if s.len() == 0 {
        seq![c]
    } else if lex_leq(c.name, s[0].name) {
        seq![c] + s
    } else {
        seq![s[0]] + insert_sorted(s.drop_first(), c)
    }
}

/// Insertion sort of columns by name.
pub open spec fn sort_by_name<N>(s: Seq<ColumnView<N>>) -> Seq<ColumnView<N>>
    decreases s.len(),
{
    if s.len() == 0 {
        Seq::empty()
    } else {
        insert_sorted(sort_by_name(s.drop_last()), s.last())
    }
}

/// The separator that the encoder uses: the caller's, defaulting to an
/// underscore.
pub open spec fn spec_separator(separator: Option<&str>) -> Seq<char> {
    match separator {
        None => "_"@,
        Some(s) => s@,
    }
}

/// The text entries of a column's data; empty for non-text columns.
pub open spec fn text_values<N>(d: ColumnDataView<N>) -> Seq<Option<Seq<char>>> {
    match d {
        ColumnDataView::Text(v) => v,
        _ => Seq::empty(),
    }
}

/// What the encoder returns for a text column: the indicator columns of all
/// levels but the first, sorted lexicographically by name.
pub open spec fn spec_to_dummies<N>(col: ColumnView<N>, separator: Option<&str>) -> Seq<
    ColumnView<N>,
> {
    sort_by_name(dummy_columns(col.name, spec_separator(separator), text_values(col.data)))
}

/// Inserting at the position that `find_insert_pos` picks is insertion into
/// a sorted sequence.
proof fn lemma_insert_sorted_at<N>(s: Seq<ColumnView<N>>, c: ColumnView<N>, p: int)
    requires
        0 <= p <= s.len(),
        forall|k: int| 0 <= k < p ==> !lex_leq(c.name, (#[trigger] s[k]).name),
        p < s.len() ==> lex_leq(c.name, s[p].name),
    ensures
        insert_sorted(s, c) == s.take(p) + seq![c] + s.skip(p),
    decreases s.len(),
{
    if s.len() == 0 {
        assert(insert_sorted(s, c) =~= s.take(p) + seq![c] + s.skip(p));
    } else if lex_leq(c.name, s[0].name) {
        assert(p == 0);
        assert(insert_sorted(s, c) =~= s.take(p) + seq![c] + s.skip(p));
    } else {
        assert(p > 0);
        lemma_insert_sorted_at(s.drop_first(), c, p - 1);
        assert(s.drop_first().take(p - 1) =~= s.take(p).drop_first());
        assert(s.drop_first().skip(p - 1) =~= s.skip(p));
        assert(insert_sorted(s, c) =~= s.take(p) + seq![c] + s.skip(p));
    }
}

/// Sorting a sequence extended by one column is inserting that column into
/// the sorted sequence.
proof fn lemma_sort_push<N>(s: Seq<ColumnView<N>>, c: ColumnView<N>)
    ensures
        sort_by_name(s.push(c)) == insert_sorted(sort_by_name(s), c),
{
    assert(s.push(c).drop_last() =~= s);
    assert(s.push(c).last() == c);
}

/// The columns are in lexicographic name order, neighbour by neighbour.
pub open spec fn sorted_by_name_order<N>(s: Seq<ColumnView<N>>) -> bool {
    forall|i: int| 0 <= i < s.len() - 1 ==> lex_leq((#[trigger] s[i]).name, s[i + 1].name)
}

/// Column `c` carries a one (true) in row `r`.
pub open spec fn one_at<N>(c: ColumnView<N>, r: int) -> bool {
    match c.data {
        ColumnDataView::Bool(b) => b[r] == Some(true),
        _ => false,
    }
}

/// Insertion grows the sequence by one.
proof fn lemma_insert_sorted_len<N>(s: Seq<ColumnView<N>>, c: ColumnView<N>)
    ensures
        insert_sorted(s, c).len() == s.len() + 1,
    decreases s.len(),
{
    if s.len() == 0 {
    } else if lex_leq(c.name, s[0].name) {
    } else {
        lemma_insert_sorted_len(s.drop_first(), c);
    }
}

/// Insertion adds exactly the new column to the elements.
proof fn lemma_insert_sorted_contains<N>(s: Seq<ColumnView<N>>, c: ColumnView<N>, x: ColumnView<N>)
    ensures
        insert_sorted(s, c).contains(x) <==> (s.contains(x) || x == c),
    decreases s.len(),
{
    let out = insert_sorted(s, c);
    if s.len() == 0 {
        assert(out =~= seq![c]);
        if x == c {
            assert(out[0] == x);
        }
    } else if lex_leq(c.name, s[0].name) {
        assert(out =~= seq![c] + s);
        if x == c {
            assert(out[0] == x);
        }
        if s.contains(x) {
            let i = choose|i: int| 0 <= i < s.len() && s[i] == x;
            assert(out[i + 1] == x);
        }
        if out.contains(x) {
            let i = choose|i: int| 0 <= i < out.len() && out[i] == x;
            if i > 0 {
                assert(s[i - 1] == x);
            }
        }
    } else {
        lemma_insert_sorted_contains(s.drop_first(), c, x);
        let inner = insert_sorted(s.drop_first(), c);
        assert(out =~= seq![s[0]] + inner);
        if x == s[0] {
            assert(out[0] == x);
            assert(s[0] == x);
        }
        if s.contains(x) {
            let i = choose|i: int| 0 <= i < s.len() && s[i] == x;
            if i == 0 {
                assert(out[0] == x);
            } else {
                assert(s.drop_first()[i - 1] == x);
                assert(inner.contains(x));
                let j = choose|j: int| 0 <= j < inner.len() && inner[j] == x;
                assert(out[j + 1] == x);
            }
        }
        if x == c {
            assert(inner.contains(x));
            let j = choose|j: int| 0 <= j < inner.len() && inner[j] == x;
            assert(out[j + 1] == x);
        }
        if out.contains(x) {
            let i = choose|i: int| 0 <= i < out.len() && out[i] == x;
            if i == 0 {
                assert(s[0] == x);
            } else {
                assert(inner[i - 1] == x);
                assert(inner.contains(x));
                if s.drop_first().contains(x) {
                    let j = choose|j: int| 0 <= j < s.drop_first().len() && s.drop_first()[j] == x;
                    assert(s[j + 1] == x);
                }
            }
        }
    }
}

/// Sorting keeps exactly the elements of the input.
proof fn lemma_sort_contains<N>(s: Seq<ColumnView<N>>, x: ColumnView<N>)
    ensures
        sort_by_name(s).contains(x) <==> s.contains(x),
    decreases s.len(),
{
    if s.len() == 0 {
    } else {
        let pre = s.drop_last();
        lemma_sort_contains(pre, x);
        lemma_insert_sorted_contains(sort_by_name(pre), s.last(), x);
        if s.contains(x) {
            let i = choose|i: int| 0 <= i < s.len() && s[i] == x;
            if i < s.len() - 1 {
                assert(pre[i] == x);
                assert(pre.contains(x));
            }
        }
        if pre.contains(x) {
            let i = choose|i: int| 0 <= i < pre.len() && pre[i] == x;
            assert(s[i] == x);
        }
        if x == s.last() {
            assert(s[s.len() - 1] == x);
        }
    }
}

/// Insertion of a fresh column keeps the elements pairwise distinct.
proof fn lemma_insert_sorted_no_dup<N>(s: Seq<ColumnView<N>>, c: ColumnView<N>)
    requires
        s.no_duplicates(),
        !s.contains(c),
    ensures
        insert_sorted(s, c).no_duplicates(),
    decreases s.len(),
{
    let out = insert_sorted(s, c);
    if s.len() == 0 {
        assert(out =~= seq![c]);
    } else if lex_leq(c.name, s[0].name) {
        assert(out =~= seq![c] + s);
        assert forall|i: int, j: int|
            0 <= i < out.len() && 0 <= j < out.len() && i != j implies out[i] != out[j] by {
            if i == 0 && out[0] == out[j] {
                assert(s[j - 1] == c);
                assert(s.contains(c));
            }
            if j == 0 && out[i] == out[0] {
                assert(s[i - 1] == c);
                assert(s.contains(c));
            }
        }
    } else {
        let rest = s.drop_first();
        assert forall|k: int| 0 <= k < rest.len() implies rest[k] != c by {
            if rest[k] == c {
                assert(s[k + 1] == c);
                assert(s.contains(c));
            }
        }
        assert(!rest.contains(c));
        lemma_insert_sorted_no_dup(rest, c);
        let inner = insert_sorted(rest, c);
        assert(out =~= seq![s[0]] + inner);
        assert forall|k: int| 0 <= k < inner.len() implies inner[k] != s[0] by {
            if inner[k] == s[0] {
                assert(inner.contains(s[0]));
                lemma_insert_sorted_contains(rest, c, s[0]);
                if rest.contains(s[0]) {
                    let j = choose|j: int| 0 <= j < rest.len() && rest[j] == s[0];
                    assert(s[j + 1] == s[0]);
                } else {
                    assert(s[0] == c);
                    assert(s.contains(c));
                }
            }
        }
        assert forall|i: int, j: int|
            0 <= i < out.len() && 0 <= j < out.len() && i != j implies out[i] != out[j] by {
            if i > 0 && j > 0 {
                assert(out[i] == inner[i - 1]);
                assert(out[j] == inner[j - 1]);
            }
        }
    }
}

/// Sorting keeps the elements pairwise distinct.
proof fn lemma_sort_no_dup<N>(s: Seq<ColumnView<N>>)
    requires
        s.no_duplicates(),
    ensures
        sort_by_name(s).no_duplicates(),
    decreases s.len(),
{
    if s.len() > 0 {
        let pre = s.drop_last();
        assert(pre.no_duplicates());
        lemma_sort_no_dup(pre);
        assert forall|k: int| 0 <= k < pre.len() implies pre[k] != s.last() by {
            assert(s[k] == pre[k]);
        }
        assert(!pre.contains(s.last()));
        lemma_sort_contains(pre, s.last());
        lemma_insert_sorted_no_dup(sort_by_name(pre), s.last());
    }
}

/// Insertion keeps the columns in lexicographic name order.
proof fn lemma_insert_sorted_order<N>(s: Seq<ColumnView<N>>, c: ColumnView<N>)
    requires
        sorted_by_name_order(s),
    ensures
        sorted_by_name_order(insert_sorted(s, c)),
    decreases s.len(),
{
    let out = insert_sorted(s, c);
    if s.len() == 0 {
    } else if lex_leq(c.name, s[0].name) {
        assert(out =~= seq![c] + s);
        assert forall|i: int| 0 <= i < out.len() - 1 implies lex_leq(
            (#[trigger] out[i]).name,
            out[i + 1].name,
        ) by {
            if i > 0 {
                assert(out[i] == s[i - 1]);
                assert(out[i + 1] == s[i]);
            }
        }
    } else {
        let rest = s.drop_first();
        assert(sorted_by_name_order(rest));
        lemma_insert_sorted_order(rest, c);
        let inner = insert_sorted(rest, c);
        assert(out =~= seq![s[0]] + inner);
        lemma_lex_total(c.name, s[0].name);
        assert(lex_leq(s[0].name, c.name));
        assert forall|i: int| 0 <= i < out.len() - 1 implies lex_leq(
            (#[trigger] out[i]).name,
            out[i + 1].name,
        ) by {
            if i == 0 {
                if rest.len() == 0 {
                    assert(inner[0] == c);
                } else if lex_leq(c.name, rest[0].name) {
                    assert(inner[0] == c);
                } else {
                    assert(inner[0] == rest[0]);
                    assert(lex_leq(s[0].name, s[1].name));
                }
            } else {
                assert(out[i] == inner[i - 1]);
                assert(out[i + 1] == inner[i]);
            }
        }
    }
}

/// Sorting leaves the columns in lexicographic name order.
proof fn lemma_sort_order<N>(s: Seq<ColumnView<N>>)
    ensures
        sorted_by_name_order(sort_by_name(s)),
    decreases s.len(),
{
    if s.len() > 0 {
        lemma_sort_order(s.drop_last());
        lemma_insert_sorted_order(sort_by_name(s.drop_last()), s.last());
    }
}

/// Sorting keeps the number of columns.
proof fn lemma_sort_len<N>(s: Seq<ColumnView<N>>)
    ensures
        sort_by_name(s).len() == s.len(),
    decreases s.len(),
{
    if s.len() > 0 {
        lemma_sort_len(s.drop_last());
        lemma_insert_sorted_len(sort_by_name(s.drop_last()), s.last());
    }
}

/// The distinct levels are pairwise distinct.
proof fn lemma_levels_no_dup(vals: Seq<Option<Seq<char>>>)
    ensures
        levels_of(vals).no_duplicates(),
    decreases vals.len(),
{
    if vals.len() > 0 {
        let pre = levels_of(vals.drop_last());
        lemma_levels_no_dup(vals.drop_last());
        match vals.last() {
            None => {},
            Some(v) => {
                if !pre.contains(v) {
                    assert forall|i: int, j: int|
                        0 <= i < pre.push(v).len() && 0 <= j < pre.push(v).len() && i != j implies pre.push(
                        v,
                    )[i] != pre.push(v)[j] by {
                        if i == pre.len() && pre.push(v)[i] == pre.push(v)[j] {
                            assert(pre[j] == v);
                            assert(pre.contains(v));
                        }
                        if j == pre.len() && pre.push(v)[i] == pre.push(v)[j] {
                            assert(pre[i] == v);
                            assert(pre.contains(v));
                        }
                    }
                }
            },
        }
    }
}

/// Appending to a common prefix is injective.
proof fn lemma_append_inj(a: Seq<char>, x: Seq<char>, y: Seq<char>)
    requires
        a + x == a + y,
    ensures
        x == y,
{
    assert((a + x).len() == a.len() + x.len());
    assert((a + y).len() == a.len() + y.len());
    assert(x.len() == y.len());
    assert forall|i: int| 0 <= i < x.len() implies x[i] == y[i] by {
        assert((a + x)[a.len() + i] == x[i]);
        assert((a + y)[a.len() + i] == y[i]);
    }
    assert(x =~= y);
}

/// Re-running the encoder on the same column yields identical output - same
/// columns, same values, same order: the result is a function of the column
/// and the separator alone.
pub proof fn lemma_to_dummies_deterministic<N>(
    col: ColumnView<N>,
    separator: Option<&str>,
    r1: Seq<ColumnView<N>>,
    r2: Seq<ColumnView<N>>,
)
    requires
        r1 == spec_to_dummies(col, separator),
        r2 == spec_to_dummies(col, separator),
    ensures
        r1 == r2,
{
}

/// For a categorical column with `k` distinct non-missing values, the
/// encoder returns exactly `k - 1` pairwise-distinct columns in
/// lexicographic name order; each is the boolean indicator of one level
/// other than the first, of the source column's length, with no missing
/// entries; and in any given row, at most one of the returned columns
/// carries a one.
pub proof fn lemma_to_dummies_properties<N>(col: ColumnView<N>, separator: Option<&str>)
    requires
        col.data is Text,
    ensures
        ({
            let out = spec_to_dummies::<N>(col, separator);
            let vals = text_values(col.data);
            let sep = spec_separator(separator);
            let k = levels_of(vals).len();
            &&& out.len() == (if k == 0 {
                0int
            } else {
                k - 1
            })
            &&& sorted_by_name_order(out)
            &&& out.no_duplicates()
            &&& forall|i: int|
                0 <= i < out.len() ==> exists|li: int|
                    1 <= li < k && (#[trigger] out[i]) == dummy_column::<N>(
                        col.name,
                        sep,
                        vals,
                        levels_of(vals)[li],
                    )
            &&& forall|li: int|
                1 <= li < k ==> out.contains(
                    dummy_column::<N>(col.name, sep, vals, #[trigger] levels_of(vals)[li]),
                )
            &&& forall|i: int|
                0 <= i < out.len() ==> (#[trigger] out[i]).len() == vals.len() && out[i].data
                    is Bool && out[i].data.complete()
            &&& forall|i: int, j: int, r: int|
                0 <= i < j < out.len() && 0 <= r < vals.len() ==> !(#[trigger] one_at(out[i], r)
                    && #[trigger] one_at(out[j], r))
        }),
{
    let out = spec_to_dummies::<N>(col, separator);
    let vals = text_values(col.data);
    let sep = spec_separator(separator);
    let gen = dummy_columns::<N>(col.name, sep, vals);
    let lv = levels_of(vals);
    let k = lv.len();
    lemma_sort_len(gen);
    lemma_sort_order(gen);
    lemma_levels_no_dup(vals);
    if k == 0 {
        assert(gen =~= Seq::<ColumnView<N>>::empty());
    } else {
        assert(gen.len() == k - 1);
        assert(forall|idx: int|
            0 <= idx < gen.len() ==> #[trigger] gen[idx] == dummy_column::<N>(
                col.name,
                sep,
                vals,
                lv.skip(1)[idx],
            ));
        assert(forall|idx: int| 0 <= idx < gen.len() ==> lv.skip(1)[idx] == lv[idx + 1]);
    }
    assert forall|i: int, j: int|
        0 <= i < gen.len() && 0 <= j < gen.len() && i != j implies gen[i] != gen[j] by {
        if gen[i] == gen[j] {
            assert(gen[i].name == gen[j].name);
            assert((col.name + sep) + lv[i + 1] == (col.name + sep) + lv[j + 1]);
            lemma_append_inj(col.name + sep, lv[i + 1], lv[j + 1]);
            assert(lv[i + 1] == lv[j + 1]);
        }
    }
    assert(gen.no_duplicates());
    lemma_sort_no_dup(gen);
    assert forall|i: int| 0 <= i < out.len() implies exists|li: int|
        1 <= li < k && (#[trigger] out[i]) == dummy_column::<N>(col.name, sep, vals, lv[li]) by {
        assert(out.contains(out[i]));
        lemma_sort_contains(gen, out[i]);
        let idx = choose|idx: int| 0 <= idx < gen.len() && gen[idx] == out[i];
        assert(gen[idx] == dummy_column::<N>(col.name, sep, vals, lv[idx + 1]));
        assert(1 <= idx + 1 < k);
    }
    assert forall|li: int| 1 <= li < k implies out.contains(
        dummy_column::<N>(col.name, sep, vals, #[trigger] lv[li]),
    ) by {
        assert(gen[li - 1] == dummy_column::<N>(col.name, sep, vals, lv[li]));
        assert(gen.contains(gen[li - 1]));
        lemma_sort_contains(gen, gen[li - 1]);
    }
    assert forall|i: int|
        0 <= i < out.len() implies (#[trigger] out[i]).len() == vals.len() && out[i].data is Bool
        && out[i].data.complete() by {
        let li = choose|li: int|
            1 <= li < k && out[i] == dummy_column::<N>(col.name, sep, vals, lv[li]);
        assert(out[i].data == ColumnDataView::<N>::Bool(indicator_data(vals, lv[li])));
    }
    assert forall|i: int, j: int, r: int|
        0 <= i < j < out.len() && 0 <= r < vals.len() implies !(#[trigger] one_at(out[i], r)
        && #[trigger] one_at(out[j], r)) by {
        if one_at(out[i], r) && one_at(out[j], r) {
            let li = choose|li: int|
                1 <= li < k && out[i] == dummy_column::<N>(col.name, sep, vals, lv[li]);
            let lj = choose|lj: int|
                1 <= lj < k && out[j] == dummy_column::<N>(col.name, sep, vals, lv[lj]);
            assert(indicator_data(vals, lv[li])[r] == Some(true));
            assert(vals[r] == Some(lv[li]));
            assert(indicator_data(vals, lv[lj])[r] == Some(true));
            assert(vals[r] == Some(lv[lj]));
            assert(lv[li] == lv[lj]);
            assert(out[i] == out[j]);
        }
    }
}

/// Decides the lexicographic order on two string slices.
pub fn str_lex_leq(a: &str, b: &str) -> (r: bool)
    ensures
        r == lex_leq(a@, b@),
{
    let alen = a.unicode_len();
    let blen = b.unicode_len();
    let mut i: usize = 0;
    proof {
        assert(a@.skip(0) =~= a@);
        assert(b@.skip(0) =~= b@);
    }
    loop
        invariant
            alen == a@.len(),
            blen == b@.len(),
            0 <= i <= alen,
            0 <= i <= blen,
            lex_leq(a@, b@) == lex_leq(a@.skip(i as int), b@.skip(i as int)),
        decreases alen - i,
    {
        if i == alen {
            assert(a@.skip(i as int).len() == 0);
            return true;
        }
        if i == blen {
            assert(b@.skip(i as int).len() == 0);
            assert(a@.skip(i as int).len() > 0);
            return false;
        }
        let ca = a.get_char(i);
        let cb = b.get_char(i);
        assert(a@.skip(i as int)[0] == a@[i as int]);
        assert(b@.skip(i as int)[0] == b@[i as int]);
        if ca != cb {
            return ca < cb;
        }
        proof {
            assert(a@.skip(i as int).drop_first() =~= a@.skip(i as int + 1));
            assert(b@.skip(i as int).drop_first() =~= b@.skip(i as int + 1));
        }
        i = i + 1;
    }
}

/// Whether a list of strings holds the given one.
fn contains_string(v: &Vec<String>, s: &str) -> (r: bool)
    ensures
        r == v.deep_view().contains(s@),
{
    let n = v.len();
    for k in 0..n
        invariant
            n == v@.len(),
            forall|j: int| 0 <= j < k ==> v.deep_view()[j] != s@,
    {
        if str_equal(v[k].as_str(), s) {
            assert(v.deep_view()[k as int] == s@);
            return true;
        }
    }
    false
}

/// The position where a column of the given name belongs in a name-sorted
/// list: just before the first entry that the name precedes or equals.
fn find_insert_pos<N>(out: &Vec<Column<N>>, name: &str) -> (p: usize)
    ensures
        0 <= p <= out@.len(),
        forall|k: int| 0 <= k < p ==> !lex_leq(name@, views_of(out@)[k].name),
        p < out@.len() ==> lex_leq(name@, views_of(out@)[p as int].name),
{
    let n = out.len();
    let mut p: usize = 0;
    while p < n
        invariant
            n == out@.len(),
            0 <= p <= n,
            forall|k: int| 0 <= k < p ==> !lex_leq(name@, views_of(out@)[k].name),
        decreases n - p,
    {
        if str_lex_leq(name, out[p].name.as_str()) {
            return p;
        }
        p = p + 1;
    }
    p
}

/// A categorical column about to be expanded into indicator columns.
pub struct CategoryField<N> {
    inner: Column<N>,
}

impl<N> View for CategoryField<N> {
    type V = ColumnView<N>;

    closed spec fn view(&self) -> ColumnView<N> {
        self.inner@
    }
}

impl<N> CategoryField<N> {
    pub fn from_column(column: Column<N>) -> (r: Self)
        ensures
            r@ == column@,
    {
        CategoryField { inner: column }
    }

    /// Expands the column into one boolean indicator column per distinct
    /// observed value except the first (in first-appearance order), each
    /// named `{original_name}{separator}{value}` with the separator
    /// defaulting to an underscore, sorted lexicographically by name. Fails
    /// on a column whose element type has no textual representation usable
    /// for name construction: only text columns are encoded.
    pub fn to_dummies(&self, separator: Option<&str>) -> (r: Result<Vec<Column<N>>, AnalysisError>)
        ensures
            match r {
                Ok(cols) => self@.data is Text && views_of(cols@) == spec_to_dummies(
                    self@,
                    separator,
                ),
                Err(AnalysisError::EncodingUnsupported { name }) => !(self@.data is Text) && name@
                    == self@.name,
                Err(_) => false,
            },
    {
        let v: &Vec<Option<String>> = match &self.inner.data {
            ColumnData::Text(v) => v,
            _ => {
                return Err(
                    AnalysisError::EncodingUnsupported { name: self.inner.name.clone() },
                );
            },
        };
        let sep: &str = match separator {
            None => "_",
            Some(s) => s,
        };
        assert(sep@ == spec_separator(separator));
        let ghost vals = v.deep_view();
        assert(vals == text_values(self@.data));
        let n = v.len();
        // the distinct levels, in first-appearance order
        let mut levels: Vec<String> = Vec::new();
        assert(vals.take(0) =~= Seq::<Option<Seq<char>>>::empty());
        for r in 0..n
            invariant
                n == v@.len(),
                vals == v.deep_view(),
                levels.deep_view() == levels_of(vals.take(r as int)),
        {
            let ghost pre = vals.take(r as int);
            proof {
                assert(vals.take(r as int + 1).drop_last() =~= pre);
                assert(vals.take(r as int + 1).last() == vals[r as int]);
            }
            match &v[r] {
                Some(s) => {
                    assert(vals[r as int] == Some(s@));
                    if !contains_string(&levels, s.as_str()) {
                        let ghost before = levels.deep_view();
                        levels.push(s.clone());
                        assert(levels.deep_view() =~= before.push(s@));
                    }
                },
                None => {
                    assert(vals[r as int] is None);
                },
            }
            assert(levels.deep_view() == levels_of(vals.take(r as int + 1)));
        }
        assert(vals.take(n as int) =~= vals);
        let ghost all_levels = levels_of(vals);
        let ghost gen = dummy_columns::<N>(self@.name, sep@, vals);
        let mut out: Vec<Column<N>> = Vec::new();
        let nlevels = levels.len();
        if nlevels == 0 {
            assert(gen =~= Seq::<ColumnView<N>>::empty());
            assert(views_of(out@) =~= sort_by_name(gen));
            return Ok(out);
        }
        assert(gen =~= all_levels.skip(1).map(
            |i: int, l: Seq<char>| dummy_column(self@.name, sep@, vals, l),
        ));
        assert(gen.len() == nlevels - 1);
        let mut li: usize = 1;
        while li < nlevels
            invariant
                1 <= li <= nlevels,
                n == v@.len(),
                vals == v.deep_view(),
                vals == text_values(self@.data),
                nlevels == levels@.len(),
                levels.deep_view() == all_levels,
                all_levels == levels_of(vals),
                sep@ == spec_separator(separator),
                gen == dummy_columns::<N>(self@.name, sep@, vals),
                gen.len() == nlevels - 1,
                views_of(out@) == sort_by_name(gen.take(li as int - 1)),
            decreases nlevels - li,
        {
            let lvl: &String = &levels[li];
            assert(lvl@ == all_levels[li as int]);
            // the indicator entries for this level
            let mut dvals: Vec<Option<bool>> = Vec::new();
            for r in 0..n
                invariant
                    n == v@.len(),
                    vals == v.deep_view(),
                    lvl@ == all_levels[li as int],
                    li < nlevels,
                    dvals@ =~= indicator_data(vals, lvl@).take(r as int),
            {
                let bit: bool = match &v[r] {
                    Some(s) => str_equal(s.as_str(), lvl.as_str()),
                    None => false,
                };
                proof {
                    assert(vals[r as int] == v@[r as int].deep_view());
                    assert(bit == (vals[r as int] == Some(lvl@)));
                }
                dvals.push(Some(bit));
                assert(dvals@ =~= indicator_data(vals, lvl@).take(r as int + 1));
            }
            assert(dvals@ =~= indicator_data(vals, lvl@));
            let name = self.inner.name.clone().concat(sep).concat(lvl.as_str());
            let col = Column { name, data: ColumnData::Bool(dvals) };
            proof {
                assert(col@ =~= dummy_column(self@.name, sep@, vals, lvl@));
                assert(all_levels.skip(1)[li as int - 1] == all_levels[li as int]);
                assert(gen[li as int - 1] == col@);
            }
            let ghost prev = views_of(out@);
            let p = find_insert_pos(&out, col.name.as_str());
            out.insert(p, col);
            proof {
                lemma_insert_sorted_at(prev, gen[li as int - 1], p as int);
                assert(views_of(out@) =~= prev.take(p as int) + seq![gen[li as int - 1]]
                    + prev.skip(p as int));
                lemma_sort_push(gen.take(li as int - 1), gen[li as int - 1]);
                assert(gen.take(li as int - 1).push(gen[li as int - 1]) =~= gen.take(li as int));
                assert(views_of(out@) == sort_by_name(gen.take(li as int)));
            }
            li = li + 1;
        }
        assert(gen.take(nlevels as int - 1) =~= gen);
        Ok(out)
    }
}

} // verus!
