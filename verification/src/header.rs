//! A read-only, indexed view over a table's column names, with fuzzy lookup.
//!
//! `get_fuzzy_fields` returns every column whose name contains the tag as a
//! contiguous substring (a prefix included), in header order. It is the
//! resolver that classifies column names into semantic roles.

use vstd::prelude::*;

use crate::fuzzy::{contains_tag, match_contains};

verus! {

/// The character sequences of a list of borrowed names, in order.
pub open spec fn names_of(v: Seq<&str>) -> Seq<Seq<char>> {
    v.map(|i: int, s: &str| s@)
}

/// The view of a list of resolved (name, index) pairs.
pub open spec fn pairs_view(v: Seq<(&str, usize)>) -> Seq<(Seq<char>, int)> {
    v.map(|i: int, p: (&str, usize)| (p.0@, p.1 as int))
}

/// The resolved (name, index) pairs for a tag: every name that contains the
/// tag, paired with its ordinal position, in header order.
pub open spec fn spec_fuzzy_fields(names: Seq<Seq<char>>, tag: Seq<char>) -> Seq<(Seq<char>, int)>
    decreases names.len(),
{
    if names.len() == 0 {
        Seq::empty()
    } else {
        let pre = spec_fuzzy_fields(names.drop_last(), tag);
        if contains_tag(names.last(), tag) {
            pre.push((names.last(), names.len() - 1))
        } else {
            pre
        }
    }
}

/// The resolver returns only matching names, each exactly once (indices are
/// strictly increasing, so no entry repeats), in header order, and every
/// matching name is present.
pub proof fn lemma_fuzzy_fields_properties(names: Seq<Seq<char>>, tag: Seq<char>)
    ensures
        forall|k: int|
            0 <= k < spec_fuzzy_fields(names, tag).len() ==> {
                let e = #[trigger] spec_fuzzy_fields(names, tag)[k];
                0 <= e.1 < names.len() && e.0 == names[e.1] && contains_tag(e.0, tag)
            },
        forall|k1: int, k2: int|
            0 <= k1 < k2 < spec_fuzzy_fields(names, tag).len()
                ==> #[trigger] spec_fuzzy_fields(names, tag)[k1].1
                < #[trigger] spec_fuzzy_fields(names, tag)[k2].1,
        forall|i: int|
            0 <= i < names.len() && contains_tag(#[trigger] names[i], tag) ==> exists|k: int|
                0 <= k < spec_fuzzy_fields(names, tag).len() && spec_fuzzy_fields(names, tag)[k]
                    == (names[i], i),
    decreases names.len(),
{
    if names.len() > 0 {
        let pre_names = names.drop_last();
        lemma_fuzzy_fields_properties(pre_names, tag);
        let m = spec_fuzzy_fields(names, tag);
        let pre = spec_fuzzy_fields(pre_names, tag);
        assert forall|i: int|
            0 <= i < names.len() && contains_tag(#[trigger] names[i], tag) implies exists|k: int|
            0 <= k < m.len() && m[k] == (names[i], i) by {
            if i < names.len() - 1 {
                assert(pre_names[i] == names[i]);
                let k = choose|k: int| 0 <= k < pre.len() && pre[k] == (pre_names[i], i);
                assert(m[k] == (names[i], i));
            } else {
                assert(m[m.len() - 1] == (names[i], i));
            }
        }
    }
}

/// A read-only, indexed view over a table's column names. It borrows the
/// names; it is built fresh whenever column resolution is needed and is
/// never persisted.
pub struct Header<'a> {
    inner: Vec<&'a str>,
}

/// A resolved column name together with its ordinal position in the header.
pub type FieldNameWithIndex<'a> = (&'a str, usize);

impl<'a> Header<'a> {
    /// The character sequences of the column names, in header order.
    pub closed spec fn names(&self) -> Seq<Seq<char>> {
        names_of(self.inner@)
    }

    pub fn new(inner: Vec<&'a str>) -> (h: Self)
        ensures
            h.names() == names_of(inner@),
    {
        Header { inner }
    }

    /// The first column whose name contains `find_this`, or none.
    pub fn get_fuzzy_field(&self, find_this: &str) -> (r: Option<FieldNameWithIndex<'a>>)
        ensures
            ({
                let m = spec_fuzzy_fields(self.names(), find_this@);
                match r {
                    None => m.len() == 0,
                    Some(p) => m.len() > 0 && (p.0@, p.1 as int) == m[0],
                }
            }),
    {
        let all = self.get_fuzzy_fields(find_this);
        if all.len() == 0 {
            None
        } else {
            assert(pairs_view(all@)[0] == spec_fuzzy_fields(self.names(), find_this@)[0]);
            Some(all[0])
        }
    }

    /// Every column whose name contains `find_this`, with its index, in
    /// header order.
    pub fn get_fuzzy_fields(&self, find_this: &str) -> (r: Vec<FieldNameWithIndex<'a>>)
        ensures
            pairs_view(r@) == spec_fuzzy_fields(self.names(), find_this@),
    {
        let ghost all_names = self.names();
        let mut r: Vec<FieldNameWithIndex<'a>> = Vec::new();
        let n = self.inner.len();
        assert(pairs_view(r@) =~= spec_fuzzy_fields(all_names.take(0), find_this@));
        for i in 0..n
            invariant
                n == self.inner.len(),
                all_names == self.names(),
                pairs_view(r@) =~= spec_fuzzy_fields(all_names.take(i as int), find_this@),
        {
            let name: &'a str = self.inner[i];
            assert(all_names[i as int] == name@);
            let ghost prefix = all_names.take(i as int);
            assert(all_names.take(i + 1).drop_last() =~= prefix);
            assert(all_names.take(i + 1).last() == all_names[i as int]);
            if match_contains(name, find_this) {
                r.push((name, i));
            }
            assert(pairs_view(r@) =~= spec_fuzzy_fields(all_names.take(i + 1), find_this@));
        }
        assert(all_names.take(n as int) =~= all_names);
        r
    }
}

} // verus!
