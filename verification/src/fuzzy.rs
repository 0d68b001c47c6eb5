//! Fuzzy tag matching over column names.
//!
//! Column names encode their statistical role through naming conventions: a
//! quality tag appears as a prefix, a derived tag as a fragment somewhere
//! after the first character, and the binary-target tag anywhere in the name.
//! The matching is case-sensitive and works on raw character content: no
//! normalization, no tokenization. An empty tag is a prefix of every name
//! and therefore matches every column; guarding against degenerate tags is
//! the caller's responsibility, through the tag configuration.

use vstd::prelude::*;

verus! {

/// The tag occurs in `name` as a contiguous substring starting at `i`.
pub open spec fn matches_at(name: Seq<char>, tag: Seq<char>, i: int) -> bool {
    0 <= i && i + tag.len() <= name.len() && name.subrange(i, i + tag.len()) == tag
}

/// The tag is a prefix of `name`.
pub open spec fn is_prefix_match(name: Seq<char>, tag: Seq<char>) -> bool {
    matches_at(name, tag, 0)
}

/// The tag occurs somewhere in `name` (prefix included).
pub open spec fn contains_tag(name: Seq<char>, tag: Seq<char>) -> bool {
    exists|i: int| matches_at(name, tag, i)
}

/// The tag occurs in `name`, but not as a prefix: the first occurrence is
/// strictly after the start of the name.
pub open spec fn contains_tag_inner(name: Seq<char>, tag: Seq<char>) -> bool {
    contains_tag(name, tag) && !is_prefix_match(name, tag)
}

/// The name is classified as a predictor: the quality tag is a prefix, or
/// the derived tag occurs after the start of the name.
pub open spec fn is_predictor_name(name: Seq<char>, quality: Seq<char>, derived: Seq<char>) -> bool {
    is_prefix_match(name, quality) || contains_tag_inner(name, derived)
}

/// Tests whether `tag` occurs in `name` starting at position `i`.
fn match_at(name: &str, tag: &str, i: usize) -> (r: bool)
    requires
        i + tag@.len() <= name@.len(),
    ensures
        r == matches_at(name@, tag@, i as int),
{
    let nlen = name.unicode_len();
    let tlen = tag.unicode_len();
    let mut j: usize = 0;
    while j < tlen
        invariant
            0 <= j <= tlen,
            nlen == name@.len(),
            tlen == tag@.len(),
            i + tlen <= nlen,
            forall|k: int| 0 <= k < j ==> name@[i + k] == tag@[k],
        decreases tlen - j,
    {
        if name.get_char(i + j) != tag.get_char(j) {
            assert(name@.subrange(i as int, i + tag@.len())[j as int] != tag@[j as int]);
            return false;
        }
        j = j + 1;
    }
    assert(name@.subrange(i as int, i + tag@.len()) =~= tag@);
    true
}

/// Character-for-character equality of two string slices.
pub fn str_equal(a: &str, b: &str) -> (r: bool)
    ensures
        r == (a@ == b@),
{
    let alen = a.unicode_len();
    let blen = b.unicode_len();
    if alen != blen {
        return false;
    }
    let mut j: usize = 0;
    while j < alen
        invariant
            0 <= j <= alen,
            alen == a@.len(),
            alen == b@.len(),
            forall|k: int| 0 <= k < j ==> a@[k] == b@[k],
        decreases alen - j,
    {
        if a.get_char(j) != b.get_char(j) {
            return false;
        }
        j = j + 1;
    }
    proof {
        assert(a@ =~= b@);
    }
    true
}

/// The tag is a prefix of the name.
pub fn match_prefix(name: &str, tag: &str) -> (r: bool)
    ensures
        r == is_prefix_match(name@, tag@),
{
    let nlen = name.unicode_len();
    let tlen = tag.unicode_len();
    if tlen > nlen {
        return false;
    }
    match_at(name, tag, 0)
}

/// The tag occurs anywhere in the name as a contiguous substring.
pub fn match_contains(name: &str, tag: &str) -> (r: bool)
    ensures
        r == contains_tag(name@, tag@),
{
    let nlen = name.unicode_len();
    let tlen = tag.unicode_len();
    if tlen > nlen {
        assert(forall|i: int| !matches_at(name@, tag@, i));
        return false;
    }
    if tlen == 0 {
        assert(name@.subrange(0, 0) =~= tag@);
        assert(matches_at(name@, tag@, 0));
        return true;
    }
    let mut i: usize = 0;
    while i <= nlen - tlen
        invariant
            0 < tlen <= nlen,
            nlen == name@.len(),
            tlen == tag@.len(),
            0 <= i <= nlen - tlen + 1,
            forall|k: int| 0 <= k < i ==> !matches_at(name@, tag@, k),
        decreases nlen - tlen - i + 1,
    {
        if match_at(name, tag, i) {
            return true;
        }
        i = i + 1;
    }
    assert(forall|k: int| matches_at(name@, tag@, k) ==> 0 <= k <= nlen - tlen);
    false
}

/// The tag occurs in the name, but not as a prefix.
pub fn match_inner(name: &str, tag: &str) -> (r: bool)
    ensures
        r == contains_tag_inner(name@, tag@),
{
    match_contains(name, tag) && !match_prefix(name, tag)
}

/// The name passes the predictor filter for the given quality and derived
/// tags.
pub fn match_predictor(name: &str, quality: &str, derived: &str) -> (r: bool)
    ensures
        r == is_predictor_name(name@, quality@, derived@),
{
    match_prefix(name, quality) || match_inner(name, derived)
}

} // verus!
