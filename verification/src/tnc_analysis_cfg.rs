//! Configuration carriers for an analysis run.
//!
//! `Config` is a thin wrapper for a wide range of configurations;
//! `PropensityScore` describes a derived propensity-score field and must be
//! coordinated with [`crate::propensity::PropensityCfg`]. The numeric bounds
//! of bin ranges are carried in the caller's numeric element type.

use vstd::prelude::*;

verus! {

/// Wrapper for a wide range of configurations.
#[derive(Debug)]
pub struct Config<T> {
    inner: T,
}

impl<T> Config<T> {
    /// The wrapped configuration value.
    pub closed spec fn spec_inner(&self) -> T {
        self.inner
    }

    pub fn new(value: T) -> (r: Self)
        ensures
            r.spec_inner() == value,
    {
        Config { inner: value }
    }

    /// Borrows the wrapped configuration.
    pub fn inner(&self) -> (r: &T)
        ensures
            *r == self.spec_inner(),
    {
        &self.inner
    }

    /// Takes the wrapped configuration out.
    pub fn into_inner(self) -> (r: T)
        ensures
            r == self.spec_inner(),
    {
        self.inner
    }
}

type SearchTerm = String;

/// Configuration for the propensity score, a derived field.
#[derive(Debug)]
pub struct PropensityScore<N> {
    pub binary_target_field_tag: SearchTerm,
    pub predictors: Vec<SearchTerm>,
    pub bins: Bins<N>,
}

/// How the score range is split into bins.
#[derive(Debug)]
pub struct Bins<N> {
    pub count: usize,
    pub ranges: Vec<Range<N>>,
    pub generator: BinGenerators,
}

/// The strategy that produces the bin ranges.
#[derive(Clone, Copy, Debug, PartialEq, Eq, Structural)]
pub enum BinGenerators {
    EqualRange,
    EqualCount,
    Custom,
}

/// One half-open score interval.
#[derive(Clone, Copy, Debug)]
pub struct Range<N> {
    pub start: N,
    pub stop: N,
}

} // verus!
