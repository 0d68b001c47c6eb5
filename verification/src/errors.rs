//! Typed failures for a single analysis run.
//!
//! Every error is unrecoverable for the analysis in progress and carries the
//! column name (or match count) that caused it. There is no transient-failure
//! class: all inputs are already in memory and nothing is retried.

use vstd::prelude::*;

verus! {

/// The error taxonomy of the analysis core.
#[derive(Debug)]
pub enum AnalysisError {
    /// Tag resolution yielded zero or multiple matches where exactly one was
    /// required (the binary target); `found` is the number of matches.
    TagCardinality { found: usize },
    /// A named column does not exist in the table.
    NoSuchColumn { name: String },
    /// A selected column's type cannot be cast to the numeric element type.
    CastFailed { name: String },
    /// A missing value was encountered in a column required to be complete.
    MissingValue { name: String },
    /// A categorical value of this column cannot be rendered to text for
    /// indicator-column naming.
    EncodingUnsupported { name: String },
    /// A column's length disagrees with the table's row count.
    ShapeMismatch { name: String },
    /// A column name occurs more than once where names must be unique.
    DuplicateColumn { name: String },
}

impl AnalysisError {
    /// A short, stable label for the error class.
    pub fn class(&self) -> (r: &'static str)
        ensures
            r@ == self.spec_class(),
    {
        match self {
            AnalysisError::TagCardinality { .. } => "configuration",
            AnalysisError::NoSuchColumn { .. } => "schema",
            AnalysisError::CastFailed { .. } => "schema",
            AnalysisError::MissingValue { .. } => "data-integrity",
            AnalysisError::EncodingUnsupported { .. } => "encoding",
            AnalysisError::ShapeMismatch { .. } => "schema",
            AnalysisError::DuplicateColumn { .. } => "schema",
        }
    }

    /// The label that `class` returns for each variant.
    pub open spec fn spec_class(&self) -> Seq<char> {
        match self {
            AnalysisError::TagCardinality { .. } => "configuration"@,
            AnalysisError::NoSuchColumn { .. } => "schema"@,
            AnalysisError::CastFailed { .. } => "schema"@,
            AnalysisError::MissingValue { .. } => "data-integrity"@,
            AnalysisError::EncodingUnsupported { .. } => "encoding"@,
            AnalysisError::ShapeMismatch { .. } => "schema"@,
            AnalysisError::DuplicateColumn { .. } => "schema"@,
        }
    }
}

} // verus!
