//! The tag configuration: how the fields are named by the producer of the
//! table, bridged to the roles this analysis requires.
//!
//! The three patterns are matched against column names: the quality tag as a
//! prefix, the derived tag as an inner fragment, the binary-target tag
//! anywhere. The configuration is immutable once loaded and shared by value.

use vstd::prelude::*;

verus! {

type SearchTerm = String;

/// The three naming-convention tags used to classify column roles.
#[derive(Clone, Debug)]
pub struct FieldNamesCfg {
    pub quality_field_tag: SearchTerm,
    pub derived_field_tag: SearchTerm,
    pub binary_target_field_tag: SearchTerm,
}

} // verus!
