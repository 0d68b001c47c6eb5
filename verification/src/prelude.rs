//! The items that a typical analysis run needs.

pub use crate::config::FieldNamesCfg;
pub use crate::matrix::Matrix;
pub use crate::propensity::PropensityCfg;
pub use crate::tnc_analysis_cfg::Config;
