//! Tests of the fuzzy tag matching and the header resolver.

use tnc_analysis_lib::config::FieldNamesCfg;
use tnc_analysis_lib::fuzzy::{match_contains, match_inner, match_predictor, match_prefix};
use tnc_analysis_lib::header::Header;
use tnc_analysis_lib::{get_fuzzy_binary_target, get_fuzzy_predictors};

fn header_fields() -> Vec<&'static str> {
    vec![
        "subject_idx",
        "q_innetwork",
        "q_specialty",
        "q_state",
        "MeaType::m_reach.time::28_35",
        "MeaType::m_unitcount.product::A.time::0_23",
        "MeaType::m_unitcount.product::C.time::0_23",
        "MeaType::m_unitcount.product::A.time::14",
        "MeaType::m_unitcount.product::A.time::15",
        "MeaType::m_unitcount.product::C.time::0_23.derivedField::decile",
    ]
}

fn field_names_cfg() -> FieldNamesCfg {
    FieldNamesCfg {
        quality_field_tag: "q_".to_string(),
        derived_field_tag: "derived".to_string(),
        binary_target_field_tag: "reach".to_string(),
    }
}

#[test]
fn test_get_fuzzy_field_logic() {
    let result = match_inner("thatreachThis", "reach");
    assert!(result);
}

#[test]
fn test_get_when_middle() {
    let header = Header::new(header_fields());
    let result = header.get_fuzzy_field("reach");
    assert!(result.is_some());
}

#[test]
fn test_get_when_start() {
    let header = Header::new(header_fields());
    let result = header.get_fuzzy_field("q_");
    assert!(result.is_some());
}

#[test]
fn test_get_quality_logic() {
    let result = match_prefix("q_this", "q_");
    assert!(result);
}

#[test]
fn test_get_qualities() {
    let header = Header::new(header_fields());
    let result = header.get_fuzzy_fields("q_");
    assert_eq!(3, result.len());
}

#[test]
fn test_get_derived() {
    let header = Header::new(header_fields());
    let result = header.get_fuzzy_fields("derived");
    assert_eq!(1, result.len());
    assert_eq!(Some(9), result.first().map(|field_with_idx| field_with_idx.1));
}

#[test]
fn test_get_fuzzy_predictors() {
    let result = get_fuzzy_predictors(header_fields(), field_names_cfg());
    assert!(result.len() == 4);
}

#[test]
fn test_get_fuzzy_binary_target() {
    let result = get_fuzzy_binary_target(header_fields(), field_names_cfg());
    assert!(result.len() == 1);
}

#[test]
fn resolve_returns_matches_in_header_order() {
    // a tag against three columns: exactly the first two, in that order
    let header = Header::new(vec!["q_a", "q_b", "x_c"]);
    let result = header.get_fuzzy_fields("q_");
    assert_eq!(result, vec![("q_a", 0), ("q_b", 1)]);
}

#[test]
fn resolve_matches_substring_and_prefix_only() {
    let header = Header::new(vec!["alpha", "xq_mid", "q_start", "none"]);
    let result = header.get_fuzzy_fields("q_");
    assert_eq!(result, vec![("xq_mid", 1), ("q_start", 2)]);
}

#[test]
fn resolve_empty_header_finds_nothing() {
    let header = Header::new(Vec::new());
    assert!(header.get_fuzzy_field("q_").is_none());
    assert!(header.get_fuzzy_fields("q_").is_empty());
}

#[test]
fn match_predicates_agree_with_their_roles() {
    assert!(match_contains("abc", ""));
    assert!(match_contains("m_reach", "reach"));
    assert!(!match_contains("m_rea", "reach"));
    assert!(match_prefix("reach_it", "reach"));
    assert!(!match_prefix("m_reach", "reach"));
    // an inner match requires the tag past the start of the name
    assert!(!match_inner("reachable", "reach"));
    assert!(match_inner("m_reachable", "reach"));
    // predictor rule: quality prefix, or derived strictly inside
    assert!(match_predictor("q_state", "q_", "derived"));
    assert!(match_predictor("a.derivedField", "q_", "derived"));
    assert!(!match_predictor("derivedField", "q_", "derived"));
    assert!(!match_predictor("other", "q_", "derived"));
}

#[test]
fn empty_tag_matches_every_column() {
    let header = Header::new(vec!["a", "b"]);
    assert_eq!(header.get_fuzzy_fields("").len(), 2);
}
