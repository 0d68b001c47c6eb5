//! Tests of the table model, the categorical encoder, the flattener, the
//! configuration builder, and the end-to-end path from tags to the design
//! matrix.

use tnc_analysis_lib::column::{Column, ColumnData};
use tnc_analysis_lib::config::FieldNamesCfg;
use tnc_analysis_lib::errors::AnalysisError;
use tnc_analysis_lib::matrix::{LogitColumns, Matrix};
use tnc_analysis_lib::propensity::{build_dummies, BinaryTarget, Predictors, PropensityCfg};
use tnc_analysis_lib::table::Table;
use tnc_analysis_lib::tnc_analysis_cfg::Config;
use tnc_analysis_lib::to_dummies::CategoryField;
use tnc_analysis_lib::to_row_dominant;

fn num_col(name: &str, values: Vec<Option<f64>>) -> Column<f64> {
    Column { name: name.to_string(), data: ColumnData::Num(values) }
}

fn text_col(name: &str, values: Vec<Option<&str>>) -> Column<f64> {
    Column {
        name: name.to_string(),
        data: ColumnData::Text(values.into_iter().map(|v| v.map(|s| s.to_string())).collect()),
    }
}

fn bool_col(name: &str, values: Vec<Option<bool>>) -> Column<f64> {
    Column { name: name.to_string(), data: ColumnData::Bool(values) }
}

#[test]
fn table_new_checks_shape_and_names() {
    let t = Table::new(vec![
        num_col("a", vec![Some(1.0), Some(2.0)]),
        num_col("b", vec![Some(3.0), Some(4.0)]),
    ])
    .unwrap();
    assert_eq!(t.shape(), (2, 2));

    let bad_shape = Table::new(vec![
        num_col("a", vec![Some(1.0), Some(2.0)]),
        num_col("b", vec![Some(3.0)]),
    ]);
    assert!(matches!(bad_shape, Err(AnalysisError::ShapeMismatch { .. })));

    let dup = Table::new(vec![
        num_col("a", vec![Some(1.0)]),
        num_col("a", vec![Some(2.0)]),
    ]);
    assert!(matches!(dup, Err(AnalysisError::DuplicateColumn { .. })));
}

#[test]
fn table_column_lookup_and_select() {
    let t = Table::new(vec![
        num_col("a", vec![Some(1.0)]),
        num_col("b", vec![Some(2.0)]),
    ])
    .unwrap();
    assert!(t.column("b").is_ok());
    assert!(matches!(
        t.column("zz"),
        Err(AnalysisError::NoSuchColumn { name }) if name == "zz"
    ));
    let s = t.select(&vec!["b".to_string(), "a".to_string()]).unwrap();
    assert_eq!(s.shape(), (1, 2));
    assert!(matches!(
        t.select(&vec!["nope".to_string()]),
        Err(AnalysisError::NoSuchColumn { name }) if name == "nope"
    ));
}

#[test]
fn encode_keeps_all_levels_but_the_first() {
    // three distinct levels, first-seen "b" is dropped; output sorted by name
    let col = text_col("c", vec![Some("b"), Some("a"), Some("c"), Some("a"), None]);
    let out = CategoryField::from_column(col).to_dummies(None).unwrap();
    assert_eq!(out.len(), 2);
    assert_eq!(out[0].name, "c_a");
    assert_eq!(out[1].name, "c_c");
    assert_eq!(
        out[0].data,
        ColumnData::Bool(vec![Some(false), Some(true), Some(false), Some(true), Some(false)])
    );
    assert_eq!(
        out[1].data,
        ColumnData::Bool(vec![Some(false), Some(false), Some(true), Some(false), Some(false)])
    );
    // each row carries at most one indicator across the returned columns
    for r in 0..5 {
        let ones = out
            .iter()
            .filter(|c| matches!(&c.data, ColumnData::Bool(v) if v[r] == Some(true)))
            .count();
        assert!(ones <= 1);
    }
}

#[test]
fn encode_is_deterministic_across_runs() {
    let col = || text_col("c", vec![Some("y"), Some("x"), None, Some("y")]);
    let first = CategoryField::from_column(col()).to_dummies(None).unwrap();
    let second = CategoryField::from_column(col()).to_dummies(None).unwrap();
    assert_eq!(first, second);
}

#[test]
fn encode_single_level_yields_no_columns() {
    let col = text_col("c", vec![Some("only"), Some("only")]);
    let out = CategoryField::from_column(col).to_dummies(None).unwrap();
    assert!(out.is_empty());
}

#[test]
fn encode_honors_custom_separator() {
    let col = text_col("c", vec![Some("u"), Some("v")]);
    let out = CategoryField::from_column(col).to_dummies(Some("::")).unwrap();
    assert_eq!(out.len(), 1);
    assert_eq!(out[0].name, "c::v");
}

#[test]
fn encode_rejects_non_text_columns() {
    let col = num_col("n", vec![Some(1.0)]);
    let out = CategoryField::from_column(col).to_dummies(None);
    assert!(matches!(out, Err(AnalysisError::EncodingUnsupported { name }) if name == "n"));
}

#[test]
fn flatten_appends_intercept_per_row() {
    let t = Table::new(vec![
        num_col("a", vec![Some(2.0), Some(3.0), Some(4.0)]),
        bool_col("b", vec![Some(true), Some(false), Some(true)]),
    ])
    .unwrap();
    let (buf, rows) = to_row_dominant(&t, 0.0, 1.0).unwrap();
    assert_eq!(rows, 3);
    assert_eq!(buf.len(), 3 * 3);
    // row-major: for every row the last logical column is exactly 1.0
    for r in 0..rows {
        assert_eq!(buf[r * 3 + 2], 1.0);
    }
    assert_eq!(buf, vec![2.0, 1.0, 1.0, 3.0, 0.0, 1.0, 4.0, 1.0, 1.0]);
}

#[test]
fn flatten_fails_on_missing_value() {
    let t = Table::new(vec![num_col("a", vec![Some(2.0), None])]).unwrap();
    let out = to_row_dominant(&t, 0.0, 1.0);
    assert!(matches!(out, Err(AnalysisError::MissingValue { name }) if name == "a"));
}

#[test]
fn flatten_fails_on_text_column() {
    let t = Table::new(vec![text_col("t", vec![Some("x")])]).unwrap();
    let out = to_row_dominant(&t, 0.0, 1.0);
    assert!(matches!(out, Err(AnalysisError::CastFailed { name }) if name == "t"));
}

#[test]
fn build_dummies_expands_text_in_place() {
    let t = Table::new(vec![
        num_col("n", vec![Some(7.0), Some(8.0)]),
        text_col("c", vec![Some("p"), Some("q")]),
    ])
    .unwrap();
    let t2 = build_dummies(t, None, None).unwrap();
    assert_eq!(t2.shape(), (2, 2));
    let names: Vec<&str> = t2.get_column_names();
    assert_eq!(names, vec!["n", "c_q"]);
}

#[test]
fn build_dummies_with_explicit_list_checks_names_and_types() {
    let t = Table::new(vec![
        num_col("n", vec![Some(7.0)]),
        text_col("c", vec![Some("p")]),
    ])
    .unwrap();
    let missing = build_dummies(t, Some(Predictors::from_fields(vec!["zz"])), None);
    assert!(matches!(missing, Err(AnalysisError::NoSuchColumn { name }) if name == "zz"));

    let t = Table::new(vec![
        num_col("n", vec![Some(7.0)]),
        text_col("c", vec![Some("p")]),
    ])
    .unwrap();
    let non_text = build_dummies(t, Some(Predictors::from_fields(vec!["n"])), None);
    assert!(matches!(non_text, Err(AnalysisError::EncodingUnsupported { name }) if name == "n"));
}

#[test]
fn binary_target_requires_exactly_one_name() {
    // a two-element name list is a cardinality violation
    let two = BinaryTarget::from_fields(vec!["a", "b"]);
    assert!(matches!(two, Err(AnalysisError::TagCardinality { found: 2 })));
    let none = BinaryTarget::from_fields(Vec::new());
    assert!(matches!(none, Err(AnalysisError::TagCardinality { found: 0 })));
    let one = BinaryTarget::from_fields(vec!["reach"]).unwrap();
    assert_eq!(one.name(), "reach");
}

#[test]
fn builder_defaults_and_overrides() {
    let target = BinaryTarget::from_field("reach");
    let predictors = Predictors::from_fields(vec!["q_a", "q_b"]);
    let cfg = PropensityCfg::builder(target, predictors).build();
    assert_eq!(cfg.bin_count, 5);
    assert_eq!(cfg.name, "propensity");
    assert_eq!(cfg.bin_name(), "propensity_bin");

    let target = BinaryTarget::from_field("reach");
    let predictors = Predictors::from_fields(vec!["q_a"]);
    let cfg = PropensityCfg::builder(target, predictors)
        .with_name("prop_score")
        .bin_count(7)
        .build();
    assert_eq!(cfg.bin_count, 7);
    assert_eq!(cfg.name, "prop_score");
    assert_eq!(cfg.bin_name(), "prop_score_bin");
    assert_eq!(cfg.target.as_str(), "reach");
    assert_eq!(cfg.predictors.names(), &vec!["q_a".to_string()]);
}

#[test]
fn config_wraps_a_value() {
    let cfg = Config::new(41_u64);
    assert_eq!(*cfg.inner(), 41);
    assert_eq!(cfg.into_inner(), 41);
}

#[test]
fn logit_columns_split_target_and_predictors() {
    let cols = LogitColumns::from_fields(vec!["reach", "q_a", "q_b"]);
    assert_eq!(cols.target(), "reach");
    assert_eq!(cols.predictors(), vec!["q_a", "q_b"]);
}

#[test]
fn inclusion_tag_counts_present_subjects() {
    let t = Table::new(vec![num_col(
        "subject_idx",
        vec![Some(1.0), None, Some(3.0), None, None],
    )])
    .unwrap();
    let mut m = Matrix::new(t);
    let (included, excluded) = m.with_inclusion_tag();
    assert_eq!((included, excluded), (2, 3));
    let names: Vec<&str> = m.inner.get_column_names();
    assert_eq!(names, vec!["subject_idx", "inclusion"]);
    match &m.inner.column("inclusion").unwrap().data {
        ColumnData::Bool(v) => {
            assert_eq!(v, &vec![Some(true), Some(false), Some(true), Some(false), Some(false)]);
        }
        _ => panic!("the inclusion column must be boolean"),
    }
}

#[test]
fn cast_values_maps_booleans_to_zero_and_one() {
    let col = bool_col("b", vec![Some(true), Some(false)]);
    assert_eq!(col.cast_values(0.0, 1.0).unwrap(), vec![1.0, 0.0]);
    let col = text_col("t", vec![Some("x")]);
    assert!(matches!(col.cast_values(0.0, 1.0), Err(AnalysisError::CastFailed { .. })));
    let col = num_col("n", vec![Some(5.0), None]);
    assert!(matches!(col.cast_values(0.0, 1.0), Err(AnalysisError::MissingValue { .. })));
}

#[test]
fn with_propensity_column_appends_predictions() {
    let t = Table::new(vec![num_col("subject_idx", vec![Some(1.0), Some(2.0)])]).unwrap();
    let mut m = Matrix::new(t);
    m.with_propensity_column(vec![0.25, 0.75]).unwrap();
    let names: Vec<&str> = m.inner.get_column_names();
    assert_eq!(names, vec!["subject_idx", "propensity"]);
    let wrong_len = m.with_propensity_column(vec![0.5]);
    assert!(matches!(wrong_len, Err(AnalysisError::ShapeMismatch { .. })));
}

#[test]
fn end_to_end_tags_to_design_matrix() {
    // table: id, q_region (text east/west), reach (0/1)
    let t = Table::new(vec![
        num_col("id", vec![Some(1.0), Some(2.0), Some(3.0)]),
        text_col("q_region", vec![Some("east"), Some("west"), Some("east")]),
        num_col("reach", vec![Some(0.0), Some(1.0), Some(1.0)]),
    ])
    .unwrap();
    let m = Matrix::new(t);
    let cfg = FieldNamesCfg {
        quality_field_tag: "q_".to_string(),
        derived_field_tag: "derived".to_string(),
        binary_target_field_tag: "reach".to_string(),
    };

    // predictors resolve to [q_region], target resolves to reach
    let predictors = m.predictors(cfg.clone());
    assert_eq!(predictors.names(), &vec!["q_region"]);
    let target = m.binary_target(cfg).unwrap();
    assert_eq!(target.name(), "reach");

    let prop_cfg = PropensityCfg::builder(target, predictors).with_name("prop_score").build();

    // encoding q_region drops the first-seen level "east", keeping west
    let (x, y, rows) = m.propensity_inputs(&prop_cfg, 0.0, 1.0).unwrap();
    assert_eq!(rows, 3);
    // two logical columns: q_region_west and the intercept, row-major
    assert_eq!(x.len(), 3 * 2);
    assert_eq!(x, vec![0.0, 1.0, 1.0, 1.0, 0.0, 1.0]);
    for r in 0..rows {
        assert_eq!(x[r * 2 + 1], 1.0);
    }
    assert_eq!(y, vec![0.0, 1.0, 1.0]);
}

#[test]
fn propensity_inputs_report_missing_target_values() {
    let t = Table::new(vec![
        num_col("q_a", vec![Some(1.0), Some(2.0)]),
        num_col("reach", vec![Some(1.0), None]),
    ])
    .unwrap();
    let m = Matrix::new(t);
    let cfg = PropensityCfg::builder(
        BinaryTarget::from_field("reach"),
        Predictors::from_fields(vec!["q_a"]),
    )
    .build();
    let out = m.propensity_inputs(&cfg, 0.0, 1.0);
    assert!(matches!(out, Err(AnalysisError::MissingValue { name }) if name == "reach"));
}

#[test]
fn error_classes_follow_the_taxonomy() {
    assert_eq!(AnalysisError::TagCardinality { found: 2 }.class(), "configuration");
    assert_eq!(AnalysisError::NoSuchColumn { name: "x".to_string() }.class(), "schema");
    assert_eq!(AnalysisError::CastFailed { name: "x".to_string() }.class(), "schema");
    assert_eq!(AnalysisError::MissingValue { name: "x".to_string() }.class(), "data-integrity");
    assert_eq!(
        AnalysisError::EncodingUnsupported { name: "x".to_string() }.class(),
        "encoding"
    );
}

#[test]
fn flatten_empty_table_yields_empty_buffer() {
    let t = Table::new(Vec::new()).unwrap();
    let (buf, rows) = to_row_dominant(&t, 0.0, 1.0).unwrap();
    assert_eq!(rows, 0);
    assert!(buf.is_empty());
}

#[test]
fn encode_all_missing_yields_no_columns() {
    let col = text_col("c", vec![None, None]);
    let out = CategoryField::from_column(col).to_dummies(None).unwrap();
    assert!(out.is_empty());
}

#[test]
fn with_column_replaces_by_name() {
    let t = Table::new(vec![num_col("a", vec![Some(1.0)]), num_col("b", vec![Some(2.0)])]).unwrap();
    let mut m = Matrix::new(t);
    m.with_propensity_column(vec![0.5]).unwrap();
    m.with_propensity_column(vec![0.9]).unwrap();
    let names: Vec<&str> = m.inner.get_column_names();
    assert_eq!(names, vec!["a", "b", "propensity"]);
    match &m.inner.column("propensity").unwrap().data {
        ColumnData::Num(v) => assert_eq!(v, &vec![Some(0.9)]),
        _ => panic!("the propensity column must be numeric"),
    }
}

#[test]
fn select_repeats_duplicate_names() {
    let t = Table::new(vec![num_col("a", vec![Some(1.0)])]).unwrap();
    let s = t.select(&vec!["a".to_string(), "a".to_string()]).unwrap();
    assert_eq!(s.shape(), (1, 2));
}
