use reproducible::benchmark::{
    criterion_estimates_path, criterion_path, criterion_sample_path, criterion_source, criterion_stat_path,
    default_criterion_root, CriterionSource,
};
use reproducible::columns::ColumnStat;
use std::path::Path;

#[test]
fn estimates_path_under_root() {
    let path = criterion_estimates_path("target/criterion", "math/ellip").unwrap();
    let expected = Path::new("math").join("ellip").join("new").join("estimates.json");
    assert!(Path::new(&path).ends_with(expected));
    assert!(Path::new(&path).starts_with("target/criterion"));
}

#[test]
fn sample_path_under_root() {
    let path = criterion_sample_path("target/criterion", "group/f").unwrap();
    assert!(Path::new(&path).ends_with(Path::new("group").join("f").join("new").join("sample.json")));
}

#[test]
fn empty_id_is_rejected() {
    assert_eq!(criterion_estimates_path("root", ""), Err("group/function cannot be empty".to_string()));
    assert_eq!(criterion_sample_path("root", ""), Err("group/function cannot be empty".to_string()));
}

#[test]
fn stats_are_routed_to_their_artifact() {
    assert_eq!(criterion_source(ColumnStat::Mean), CriterionSource::Estimates);
    assert_eq!(criterion_source(ColumnStat::Median), CriterionSource::Estimates);
    for stat in [ColumnStat::Min, ColumnStat::Max, ColumnStat::P99, ColumnStat::P95, ColumnStat::Variance] {
        assert_eq!(criterion_source(stat), CriterionSource::Samples);
    }
    let p = criterion_stat_path("r", "g/f", ColumnStat::Max).unwrap();
    assert!(p.ends_with("sample.json"));
    let p = criterion_stat_path("r", "g/f", ColumnStat::Median).unwrap();
    assert!(p.ends_with("estimates.json"));
}

#[test]
fn default_root_and_benchmark_dir() {
    assert_eq!(default_criterion_root(), "target/criterion");
    assert!(Path::new(&criterion_path("target/criterion", "math/add")).ends_with("math/add"));
}

#[test]
fn estimates_path_is_spelled_out() {
    let path = criterion_estimates_path("target/criterion", "math/ellip").unwrap();
    let sep = std::path::MAIN_SEPARATOR;
    assert_eq!(path, format!("target/criterion{sep}math/ellip{sep}new{sep}estimates.json"));
}
