use reproducible::stats::{format_categorical, CategoricalStats};

fn labels(values: &[&str]) -> Vec<String> {
    values.iter().map(|s| s.to_string()).collect()
}

#[test]
fn test_categorical_stats() {
    let values = labels(&["Pass", "Pass", "Fail"]);
    let cs = CategoricalStats::from_labels(&values);
    assert_eq!(cs.count_of("Pass"), 2);
    assert_eq!(cs.count_of("Fail"), 1);
    assert_eq!(cs.total, 3);
}

#[test]
fn counts_sum_to_total() {
    let values = labels(&["a", "b", "a", "c", "a", "b"]);
    let cs = CategoricalStats::from_labels(&values);
    let sum: usize = cs.counts.iter().map(|(_, c)| *c).sum();
    assert_eq!(sum, cs.total);
    assert_eq!(cs.counts.len(), 3);
    assert_eq!(cs.count_of("zzz"), 0);
}

#[test]
fn dominant_category_is_most_frequent() {
    let values = labels(&["Fail", "Pass", "Pass", "Skip"]);
    let cs = CategoricalStats::from_labels(&values);
    assert_eq!(cs.dominant_category(), Some(("Pass".to_string(), 2)));
}

#[test]
fn dominant_category_ties_pick_first_label() {
    let values = labels(&["beta", "alpha", "beta", "alpha", "gamma"]);
    let cs = CategoricalStats::from_labels(&values);
    assert_eq!(cs.dominant_category(), Some(("alpha".to_string(), 2)));
}

#[test]
fn dominant_category_of_nothing_is_none() {
    let cs = CategoricalStats::from_labels(&Vec::new());
    assert_eq!(cs.dominant_category(), None);
    assert_eq!(cs.total, 0);
}

#[test]
fn categorical_summary_text() {
    let percent = |count: usize, total: usize| format!("{:.0}", count as f64 / total as f64 * 100.0);
    let cs = CategoricalStats::from_labels(&labels(&["Pass", "Pass", "Fail"]));
    assert_eq!(format_categorical(&cs, &percent), "Pass (67%)");
    let empty = CategoricalStats::from_labels(&Vec::new());
    assert_eq!(format_categorical(&empty, &percent), "N/A");
}
