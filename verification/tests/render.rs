use reproducible::render::{not_evaluated_cell, render_table, row_evaluation, select_test_cases, RowEvaluation, TableStyle};
use reproducible::rows::TestCase;

#[test]
fn markdown_table_layout() {
    let columns = vec!["Mean".to_string(), "Max".to_string()];
    let rows = vec![
        ("add".to_string(), vec!["0.00".to_string(), "1.5".to_string()]),
        ("sub".to_string(), vec!["10.00".to_string(), "2".to_string()]),
    ];
    let md = render_table(&columns, &rows, TableStyle::Markdown);
    assert_eq!(
        md,
        "| Function | Mean  | Max |\n|----------|-------|-----|\n| add      | 0.00  | 1.5 |\n| sub      | 10.00 | 2   |"
    );
}

#[test]
fn header_only_table() {
    let md = render_table(&vec!["A".to_string()], &Vec::new(), TableStyle::Markdown);
    assert!(md.contains("Function"));
    assert!(md.contains('A'));
}

#[test]
fn styles_differ() {
    let columns = vec!["A".to_string()];
    let rows = vec![("f".to_string(), vec!["1".to_string()])];
    let markdown = render_table(&columns, &rows, TableStyle::Markdown);
    let sharp = render_table(&columns, &rows, TableStyle::Sharp);
    let blank = render_table(&columns, &rows, TableStyle::Blank);
    assert_ne!(markdown, sharp);
    assert_ne!(markdown, blank);
    assert!(sharp.contains('┌'));
}

#[test]
fn row_evaluation_prefers_batch() {
    assert_eq!(row_evaluation(true, true), RowEvaluation::Batch);
    assert_eq!(row_evaluation(false, true), RowEvaluation::PerCase);
    assert_eq!(row_evaluation(false, false), RowEvaluation::NotEvaluated);
    let report_cases = vec![TestCase { inputs: vec![1.0], expected: vec![2.0] }];
    let own = Some(vec![TestCase { inputs: vec![3.0], expected: vec![4.0] }]);
    assert_eq!(select_test_cases(&own, &report_cases)[0].inputs, vec![3.0]);
    assert_eq!(select_test_cases(&None, &report_cases)[0].inputs, vec![1.0]);
    assert_eq!(not_evaluated_cell(), "N/A");
}
