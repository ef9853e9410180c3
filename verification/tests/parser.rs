use reproducible::parser::{
    csv_cases_from_bytes, csv_split_cases_from_bytes, csv_vectors_from_bytes, CsvError, CsvParserOptions,
};

fn parse_f64(s: &str) -> Result<f64, String> {
    s.parse::<f64>().map_err(|e| e.to_string())
}

fn parse_f32(s: &str) -> Result<f32, String> {
    s.parse::<f32>().map_err(|e| e.to_string())
}

fn no_headers() -> CsvParserOptions {
    CsvParserOptions {
        has_headers: false,
        ..Default::default()
    }
}

#[test]
fn read_accuracy_csv_last_column_expected() {
    let data = b"x,y,expected\n1.0,2.0,3.0\n2.0,5.0,7.0\n".to_vec();
    let cases = csv_cases_from_bytes(data, &CsvParserOptions::default(), &parse_f64).expect("parse");
    assert_eq!(cases.len(), 2);
    assert_eq!(cases[0].inputs, vec![1.0, 2.0]);
    assert_eq!(cases[0].expected, vec![3.0]);
}

#[test]
fn read_csv_empty_file() {
    let cases = csv_cases_from_bytes(Vec::new(), &CsvParserOptions::default(), &parse_f64).expect("parse");
    assert_eq!(cases.len(), 0);
}

#[test]
fn read_csv_only_headers() {
    let data = b"col1,col2,expected\n".to_vec();
    let cases = csv_cases_from_bytes(data, &CsvParserOptions::default(), &parse_f64).expect("parse");
    assert_eq!(cases.len(), 0);
}

#[test]
fn read_csv_invalid_numeric() {
    let data = b"1.0,abc,3.0\n".to_vec();
    let res = csv_cases_from_bytes(data, &no_headers(), &parse_f64);
    assert!(res.is_err());
    assert!(res.unwrap_err().message().contains("cannot parse row 1, column 2"));
}

#[test]
fn read_csv_different_delimiter() {
    let data = b"1.0;2.0;3.0\n".to_vec();
    let options = CsvParserOptions {
        delimiter: b';',
        has_headers: false,
    };
    let cases = csv_cases_from_bytes(data, &options, &parse_f64).expect("parse");
    assert_eq!(cases[0].inputs, vec![1.0, 2.0]);
    assert_eq!(cases[0].expected, vec![3.0]);
}

#[test]
fn read_csv_pathological_numbers() {
    let data = b"NaN,inf,-inf,1.0\n".to_vec();
    let cases = csv_cases_from_bytes(data, &no_headers(), &parse_f64).expect("parse");
    assert!(cases[0].inputs[0].is_nan());
    assert!(cases[0].inputs[1].is_infinite());
    assert!(cases[0].inputs[2].is_infinite());
    assert_eq!(cases[0].expected, vec![1.0]);
}

#[test]
fn read_csv_generic_f32() {
    let data = b"1.0,2.0\n".to_vec();
    let cases = csv_cases_from_bytes(data, &no_headers(), &parse_f32).expect("parse");
    assert_eq!(cases[0].inputs, vec![1.0f32]);
    assert_eq!(cases[0].expected, vec![2.0f32]);
}

#[test]
fn test_read_separate_csvs() {
    let inputs = b"x,y\n1.0,2.0\n2.0,5.0\n".to_vec();
    let expected = b"expected\n3.0\n7.0\n".to_vec();
    let cases = csv_split_cases_from_bytes(inputs, expected, &CsvParserOptions::default(), &parse_f64).expect("parse");
    assert_eq!(cases.len(), 2);
    assert_eq!(cases[0].inputs, vec![1.0, 2.0]);
    assert_eq!(cases[0].expected, vec![3.0]);
}

#[test]
fn test_read_separate_csvs_mismatch() {
    let inputs = b"x,y\n1.0,2.0\n2.0,5.0\n".to_vec();
    let expected = b"expected\n3.0\n".to_vec();
    let res = csv_split_cases_from_bytes(inputs, expected, &CsvParserOptions::default(), &parse_f64);
    assert!(res.is_err());
    assert!(res.unwrap_err().message().contains("row count mismatch"));
}

#[test]
fn separate_csvs_pair_rows_in_order() {
    let inputs = b"1,2\n3,4\n5,6\n".to_vec();
    let expected = b"10\n20,21\n30\n".to_vec();
    let options = CsvParserOptions {
        delimiter: b',',
        has_headers: false,
    };
    // csv requires equal record lengths by default: the second expected record is rejected.
    let res = csv_split_cases_from_bytes(inputs.clone(), expected, &options, &parse_f64);
    match res.unwrap_err() {
        CsvError::Record { row, .. } => assert_eq!(row, 1),
        other => panic!("unexpected error {:?}", other),
    }
    let expected = b"10\n20\n30\n".to_vec();
    let cases = csv_split_cases_from_bytes(inputs, expected, &options, &parse_f64).unwrap();
    assert_eq!(cases.len(), 3);
    assert_eq!(cases[2].inputs, vec![5.0, 6.0]);
    assert_eq!(cases[2].expected, vec![30.0]);
    assert_eq!(cases[1].expected, vec![20.0]);
}

#[test]
fn mismatch_message_names_both_counts() {
    let err = CsvError::RowCountMismatch { inputs: 2, expected: 1 };
    assert_eq!(err.message(), "row count mismatch: inputs has 2 rows, expected has 1 rows");
}

#[test]
fn single_column_rows_are_rejected() {
    let data = b"1.0\n".to_vec();
    let err = csv_cases_from_bytes(data, &no_headers(), &parse_f64).unwrap_err();
    match &err {
        CsvError::TooFewColumns { row, found } => {
            assert_eq!(*row, 0);
            assert_eq!(*found, 1);
        }
        other => panic!("unexpected error {:?}", other),
    }
    assert_eq!(err.message(), "row 1 has 1 column(s); expected at least 2");
}

#[test]
fn expected_cell_error_names_last_column() {
    let data = b"1,2,3\n4,5,x\n".to_vec();
    let err = csv_cases_from_bytes(data, &no_headers(), &parse_f64).unwrap_err();
    match &err {
        CsvError::Cell { row, column, .. } => {
            assert_eq!(*row, 1);
            assert_eq!(*column, 2);
        }
        other => panic!("unexpected error {:?}", other),
    }
    assert!(err.message().starts_with("cannot parse row 2, column 3 as f64: "));
}

#[test]
fn earlier_cell_error_wins_over_later_record_error() {
    // Row 1 has a bad cell, row 2 has the wrong number of fields.
    let data = b"1,x\n1,2,3\n".to_vec();
    let err = csv_cases_from_bytes(data, &no_headers(), &parse_f64).unwrap_err();
    match err {
        CsvError::Cell { row, column, .. } => {
            assert_eq!(row, 0);
            assert_eq!(column, 1);
        }
        other => panic!("unexpected error {:?}", other),
    }
    let data = b"1,2\n1,2,3\n".to_vec();
    let err = csv_cases_from_bytes(data, &no_headers(), &parse_f64).unwrap_err();
    assert!(err.message().starts_with("cannot parse CSV row 2: "));
}

#[test]
fn vectors_keep_every_column() {
    let data = b"a,b,c\n1,2,3\n4,5,6\n".to_vec();
    let rows = csv_vectors_from_bytes(data, &CsvParserOptions::default(), &parse_f64).unwrap();
    assert_eq!(rows, vec![vec![1.0, 2.0, 3.0], vec![4.0, 5.0, 6.0]]);
}

#[test]
fn vectors_with_header_row_kept() {
    let data = b"1,2\n3,4\n".to_vec();
    let rows = csv_vectors_from_bytes(data, &no_headers(), &parse_f64).unwrap();
    assert_eq!(rows.len(), 2);
    assert_eq!(rows[0], vec![1.0, 2.0]);
}

#[test]
fn default_options_are_comma_with_headers() {
    let options = CsvParserOptions::default();
    assert_eq!(options.delimiter, b',');
    assert!(options.has_headers);
}

#[test]
fn split_cases_agree_with_vectors() {
    let options = CsvParserOptions::default();
    let inputs = b"x,y\n1.0,2.0\n2.0,5.0\n".to_vec();
    let expected = b"e\n3.0\n7.0\n".to_vec();
    let iv = csv_vectors_from_bytes(inputs.clone(), &options, &parse_f64).unwrap();
    let ev = csv_vectors_from_bytes(expected.clone(), &options, &parse_f64).unwrap();
    let cases = csv_split_cases_from_bytes(inputs.clone(), expected, &options, &parse_f64).unwrap();
    assert_eq!(cases.len(), iv.len());
    for i in 0..cases.len() {
        assert_eq!(cases[i].inputs, iv[i]);
        assert_eq!(cases[i].expected, ev[i]);
    }
    // A failure in the inputs is the pairing's error, before any in the expected data.
    let bad_inputs = b"x,y\n1.0,q\n".to_vec();
    let bad_expected = b"e\nz\n".to_vec();
    let vector_err = csv_vectors_from_bytes(bad_inputs.clone(), &options, &parse_f64).unwrap_err();
    let pair_err = csv_split_cases_from_bytes(bad_inputs, bad_expected.clone(), &options, &parse_f64).unwrap_err();
    assert_eq!(pair_err.message(), vector_err.message());
    let expected_err = csv_vectors_from_bytes(bad_expected.clone(), &options, &parse_f64).unwrap_err();
    let pair_err = csv_split_cases_from_bytes(b"x\n1\n".to_vec(), bad_expected, &options, &parse_f64).unwrap_err();
    assert_eq!(pair_err.message(), expected_err.message());
}
