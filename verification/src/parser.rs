//! Assembly of accuracy test cases from CSV data.
//!
//! The CSV grammar itself is handled by the `csv` crate; this module turns
//! the records it yields into vectors and [`TestCase`]s, converting each cell
//! with a caller-supplied parser and reporting the first failure in reading
//! order.
use vstd::prelude::*;
use crate::rows::TestCase;
use crate::text::{decimal, push_decimal, push_str};

verus! {

/// Config for parsing CSV rows into [`TestCase`].
#[derive(Debug, Clone)]
pub struct CsvParserOptions {
    /// Column delimiter, default is comma (`,`).
    pub delimiter: u8,
    /// Whether the CSV data has a header row.
    pub has_headers: bool,
}

impl Default for CsvParserOptions {
    fn default() -> (r: Self)
        ensures
            r.delimiter == 44u8,
            r.has_headers,
    {
        CsvParserOptions { delimiter: 44u8, has_headers: true }
    }
}

/// Why CSV data could not be turned into vectors or test cases.
/// Row and column numbers are 0-based.
#[derive(Debug, Clone)]
pub enum CsvError {
    /// The CSV reader rejected record `row`.
    Record { row: usize, message: String },
    /// Record `row` has fewer than two columns (no inputs besides the expected value).
    TooFewColumns { row: usize, found: usize },
    /// The cell at `row`, `column` could not be converted.
    Cell { row: usize, column: usize, message: String },
    /// The inputs data and the expected data have different numbers of rows.
    RowCountMismatch { inputs: usize, expected: usize },
}

#[verifier::external_type_specification]
#[verifier::external_body]
#[verifier::reject_recursive_types(R)]
pub struct ExCsvReader<R>(csv::Reader<R>);

#[verifier::external_type_specification]
#[verifier::external_body]
#[verifier::reject_recursive_types(T)]
pub struct ExCursor<T>(std::io::Cursor<T>);

/// The sequence of results that a `csv` reader configured with `delimiter`
/// and `has_headers` yields, one per record, when reading `bytes`.
pub uninterp spec fn csv_items(bytes: Seq<u8>, delimiter: u8, has_headers: bool) -> Seq<Result<Seq<Seq<char>>, Seq<char>>>;

/// The results that `reader` has still to yield.
pub uninterp spec fn csv_pending(reader: csv::Reader<std::io::Cursor<Vec<u8>>>) -> Seq<Result<Seq<Seq<char>>, Seq<char>>>;

/// The view of one record read from a CSV reader: its fields, or the message of its error.
pub open spec fn record_view(item: Result<Vec<String>, String>) -> Result<Seq<Seq<char>>, Seq<char>> {
    match item {
        Ok(fields) => Ok(fields@.map_values(|f: String| f@)),
        Err(message) => Err(message@),
    }
}

/// Opens a `csv::Reader` over `bytes` with `csv::ReaderBuilder`, using the
/// given delimiter and header setting and the crate's other defaults. The
/// contract claims that the reader will yield exactly `csv_items` of these
/// arguments.
#[verifier::external_body]
fn open_csv(bytes: Vec<u8>, delimiter: u8, has_headers: bool) -> (r: csv::Reader<std::io::Cursor<Vec<u8>>>)
    ensures
        csv_pending(r) == csv_items(bytes@, delimiter, has_headers),
{
    csv::ReaderBuilder::new().delimiter(delimiter).has_headers(has_headers).from_reader(std::io::Cursor::new(bytes))
}

/// Reads the next record with `csv::Reader::read_record`: `None` at the end
/// of the data, else the record's fields as strings or the error's message.
/// The contract claims that this is the first pending result and that it is
/// consumed.
#[verifier::external_body]
fn next_csv_record(reader: &mut csv::Reader<std::io::Cursor<Vec<u8>>>) -> (r: Option<Result<Vec<String>, String>>)
    ensures
        csv_pending(*old(reader)).len() == 0 ==> r is None && csv_pending(*final(reader)).len() == 0,
        csv_pending(*old(reader)).len() > 0 ==> {
            &&& r matches Some(item)
            &&& record_view(item) == csv_pending(*old(reader))[0]
            &&& csv_pending(*final(reader)) == csv_pending(*old(reader)).drop_first()
        },
{
    let mut record = csv::StringRecord::new();
    match reader.read_record(&mut record) {
        Ok(true) => Some(Ok(record.iter().map(String::from).collect())),
        Ok(false) => None,
        Err(e) => Some(Err(e.to_string())),
    }
}

/// `parse` may turn a string whose characters are `cell` into `out`.
pub open spec fn cell_parses_to<T, F: Fn(&str) -> Result<T, String>>(parse: F, cell: Seq<char>, out: Result<T, String>) -> bool {
    exists|s: &str| s@ == cell && #[trigger] call_ensures(parse, (s,), out)
}

/// `parse` may turn a string whose characters are `cell` into some value.
pub open spec fn cell_parses<T, F: Fn(&str) -> Result<T, String>>(parse: F, cell: Seq<char>) -> bool {
    exists|s: &str, v: T| s@ == cell && #[trigger] call_ensures(parse, (s,), Ok::<T, String>(v))
}

/// Every cell of `record` may be converted by `parse`.
pub open spec fn row_parses<T, F: Fn(&str) -> Result<T, String>>(parse: F, record: Seq<Seq<char>>) -> bool {
    forall|k: int| 0 <= k < record.len() ==> #[trigger] cell_parses(parse, record[k])
}

/// `values` is a conversion of `record`, cell by cell, by `parse`.
pub open spec fn row_converts_to<T, F: Fn(&str) -> Result<T, String>>(parse: F, record: Seq<Seq<char>>, values: Seq<T>) -> bool {
    &&& values.len() == record.len()
    &&& forall|k: int| 0 <= k < record.len() ==> #[trigger] cell_parses_to(parse, record[k], Ok::<T, String>(values[k]))
}

/// The cell at `column` of `record` is the first one that `parse` failed on, with `message`.
pub open spec fn first_cell_failure<T, F: Fn(&str) -> Result<T, String>>(
    parse: F,
    record: Seq<Seq<char>>,
    column: int,
    message: String,
) -> bool {
    &&& 0 <= column < record.len()
    &&& forall|k: int| 0 <= k < column ==> #[trigger] cell_parses(parse, record[k])
    &&& cell_parses_to(parse, record[column], Err::<T, String>(message))
}

pub proof fn lemma_converts_implies_parses<T, F: Fn(&str) -> Result<T, String>>(parse: F, record: Seq<Seq<char>>, values: Seq<T>)
    requires
        row_converts_to(parse, record, values),
    ensures
        row_parses(parse, record),
{
    assert forall|k: int| 0 <= k < record.len() implies #[trigger] cell_parses(parse, record[k]) by {
        assert(cell_parses_to(parse, record[k], Ok::<T, String>(values[k])));
        let s = choose|s: &str| s@ == record[k] && #[trigger] call_ensures(parse, (s,), Ok::<T, String>(values[k]));
        assert(call_ensures(parse, (s,), Ok::<T, String>(values[k])));
    }
}

/// Converts `cells[start..end]` with `parse`, stopping at the first failure.
fn parse_cells<T, F: Fn(&str) -> Result<T, String>>(
    cells: &Vec<String>,
    start: usize,
    end: usize,
    row: usize,
    parse: &F,
) -> (r: Result<Vec<T>, CsvError>)
    requires
        start <= end <= cells.len(),
        forall|s: &str| call_requires(*parse, (s,)),
    ensures
        match r {
            Ok(values) => row_converts_to(*parse, cells@.map_values(|c: String| c@).subrange(start as int, end as int), values@),
            Err(e) => match e {
                CsvError::Cell { row: rr, column, message } => {
                    &&& rr == row
                    &&& start <= column
                    &&& first_cell_failure(*parse, cells@.map_values(|c: String| c@).subrange(start as int, end as int), column - start, message)
                },
                _ => false,
            },
        },
{
    let ghost view = cells@.map_values(|c: String| c@).subrange(start as int, end as int);
    let mut values: Vec<T> = Vec::new();
    let mut i: usize = start;
    while i < end
        invariant
            start <= i <= end <= cells.len(),
            view == cells@.map_values(|c: String| c@).subrange(start as int, end as int),
            forall|s: &str| call_requires(*parse, (s,)),
            values.len() == i - start,
            forall|k: int| 0 <= k < i - start ==> #[trigger] cell_parses_to(*parse, view[k], Ok::<T, String>(values@[k])),
        decreases end - i,
    {
        let cell: &str = cells[i].as_str();
        let out = parse(cell);
        assert(cell@ == view[i - start]);
        assert(cell_parses_to(*parse, view[i - start], out));
        match out {
            Ok(v) => {
                values.push(v);
            },
            Err(message) => {
                proof {
                    lemma_converts_implies_parses(*parse, view.take(i - start), values@);
                    assert forall|k: int| 0 <= k < i - start implies #[trigger] cell_parses(*parse, view[k]) by {
                        assert(view.take(i - start)[k] == view[k]);
                    }
                }
                return Err(CsvError::Cell { row, column: i, message });
            },
        }
        i = i + 1;
    }
    Ok(values)
}

/// `item` is a record that `parse` converts into `values`.
pub open spec fn item_converts_to<T, F: Fn(&str) -> Result<T, String>>(
    parse: F,
    item: Result<Seq<Seq<char>>, Seq<char>>,
    values: Seq<T>,
) -> bool {
    match item {
        Ok(record) => row_converts_to(parse, record, values),
        Err(_) => false,
    }
}

/// `item` is a record whose every cell `parse` may convert.
pub open spec fn item_parses<T, F: Fn(&str) -> Result<T, String>>(parse: F, item: Result<Seq<Seq<char>>, Seq<char>>) -> bool {
    match item {
        Ok(record) => row_parses(parse, record),
        Err(_) => false,
    }
}

/// `item` is a record on whose cell `column` `parse` first failed.
pub open spec fn item_cell_failure<T, F: Fn(&str) -> Result<T, String>>(
    parse: F,
    item: Result<Seq<Seq<char>>, Seq<char>>,
    column: int,
    message: String,
) -> bool {
    match item {
        Ok(record) => first_cell_failure(parse, record, column, message),
        Err(_) => false,
    }
}

/// The outcome of reading vectors: one vector per record, the record converted cell by cell.
pub open spec fn vectors_read<T, F: Fn(&str) -> Result<T, String>>(
    parse: F,
    items: Seq<Result<Seq<Seq<char>>, Seq<char>>>,
    out: Seq<Vec<T>>,
) -> bool {
    &&& out.len() == items.len()
    &&& forall|i: int| 0 <= i < items.len() ==> #[trigger] item_converts_to(parse, items[i], out[i]@)
}

/// The error of reading vectors is the first failure in reading order: all
/// earlier records convert, and record `row` is rejected by the reader or
/// holds the first cell that fails to convert.
pub open spec fn vectors_error<T, F: Fn(&str) -> Result<T, String>>(
    parse: F,
    items: Seq<Result<Seq<Seq<char>>, Seq<char>>>,
    e: CsvError,
) -> bool {
    match e {
        CsvError::Record { row, message } => {
            &&& row < items.len()
            &&& forall|i: int| 0 <= i < row ==> #[trigger] item_parses(parse, items[i])
            &&& items[row as int] == Err::<Seq<Seq<char>>, Seq<char>>(message@)
        },
        CsvError::Cell { row, column, message } => {
            &&& row < items.len()
            &&& forall|i: int| 0 <= i < row ==> #[trigger] item_parses(parse, items[i])
            &&& item_cell_failure(parse, items[row as int], column as int, message)
        },
        _ => false,
    }
}

proof fn lemma_item_parses<T, F: Fn(&str) -> Result<T, String>>(
    parse: F,
    item: Result<Seq<Seq<char>>, Seq<char>>,
    values: Seq<T>,
)
    requires
        item_converts_to(parse, item, values),
    ensures
        item_parses(parse, item),
{
    match item {
        Ok(record) => lemma_converts_implies_parses(parse, record, values),
        Err(_) => {},
    }
}

/// The outcome of reading vectors from CSV records `items`.
pub open spec fn vectors_outcome<T, F: Fn(&str) -> Result<T, String>>(
    parse: F,
    items: Seq<Result<Seq<Seq<char>>, Seq<char>>>,
    r: Result<Vec<Vec<T>>, CsvError>,
) -> bool {
    match r {
        Ok(out) => vectors_read(parse, items, out@),
        Err(e) => vectors_error(parse, items, e),
    }
}

/// Parses CSV `bytes` into one vector per record, converting every cell with
/// `parse`.
pub fn csv_vectors_from_bytes<T, F: Fn(&str) -> Result<T, String>>(
    bytes: Vec<u8>,
    options: &CsvParserOptions,
    parse: &F,
) -> (r: Result<Vec<Vec<T>>, CsvError>)
    requires
        forall|s: &str| call_requires(*parse, (s,)),
    ensures
        vectors_outcome(*parse, csv_items(bytes@, options.delimiter, options.has_headers), r),
{
    let ghost items = csv_items(bytes@, options.delimiter, options.has_headers);
    let mut reader = open_csv(bytes, options.delimiter, options.has_headers);
    let mut out: Vec<Vec<T>> = Vec::new();
    let mut row: usize = 0;
    assert(items.skip(0) =~= items);
    loop
        invariant
            items == csv_items(bytes@, options.delimiter, options.has_headers),
            forall|s: &str| call_requires(*parse, (s,)),
            row <= items.len(),
            csv_pending(reader) == items.skip(row as int),
            out.len() == row,
            forall|i: int| 0 <= i < row ==> #[trigger] item_converts_to(*parse, items[i], out@[i]@),
        decreases items.len() - row,
    {
        let ghost pending = csv_pending(reader);
        let next = next_csv_record(&mut reader);
        assert forall|i: int| 0 <= i < row implies #[trigger] item_parses(*parse, items[i]) by {
            lemma_item_parses(*parse, items[i], out@[i]@);
        }
        match next {
            None => {
                assert(row == items.len());
                return Ok(out);
            },
            Some(Err(message)) => {
                assert(pending[0] == items[row as int]);
                return Err(CsvError::Record { row, message });
            },
            Some(Ok(fields)) => {
                assert(pending[0] == items[row as int]);
                let ghost record = fields@.map_values(|f: String| f@);
                assert(record.subrange(0, fields.len() as int) =~= record);
                match parse_cells(&fields, 0, fields.len(), row, parse) {
                    Ok(values) => {
                        out.push(values);
                        assert(pending.drop_first() =~= items.skip(row + 1));
                        row = out.len();
                    },
                    Err(e) => {
                        return Err(e);
                    },
                }
            },
        }
    }
}

/// `item` is a record of at least two cells that `parse` converts into the
/// inputs of `case` followed by its one expected value (the last cell).
pub open spec fn item_converts_to_case<T, F: Fn(&str) -> Result<T, String>>(
    parse: F,
    item: Result<Seq<Seq<char>>, Seq<char>>,
    case: TestCase<T>,
) -> bool {
    match item {
        Ok(record) => {
            &&& record.len() >= 2
            &&& case.expected@.len() == 1
            &&& row_converts_to(parse, record, case.inputs@ + case.expected@)
        },
        Err(_) => false,
    }
}

/// `item` is a record of at least two cells, each of which `parse` may convert.
pub open spec fn item_parses_as_case<T, F: Fn(&str) -> Result<T, String>>(parse: F, item: Result<Seq<Seq<char>>, Seq<char>>) -> bool {
    match item {
        Ok(record) => record.len() >= 2 && row_parses(parse, record),
        Err(_) => false,
    }
}

/// The outcome of reading test cases: one case per record.
pub open spec fn cases_read<T, F: Fn(&str) -> Result<T, String>>(
    parse: F,
    items: Seq<Result<Seq<Seq<char>>, Seq<char>>>,
    out: Seq<TestCase<T>>,
) -> bool {
    &&& out.len() == items.len()
    &&& forall|i: int| 0 <= i < items.len() ==> #[trigger] item_converts_to_case(parse, items[i], out[i])
}

/// The error of reading test cases is the first failure in reading order.
pub open spec fn cases_error<T, F: Fn(&str) -> Result<T, String>>(
    parse: F,
    items: Seq<Result<Seq<Seq<char>>, Seq<char>>>,
    e: CsvError,
) -> bool {
    match e {
        CsvError::Record { row, message } => {
            &&& row < items.len()
            &&& forall|i: int| 0 <= i < row ==> #[trigger] item_parses_as_case(parse, items[i])
            &&& items[row as int] == Err::<Seq<Seq<char>>, Seq<char>>(message@)
        },
        CsvError::TooFewColumns { row, found } => {
            &&& row < items.len()
            &&& forall|i: int| 0 <= i < row ==> #[trigger] item_parses_as_case(parse, items[i])
            &&& items[row as int] matches Ok(record) && record.len() < 2 && found == record.len()
        },
        CsvError::Cell { row, column, message } => {
            &&& row < items.len()
            &&& forall|i: int| 0 <= i < row ==> #[trigger] item_parses_as_case(parse, items[i])
            &&& items[row as int] matches Ok(record) && record.len() >= 2
            &&& item_cell_failure(parse, items[row as int], column as int, message)
        },
        _ => false,
    }
}

proof fn lemma_case_parses<T, F: Fn(&str) -> Result<T, String>>(
    parse: F,
    item: Result<Seq<Seq<char>>, Seq<char>>,
    case: TestCase<T>,
)
    requires
        item_converts_to_case(parse, item, case),
    ensures
        item_parses_as_case(parse, item),
{
    match item {
        Ok(record) => lemma_converts_implies_parses(parse, record, case.inputs@ + case.expected@),
        Err(_) => {},
    }
}

/// Parses CSV `bytes` of the form `(input1, input2, ..., expected)` into test
/// cases: the last column of every record is its expected value.
pub fn csv_cases_from_bytes<T, F: Fn(&str) -> Result<T, String>>(
    bytes: Vec<u8>,
    options: &CsvParserOptions,
    parse: &F,
) -> (r: Result<Vec<TestCase<T>>, CsvError>)
    requires
        forall|s: &str| call_requires(*parse, (s,)),
    ensures
        match r {
            Ok(out) => cases_read(*parse, csv_items(bytes@, options.delimiter, options.has_headers), out@),
            Err(e) => cases_error(*parse, csv_items(bytes@, options.delimiter, options.has_headers), e),
        },
{
    let ghost items = csv_items(bytes@, options.delimiter, options.has_headers);
    let mut reader = open_csv(bytes, options.delimiter, options.has_headers);
    let mut out: Vec<TestCase<T>> = Vec::new();
    let mut row: usize = 0;
    assert(items.skip(0) =~= items);
    loop
        invariant
            items == csv_items(bytes@, options.delimiter, options.has_headers),
            forall|s: &str| call_requires(*parse, (s,)),
            row <= items.len(),
            csv_pending(reader) == items.skip(row as int),
            out.len() == row,
            forall|i: int| 0 <= i < row ==> #[trigger] item_converts_to_case(*parse, items[i], out@[i]),
        decreases items.len() - row,
    {
        let ghost pending = csv_pending(reader);
        let next = next_csv_record(&mut reader);
        assert forall|i: int| 0 <= i < row implies #[trigger] item_parses_as_case(*parse, items[i]) by {
            lemma_case_parses(*parse, items[i], out@[i]);
        }
        match next {
            None => {
                assert(row == items.len());
                return Ok(out);
            },
            Some(Err(message)) => {
                assert(pending[0] == items[row as int]);
                return Err(CsvError::Record { row, message });
            },
            Some(Ok(fields)) => {
                assert(pending[0] == items[row as int]);
                let ghost record = fields@.map_values(|f: String| f@);
                let n: usize = fields.len();
                if n < 2 {
                    return Err(CsvError::TooFewColumns { row, found: n });
                }
                let expected_col: usize = n - 1;
                match parse_cells(&fields, 0, expected_col, row, parse) {
                    Ok(inputs) => {
                        match parse_cells(&fields, expected_col, n, row, parse) {
                            Ok(expected) => {
                                let ghost both = inputs@ + expected@;
                                assert forall|k: int| 0 <= k < record.len() implies #[trigger] cell_parses_to(
                                    *parse,
                                    record[k],
                                    Ok::<T, String>(both[k]),
                                ) by {
                                    if k < expected_col {
                                        assert(record.subrange(0, expected_col as int)[k] == record[k]);
                                    } else {
                                        assert(record.subrange(expected_col as int, n as int)[k - expected_col] == record[k]);
                                    }
                                }
                                out.push(TestCase { inputs, expected });
                                assert(pending.drop_first() =~= items.skip(row + 1));
                                row = out.len();
                            },
                            Err(e) => {
                                proof {
                                    let left = record.subrange(0, expected_col as int);
                                    lemma_converts_implies_parses(*parse, left, inputs@);
                                    assert forall|k: int| 0 <= k < expected_col implies #[trigger] cell_parses(*parse, record[k]) by {
                                        assert(left[k] == record[k]);
                                    }
                                    if e is Cell {
                                        assert(record.subrange(expected_col as int, n as int)[0] == record[expected_col as int]);
                                        assert(e->Cell_column == expected_col);
                                        assert(first_cell_failure(*parse, record, e->Cell_column as int, e->Cell_message));
                                    }
                                }
                                return Err(e);
                            },
                        }
                    },
                    Err(e) => {
                        proof {
                            if e is Cell {
                                let column = e->Cell_column;
                                let left = record.subrange(0, expected_col as int);
                                assert forall|k: int| 0 <= k < column implies #[trigger] cell_parses(*parse, record[k]) by {
                                    assert(left[k] == record[k]);
                                }
                                assert(left[column as int] == record[column as int]);
                            }
                        }
                        return Err(e);
                    },
                }
            },
        }
    }
}

/// The outcome of pairing two CSV sources: case `i` holds the converted
/// record `i` of the inputs as its inputs and the converted record `i` of the
/// expected data as its expected values.
pub open spec fn split_cases_read<T, F: Fn(&str) -> Result<T, String>>(
    parse: F,
    inputs_items: Seq<Result<Seq<Seq<char>>, Seq<char>>>,
    expected_items: Seq<Result<Seq<Seq<char>>, Seq<char>>>,
    out: Seq<TestCase<T>>,
) -> bool {
    &&& out.len() == inputs_items.len()
    &&& out.len() == expected_items.len()
    &&& forall|i: int| 0 <= i < out.len() ==> {
        &&& #[trigger] item_converts_to(parse, inputs_items[i], out[i].inputs@)
        &&& item_converts_to(parse, expected_items[i], out[i].expected@)
    }
}

/// The error of pairing two CSV sources: the first failure in the inputs,
/// else the first failure in the expected data, else a row count mismatch.
pub open spec fn split_cases_error<T, F: Fn(&str) -> Result<T, String>>(
    parse: F,
    inputs_items: Seq<Result<Seq<Seq<char>>, Seq<char>>>,
    expected_items: Seq<Result<Seq<Seq<char>>, Seq<char>>>,
    e: CsvError,
) -> bool {
    let inputs_parse = forall|i: int| 0 <= i < inputs_items.len() ==> #[trigger] item_parses(parse, inputs_items[i]);
    let expected_parse = forall|i: int| 0 <= i < expected_items.len() ==> #[trigger] item_parses(parse, expected_items[i]);
    match e {
        CsvError::RowCountMismatch { inputs, expected } => {
            &&& inputs_parse
            &&& expected_parse
            &&& inputs == inputs_items.len()
            &&& expected == expected_items.len()
            &&& inputs != expected
        },
        _ => {
            ||| vectors_error(parse, inputs_items, e)
            ||| inputs_parse && vectors_error(parse, expected_items, e)
        },
    }
}

/// The outcome of pairing test cases from two CSV sources.
pub open spec fn split_outcome<T, F: Fn(&str) -> Result<T, String>>(
    parse: F,
    inputs_items: Seq<Result<Seq<Seq<char>>, Seq<char>>>,
    expected_items: Seq<Result<Seq<Seq<char>>, Seq<char>>>,
    r: Result<Vec<TestCase<T>>, CsvError>,
) -> bool {
    match r {
        Ok(out) => split_cases_read(parse, inputs_items, expected_items, out@),
        Err(e) => split_cases_error(parse, inputs_items, expected_items, e),
    }
}

/// Pairs test cases from two CSV sources: one for inputs, one for expected
/// values. Both must have the same number of rows; row `i` of the inputs
/// corresponds to row `i` of the expected values.
pub fn csv_split_cases_from_bytes<T, F: Fn(&str) -> Result<T, String>>(
    inputs_bytes: Vec<u8>,
    expected_bytes: Vec<u8>,
    options: &CsvParserOptions,
    parse: &F,
) -> (r: Result<Vec<TestCase<T>>, CsvError>)
    requires
        forall|s: &str| call_requires(*parse, (s,)),
    ensures
        split_outcome(
            *parse,
            csv_items(inputs_bytes@, options.delimiter, options.has_headers),
            csv_items(expected_bytes@, options.delimiter, options.has_headers),
            r,
        ),
{
    let ghost inputs_items = csv_items(inputs_bytes@, options.delimiter, options.has_headers);
    let ghost expected_items = csv_items(expected_bytes@, options.delimiter, options.has_headers);
    let inputs_vectors = match csv_vectors_from_bytes(inputs_bytes, options, parse) {
        Ok(v) => v,
        Err(e) => {
            return Err(e);
        },
    };
    assert forall|i: int| 0 <= i < inputs_items.len() implies #[trigger] item_parses(*parse, inputs_items[i]) by {
        lemma_item_parses(*parse, inputs_items[i], inputs_vectors@[i]@);
    }
    let expected_vectors = match csv_vectors_from_bytes(expected_bytes, options, parse) {
        Ok(v) => v,
        Err(e) => {
            return Err(e);
        },
    };
    assert forall|i: int| 0 <= i < expected_items.len() implies #[trigger] item_parses(*parse, expected_items[i]) by {
        lemma_item_parses(*parse, expected_items[i], expected_vectors@[i]@);
    }
    if inputs_vectors.len() != expected_vectors.len() {
        return Err(CsvError::RowCountMismatch { inputs: inputs_vectors.len(), expected: expected_vectors.len() });
    }
    let n: usize = inputs_vectors.len();
    let mut inputs_vectors = inputs_vectors;
    let mut expected_vectors = expected_vectors;
    let ghost all_inputs = inputs_vectors@;
    let ghost all_expected = expected_vectors@;
    let mut reversed: Vec<TestCase<T>> = Vec::new();
    while inputs_vectors.len() > 0
        invariant
            n == all_inputs.len(),
            n == all_expected.len(),
            inputs_vectors.len() == expected_vectors.len(),
            inputs_vectors@ == all_inputs.take(inputs_vectors.len() as int),
            expected_vectors@ == all_expected.take(expected_vectors.len() as int),
            reversed.len() + inputs_vectors.len() == n,
            forall|k: int| 0 <= k < reversed.len() ==> {
                &&& (#[trigger] reversed@[k]).inputs == all_inputs[n - 1 - k]
                &&& reversed@[k].expected == all_expected[n - 1 - k]
            },
        decreases inputs_vectors.len(),
    {
        let inputs = inputs_vectors.pop().unwrap();
        let expected = expected_vectors.pop().unwrap();
        reversed.push(TestCase { inputs, expected });
    }
    let mut out: Vec<TestCase<T>> = Vec::new();
    while reversed.len() > 0
        invariant
            out.len() + reversed.len() == n,
            forall|k: int| 0 <= k < reversed.len() ==> {
                &&& (#[trigger] reversed@[k]).inputs == all_inputs[n - 1 - k]
                &&& reversed@[k].expected == all_expected[n - 1 - k]
            },
            forall|k: int| 0 <= k < out.len() ==> {
                &&& (#[trigger] out@[k]).inputs == all_inputs[k]
                &&& out@[k].expected == all_expected[k]
            },
        decreases reversed.len(),
    {
        let case = reversed.pop().unwrap();
        out.push(case);
    }
    assert forall|i: int| 0 <= i < out.len() implies {
        &&& #[trigger] item_converts_to(*parse, inputs_items[i], out@[i].inputs@)
        &&& item_converts_to(*parse, expected_items[i], out@[i].expected@)
    } by {
        assert(out@[i].inputs == all_inputs[i]);
        assert(out@[i].expected == all_expected[i]);
    }
    Ok(out)
}

/// The human-readable text of a [`CsvError`]; rows and columns are shown 1-based.
pub open spec fn csv_error_text(e: CsvError) -> Seq<char> {
    match e {
        CsvError::Record { row, message } => "cannot parse CSV row "@ + decimal(row as nat + 1) + ": "@ + message@,
        CsvError::TooFewColumns { row, found } => "row "@ + decimal(row as nat + 1) + " has "@ + decimal(found as nat)
            + " column(s); expected at least 2"@,
        CsvError::Cell { row, column, message } => "cannot parse row "@ + decimal(row as nat + 1) + ", column "@ + decimal(
            column as nat + 1,
        ) + " as f64: "@ + message@,
        CsvError::RowCountMismatch { inputs, expected } => "row count mismatch: inputs has "@ + decimal(inputs as nat)
            + " rows, expected has "@ + decimal(expected as nat) + " rows"@,
    }
}

impl CsvError {
    /// The error's message: what failed, with rows and columns counted from 1.
    pub fn message(&self) -> (r: String)
        ensures
            r@ == csv_error_text(*self),
    {
        let mut s = String::new();
        match self {
            CsvError::Record { row, message } => {
                push_str(&mut s, "cannot parse CSV row ");
                push_decimal(&mut s, *row as u128 + 1);
                push_str(&mut s, ": ");
                push_str(&mut s, message.as_str());
            },
            CsvError::TooFewColumns { row, found } => {
                push_str(&mut s, "row ");
                push_decimal(&mut s, *row as u128 + 1);
                push_str(&mut s, " has ");
                push_decimal(&mut s, *found as u128);
                push_str(&mut s, " column(s); expected at least 2");
            },
            CsvError::Cell { row, column, message } => {
                push_str(&mut s, "cannot parse row ");
                push_decimal(&mut s, *row as u128 + 1);
                push_str(&mut s, ", column ");
                push_decimal(&mut s, *column as u128 + 1);
                push_str(&mut s, " as f64: ");
                push_str(&mut s, message.as_str());
            },
            CsvError::RowCountMismatch { inputs, expected } => {
                push_str(&mut s, "row count mismatch: inputs has ");
                push_decimal(&mut s, *inputs as u128);
                push_str(&mut s, " rows, expected has ");
                push_decimal(&mut s, *expected as u128);
                push_str(&mut s, " rows");
            },
        }
        assert(s@ =~= csv_error_text(*self));
        s
    }
}

/// Reading test cases from CSV records: the last column of each record is its
/// one expected value, and the other columns, in order, are its inputs.
pub proof fn lemma_last_column_is_expected<T, F: Fn(&str) -> Result<T, String>>(
    parse: F,
    items: Seq<Result<Seq<Seq<char>>, Seq<char>>>,
    cases: Seq<TestCase<T>>,
    i: int,
)
    requires
        cases_read(parse, items, cases),
        0 <= i < cases.len(),
    ensures
        items[i] matches Ok(record) && {
            &&& record.len() >= 2
            &&& cases[i].inputs@.len() == record.len() - 1
            &&& cases[i].expected@.len() == 1
            &&& cell_parses_to(parse, record.last(), Ok::<T, String>(cases[i].expected@[0]))
            &&& forall|j: int| 0 <= j < record.len() - 1 ==> #[trigger] cell_parses_to(
                parse,
                record[j],
                Ok::<T, String>(cases[i].inputs@[j]),
            )
        },
{
    assert(item_converts_to_case(parse, items[i], cases[i]));
    let record = items[i]->Ok_0;
    let all = cases[i].inputs@ + cases[i].expected@;
    assert(all[record.len() - 1] == cases[i].expected@[0]);
    assert(cell_parses_to(parse, record[record.len() - 1], Ok::<T, String>(all[record.len() - 1])));
    assert forall|j: int| 0 <= j < record.len() - 1 implies #[trigger] cell_parses_to(
        parse,
        record[j],
        Ok::<T, String>(cases[i].inputs@[j]),
    ) by {
        assert(all[j] == cases[i].inputs@[j]);
        assert(cell_parses_to(parse, record[j], Ok::<T, String>(all[j])));
    }
}

/// `parse` is a function of the characters it is given: strings with the
/// same characters always give the same result.
pub open spec fn deterministic<T, F: Fn(&str) -> Result<T, String>>(parse: F) -> bool {
    forall|s1: &str, s2: &str, r1: Result<T, String>, r2: Result<T, String>|
        s1@ == s2@ && #[trigger] call_ensures(parse, (s1,), r1) && #[trigger] call_ensures(parse, (s2,), r2) ==> r1
            == r2
}

/// Two errors say the same: same kind, same positions and counts, same message text.
pub open spec fn same_error(a: CsvError, b: CsvError) -> bool {
    match (a, b) {
        (CsvError::Record { row: r1, message: m1 }, CsvError::Record { row: r2, message: m2 }) => r1 == r2 && m1@
            == m2@,
        (CsvError::TooFewColumns { row: r1, found: f1 }, CsvError::TooFewColumns { row: r2, found: f2 }) => r1 == r2
            && f1 == f2,
        (CsvError::Cell { row: r1, column: c1, message: m1 }, CsvError::Cell { row: r2, column: c2, message: m2 }) => r1
            == r2 && c1 == c2 && m1@ == m2@,
        (
            CsvError::RowCountMismatch { inputs: i1, expected: e1 },
            CsvError::RowCountMismatch { inputs: i2, expected: e2 },
        ) => i1 == i2 && e1 == e2,
        _ => false,
    }
}

proof fn lemma_cell_outcome_unique<T, F: Fn(&str) -> Result<T, String>>(
    parse: F,
    cell: Seq<char>,
    o1: Result<T, String>,
    o2: Result<T, String>,
)
    requires
        deterministic(parse),
        cell_parses_to(parse, cell, o1),
        cell_parses_to(parse, cell, o2),
    ensures
        o1 == o2,
{
    let s1 = choose|s: &str| s@ == cell && #[trigger] call_ensures(parse, (s,), o1);
    let s2 = choose|s: &str| s@ == cell && #[trigger] call_ensures(parse, (s,), o2);
    assert(call_ensures(parse, (s1,), o1) && call_ensures(parse, (s2,), o2));
}

proof fn lemma_cell_not_both<T, F: Fn(&str) -> Result<T, String>>(parse: F, cell: Seq<char>, m: String)
    requires
        deterministic(parse),
        cell_parses(parse, cell),
    ensures
        !cell_parses_to(parse, cell, Err::<T, String>(m)),
{
    if cell_parses_to(parse, cell, Err::<T, String>(m)) {
    let (s1, v) = choose|s: &str, v: T| s@ == cell && #[trigger] call_ensures(parse, (s,), Ok::<T, String>(v));
    assert(cell_parses_to(parse, cell, Ok::<T, String>(v))) by {
        assert(call_ensures(parse, (s1,), Ok::<T, String>(v)));
    }
        lemma_cell_outcome_unique(parse, cell, Ok::<T, String>(v), Err::<T, String>(m));
    }
}

proof fn lemma_row_values_unique<T, F: Fn(&str) -> Result<T, String>>(
    parse: F,
    record: Seq<Seq<char>>,
    v1: Seq<T>,
    v2: Seq<T>,
)
    requires
        deterministic(parse),
        row_converts_to(parse, record, v1),
        row_converts_to(parse, record, v2),
    ensures
        v1 == v2,
{
    assert forall|k: int| 0 <= k < v1.len() implies v1[k] == v2[k] by {
        lemma_cell_outcome_unique(parse, record[k], Ok::<T, String>(v1[k]), Ok::<T, String>(v2[k]));
    }
    assert(v1 =~= v2);
}

/// A vectors error cannot stand beside records that all parse.
proof fn lemma_error_excludes_parsing<T, F: Fn(&str) -> Result<T, String>>(
    parse: F,
    items: Seq<Result<Seq<Seq<char>>, Seq<char>>>,
    e: CsvError,
)
    requires
        deterministic(parse),
        forall|i: int| 0 <= i < items.len() ==> #[trigger] item_parses(parse, items[i]),
    ensures
        !vectors_error(parse, items, e),
{
    if vectors_error(parse, items, e) {
    match e {
        CsvError::Record { row, message } => {
            assert(item_parses(parse, items[row as int]));
        },
        CsvError::Cell { row, column, message } => {
            assert(item_parses(parse, items[row as int]));
            let record = items[row as int]->Ok_0;
            assert(cell_parses(parse, record[column as int]));
            lemma_cell_not_both(parse, record[column as int], message);
        },
        _ => {},
    }
    }
}

/// Two vectors errors for the same records say the same.
proof fn lemma_vectors_error_unique<T, F: Fn(&str) -> Result<T, String>>(
    parse: F,
    items: Seq<Result<Seq<Seq<char>>, Seq<char>>>,
    e1: CsvError,
    e2: CsvError,
)
    requires
        deterministic(parse),
        vectors_error(parse, items, e1),
        vectors_error(parse, items, e2),
    ensures
        same_error(e1, e2),
{
    let row1: int = match e1 {
        CsvError::Record { row, .. } => row as int,
        CsvError::Cell { row, .. } => row as int,
        _ => 0,
    };
    let row2: int = match e2 {
        CsvError::Record { row, .. } => row as int,
        CsvError::Cell { row, .. } => row as int,
        _ => 0,
    };
    if row1 < row2 {
        assert forall|i: int| 0 <= i < row1 + 1 implies #[trigger] item_parses(parse, items.take(row1 + 1)[i]) by {
            assert(items.take(row1 + 1)[i] == items[i]);
        }
        lemma_error_excludes_parsing(parse, items.take(row1 + 1), e1);
        assert(items.take(row1 + 1)[row1] == items[row1]);
    } else if row2 < row1 {
        assert forall|i: int| 0 <= i < row2 + 1 implies #[trigger] item_parses(parse, items.take(row2 + 1)[i]) by {
            assert(items.take(row2 + 1)[i] == items[i]);
        }
        lemma_error_excludes_parsing(parse, items.take(row2 + 1), e2);
        assert(items.take(row2 + 1)[row2] == items[row2]);
    } else {
        match (e1, e2) {
            (CsvError::Cell { row, column: c1, message: m1 }, CsvError::Cell { column: c2, message: m2, .. }) => {
                let record = items[row as int]->Ok_0;
                if c1 < c2 {
                    assert(cell_parses(parse, record[c1 as int]));
                    lemma_cell_not_both(parse, record[c1 as int], m1);
                } else if c2 < c1 {
                    assert(cell_parses(parse, record[c2 as int]));
                    lemma_cell_not_both(parse, record[c2 as int], m2);
                } else {
                    lemma_cell_outcome_unique(parse, record[c1 as int], Err::<T, String>(m1), Err::<T, String>(m2));
                }
            },
            _ => {},
        }
    }
}

/// Reading vectors succeeds only when every record parses.
proof fn lemma_read_parses<T, F: Fn(&str) -> Result<T, String>>(
    parse: F,
    items: Seq<Result<Seq<Seq<char>>, Seq<char>>>,
    out: Seq<Vec<T>>,
)
    requires
        vectors_read(parse, items, out),
    ensures
        forall|i: int| 0 <= i < items.len() ==> #[trigger] item_parses(parse, items[i]),
{
    assert forall|i: int| 0 <= i < items.len() implies #[trigger] item_parses(parse, items[i]) by {
        lemma_item_parses(parse, items[i], out[i]@);
    }
}

/// Pairing two CSV sources agrees with reading each as vectors, for a
/// deterministic cell parser: a failure in the inputs is the pairing's
/// error; else a failure in the expected data is; else the pairing succeeds
/// exactly when both have the same number of rows, case `i` then holding
/// vector `i` of the inputs and vector `i` of the expected data, and fails
/// with the two row counts otherwise.
pub proof fn lemma_split_pairs_vectors<T, F: Fn(&str) -> Result<T, String>>(
    parse: F,
    inputs_items: Seq<Result<Seq<Seq<char>>, Seq<char>>>,
    expected_items: Seq<Result<Seq<Seq<char>>, Seq<char>>>,
    inputs_vectors: Result<Vec<Vec<T>>, CsvError>,
    expected_vectors: Result<Vec<Vec<T>>, CsvError>,
    paired: Result<Vec<TestCase<T>>, CsvError>,
)
    requires
        deterministic(parse),
        vectors_outcome(parse, inputs_items, inputs_vectors),
        vectors_outcome(parse, expected_items, expected_vectors),
        split_outcome(parse, inputs_items, expected_items, paired),
    ensures
        inputs_vectors is Err ==> (paired is Err && same_error(paired->Err_0, inputs_vectors->Err_0)),
        inputs_vectors is Ok && expected_vectors is Err ==> (paired is Err && same_error(
            paired->Err_0,
            expected_vectors->Err_0,
        )),
        inputs_vectors is Ok && expected_vectors is Ok ==> {
            let iv = inputs_vectors->Ok_0;
            let ev = expected_vectors->Ok_0;
            &&& (paired is Ok <==> iv.len() == ev.len())
            &&& paired is Ok ==> {
                let cases = paired->Ok_0;
                &&& cases.len() == iv.len()
                &&& forall|i: int| 0 <= i < cases.len() ==> {
                    &&& (#[trigger] cases@[i]).inputs@ == iv@[i]@
                    &&& cases@[i].expected@ == ev@[i]@
                }
            }
            &&& iv.len() != ev.len() ==> paired == Err::<Vec<TestCase<T>>, CsvError>(
                CsvError::RowCountMismatch { inputs: iv.len(), expected: ev.len() },
            )
        },
{
    match inputs_vectors {
        Err(ei) => {
            match paired {
                Ok(cases) => {
                    assert forall|i: int| 0 <= i < inputs_items.len() implies #[trigger] item_parses(parse, inputs_items[i]) by {
                        assert(item_converts_to(parse, inputs_items[i], cases@[i].inputs@));
                        lemma_item_parses(parse, inputs_items[i], cases@[i].inputs@);
                    }
                    lemma_error_excludes_parsing(parse, inputs_items, ei);
                },
                Err(e) => {
                    if vectors_error(parse, inputs_items, e) {
                        lemma_vectors_error_unique(parse, inputs_items, e, ei);
                    } else {
                        lemma_error_excludes_parsing(parse, inputs_items, ei);
                    }
                },
            }
        },
        Ok(iv) => {
            lemma_read_parses(parse, inputs_items, iv@);
            match expected_vectors {
                Err(ee) => {
                    match paired {
                        Ok(cases) => {
                            assert forall|i: int| 0 <= i < expected_items.len() implies #[trigger] item_parses(
                                parse,
                                expected_items[i],
                            ) by {
                                assert(item_converts_to(parse, inputs_items[i], cases@[i].inputs@));
                                assert(item_converts_to(parse, expected_items[i], cases@[i].expected@));
                                lemma_item_parses(parse, expected_items[i], cases@[i].expected@);
                            }
                            lemma_error_excludes_parsing(parse, expected_items, ee);
                        },
                        Err(e) => {
                            if e is RowCountMismatch {
                                lemma_error_excludes_parsing(parse, expected_items, ee);
                            } else if vectors_error(parse, inputs_items, e) {
                                lemma_error_excludes_parsing(parse, inputs_items, e);
                            } else {
                                lemma_vectors_error_unique(parse, expected_items, e, ee);
                            }
                        },
                    }
                },
                Ok(ev) => {
                    lemma_read_parses(parse, expected_items, ev@);
                    match paired {
                        Ok(cases) => {
                            assert forall|i: int| 0 <= i < cases.len() implies {
                                &&& (#[trigger] cases@[i]).inputs@ == iv@[i]@
                                &&& cases@[i].expected@ == ev@[i]@
                            } by {
                                assert(item_converts_to(parse, inputs_items[i], cases@[i].inputs@));
                                assert(item_converts_to(parse, inputs_items[i], iv@[i]@));
                                assert(item_converts_to(parse, expected_items[i], cases@[i].expected@));
                                assert(item_converts_to(parse, expected_items[i], ev@[i]@));
                                let rin = inputs_items[i]->Ok_0;
                                let rex = expected_items[i]->Ok_0;
                                lemma_row_values_unique(parse, rin, cases@[i].inputs@, iv@[i]@);
                                lemma_row_values_unique(parse, rex, cases@[i].expected@, ev@[i]@);
                            }
                        },
                        Err(e) => {
                            if e is RowCountMismatch {
                            } else if vectors_error(parse, inputs_items, e) {
                                lemma_error_excludes_parsing(parse, inputs_items, e);
                            } else {
                                lemma_error_excludes_parsing(parse, expected_items, e);
                            }
                        },
                    }
                },
            }
        },
    }
}

} // verus!
