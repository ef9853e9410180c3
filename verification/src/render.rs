//! Table layout and rendering for reports.
//!
//! The text of a table is produced by the `tabled` crate; this module lays
//! out the records it is given: a header row, then one row per report row.
use vstd::prelude::*;
use crate::rows::TestCase;

verus! {

/// Presets for table styles.
#[derive(Debug, Clone, Copy, PartialEq, Eq, Structural)]
pub enum TableStyle {
    /// Standard GitHub-flavored markdown table.
    Markdown,
    /// Modern look with bold headers.
    Modern,
    /// Sharp corners with double lines.
    Sharp,
    /// Rounded corners.
    Rounded,
    /// No borders.
    Blank,
}

#[verifier::external_type_specification]
#[verifier::external_body]
pub struct ExTableBuilder(tabled::builder::Builder);

/// The records pushed so far into a `tabled` builder.
pub uninterp spec fn table_records(builder: tabled::builder::Builder) -> Seq<Seq<Seq<char>>>;

/// The number of columns a `tabled` builder pads pushed records to.
pub uninterp spec fn table_width(builder: tabled::builder::Builder) -> nat;

/// The text that `tabled` renders for a table of `records` in `style`.
pub uninterp spec fn rendered_table(records: Seq<Seq<Seq<char>>>, style: TableStyle) -> Seq<char>;

/// The view of a row of cells.
pub open spec fn cells_view(cells: Seq<String>) -> Seq<Seq<char>> {
    cells.map_values(|c: String| c@)
}

/// Creates an empty `tabled::builder::Builder` (`Builder::default`); the
/// contract claims that it holds no records and no columns.
#[verifier::external_body]
fn new_table_builder() -> (b: tabled::builder::Builder)
    ensures
        table_records(b) == Seq::<Seq<Seq<char>>>::empty(),
        table_width(b) == 0,
{
    tabled::builder::Builder::default()
}

/// Appends a record with `tabled::builder::Builder::push_record`. The
/// builder pads a record shorter than its column count, and pads the stored
/// records when a longer one arrives; `requires` rules both out (a longer
/// record only into an empty builder), so the contract can claim that the
/// record is stored as it is and that the column count becomes its length.
#[verifier::external_body]
fn push_table_record(builder: &mut tabled::builder::Builder, record: Vec<String>)
    requires
        record.len() == table_width(*old(builder)) || (table_records(*old(builder)).len() == 0 && record.len()
            >= table_width(*old(builder))),
    ensures
        table_records(*final(builder)) == table_records(*old(builder)).push(cells_view(record@)),
        table_width(*final(builder)) == record.len(),
{
    builder.push_record(record);
}

/// Builds the table (`Builder::build`), applies the `tabled::settings::Style`
/// preset for `style` with `Table::with`, and renders it with `to_string`.
/// The contract names the text: `rendered_table` of the records and style.
#[verifier::external_body]
fn finish_table(builder: tabled::builder::Builder, style: TableStyle) -> (r: String)
    ensures
        r@ == rendered_table(table_records(builder), style),
{
    let mut table = builder.build();
    match style {
        TableStyle::Markdown => table.with(tabled::settings::Style::markdown()).to_string(),
        TableStyle::Modern => table.with(tabled::settings::Style::modern()).to_string(),
        TableStyle::Sharp => table.with(tabled::settings::Style::sharp()).to_string(),
        TableStyle::Rounded => table.with(tabled::settings::Style::rounded()).to_string(),
        TableStyle::Blank => table.with(tabled::settings::Style::blank()).to_string(),
    }
}

/// The records of a report table: a header of `"Function"` and the column
/// names, then for each row its name followed by its cells.
pub open spec fn table_layout(column_names: Seq<Seq<char>>, rows: Seq<(String, Vec<String>)>) -> Seq<Seq<Seq<char>>> {
    seq![seq!["Function"@] + column_names] + rows.map_values(|r: (String, Vec<String>)| seq![r.0@] + cells_view(r.1@))
}

/// Renders a report table with a header row (`"Function"` and the column
/// names) and one row per entry of `rows` (its name, then its cells).
pub fn render_table(column_names: &Vec<String>, rows: &Vec<(String, Vec<String>)>, style: TableStyle) -> (r: String)
    requires
        forall|i: int| 0 <= i < rows.len() ==> (#[trigger] rows@[i]).1.len() == column_names.len(),
    ensures
        r@ == rendered_table(table_layout(cells_view(column_names@), rows@), style),
{
    let ghost layout = table_layout(cells_view(column_names@), rows@);
    let width: usize = column_names.len();
    let mut builder = new_table_builder();
    let mut header: Vec<String> = Vec::new();
    header.push("Function".to_owned());
    let mut k: usize = 0;
    while k < column_names.len()
        invariant
            k <= column_names.len(),
            cells_view(header@) == seq!["Function"@] + cells_view(column_names@).take(k as int),
        decreases column_names.len() - k,
    {
        let ghost before = header@;
        header.push(column_names[k].clone());
        proof {
            assert(cells_view(header@) =~= cells_view(before).push(column_names@[k as int]@));
            assert(cells_view(column_names@).take(k + 1) =~= cells_view(column_names@).take(k as int).push(column_names@[k as int]@));
            assert(cells_view(header@) =~= seq!["Function"@] + cells_view(column_names@).take(k + 1));
        }
        k = k + 1;
    }
    assert(cells_view(column_names@).take(width as int) =~= cells_view(column_names@));
    push_table_record(&mut builder, header);
    assert(table_records(builder) =~= layout.take(1));
    assert(table_width(builder) == width + 1);
    let mut i: usize = 0;
    while i < rows.len()
        invariant
            i <= rows.len(),
            width == column_names.len(),
            layout == table_layout(cells_view(column_names@), rows@),
            forall|j: int| 0 <= j < rows.len() ==> (#[trigger] rows@[j]).1.len() == column_names.len(),
            table_records(builder) == layout.take(i + 1),
            table_width(builder) == width + 1,
        decreases rows.len() - i,
    {
        let mut record: Vec<String> = Vec::new();
        record.push(rows[i].0.clone());
        let cells = &rows[i].1;
        let mut k: usize = 0;
        while k < cells.len()
            invariant
                k <= cells.len(),
                i < rows.len(),
                cells == rows@[i as int].1,
                cells_view(record@) == seq![rows@[i as int].0@] + cells_view(cells@).take(k as int),
            decreases cells.len() - k,
        {
            let ghost before = record@;
            record.push(cells[k].clone());
            proof {
                assert(cells_view(record@) =~= cells_view(before).push(cells@[k as int]@));
                assert(cells_view(cells@).take(k + 1) =~= cells_view(cells@).take(k as int).push(cells@[k as int]@));
                assert(cells_view(record@) =~= seq![rows@[i as int].0@] + cells_view(cells@).take(k + 1));
            }
            k = k + 1;
        }
        assert(cells_view(cells@).take(cells.len() as int) =~= cells_view(cells@));
        assert(layout[i + 1] == cells_view(record@));
        push_table_record(&mut builder, record);
        assert(table_records(builder) =~= layout.take(i + 2));
        i = i + 1;
    }
    assert(layout.take(rows.len() + 1) =~= layout);
    finish_table(builder, style)
}

/// How a report row is evaluated on its test cases.
#[derive(Debug, Clone, Copy, PartialEq, Eq, Structural)]
pub enum RowEvaluation {
    /// Its batch function runs once on the inputs of all cases.
    Batch,
    /// Its function runs once per case.
    PerCase,
    /// It has no function: its accuracy and custom cells read `N/A`.
    NotEvaluated,
}

/// A batch function takes precedence over a per-case function.
pub fn row_evaluation(has_batch_function: bool, has_function: bool) -> (r: RowEvaluation)
    ensures
        r == (if has_batch_function {
            RowEvaluation::Batch
        } else if has_function {
            RowEvaluation::PerCase
        } else {
            RowEvaluation::NotEvaluated
        }),
{
    if has_batch_function {
        RowEvaluation::Batch
    } else if has_function {
        RowEvaluation::PerCase
    } else {
        RowEvaluation::NotEvaluated
    }
}

/// The test cases a row is evaluated on: its own when it has some, else the report's.
pub fn select_test_cases<'a, T>(row_cases: &'a Option<Vec<TestCase<T>>>, report_cases: &'a Vec<TestCase<T>>) -> (r: &'a Vec<
    TestCase<T>,
>)
    ensures
        r == (match row_cases {
            Some(cases) => cases,
            None => report_cases,
        }),
{
    match row_cases {
        Some(cases) => cases,
        None => report_cases,
    }
}

/// The text of an accuracy or custom cell of a row that is not evaluated.
pub fn not_evaluated_cell() -> (r: String)
    ensures
        r@ == "N/A"@,
{
    "N/A".to_owned()
}

/// The layout of a report table holds every column and every row, in order:
/// `1 + rows` records; the header is `"Function"` followed by each column
/// name; record `i + 1` is row `i`'s name followed by each of its cells.
pub proof fn lemma_table_layout_complete(column_names: Seq<Seq<char>>, rows: Seq<(String, Vec<String>)>)
    ensures
        table_layout(column_names, rows).len() == rows.len() + 1,
        table_layout(column_names, rows)[0].len() == column_names.len() + 1,
        table_layout(column_names, rows)[0][0] == "Function"@,
        forall|j: int| 0 <= j < column_names.len() ==> table_layout(column_names, rows)[0][j + 1] == #[trigger] column_names[j],
        forall|i: int| 0 <= i < rows.len() ==> {
            &&& (#[trigger] table_layout(column_names, rows)[i + 1]).len() == rows[i].1@.len() + 1
            &&& table_layout(column_names, rows)[i + 1][0] == rows[i].0@
            &&& forall|k: int| 0 <= k < rows[i].1@.len() ==> table_layout(column_names, rows)[i + 1][k + 1] == (
            #[trigger] rows[i].1@[k])@
        },
{
    let layout = table_layout(column_names, rows);
    assert forall|i: int| 0 <= i < rows.len() implies {
        &&& (#[trigger] layout[i + 1]).len() == rows[i].1@.len() + 1
        &&& layout[i + 1][0] == rows[i].0@
        &&& forall|k: int| 0 <= k < rows[i].1@.len() ==> layout[i + 1][k + 1] == (#[trigger] rows[i].1@[k])@
    } by {
        assert(layout[i + 1] == seq![rows[i].0@] + cells_view(rows[i].1@));
    }
}

/// What `render_table` lays out for its arguments holds every column name and
/// every cell as given: the header has `"Function"` and then column `j`'s
/// text at `j + 1`; record `i + 1` has row `i`'s name and then cell `k`'s
/// text at `k + 1`; nothing is added or left out.
pub proof fn lemma_report_layout_holds_inputs(column_names: Seq<String>, rows: Seq<(String, Vec<String>)>)
    ensures
        table_layout(cells_view(column_names), rows).len() == rows.len() + 1,
        table_layout(cells_view(column_names), rows)[0].len() == column_names.len() + 1,
        table_layout(cells_view(column_names), rows)[0][0] == "Function"@,
        forall|j: int| 0 <= j < column_names.len() ==> table_layout(cells_view(column_names), rows)[0][j + 1] == (
        #[trigger] column_names[j])@,
        forall|i: int| 0 <= i < rows.len() ==> {
            &&& (#[trigger] table_layout(cells_view(column_names), rows)[i + 1]).len() == rows[i].1@.len() + 1
            &&& table_layout(cells_view(column_names), rows)[i + 1][0] == rows[i].0@
            &&& forall|k: int| 0 <= k < rows[i].1@.len() ==> table_layout(cells_view(column_names), rows)[i + 1][k + 1]
                == (#[trigger] rows[i].1@[k])@
        },
{
    lemma_table_layout_complete(cells_view(column_names), rows);
    assert forall|j: int| 0 <= j < column_names.len() implies table_layout(cells_view(column_names), rows)[0][j + 1] == (
    #[trigger] column_names[j])@ by {
        assert(cells_view(column_names)[j] == column_names[j]@);
    }
}

} // verus!
