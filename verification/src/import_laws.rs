//! What holds of the rows that are read in general.

use vstd::prelude::*;

use crate::fields::CsvRow;
use crate::import;
use crate::import::ExcelCell;
use crate::template::{TemplateConfig, TemplateField};
use crate::text;
use crate::text::Text;

verus! {

// ---------------------------------------------------------------------------
// Headers
// ---------------------------------------------------------------------------

proof fn lemma_first_missing(template_fields: Seq<TemplateField>, i: int, headers: Seq<Text>)
    requires
        0 <= i,
    ensures
        match import::first_missing(template_fields, i, headers) {
            Some(name) => !headers.contains(name) && exists|j: int|
                i <= j < template_fields.len() && is_source(#[trigger] template_fields[j], name)
                    && forall|h: int, other: Text|
                    i <= h < j && #[trigger] is_source(template_fields[h], other)
                        ==> headers.contains(other),
            None => forall|j: int, name: Text|
                i <= j < template_fields.len() && #[trigger] is_source(template_fields[j], name)
                    ==> headers.contains(name),
        },
    decreases template_fields.len() - i,
{
    if i < template_fields.len() {
        lemma_first_missing(template_fields, i + 1, headers);
        match template_fields[i] {
            TemplateField::Column { source, .. } => {
                assert(is_source(template_fields[i], source@));
            },
            _ => {},
        }
    }
}

/// `field` takes its value from the column `name`.
pub open spec fn is_source(field: TemplateField, name: Text) -> bool {
    match field {
        TemplateField::Column { source, .. } => source@ == name,
        _ => false,
    }
}

/// A strict template misses no column exactly where every column that it takes
/// a value from is there; the column that it misses is the first of those, in
/// the order of the template, that is not there. A template that is not strict
/// misses none.
pub proof fn law_strict_headers(template_config: TemplateConfig, headers: Seq<Text>)
    ensures
        match import::missing_header(template_config, headers) {
            Some(name) => template_config.options.strict_headers && !headers.contains(name)
                && exists|j: int|
                0 <= j < template_config.fields@.len() && is_source(
                    #[trigger] template_config.fields@[j],
                    name,
                ) && forall|h: int, other: Text|
                    0 <= h < j && #[trigger] is_source(template_config.fields@[h], other)
                        ==> headers.contains(other),
            None => template_config.options.strict_headers ==> forall|j: int, name: Text|
                0 <= j < template_config.fields@.len() && #[trigger] is_source(
                    template_config.fields@[j],
                    name,
                ) ==> headers.contains(name),
        },
{
    lemma_first_missing(template_config.fields@, 0, headers);
}

// ---------------------------------------------------------------------------
// CSV
// ---------------------------------------------------------------------------

/// `i` is the last position of `name` in `headers`.
pub open spec fn last_position(headers: Seq<Text>, name: Text, i: int) -> bool {
    &&& 0 <= i < headers.len()
    &&& headers[i] == name
    &&& forall|j: int| i < j < headers.len() ==> #[trigger] headers[j] != name
}

proof fn lemma_row_names(headers: Seq<Text>, values: Seq<Text>, n: int, name: Text)
    requires
        0 <= n <= headers.len(),
    ensures
        import::row_map(headers, values, n).dom().contains(name) <==> exists|i: int|
            0 <= i < n && #[trigger] headers[i] == name,
    decreases n,
{
    if n > 0 {
        lemma_row_names(headers, values, n - 1, name);
    }
}

proof fn lemma_row_value(headers: Seq<Text>, values: Seq<Text>, n: int, i: int)
    requires
        0 <= i < n <= headers.len(),
        forall|j: int| i < j < n ==> #[trigger] headers[j] != headers[i],
    ensures
        import::row_map(headers, values, n)[headers[i]] == values[i],
    decreases n,
{
    if i < n - 1 {
        lemma_row_value(headers, values, n - 1, i);
    }
}

/// A row of CSV data has a value for each header and for no other name: the one
/// at the last position of that name.
pub proof fn law_csv_row(headers: Seq<Text>, values: Seq<Text>, name: Text)
    requires
        values.len() == headers.len(),
    ensures
        import::csv_row_map(headers, values).dom().contains(name) <==> headers.contains(name),
        forall|i: int| #[trigger]
            last_position(headers, name, i) ==> import::csv_row_map(headers, values)[name]
                == values[i],
{
    let n = headers.len() as int;
    lemma_row_names(headers, values, n, name);
    assert forall|i: int| #[trigger] last_position(headers, name, i) implies import::csv_row_map(
        headers,
        values,
    )[name] == values[i] by {
        lemma_row_value(headers, values, n, i);
    }
}

/// A row without two headers of the same name holds the value of each column.
pub proof fn law_csv_row_values(headers: Seq<Text>, values: Seq<Text>, i: int)
    requires
        values.len() == headers.len(),
        headers.no_duplicates(),
        0 <= i < headers.len(),
    ensures
        import::csv_row_map(headers, values).dom().contains(headers[i]),
        import::csv_row_map(headers, values)[headers[i]] == values[i],
{
    law_csv_row(headers, values, headers[i]);
    assert(last_position(headers, headers[i], i));
}

/// Of the first `n` columns, a row of CSV data has a value for each header and
/// for no other name: the one under the last header of that name.
pub proof fn law_csv_columns(headers: Seq<Text>, values: Seq<Text>, n: int, name: Text)
    requires
        0 <= n <= headers.len(),
    ensures
        import::row_map(headers, values, n).dom().contains(name) <==> headers.take(n).contains(
            name,
        ),
        forall|i: int|
            0 <= i < n && #[trigger] headers[i] == name && !headers.subrange(i + 1, n).contains(name)
                ==> import::row_map(headers, values, n)[name] == values[i],
{
    lemma_row_names(headers, values, n, name);
    lemma_taken(headers, n, name);
    assert forall|i: int|
        0 <= i < n && #[trigger] headers[i] == name && !headers.subrange(i + 1, n).contains(
            name,
        ) implies import::row_map(headers, values, n)[name] == values[i] by {
        lemma_none_between(headers, i + 1, n, name);
        lemma_row_value(headers, values, n, i);
    }
}

proof fn lemma_taken(headers: Seq<Text>, n: int, name: Text)
    requires
        0 <= n <= headers.len(),
    ensures
        headers.take(n).contains(name) <==> exists|i: int| 0 <= i < n && #[trigger] headers[i] == name,
{
    if exists|i: int| 0 <= i < n && #[trigger] headers[i] == name {
        let i = choose|i: int| 0 <= i < n && #[trigger] headers[i] == name;
        assert(headers.take(n)[i] == name);
    }
}

proof fn lemma_none_between(headers: Seq<Text>, from: int, to: int, name: Text)
    requires
        0 <= from <= to <= headers.len(),
        !headers.subrange(from, to).contains(name),
    ensures
        forall|j: int| from <= j < to ==> #[trigger] headers[j] != name,
{
    assert forall|j: int| from <= j < to implies #[trigger] headers[j] != name by {
        assert(headers.subrange(from, to)[j - from] == headers[j]);
    }
}

// ---------------------------------------------------------------------------
// Worksheets
// ---------------------------------------------------------------------------

proof fn lemma_sheet_names(headers: Seq<Text>, cells: Seq<ExcelCell>, n: int, name: Text)
    requires
        0 <= n <= headers.len(),
    ensures
        import::sheet_row(headers, cells, n).dom().contains(name) <==> !text::blank(name)
            && exists|i: int| 0 <= i < n && #[trigger] headers[i] == name,
    decreases n,
{
    if n > 0 {
        lemma_sheet_names(headers, cells, n - 1, name);
    }
}

proof fn lemma_sheet_value(headers: Seq<Text>, cells: Seq<ExcelCell>, n: int, i: int)
    requires
        0 <= i < n <= headers.len(),
        !text::blank(headers[i]),
        forall|j: int| i < j < n ==> #[trigger] headers[j] != headers[i],
    ensures
        import::sheet_row(headers, cells, n)[headers[i]] == (if i < cells.len() {
            import::cell_text(cells[i])
        } else {
            Seq::empty()
        }),
    decreases n,
{
    if i < n - 1 {
        lemma_sheet_value(headers, cells, n - 1, i);
    }
}

/// A row of a worksheet has a value for each header that is not blank, and for
/// no other name: the text of the cell at the last position of that name, or
/// nothing where the row ends before.
pub proof fn law_sheet_row(headers: Seq<Text>, cells: Seq<ExcelCell>, name: Text)
    ensures
        ({
            let row = import::sheet_row(headers, cells, headers.len() as int);
            &&& row.dom().contains(name) <==> headers.contains(name) && !text::blank(name)
            &&& forall|i: int| #[trigger]
                last_position(headers, name, i) && !text::blank(name) ==> row[name] == (if i
                    < cells.len() {
                    import::cell_text(cells[i])
                } else {
                    Seq::empty()
                })
        }),
{
    let n = headers.len() as int;
    lemma_sheet_names(headers, cells, n, name);
    assert forall|i: int| #[trigger]
        last_position(headers, name, i) && !text::blank(name) implies import::sheet_row(
        headers,
        cells,
        n,
    )[name] == (if i < cells.len() {
        import::cell_text(cells[i])
    } else {
        Seq::empty()
    }) by {
        lemma_sheet_value(headers, cells, n, i);
    }
}

/// Of the first `n` columns, a row of a worksheet has a value for each header
/// that is not blank, and for no other name: the cell under the last header of
/// that name.
pub proof fn law_sheet_columns(headers: Seq<Text>, cells: Seq<ExcelCell>, n: int, name: Text)
    requires
        0 <= n <= headers.len(),
    ensures
        import::sheet_row(headers, cells, n).dom().contains(name) <==> headers.take(n).contains(
            name,
        ) && !text::blank(name),
        forall|i: int|
            0 <= i < n && #[trigger] headers[i] == name && !text::blank(name) && !headers.subrange(
                i + 1,
                n,
            ).contains(name) ==> import::sheet_row(headers, cells, n)[name] == import::cell_value(
                cells,
                i,
            ),
{
    lemma_sheet_names(headers, cells, n, name);
    lemma_taken(headers, n, name);
    assert forall|i: int|
        0 <= i < n && #[trigger] headers[i] == name && !text::blank(name) && !headers.subrange(
            i + 1,
            n,
        ).contains(name) implies import::sheet_row(headers, cells, n)[name] == import::cell_value(
        cells,
        i,
    ) by {
        lemma_none_between(headers, i + 1, n, name);
        lemma_sheet_value(headers, cells, n, i);
    }
}

/// The row under the header that row number `i` of a worksheet makes.
pub open spec fn row_at(cells: Seq<Vec<ExcelCell>>, i: int) -> Map<Text, Text> {
    let headers = import::cell_texts(cells[0]@);
    import::sheet_row(headers, cells[i]@, headers.len() as int)
}

/// Some value of `row` is more than white space.
pub open spec fn some_text(row: Map<Text, Text>) -> bool {
    exists|name: Text| #[trigger] row.dom().contains(name) && !text::blank(row[name])
}

/// The rows read from a worksheet are those below the header that hold any
/// text, in the same order.
pub proof fn law_rows_with_text(cells: Seq<Vec<ExcelCell>>)
    requires
        cells.len() > 0,
    ensures
        import::sheet_rows(cells, cells.len() as int) == Seq::new(
            (cells.len() - 1) as nat,
            |i: int| row_at(cells, i + 1),
        ).filter(|row: Map<Text, Text>| some_text(row)),
{
    lemma_rows_with_text(cells, cells.len() as int);
}

proof fn lemma_rows_with_text(cells: Seq<Vec<ExcelCell>>, n: int)
    requires
        1 <= n <= cells.len(),
    ensures
        import::sheet_rows(cells, n) == Seq::new(
            (n - 1) as nat,
            |i: int| row_at(cells, i + 1),
        ).filter(|row: Map<Text, Text>| some_text(row)),
    decreases n,
{
    reveal(Seq::filter);
    let all = Seq::new((n - 1) as nat, |i: int| row_at(cells, i + 1));
    if n > 1 {
        lemma_rows_with_text(cells, n - 1);
        assert(all.drop_last() =~= Seq::new((n - 2) as nat, |i: int| row_at(cells, i + 1)));
        assert(all.last() == row_at(cells, n - 1));
    } else {
        assert(all.filter(|row: Map<Text, Text>| some_text(row)) =~= Seq::empty());
    }
}

// ---------------------------------------------------------------------------
// Cells
// ---------------------------------------------------------------------------

/// The text of a cell: nothing for an empty one, a text without outer white
/// space, a number in decimal notation with its sign, a truth value in words,
/// and all else as it is.
pub proof fn law_cell_text(s: String, n: i64)
    ensures
        import::cell_text(ExcelCell::Empty) == Seq::<char>::empty(),
        import::cell_text(ExcelCell::Text(s)) == text::trimmed(s@),
        import::cell_text(ExcelCell::Float(s)) == s@,
        n >= 0 ==> import::cell_text(ExcelCell::Int(n)) == text::decimal(n as nat),
        n < 0 ==> import::cell_text(ExcelCell::Int(n)) == seq!['-'] + text::decimal((-n) as nat),
        import::cell_text(ExcelCell::Bool(true)) == "true"@,
        import::cell_text(ExcelCell::Bool(false)) == "false"@,
        import::cell_text(ExcelCell::Error(s)) == s@,
        import::cell_text(ExcelCell::DateTime(s)) == s@,
        import::cell_text(ExcelCell::DateTimeIso(s)) == s@,
        import::cell_text(ExcelCell::DurationIso(s)) == s@,
{
    reveal_strlit("-");
    assert("-"@ =~= seq!['-']);
}

/// Rows, records and cells are seen one by one, all of them.
pub proof fn law_rows_seen(rows: Seq<CsvRow>, records: Seq<Vec<String>>, cells: Seq<ExcelCell>)
    ensures
        import::rows_of(rows).len() == rows.len(),
        forall|i: int| 0 <= i < rows.len() ==> #[trigger] import::rows_of(rows)[i] == rows[i]@,
        import::records_of(records).len() == records.len(),
        forall|i: int, k: int|
            0 <= i < records.len() && 0 <= k < records[i]@.len()
                ==> #[trigger] import::records_of(records)[i][k] == records[i]@[k]@,
        forall|i: int|
            0 <= i < records.len() ==> (#[trigger] import::records_of(records)[i]).len()
                == records[i]@.len(),
        import::cell_texts(cells).len() == cells.len(),
        forall|i: int|
            0 <= i < cells.len() ==> #[trigger] import::cell_texts(cells)[i] == import::cell_text(
                cells[i],
            ),
{
}

/// What is said of a column that is missing, and of a worksheet without rows.
pub proof fn law_import_messages(source: Text, sheet: Text)
    ensures
        import::missing_csv_message(source) == "Missing CSV column: "@ + source,
        import::missing_excel_message(source, sheet) == "Missing Excel column '"@ + source
            + "' in sheet '"@ + sheet + "'"@,
        import::empty_sheet_message(sheet) == "Sheet '"@ + sheet + "' is empty"@,
{
}

} // verus!
