//! Reading rows from CSV data and from worksheets.

use vstd::prelude::*;
use vstd::string::*;

use crate::error::LoadError;
use crate::fields;
use crate::fields::CsvRow;
use crate::formula::bool_text;
use crate::template::{TemplateConfig, TemplateField};
use crate::text;
use crate::text::{decimal_text, text_eq, Text};

verus! {

// ---------------------------------------------------------------------------
// Headers
// ---------------------------------------------------------------------------

/// The first column from field number `i` on that `template_fields` take a
/// value from and `headers` do not hold.
pub open spec fn first_missing(
    template_fields: Seq<TemplateField>,
    i: int,
    headers: Seq<Text>,
) -> Option<Text>
    decreases template_fields.len() - i,
{
    if i >= template_fields.len() {
        None
    } else {
        match template_fields[i] {
            TemplateField::Column { source, .. } => if headers.contains(source@) {
                first_missing(template_fields, i + 1, headers)
            } else {
                Some(source@)
            },
            _ => first_missing(template_fields, i + 1, headers),
        }
    }
}

/// The column that is missed, where the template is strict about columns.
pub open spec fn missing_header(template_config: TemplateConfig, headers: Seq<Text>) -> Option<
    Text,
> {
    if template_config.options.strict_headers {
        first_missing(template_config.fields@, 0, headers)
    } else {
        None
    }
}

fn has_header(headers: &Vec<String>, name: &str) -> (r: bool)
    ensures
        r == text::texts(headers@).contains(name@),
{
    let ghost names = text::texts(headers@);
    let mut i: usize = 0;
    while i < headers.len()
        invariant
            i <= headers@.len(),
            names == text::texts(headers@),
            forall|j: int| 0 <= j < i ==> #[trigger] names[j] != name@,
        decreases headers@.len() - i,
    {
        if text_eq(headers[i].as_str(), name) {
            assert(names[i as int] == name@);
            return true;
        }
        i = i + 1;
    }
    false
}

/// The column that is missed among `headers`, if the template is strict and
/// misses one.
pub fn find_missing_header<'a>(template_config: &'a TemplateConfig, headers: &Vec<String>) -> (r:
    Option<&'a String>)
    ensures
        match r {
            Some(source) => missing_header(*template_config, text::texts(headers@)) == Some(
                source@,
            ),
            None => missing_header(*template_config, text::texts(headers@)) is None,
        },
{
    if !template_config.options.strict_headers {
        return None;
    }
    let mut i: usize = 0;
    while i < template_config.fields.len()
        invariant
            i <= template_config.fields@.len(),
            template_config.options.strict_headers,
            first_missing(template_config.fields@, 0, text::texts(headers@)) == first_missing(
                template_config.fields@,
                i as int,
                text::texts(headers@),
            ),
        decreases template_config.fields@.len() - i,
    {
        match &template_config.fields[i] {
            TemplateField::Column { source, .. } => {
                if !has_header(headers, source.as_str()) {
                    return Some(source);
                }
            },
            _ => {},
        }
        i = i + 1;
    }
    None
}

/// The views of a vector of rows.
pub open spec fn rows_of(rows: Seq<CsvRow>) -> Seq<Map<Text, Text>> {
    rows.map_values(|r: CsvRow| r@)
}

// ---------------------------------------------------------------------------
// CSV
// ---------------------------------------------------------------------------

/// The header record of CSV data; none where `csv::Reader::headers` fails.
pub uninterp spec fn csv_headers_of(data: Seq<u8>) -> Option<Seq<Seq<char>>>;

/// The records after the header of CSV data; none where
/// `csv::Reader::records` meets an error.
pub uninterp spec fn csv_records_of(data: Seq<u8>) -> Option<Seq<Seq<Seq<char>>>>;

/// The views of a vector of records.
pub open spec fn records_of(records: Seq<Vec<String>>) -> Seq<Seq<Text>> {
    records.map_values(|r: Vec<String>| text::texts(r@))
}

/// `csv::Reader::headers`, of a reader as `csv::Reader::from_reader` makes it:
/// the header record of `data`, or the error met.
#[verifier::external_body]
fn csv_headers(data: &Vec<u8>) -> (r: Result<Vec<String>, csv::Error>)
    ensures
        match r {
            Ok(headers) => csv_headers_of(data@) == Some(text::texts(headers@)),
            Err(_) => csv_headers_of(data@) is None,
        },
{
    let mut reader = csv::Reader::from_reader(data.as_slice());
    let headers = reader.headers()?;
    Ok(headers.iter().map(|h| h.to_string()).collect())
}

/// `csv::Reader::records`, of a reader as `csv::Reader::from_reader` makes it:
/// the records of `data` after the header, or the first error met. The reader
/// is not flexible: a record that differs in length from the header is an
/// error.
#[verifier::external_body]
fn csv_records(data: &Vec<u8>) -> (r: Result<Vec<Vec<String>>, csv::Error>)
    ensures
        match r {
            Ok(records) => csv_records_of(data@) == Some(records_of(records@)),
            Err(_) => csv_records_of(data@) is None,
        },
        match (r, csv_headers_of(data@)) {
            (Ok(records), Some(headers)) => forall|i: int|
                0 <= i < records@.len() ==> (#[trigger] records@[i])@.len() == headers.len(),
            _ => true,
        },
{
    let mut reader = csv::Reader::from_reader(data.as_slice());
    let mut records: Vec<Vec<String>> = Vec::new();
    for record in reader.records() {
        records.push(record?.iter().map(|field| field.to_string()).collect());
    }
    Ok(records)
}

/// The row with the first `n` of `values` under the `headers` of the same
/// position. Where a header occurs twice, the later value counts.
pub open spec fn row_map(headers: Seq<Text>, values: Seq<Text>, n: int) -> Map<Text, Text>
    decreases n,
{
    if n <= 0 {
        Map::empty()
    } else {
        row_map(headers, values, n - 1).insert(headers[n - 1], values[n - 1])
    }
}

/// The row of a record.
pub open spec fn csv_row_map(headers: Seq<Text>, values: Seq<Text>) -> Map<Text, Text> {
    row_map(headers, values, headers.len() as int)
}

fn record_row(headers: &Vec<String>, values: &Vec<String>) -> (r: CsvRow)
    requires
        values@.len() == headers@.len(),
    ensures
        r@ == csv_row_map(text::texts(headers@), text::texts(values@)),
{
    let mut row = CsvRow::new();
    let mut i: usize = 0;
    while i < headers.len()
        invariant
            i <= headers@.len() == values@.len(),
            row@ == row_map(text::texts(headers@), text::texts(values@), i as int),
        decreases headers@.len() - i,
    {
        row.insert(headers[i].clone(), values[i].clone());
        i = i + 1;
    }
    row
}

/// The rows of `records`, which are as long as `headers`.
pub fn record_rows(headers: &Vec<String>, records: &Vec<Vec<String>>) -> (r: Vec<CsvRow>)
    requires
        forall|i: int|
            0 <= i < records@.len() ==> (#[trigger] records@[i])@.len() == headers@.len(),
    ensures
        rows_of(r@) == records_of(records@).map_values(
            |values: Seq<Text>| csv_row_map(text::texts(headers@), values),
        ),
{
    let mut rows: Vec<CsvRow> = Vec::new();
    let mut i: usize = 0;
    while i < records.len()
        invariant
            i == rows@.len() <= records@.len(),
            forall|j: int|
                0 <= j < records@.len() ==> (#[trigger] records@[j])@.len() == headers@.len(),
            forall|j: int|
                0 <= j < i ==> (#[trigger] rows@[j])@ == csv_row_map(
                    text::texts(headers@),
                    text::texts(records@[j]@),
                ),
        decreases records@.len() - i,
    {
        rows.push(record_row(headers, &records[i]));
        i = i + 1;
    }
    assert(rows_of(rows@) =~= records_of(records@).map_values(
        |values: Seq<Text>| csv_row_map(text::texts(headers@), values),
    ));
    rows
}

/// A column is missing in CSV data.
pub open spec fn missing_csv_message(source: Text) -> Text {
    "Missing CSV column: "@ + source
}

/// The rows of CSV data.
pub fn read_csv(data: &Vec<u8>, template_config: &TemplateConfig) -> (r: Result<
    Vec<CsvRow>,
    LoadError,
>)
    ensures
        match csv_headers_of(data@) {
            None => r matches Err(LoadError::Csv(_)),
            Some(headers) => match missing_header(*template_config, headers) {
                Some(source) => r matches Err(LoadError::Message(message)) && message@
                    == missing_csv_message(source),
                None => match csv_records_of(data@) {
                    None => r matches Err(LoadError::Csv(_)),
                    Some(records) => r matches Ok(rows) && rows_of(rows@) == records.map_values(
                        |values: Seq<Text>| csv_row_map(headers, values),
                    ),
                },
            },
        },
{
    let headers = match csv_headers(data) {
        Ok(headers) => headers,
        Err(error) => return Err(LoadError::Csv(error)),
    };
    match find_missing_header(template_config, &headers) {
        Some(source) => {
            let mut message = "Missing CSV column: ".to_string();
            message.append(source.as_str());
            return Err(LoadError::Message(message));
        },
        None => {},
    }
    match csv_records(data) {
        Ok(records) => Ok(record_rows(&headers, &records)),
        Err(error) => Err(LoadError::Csv(error)),
    }
}

// ---------------------------------------------------------------------------
// Worksheets
// ---------------------------------------------------------------------------

/// A cell of a worksheet. Numbers with a fraction, errors, dates and durations
/// come in the notation in which they are shown.
#[derive(Debug)]
pub enum ExcelCell {
    Empty,
    Text(String),
    Float(String),
    Int(i64),
    Bool(bool),
    Error(String),
    DateTime(String),
    DateTimeIso(String),
    DurationIso(String),
}

/// The decimal notation of a signed number.
pub open spec fn signed_decimal(n: int) -> Text {
    if n < 0 {
        "-"@ + text::decimal((-n) as nat)
    } else {
        text::decimal(n as nat)
    }
}

/// The text of a cell.
pub open spec fn cell_text(cell: ExcelCell) -> Text {
    match cell {
        ExcelCell::Empty => Seq::empty(),
        ExcelCell::Text(s) => text::trimmed(s@),
        ExcelCell::Float(s) => s@,
        ExcelCell::Int(n) => signed_decimal(n as int),
        ExcelCell::Bool(b) => text::truth_text(b),
        ExcelCell::Error(s) => s@,
        ExcelCell::DateTime(s) => s@,
        ExcelCell::DateTimeIso(s) => s@,
        ExcelCell::DurationIso(s) => s@,
    }
}

/// The text of a cell.
pub fn excel_cell_to_string(cell: &ExcelCell) -> (r: String)
    ensures
        r@ == cell_text(*cell),
{
    match cell {
        ExcelCell::Empty => String::new(),
        ExcelCell::Text(s) => s.as_str().trim().to_string(),
        ExcelCell::Float(s) => s.clone(),
        ExcelCell::Int(n) => {
            let n: i128 = *n as i128;
            if n < 0 {
                let mut out = "-".to_string();
                out.append(decimal_text((-n) as u128).as_str());
                out
            } else {
                decimal_text(n as u128)
            }
        },
        ExcelCell::Bool(b) => bool_text(*b),
        ExcelCell::Error(s) => s.clone(),
        ExcelCell::DateTime(s) => s.clone(),
        ExcelCell::DateTimeIso(s) => s.clone(),
        ExcelCell::DurationIso(s) => s.clone(),
    }
}

/// The texts of a row of cells.
pub open spec fn cell_texts(cells: Seq<ExcelCell>) -> Seq<Text> {
    cells.map_values(|c: ExcelCell| cell_text(c))
}

/// The value in column `i` of a row of cells; nothing beyond its end.
pub open spec fn cell_value(cells: Seq<ExcelCell>, i: int) -> Text {
    if 0 <= i < cells.len() {
        cell_text(cells[i])
    } else {
        Seq::empty()
    }
}

/// The row with the cells of the first `n` columns under their headers.
/// Columns with a blank header do not count; where a header occurs twice, the
/// later value counts.
pub open spec fn sheet_row(headers: Seq<Text>, cells: Seq<ExcelCell>, n: int) -> Map<Text, Text>
    decreases n,
{
    if n <= 0 {
        Map::empty()
    } else {
        let head = sheet_row(headers, cells, n - 1);
        if text::blank(headers[n - 1]) {
            head
        } else {
            head.insert(headers[n - 1], cell_value(cells, n - 1))
        }
    }
}

/// The rows of the first `n` rows of cells, the first of which is the header.
/// Rows without any text do not count.
pub open spec fn sheet_rows(cells: Seq<Vec<ExcelCell>>, n: int) -> Seq<Map<Text, Text>>
    decreases n,
{
    if n <= 1 {
        Seq::empty()
    } else {
        let head = sheet_rows(cells, n - 1);
        let headers = cell_texts(cells[0]@);
        let row = sheet_row(headers, cells[n - 1]@, headers.len() as int);
        if fields::has_text(row) {
            head.push(row)
        } else {
            head
        }
    }
}

/// A worksheet has no rows.
pub open spec fn empty_sheet_message(sheet_name: Text) -> Text {
    "Sheet '"@ + sheet_name + "' is empty"@
}

/// A column is missing in a worksheet.
pub open spec fn missing_excel_message(source: Text, sheet_name: Text) -> Text {
    "Missing Excel column '"@ + source + "' in sheet '"@ + sheet_name + "'"@
}

fn cell_row(headers: &Vec<String>, cells: &Vec<ExcelCell>) -> (r: CsvRow)
    ensures
        r@ == sheet_row(text::texts(headers@), cells@, headers@.len() as int),
{
    let mut row = CsvRow::new();
    let mut i: usize = 0;
    while i < headers.len()
        invariant
            i <= headers@.len(),
            row@ == sheet_row(text::texts(headers@), cells@, i as int),
        decreases headers@.len() - i,
    {
        if !headers[i].as_str().trim().is_empty() {
            let value = if i < cells.len() {
                excel_cell_to_string(&cells[i])
            } else {
                String::new()
            };
            row.insert(headers[i].clone(), value);
        }
        i = i + 1;
    }
    row
}

/// The rows of a worksheet, given its rows of cells.
pub fn read_excel(
    sheet_name: &str,
    cells: &Vec<Vec<ExcelCell>>,
    template_config: &TemplateConfig,
) -> (r: Result<Vec<CsvRow>, String>)
    ensures
        if cells@.len() == 0 {
            r matches Err(message) && message@ == empty_sheet_message(sheet_name@)
        } else {
            match missing_header(*template_config, cell_texts(cells@[0]@)) {
                Some(source) => r matches Err(message) && message@ == missing_excel_message(
                    source,
                    sheet_name@,
                ),
                None => r matches Ok(rows) && rows_of(rows@) == sheet_rows(
                    cells@,
                    cells@.len() as int,
                ),
            }
        },
{
    if cells.len() == 0 {
        let mut message = "Sheet '".to_string();
        message.append(sheet_name);
        message.append("' is empty");
        return Err(message);
    }
    let mut headers: Vec<String> = Vec::new();
    let mut i: usize = 0;
    while i < cells[0].len()
        invariant
            cells@.len() > 0,
            i == headers@.len() <= cells@[0]@.len(),
            forall|j: int| 0 <= j < i ==> (#[trigger] headers@[j])@ == cell_text(cells@[0]@[j]),
        decreases cells@[0]@.len() - i,
    {
        headers.push(excel_cell_to_string(&cells[0][i]));
        i = i + 1;
    }
    assert(text::texts(headers@) =~= cell_texts(cells@[0]@));
    match find_missing_header(template_config, &headers) {
        Some(source) => {
            let mut message = "Missing Excel column '".to_string();
            message.append(source.as_str());
            message.append("' in sheet '");
            message.append(sheet_name);
            message.append("'");
            return Err(message);
        },
        None => {},
    }
    let mut rows: Vec<CsvRow> = Vec::new();
    let mut i: usize = 1;
    assert(rows_of(rows@) =~= sheet_rows(cells@, 1));
    while i < cells.len()
        invariant
            1 <= i <= cells@.len(),
            text::texts(headers@) == cell_texts(cells@[0]@),
            rows_of(rows@) == sheet_rows(cells@, i as int),
        decreases cells@.len() - i,
    {
        let row = cell_row(&headers, &cells[i]);
        if row.has_text() {
            let ghost before = rows@;
            rows.push(row);
            assert(rows_of(rows@) =~= rows_of(before).push(row@));
        }
        i = i + 1;
    }
    Ok(rows)
}

/// The name of the worksheet to read: the one asked for, or the first.
pub fn choose_sheet(sheet: Option<&str>, names: &Vec<String>) -> (r: Result<String, String>)
    ensures
        match sheet {
            Some(name) => r matches Ok(chosen) && chosen@ == name@,
            None => if names@.len() > 0 {
                r matches Ok(chosen) && chosen@ == names@[0]@
            } else {
                r matches Err(message) && message@ == "Workbook has no sheets"@
            },
        },
{
    match sheet {
        Some(name) => Ok(name.to_string()),
        None => if names.len() > 0 {
            Ok(names[0].clone())
        } else {
            Err("Workbook has no sheets".to_string())
        },
    }
}

} // verus!
