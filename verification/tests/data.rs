use sfdl::error::LoadError;
use sfdl::fields::CsvRow;
use sfdl::import::{
    choose_sheet, excel_cell_to_string, find_missing_header, read_csv, read_excel, record_rows,
    ExcelCell,
};
use sfdl::template::{TemplateConfig, TemplateField, TemplateOptions, TemplateTarget};

fn template(strict_headers: bool, sources: &[&str]) -> TemplateConfig {
    let mut fields = vec![TemplateField::Formula {
        target: "F".to_string(),
        expr: "csv.Nowhere".to_string(),
    }];
    for source in sources {
        fields.push(TemplateField::Column {
            target: source.to_string(),
            source: source.to_string(),
            required: None,
        });
    }
    TemplateConfig {
        name: "T".to_string(),
        version: 1,
        description: "D".to_string(),
        target: TemplateTarget { object: "O".to_string(), operation: "insert".to_string() },
        options: TemplateOptions { strict_headers },
        fields,
    }
}

fn shown(row: &CsvRow) -> Vec<(String, String)> {
    let mut names = row.keys();
    names.sort();
    names
        .into_iter()
        .map(|name| {
            let value = row.get(&name).unwrap().clone();
            (name, value)
        })
        .collect()
}

fn pairs(expected: &[(&str, &str)]) -> Vec<(String, String)> {
    expected.iter().map(|(a, b)| (a.to_string(), b.to_string())).collect()
}

fn csv_rows(data: &str, config: &TemplateConfig) -> Vec<Vec<(String, String)>> {
    match read_csv(&data.as_bytes().to_vec(), config) {
        Ok(rows) => rows.iter().map(shown).collect(),
        Err(error) => panic!("{:?}", error),
    }
}

#[test]
fn csv_data_is_read() {
    let config = template(true, &["Email"]);
    assert_eq!(
        csv_rows("Name,Email\r\n\"Lee, Ann\", a@b.c \r\n\"say \"\"hi\"\"\",\n", &config),
        vec![
            pairs(&[("Email", " a@b.c "), ("Name", "Lee, Ann")]),
            pairs(&[("Email", ""), ("Name", "say \"hi\"")]),
        ]
    );
    assert!(csv_rows("Name,Email\n", &config).is_empty());
    assert_eq!(
        csv_rows("Email\na\n\nb", &config),
        vec![pairs(&[("Email", "a")]), pairs(&[("Email", "b")])]
    );
}

#[test]
fn a_header_that_occurs_twice() {
    let config = template(true, &[]);
    assert_eq!(csv_rows("A,B,A\n1,2,3\n", &config), vec![pairs(&[("A", "3"), ("B", "2")])]);
}

#[test]
fn a_missing_csv_column() {
    let config = template(true, &["Name", "Email", "Phone"]);
    match read_csv(&b"Name\nx\n".to_vec(), &config) {
        Err(LoadError::Message(message)) => assert_eq!(message, "Missing CSV column: Email"),
        other => panic!("{:?}", other.is_ok()),
    }
    let lax = template(false, &["Name", "Email"]);
    assert_eq!(csv_rows("Name\nx\n", &lax), vec![pairs(&[("Name", "x")])]);
    match read_csv(&Vec::new(), &config) {
        Err(LoadError::Message(message)) => assert_eq!(message, "Missing CSV column: Name"),
        other => panic!("{:?}", other.is_ok()),
    }
}

#[test]
fn csv_data_at_fault() {
    let config = template(true, &[]);
    assert!(matches!(
        read_csv(&b"A,B\n1,2\n3\n".to_vec(), &config),
        Err(LoadError::Csv(_))
    ));
    assert!(matches!(read_csv(&b"A,\xff\n1,2\n".to_vec(), &config), Err(LoadError::Csv(_))));
    assert!(matches!(read_csv(&b"A,B\n1,\xff\n".to_vec(), &config), Err(LoadError::Csv(_))));
    let strict = template(true, &["C"]);
    assert!(matches!(
        read_csv(&b"A,B\n1\n".to_vec(), &strict),
        Err(LoadError::Message(message)) if message == "Missing CSV column: C"
    ));
}

#[test]
fn records_become_rows() {
    let headers = vec!["A".to_string(), "B".to_string()];
    let records = vec![vec!["1".to_string(), "2".to_string()]];
    let rows = record_rows(&headers, &records);
    assert_eq!(rows.len(), 1);
    assert_eq!(shown(&rows[0]), pairs(&[("A", "1"), ("B", "2")]));
}

#[test]
fn the_first_missing_header() {
    let config = template(true, &["A", "B", "C"]);
    let headers = vec!["C".to_string(), "A".to_string()];
    assert_eq!(find_missing_header(&config, &headers).map(|s| s.as_str()), Some("B"));
    assert_eq!(find_missing_header(&template(false, &["A", "B"]), &headers), None);
    assert_eq!(find_missing_header(&template(true, &["A"]), &headers), None);
    assert_eq!(
        find_missing_header(&template(true, &["a"]), &headers).map(|s| s.as_str()),
        Some("a")
    );
}

fn text(s: &str) -> ExcelCell {
    ExcelCell::Text(s.to_string())
}

#[test]
fn cells_as_text() {
    assert_eq!(excel_cell_to_string(&ExcelCell::Empty), "");
    assert_eq!(excel_cell_to_string(&text("  a b ")), "a b");
    assert_eq!(excel_cell_to_string(&ExcelCell::Float("1.5".to_string())), "1.5");
    assert_eq!(excel_cell_to_string(&ExcelCell::Int(0)), "0");
    assert_eq!(excel_cell_to_string(&ExcelCell::Int(-42)), "-42");
    assert_eq!(excel_cell_to_string(&ExcelCell::Int(i64::MIN)), i64::MIN.to_string());
    assert_eq!(excel_cell_to_string(&ExcelCell::Int(i64::MAX)), i64::MAX.to_string());
    assert_eq!(excel_cell_to_string(&ExcelCell::Bool(true)), "true");
    assert_eq!(excel_cell_to_string(&ExcelCell::Bool(false)), "false");
    assert_eq!(excel_cell_to_string(&ExcelCell::Error("Div0".to_string())), "Div0");
    assert_eq!(excel_cell_to_string(&ExcelCell::DateTime("45000".to_string())), "45000");
    assert_eq!(
        excel_cell_to_string(&ExcelCell::DateTimeIso("2024-01-31".to_string())),
        "2024-01-31"
    );
    assert_eq!(excel_cell_to_string(&ExcelCell::DurationIso("PT1H".to_string())), "PT1H");
}

#[test]
fn a_worksheet_is_read() {
    let config = template(true, &["Name"]);
    let cells = vec![
        vec![text(" Name "), ExcelCell::Empty, text("Age"), text("Name")],
        vec![text("x"), text("no header"), ExcelCell::Int(5), text(" y ")],
        vec![text("  "), text("no header"), ExcelCell::Empty, ExcelCell::Empty],
        vec![text("z")],
        vec![],
    ];
    let rows = read_excel("Sheet1", &cells, &config).unwrap_or_else(|e| panic!("{}", e));
    let rows: Vec<Vec<(String, String)>> = rows.iter().map(shown).collect();
    assert_eq!(rows, vec![pairs(&[("Age", "5"), ("Name", "y")])]);
}

#[test]
fn short_rows_of_a_worksheet() {
    let config = template(false, &["Name"]);
    let cells = vec![vec![text("A"), text("B")], vec![text("1")]];
    let rows = read_excel("Sheet1", &cells, &config).unwrap_or_else(|e| panic!("{}", e));
    assert_eq!(rows.len(), 1);
    assert_eq!(shown(&rows[0]), pairs(&[("A", "1"), ("B", "")]));
}

#[test]
fn worksheets_at_fault() {
    let config = template(true, &["Name", "Email"]);
    assert!(matches!(
        read_excel("Data", &vec![], &config),
        Err(message) if message == "Sheet 'Data' is empty"
    ));
    assert!(matches!(
        read_excel("Data", &vec![vec![text("Name")]], &config),
        Err(message) if message == "Missing Excel column 'Email' in sheet 'Data'"
    ));
    assert!(matches!(
        read_excel("Data", &vec![vec![text("Name"), text("Email ")]], &config),
        Ok(rows) if rows.is_empty()
    ));
}

#[test]
fn the_worksheet_to_read() {
    let names = vec!["First".to_string(), "Second".to_string()];
    assert_eq!(choose_sheet(None, &names), Ok("First".to_string()));
    assert_eq!(choose_sheet(Some("Second"), &names), Ok("Second".to_string()));
    assert_eq!(choose_sheet(Some("Other"), &names), Ok("Other".to_string()));
    assert_eq!(choose_sheet(None, &vec![]), Err("Workbook has no sheets".to_string()));
}
