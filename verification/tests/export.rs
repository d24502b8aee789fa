use sfdl::export::{output_headers, write_objects_to_csv};
use sfdl::fields::OutputObject;

fn object(fields: &[(&str, &str)]) -> OutputObject {
    let mut object = OutputObject::new();
    for (name, value) in fields {
        object.insert(name.to_string(), value.to_string());
    }
    object
}

fn written(objects: &Vec<OutputObject>) -> String {
    match write_objects_to_csv(objects) {
        Ok(bytes) => String::from_utf8(bytes).unwrap(),
        Err(error) => panic!("{}", error),
    }
}

#[test]
fn headers_are_sorted_and_unique() {
    let objects = vec![
        object(&[("b", "1"), ("a", "2")]),
        object(&[("a", "3"), ("B", "4"), ("é", "5"), ("ab", "6")]),
    ];
    assert_eq!(output_headers(&objects), vec!["B", "a", "ab", "b", "é"]);
    assert!(output_headers(&vec![]).is_empty());
}

#[test]
fn headers_are_ordered_by_code_point() {
    let objects = vec![object(&[("\u{ffff}", "1"), ("\u{10000}", "2"), ("z", "3"), ("", "4")])];
    assert_eq!(output_headers(&objects), vec!["", "z", "\u{ffff}", "\u{10000}"]);
}

#[test]
fn values_stand_under_their_headers() {
    let objects = vec![object(&[("b", "1"), ("a", "2")]), object(&[("c", "3")])];
    assert_eq!(written(&objects), "a,b,c\r\n2,1,\r\n,,3\r\n");
}

#[test]
fn fields_are_quoted_where_they_must_be() {
    let values = [
        ("plain", "plain"),
        ("with space ", "with space "),
        ("a,b", "\"a,b\""),
        ("say \"hi\"", "\"say \"\"hi\"\"\""),
        ("two\nlines", "\"two\nlines\""),
        ("two\rlines", "\"two\rlines\""),
        ("\"", "\"\"\"\""),
        ("#;\t'|", "#;\t'|"),
        ("größe", "größe"),
    ];
    for (value, expected) in values {
        let objects = vec![object(&[("a", value), ("b", "x")])];
        assert_eq!(written(&objects), format!("a,b\r\n{},x\r\n", expected));
    }
}

#[test]
fn lines_without_a_character() {
    assert_eq!(written(&vec![]), "\"\"\r\n");
    assert_eq!(written(&vec![object(&[])]), "\"\"\r\n\"\"\r\n");
    assert_eq!(written(&vec![object(&[("a", "")])]), "a\r\n\"\"\r\n");
    assert_eq!(written(&vec![object(&[("a", ""), ("b", "")])]), "a,b\r\n,\r\n");
}

#[test]
fn one_writer_writes_the_same() {
    let objects = vec![
        object(&[("Name", "a, b"), ("Id", "1")]),
        object(&[("Name", ""), ("Note", "x\r\ny")]),
        object(&[]),
        object(&[("Id", "\"\""), ("Note", "ü")]),
    ];
    let headers = output_headers(&objects);
    let mut writer =
        csv::WriterBuilder::new().terminator(csv::Terminator::CRLF).from_writer(Vec::new());
    writer.write_record(&headers).unwrap();
    for object in &objects {
        let row: Vec<&str> =
            headers.iter().map(|h| object.get(h).map(|s| s.as_str()).unwrap_or("")).collect();
        writer.write_record(row).unwrap();
    }
    let expected = writer.into_inner().unwrap();
    assert_eq!(written(&objects).into_bytes(), expected);
}

#[test]
fn a_document_is_read_back() {
    let objects = vec![
        object(&[("Name", "a, \"b\""), ("Id", "1")]),
        object(&[("Name", "two\r\nlines"), ("Note", "")]),
    ];
    let bytes = written(&objects).into_bytes();
    let mut reader =
        csv::ReaderBuilder::new().has_headers(false).from_reader(bytes.as_slice());
    let records: Vec<Vec<String>> = reader
        .records()
        .map(|r| r.unwrap().iter().map(|f| f.to_string()).collect())
        .collect();
    assert_eq!(
        records,
        vec![
            vec!["Id", "Name", "Note"],
            vec!["1", "a, \"b\"", ""],
            vec!["", "two\r\nlines", ""],
        ]
    );
}
