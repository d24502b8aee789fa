use sfdl::paths::{
    data_file_kind, error_file_name, error_output_path, read_data_file, DataFileKind,
};

#[test]
fn files_by_their_extension() {
    assert_eq!(read_data_file("contacts.csv"), Ok(DataFileKind::Csv));
    assert_eq!(read_data_file("data/in.2024/contacts.CSV"), Ok(DataFileKind::Csv));
    for extension in ["xls", "xlsx", "xlsm", "xlsb", "ods", "XLSX", "Ods"] {
        assert_eq!(
            read_data_file(&format!("/tmp/book.{}", extension)),
            Ok(DataFileKind::Workbook)
        );
    }
    assert_eq!(read_data_file("a.csv/"), Ok(DataFileKind::Csv));
    assert_eq!(read_data_file("a.csv/."), Ok(DataFileKind::Csv));
    assert_eq!(read_data_file("C:\\data\\contacts.csv"), Ok(DataFileKind::Csv));
}

#[test]
fn files_that_are_not_read() {
    let message = |extension: &str| {
        Err(format!(
            "Unsupported data file extension '{}'. Use .csv .xls .xlsx .xlsm .xlsb or .ods",
            extension
        ))
    };
    assert_eq!(read_data_file("contacts.TXT"), message("txt"));
    assert_eq!(read_data_file("contacts"), message(""));
    assert_eq!(read_data_file("contacts."), message(""));
    assert_eq!(read_data_file(".csv"), message(""));
    assert_eq!(read_data_file("a.csv/contacts"), message(""));
    assert_eq!(read_data_file("a.csv/.."), message(""));
    assert_eq!(read_data_file("."), message(""));
    assert_eq!(read_data_file(""), message(""));
    assert_eq!(read_data_file("/"), message(""));
    assert_eq!(read_data_file("a.tar.gz"), message("gz"));
    assert_eq!(read_data_file("C:\\data\\contacts"), message(""));
    assert_eq!(data_file_kind("pdf"), message("pdf"));
}

#[test]
fn extensions_in_any_case() {
    assert_eq!(data_file_kind("csv"), Ok(DataFileKind::Csv));
    assert_eq!(data_file_kind("CsV"), Ok(DataFileKind::Csv));
    assert_eq!(data_file_kind("XLSB"), Ok(DataFileKind::Workbook));
}

fn plain(path: &str) -> String {
    path.replace('\\', "/")
}

#[test]
fn rejected_rows_go_beside_the_data() {
    assert_eq!(error_output_path("contacts.csv"), "contacts_ERRORS.csv");
    assert_eq!(error_output_path("book.v2.xlsx"), "book.v2_ERRORS.csv");
    assert_eq!(error_output_path("contacts"), "contacts_ERRORS.csv");
    assert_eq!(error_output_path(".csv"), ".csv_ERRORS.csv");
    assert_eq!(error_output_path("/contacts.csv"), "/contacts_ERRORS.csv");
    assert_eq!(plain(&error_output_path("data/contacts.csv")), "data/contacts_ERRORS.csv");
    assert_eq!(plain(&error_output_path("./contacts.csv")), "./contacts_ERRORS.csv");
    assert_eq!(plain(&error_output_path("../in/a b.csv")), "../in/a b_ERRORS.csv");
    assert_eq!(plain(&error_output_path("/in//x.csv")), "/in/x_ERRORS.csv");
}

#[test]
fn rejected_rows_of_nothing() {
    assert_eq!(error_output_path(""), "output_ERRORS.csv");
    assert_eq!(error_output_path("/"), "output_ERRORS.csv");
    assert_eq!(error_file_name(None), "output_ERRORS.csv");
    assert_eq!(error_file_name(Some("x".to_string())), "x_ERRORS.csv");
}

#[test]
fn rejected_rows_on_drives_and_servers() {
    for (input, expected) in [
        ("C:\\data\\contacts.csv", "C:\\data\\contacts_ERRORS.csv"),
        (".\\contacts.csv", ".\\contacts_ERRORS.csv"),
        ("\\\\server\\share\\in\\contacts.csv", "\\\\server\\share\\in\\contacts_ERRORS.csv"),
    ] {
        assert_eq!(error_output_path(input), expected);
    }
    assert_eq!(plain(&error_output_path("C:/contacts.csv")), "C:/contacts_ERRORS.csv");
    assert_eq!(error_output_path("C:contacts.csv"), "C:contacts_ERRORS.csv");
    assert_eq!(error_output_path("C:b:.x:y"), "C:b:_ERRORS.csv");
    assert_eq!(error_output_path("\\contacts.csv"), "\\contacts_ERRORS.csv");
    assert_eq!(
        plain(&error_output_path("in\\a.b/sub\\contacts.csv")),
        "in/a.b/sub/contacts_ERRORS.csv"
    );
    assert_eq!(error_output_path("12:30.csv"), "12:30_ERRORS.csv");
    assert_eq!(plain(&error_output_path("in/12:30.csv")), "in/12:30_ERRORS.csv");
    assert_eq!(error_output_path("ab.c:d"), "ab_ERRORS.csv");
}

fn std_path(input: &str) -> String {
    let path = std::path::Path::new(input);
    let stem = path.file_stem().and_then(|s| s.to_str()).unwrap_or("output");
    let parent = path.parent().unwrap_or_else(|| std::path::Path::new(""));
    parent.join(format!("{}_ERRORS.csv", stem)).to_string_lossy().to_string()
}

#[test]
fn directory_and_name_are_those_of_the_platform() {
    let pieces = ["", "/", "\\", ":", ".", "..", "a", "C:", ".csv", "b.c", "x.y:z"];
    for a in pieces {
        for b in pieces {
            for c in pieces {
                for d in pieces {
                    let input = format!("{}{}{}{}", a, b, c, d);
                    assert_eq!(error_output_path(&input), std_path(&input), "{}", input);
                }
            }
        }
    }
}

#[test]
fn the_extension_does_not_matter() {
    for extension in ["csv", "xlsx", "x:y", "c s v"] {
        assert_eq!(error_output_path(&format!("contacts.{}", extension)), "contacts_ERRORS.csv");
    }
}

#[test]
fn rejected_rows_never_replace_the_data() {
    for input in [
        "",
        "/",
        ".",
        "..",
        "a/..",
        "a.csv/",
        "a.csv/.",
        "_ERRORS.csv",
        "x_ERRORS.csv",
        "output_ERRORS.csv",
        "../output_ERRORS.csv",
        "//srv/output_ERRORS.csv",
        "\\\\srv\\output_ERRORS.csv",
        "C:output_ERRORS.csv",
        "C:\\x\\output_ERRORS.csv",
    ] {
        let path = error_output_path(input);
        assert_ne!(path, input);
        assert!(path.ends_with("_ERRORS.csv"));
    }
    assert_eq!(plain(&error_output_path("a.csv/")), "a_ERRORS.csv");
    assert_eq!(plain(&error_output_path("a/..")), "a/output_ERRORS.csv");
    assert_eq!(error_output_path(".."), "output_ERRORS.csv");
}
