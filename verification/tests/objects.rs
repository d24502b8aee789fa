use sfdl::cache::{LookupCache, LookupCacheKey};
use sfdl::error::LoadError;
use sfdl::fields::{CsvRow, OutputObject};
use sfdl::objects::{build_objects, validate_operation_requirements};
use sfdl::salesforce::{load_objects_to_salesforce, LoadPlan};
use sfdl::template::{
    TemplateConfig, TemplateField, TemplateLookup, TemplateMatchRule, TemplateOptions,
    TemplateTarget,
};

fn template(operation: &str, fields: Vec<TemplateField>) -> TemplateConfig {
    TemplateConfig {
        name: "Contacts".to_string(),
        version: 3,
        description: "Contacts".to_string(),
        target: TemplateTarget {
            object: "Contact".to_string(),
            operation: operation.to_string(),
        },
        options: TemplateOptions { strict_headers: false },
        fields,
    }
}

fn column(target: &str, source: &str, required: Option<bool>) -> TemplateField {
    TemplateField::Column { target: target.to_string(), source: source.to_string(), required }
}

fn formula(target: &str, expr: &str) -> TemplateField {
    TemplateField::Formula { target: target.to_string(), expr: expr.to_string() }
}

fn reference(target: &str, on_missing: &str) -> TemplateField {
    TemplateField::Reference {
        target: target.to_string(),
        lookup: TemplateLookup {
            object: "Account".to_string(),
            strategy: "first_match".to_string(),
            match_rules: vec![TemplateMatchRule {
                field: "Number".to_string(),
                value: "csv.Number".to_string(),
            }],
            on_missing: on_missing.to_string(),
            on_multiple: "error".to_string(),
        },
    }
}

fn row(columns: &[(&str, &str)]) -> CsvRow {
    let mut row = CsvRow::new();
    for (name, value) in columns {
        row.insert(name.to_string(), value.to_string());
    }
    row
}

fn cache() -> LookupCache {
    let mut cache = LookupCache::new();
    cache.push(
        &LookupCacheKey {
            object: "Account".to_string(),
            field: "Number".to_string(),
            value: "7".to_string(),
        },
        "001".to_string(),
    );
    cache
}

fn shown(object: &OutputObject) -> Vec<(String, String)> {
    let mut names = object.keys();
    names.sort();
    names
        .into_iter()
        .map(|name| {
            let value = object.get(&name).unwrap().clone();
            (name, value)
        })
        .collect()
}

fn pairs(expected: &[(&str, &str)]) -> Vec<(String, String)> {
    expected.iter().map(|(a, b)| (a.to_string(), b.to_string())).collect()
}

#[test]
fn one_object_for_each_row() {
    let config = template(
        "insert",
        vec![
            column("LastName", "Last Name", Some(true)),
            column("Phone", "Phone", None),
            formula("Email", "lower(trim(csv.Email))"),
            reference("AccountId", "ignore"),
        ],
    );
    let rows = vec![
        row(&[
            ("Last Name", " Lee "),
            ("Phone", " "),
            ("Email", "A@B.C "),
            ("Number", " 7"),
        ]),
        row(&[("Last Name", "Roe"), ("Phone", "1"), ("Number", "8")]),
    ];
    let objects = build_objects(&config, &rows, &cache()).unwrap_or_else(|e| panic!("{}", e));
    assert_eq!(objects.len(), 2);
    assert_eq!(
        shown(&objects[0]),
        pairs(&[("AccountId", "001"), ("Email", "a@b.c"), ("LastName", "Lee")])
    );
    assert_eq!(
        shown(&objects[1]),
        pairs(&[("Email", ""), ("LastName", "Roe"), ("Phone", "1")])
    );
}

#[test]
fn the_last_field_that_sets_a_name_wins() {
    let config = template(
        "insert",
        vec![formula("A", "first"), column("A", "a", None), column("A", "none", None)],
    );
    let rows = vec![row(&[("a", "second")]), row(&[("a", "")])];
    let objects = build_objects(&config, &rows, &cache()).unwrap_or_else(|e| panic!("{}", e));
    assert_eq!(shown(&objects[0]), pairs(&[("A", "second")]));
    assert_eq!(shown(&objects[1]), pairs(&[("A", "first")]));
}

fn fault(config: &TemplateConfig, rows: Vec<CsvRow>) -> String {
    match build_objects(config, &rows, &cache()) {
        Ok(_) => panic!("no fault"),
        Err(message) => message,
    }
}

#[test]
fn a_required_column_without_a_value() {
    let config = template("insert", vec![column("LastName", "Last Name", Some(true))]);
    assert_eq!(
        fault(&config, vec![row(&[("Last Name", "Lee")]), row(&[("Last Name", " \t")])]),
        "Row 3: missing required value for 'LastName' from CSV column 'Last Name'"
    );
    assert_eq!(
        fault(&config, vec![row(&[])]),
        "Row 2: missing required value for 'LastName' from CSV column 'Last Name'"
    );
    let lax = template("insert", vec![column("LastName", "Last Name", Some(false))]);
    assert!(build_objects(&lax, &vec![row(&[])], &cache()).is_ok());
}

#[test]
fn a_formula_at_fault() {
    let config = template("insert", vec![formula("Email", "upper(csv.Email)")]);
    assert_eq!(
        fault(&config, vec![row(&[])]),
        "Row 2: formula for 'Email': unknown function 'upper'"
    );
}

#[test]
fn a_reference_at_fault() {
    let config = template("insert", vec![reference("AccountId", "error")]);
    assert_eq!(
        fault(&config, vec![row(&[("Number", "7")]), row(&[("Number", "8")])]),
        "Row 3: reference for 'AccountId': No Account record matched any lookup rule"
    );
}

fn object(fields: &[(&str, &str)]) -> OutputObject {
    row(fields)
}

#[test]
fn inserting_needs_nothing() {
    let config = template("insert", vec![]);
    assert_eq!(validate_operation_requirements(&config, &vec![object(&[])]), Ok(()));
}

#[test]
fn updating_needs_ids() {
    let config = template("update", vec![]);
    assert_eq!(validate_operation_requirements(&config, &vec![]), Ok(()));
    assert_eq!(validate_operation_requirements(&config, &vec![object(&[("Id", "1")])]), Ok(()));
    assert_eq!(
        validate_operation_requirements(
            &config,
            &vec![object(&[("Id", "1")]), object(&[("Id", " ")]), object(&[])]
        ),
        Err("Row 3: update requires an Id field. Add a reference field with target: Id."
            .to_string())
    );
    assert_eq!(
        validate_operation_requirements(&config, &vec![object(&[("Name", "x")])]),
        Err("Row 2: update requires an Id field. Add a reference field with target: Id."
            .to_string())
    );
}

#[test]
fn other_operations_are_refused() {
    let config = template("upsert", vec![]);
    assert_eq!(
        validate_operation_requirements(&config, &vec![]),
        Err("Unsupported operation 'upsert'. Use insert or update.".to_string())
    );
}

#[test]
fn nothing_to_load() {
    let config = template("upsert", vec![]);
    assert!(matches!(load_objects_to_salesforce(&config, &vec![]), Ok(LoadPlan::Nothing)));
}

#[test]
fn objects_to_load() {
    let config = template("update", vec![]);
    let objects = vec![object(&[("Id", "1"), ("Name", "a, b")])];
    match load_objects_to_salesforce(&config, &objects) {
        Ok(LoadPlan::Upload(bytes)) => assert_eq!(bytes, b"Id,Name\r\n1,\"a, b\"\r\n"),
        _ => panic!("nothing to upload"),
    }
    match load_objects_to_salesforce(&config, &vec![object(&[("Name", "x")])]) {
        Err(LoadError::Message(message)) => assert_eq!(
            message,
            "Row 2: update requires an Id field. Add a reference field with target: Id."
        ),
        _ => panic!("no fault"),
    }
}
