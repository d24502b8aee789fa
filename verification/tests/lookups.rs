use sfdl::cache::{LookupCache, LookupCacheKey};
use sfdl::fields::CsvRow;
use sfdl::keys::collect_lookup_values;
use sfdl::lookup::{build_lookup_cache, resolve_reference, FieldValue, SfRecord};
use sfdl::queries::{
    group_lookup_keys, lookup_query, plan_batches, soql_escape, soql_string, LookupGroup,
};
use sfdl::template::{
    TemplateConfig, TemplateField, TemplateLookup, TemplateMatchRule, TemplateOptions,
    TemplateTarget,
};

fn lookup(rules: &[(&str, &str)], on_missing: &str, on_multiple: &str, strategy: &str)
    -> TemplateLookup {
    TemplateLookup {
        object: "Account".to_string(),
        strategy: strategy.to_string(),
        match_rules: rules
            .iter()
            .map(|(field, value)| TemplateMatchRule {
                field: field.to_string(),
                value: value.to_string(),
            })
            .collect(),
        on_missing: on_missing.to_string(),
        on_multiple: on_multiple.to_string(),
    }
}

fn by_number() -> TemplateLookup {
    lookup(&[("AccountNumber", "trim(csv[\"Account Number\"])")], "error", "error", "first_match")
}

fn template(lookups: Vec<TemplateLookup>) -> TemplateConfig {
    TemplateConfig {
        name: "Contacts".to_string(),
        version: 1,
        description: "Contacts of accounts".to_string(),
        target: TemplateTarget { object: "Contact".to_string(), operation: "insert".to_string() },
        options: TemplateOptions { strict_headers: true },
        fields: lookups
            .into_iter()
            .map(|lookup| TemplateField::Reference { target: "AccountId".to_string(), lookup })
            .collect(),
    }
}

fn row(columns: &[(&str, &str)]) -> CsvRow {
    let mut row = CsvRow::new();
    for (name, value) in columns {
        row.insert(name.to_string(), value.to_string());
    }
    row
}

fn numbered(value: &str) -> CsvRow {
    row(&[("Account Number", value)])
}

fn key(object: &str, field: &str, value: &str) -> LookupCacheKey {
    LookupCacheKey {
        object: object.to_string(),
        field: field.to_string(),
        value: value.to_string(),
    }
}

fn shown(key: &LookupCacheKey) -> String {
    format!("{}.{}={}", key.object, key.field, key.value)
}

fn record(fields: &[(&str, &str)]) -> SfRecord {
    SfRecord {
        fields: fields
            .iter()
            .map(|(name, value)| (name.to_string(), FieldValue::Text(value.to_string())))
            .collect(),
    }
}

#[test]
fn keys_are_asked_for_once() {
    let config = template(vec![by_number()]);
    let rows = vec![
        numbered(" A-1 "),
        numbered("A-2"),
        numbered("  "),
        numbered("A-1"),
        row(&[("Other", "x")]),
    ];
    let keys = collect_lookup_values(&config, &rows).unwrap();
    let keys: Vec<String> = keys.iter().map(shown).collect();
    assert_eq!(keys, vec!["Account.AccountNumber=A-1", "Account.AccountNumber=A-2"]);
}

#[test]
fn no_references_ask_for_nothing() {
    let mut config = template(vec![]);
    config.fields.push(TemplateField::Formula {
        target: "A".to_string(),
        expr: "nope(".to_string(),
    });
    config.fields.push(TemplateField::Column {
        target: "B".to_string(),
        source: "B".to_string(),
        required: Some(true),
    });
    assert!(collect_lookup_values(&config, &vec![numbered("1")]).unwrap().is_empty());
    let run = build_lookup_cache(&config, &vec![numbered("1")]).unwrap();
    assert!(run.next_batch().is_none());
    assert!(run.next_query().is_none());
}

#[test]
fn a_lookup_formula_at_fault_names_its_row() {
    let config = template(vec![lookup(
        &[("Name", "if(eq(csv.A,\"\"),a,nope(csv.A))")],
        "error",
        "error",
        "first_match",
    )]);
    let rows = vec![row(&[("A", "x")])];
    assert_eq!(
        collect_lookup_values(&config, &rows).unwrap_err(),
        "Row 2: lookup formula error: unknown function 'nope'"
    );
    let config = template(vec![lookup(&[("Name", "csv.A extra")], "", "", "")]);
    let rows = vec![row(&[("A", "x")])];
    assert!(matches!(
        build_lookup_cache(&config, &rows),
        Err(message) if message
            == "Row 2: lookup formula error: unexpected trailing input near 'extra'"
    ));
}

#[test]
fn keys_are_grouped_by_kind_and_field() {
    let groups = group_lookup_keys(vec![
        key("Account", "Name", "a"),
        key("Contact", "Name", "b"),
        key("Account", "Name", "c"),
        key("Account", "Number", "a"),
    ]);
    let groups: Vec<(String, String, Vec<String>)> =
        groups.into_iter().map(|g| (g.object, g.field, g.values)).collect();
    assert_eq!(
        groups,
        vec![
            (
                "Account".to_string(),
                "Name".to_string(),
                vec!["a".to_string(), "c".to_string()]
            ),
            ("Contact".to_string(), "Name".to_string(), vec!["b".to_string()]),
            ("Account".to_string(), "Number".to_string(), vec!["a".to_string()]),
        ]
    );
}

fn group_of(n: usize) -> LookupGroup {
    LookupGroup {
        object: "Account".to_string(),
        field: "Name".to_string(),
        values: (0..n).map(|i| i.to_string()).collect(),
    }
}

#[test]
fn batches_hold_at_most_a_hundred_values() {
    assert!(plan_batches(&vec![group_of(0)]).is_empty());
    let sizes = |n: usize| -> Vec<usize> {
        plan_batches(&vec![group_of(n)]).iter().map(|b| b.values.len()).collect()
    };
    assert_eq!(sizes(1), vec![1]);
    assert_eq!(sizes(100), vec![100]);
    assert_eq!(sizes(101), vec![100, 1]);
    assert_eq!(sizes(250), vec![100, 100, 50]);
}

#[test]
fn batches_ask_for_every_value_once() {
    let batches = plan_batches(&vec![group_of(250), group_of(3)]);
    let values: Vec<String> = batches.iter().flat_map(|b| b.values.clone()).collect();
    let expected: Vec<String> =
        (0..250).chain(0..3).map(|i: usize| i.to_string()).collect();
    assert_eq!(values, expected);
    assert!(batches.iter().all(|b| b.object == "Account" && b.field == "Name"));
}

#[test]
fn literals_are_escaped() {
    assert_eq!(soql_escape("O'Brien \\ Sons"), "O\\'Brien \\\\ Sons");
    assert_eq!(soql_string("O'Brien"), "'O\\'Brien'");
    assert_eq!(soql_string(""), "''");
    assert_ne!(soql_string("a\\"), soql_string("a'"));
    assert_ne!(soql_string("\\'"), soql_string("'"));
}

#[test]
fn queries() {
    let group = LookupGroup {
        object: "Account".to_string(),
        field: "AccountNumber".to_string(),
        values: vec!["A-1".to_string(), "B'2".to_string()],
    };
    assert_eq!(
        lookup_query(&group),
        "SELECT Id, AccountNumber FROM Account WHERE AccountNumber IN ('A-1', 'B\\'2')"
    );
}

#[test]
fn a_run_from_rows_to_ids() {
    let config = template(vec![by_number()]);
    let rows: Vec<CsvRow> = (0..150).map(|i| numbered(&format!("A-{}", i))).collect();
    let mut run = build_lookup_cache(&config, &rows).unwrap();
    let mut queries = 0;
    loop {
        let values: Vec<String> = match run.next_batch() {
            Some(batch) => batch.values.clone(),
            None => break,
        };
        assert!(run.next_query().unwrap().starts_with("SELECT Id, AccountNumber FROM Account"));
        let records: Vec<SfRecord> = values
            .iter()
            .map(|v| record(&[("Id", &format!("id of {}", v)), ("AccountNumber", v)]))
            .collect();
        run.answer(&records);
        queries += 1;
    }
    assert_eq!(queries, 2);
    let cache = run.into_cache();
    for i in 0..150 {
        assert_eq!(
            resolve_reference(&rows[i], &by_number(), &cache),
            Ok(Some(format!("id of A-{}", i)))
        );
    }
}

#[test]
fn records_without_texts_do_not_count() {
    let config = template(vec![by_number()]);
    let rows = vec![numbered("1"), numbered("2")];
    let mut run = build_lookup_cache(&config, &rows).unwrap();
    run.answer(&vec![
        record(&[("Id", "x")]),
        record(&[("AccountNumber", "1")]),
        SfRecord {
            fields: vec![
                ("Id".to_string(), FieldValue::Text("y".to_string())),
                ("AccountNumber".to_string(), FieldValue::Other),
            ],
        },
        SfRecord {
            fields: vec![
                ("Id".to_string(), FieldValue::Other),
                ("AccountNumber".to_string(), FieldValue::Text("1".to_string())),
            ],
        },
        record(&[("Id", "z"), ("AccountNumber", "2")]),
    ]);
    let cache = run.into_cache();
    assert!(cache.get(&key("Account", "AccountNumber", "1")).is_none());
    assert_eq!(cache.get(&key("Account", "AccountNumber", "2")), Some(&vec!["z".to_string()]));
}

#[test]
fn fields_of_a_record() {
    let record = SfRecord {
        fields: vec![
            ("A".to_string(), FieldValue::Other),
            ("B".to_string(), FieldValue::Text("b".to_string())),
        ],
    };
    assert_eq!(record.text("A"), None);
    assert_eq!(record.text("B").map(|s| s.as_str()), Some("b"));
    assert_eq!(record.text("C"), None);
}

fn cache_of(entries: &[(&str, &str, &str)]) -> LookupCache {
    let mut cache = LookupCache::new();
    for (field, value, id) in entries {
        cache.push(&key("Account", field, value), id.to_string());
    }
    cache
}

#[test]
fn the_cache_keeps_keys_apart() {
    let mut cache = cache_of(&[("Name", "a", "1"), ("Number", "a", "2"), ("Name", "a", "3")]);
    assert_eq!(
        cache.get(&key("Account", "Name", "a")),
        Some(&vec!["1".to_string(), "3".to_string()])
    );
    assert_eq!(cache.get(&key("Account", "Number", "a")), Some(&vec!["2".to_string()]));
    assert_eq!(cache.get(&key("Contact", "Name", "a")), None);
    assert_eq!(cache.get(&key("Account", "Name", "b")), None);
    cache.add(&key("Contact", "Name", "a"));
    assert_eq!(cache.get(&key("Contact", "Name", "a")), Some(&Vec::new()));
    cache.add(&key("Account", "Number", "a"));
    assert_eq!(cache.get(&key("Account", "Number", "a")), Some(&vec!["2".to_string()]));
}

#[test]
fn the_first_rule_that_finds_anything_wins() {
    let rules = lookup(
        &[("Number", "csv.Number"), ("Name", "csv.Name")],
        "error",
        "error",
        "first_match",
    );
    let cache = cache_of(&[("Number", "7", "by number"), ("Name", "Acme", "by name")]);
    let resolved = |number: &str, name: &str| {
        resolve_reference(&row(&[("Number", number), ("Name", name)]), &rules, &cache)
    };
    assert_eq!(resolved(" 7 ", "Acme"), Ok(Some("by number".to_string())));
    assert_eq!(resolved("8", "Acme"), Ok(Some("by name".to_string())));
    assert_eq!(resolved("  ", "Acme"), Ok(Some("by name".to_string())));
    assert_eq!(
        resolved("8", "Other"),
        Err("No Account record matched any lookup rule".to_string())
    );
}

#[test]
fn nothing_found() {
    let cache = LookupCache::new();
    let lax = lookup(&[("Number", "csv.Number")], "ignore", "error", "first_match");
    assert_eq!(resolve_reference(&row(&[("Number", "1")]), &lax, &cache), Ok(None));
    let none = lookup(&[], "error", "error", "first_match");
    assert_eq!(
        resolve_reference(&row(&[]), &none, &cache),
        Err("No Account record matched any lookup rule".to_string())
    );
}

#[test]
fn several_found() {
    let cache = cache_of(&[("Number", "1", "a"), ("Number", "1", "b")]);
    let rules = &[("Number", "csv.Number")];
    let one = row(&[("Number", "1")]);
    assert_eq!(
        resolve_reference(&one, &lookup(rules, "error", "error", "first_match"), &cache),
        Err("Multiple Account records matched Number = '1'".to_string())
    );
    assert_eq!(
        resolve_reference(&one, &lookup(rules, "error", "first", "first_match"), &cache),
        Ok(Some("a".to_string()))
    );
    assert_eq!(
        resolve_reference(&one, &lookup(rules, "error", "first", "newest"), &cache),
        Err("Multiple matches found but unsupported strategy 'newest'".to_string())
    );
}

#[test]
fn a_rule_at_fault() {
    let rules = lookup(&[("Number", "upper(csv.Number)")], "ignore", "error", "first_match");
    assert_eq!(
        resolve_reference(&row(&[]), &rules, &LookupCache::new()),
        Err("unknown function 'upper'".to_string())
    );
}

#[test]
fn answers_leave_other_keys_alone() {
    let config = template(vec![
        lookup(&[("Name", "csv.Name")], "error", "error", "first_match"),
        lookup(&[("Number", "csv.Number")], "error", "error", "first_match"),
    ]);
    let rows = vec![row(&[("Name", "7"), ("Number", "7")])];
    let mut run = build_lookup_cache(&config, &rows).unwrap();
    assert_eq!(
        run.next_query().unwrap(),
        "SELECT Id, Name FROM Account WHERE Name IN ('7')"
    );
    run.answer(&vec![record(&[("Id", "by name"), ("Name", "7"), ("Number", "7")])]);
    assert_eq!(
        run.next_query().unwrap(),
        "SELECT Id, Number FROM Account WHERE Number IN ('7')"
    );
    run.answer(&vec![
        record(&[("Id", "by number"), ("Name", "7"), ("Number", "7")]),
        record(&[("Id", "other"), ("Number", "8")]),
    ]);
    assert!(run.next_query().is_none());
    let cache = run.into_cache();
    assert_eq!(cache.get(&key("Account", "Name", "7")), Some(&vec!["by name".to_string()]));
    assert_eq!(cache.get(&key("Account", "Number", "7")), Some(&vec!["by number".to_string()]));
    assert_eq!(cache.get(&key("Account", "Number", "8")), Some(&vec!["other".to_string()]));
}

#[test]
fn rows_that_could_ask_can_be_resolved() {
    let rules = lookup(
        &[("Number", "if(eq(csv.A,\"x\"),csv.B,upper)")],
        "error",
        "error",
        "first_match",
    );
    let rows = vec![row(&[("A", "x"), ("B", "1")]), row(&[("A", "y")]), row(&[("A", "x")])];
    let config = template(vec![lookup(
        &[("Number", "if(eq(csv.A,\"x\"),csv.B,upper)")],
        "error",
        "error",
        "first_match",
    )]);
    assert!(collect_lookup_values(&config, &rows).is_ok());
    let missing = Err("No Account record matched any lookup rule".to_string());
    for row in &rows {
        assert_eq!(resolve_reference(row, &rules, &LookupCache::new()), missing);
    }
}
