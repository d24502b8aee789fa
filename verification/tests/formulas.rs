use sfdl::fields::CsvRow;
use sfdl::formula::{
    bool_text, eval_formula, expect_arg_count, is_plain_literal, FormulaParser, FormulaValue,
};

fn row(columns: &[(&str, &str)]) -> CsvRow {
    let mut row = CsvRow::new();
    for (name, value) in columns {
        row.insert(name.to_string(), value.to_string());
    }
    row
}

fn sample() -> CsvRow {
    row(&[
        ("Email", "  Ann@Example.COM "),
        ("Account Name", " Acme "),
        ("First", "Ann"),
        ("Last", "Lee"),
        ("odd \"name\" \\", "odd"),
        ("größe", "L"),
    ])
}

fn ok(formula: &str) -> String {
    match eval_formula(formula, &sample()) {
        Ok(value) => value,
        Err(message) => panic!("{}: {}", formula, message),
    }
}

fn err(formula: &str) -> String {
    match eval_formula(formula, &sample()) {
        Ok(value) => panic!("{} = {}", formula, value),
        Err(message) => message,
    }
}

#[test]
fn lower_trim_of_a_column() {
    assert_eq!(ok("lower(trim(csv.Email))"), "ann@example.com");
    assert_eq!(ok("trim(csv[\"Account Name\"])"), "Acme");
}

#[test]
fn both_accesses_agree() {
    assert_eq!(ok("csv.First"), "Ann");
    assert_eq!(ok("csv[\"First\"]"), "Ann");
    assert_eq!(ok("csv.größe"), "L");
    assert_eq!(ok("csv[\"größe\"]"), "L");
}

#[test]
fn a_column_of_any_name_is_read() {
    assert_eq!(ok("csv[\"odd \\\"name\\\" \\\\\"]"), "odd");
}

#[test]
fn a_missing_column_is_empty() {
    assert_eq!(ok("csv.Nothing"), "");
    assert_eq!(ok("csv[\"No such column\"]"), "");
}

#[test]
fn plain_text_stands_for_itself() {
    assert_eq!(ok("  New customer  "), "New customer");
    assert_eq!(ok(""), "");
    assert_eq!(ok("a, b) and \"c\""), "a, b) and \"c\"");
    assert_eq!(ok("csv"), "csv");
    assert_eq!(ok("csv [\"First\"]"), "csv [\"First\"]");
}

#[test]
fn plain_literals() {
    assert!(is_plain_literal("Customer"));
    assert!(is_plain_literal(""));
    assert!(is_plain_literal("csvx.Email"));
    assert!(is_plain_literal(" csv.Email"));
    assert!(is_plain_literal("a \"b\""));
    assert!(!is_plain_literal("trim(x)"));
    assert!(!is_plain_literal("a ("));
    assert!(!is_plain_literal("csv.Email"));
    assert!(!is_plain_literal("csv[\"Email\"]"));
    assert!(!is_plain_literal("\"x\""));
}

#[test]
fn quoted_text_is_given_back() {
    assert_eq!(ok("\"\""), "");
    assert_eq!(ok("\"a b\""), "a b");
    assert_eq!(ok("\"say \\\"hi\\\" \\\\ there\""), "say \"hi\" \\ there");
    assert_eq!(ok("\"a\\nb\\tc\\d\""), "a\nb\tcd");
    assert_eq!(ok("\"  kept  \""), "  kept  ");
}

#[test]
fn nested_calls_mean_what_they_are_made_of() {
    assert_eq!(
        ok("concat(csv.First,\" \",if(eq(csv.Last,\"Lee\"),lower(csv.Last),\"?\"))"),
        "Ann lee"
    );
    assert_eq!(
        ok(" concat ( csv . First , \"-\" , trim( csv [ \"Account Name\" ] ) ) "),
        "Ann-Acme"
    );
}

#[test]
fn concat_joins() {
    assert_eq!(ok("concat()"), "");
    assert_eq!(ok("concat(\"a\")"), "a");
    assert_eq!(ok("concat(\"a\",\"b\",\"c\")"), "abc");
    assert_eq!(ok("concat(\"a\",\"b\",)"), "ab");
    assert_eq!(ok("concat(a,b)"), "ab");
    assert_eq!(err("concat(\"a\",eq(a,a))"), "expected string");
}

#[test]
fn eq_compares() {
    assert_eq!(ok("eq(csv.First,\"Ann\")"), "true");
    assert_eq!(ok("eq(csv.First,csv.Last)"), "false");
    assert_eq!(ok("eq(Ann,csv.First)"), "true");
    assert_eq!(err("eq(eq(a,a),a)"), "expected string");
    assert_eq!(err("eq(a,eq(a,a))"), "expected string");
}

#[test]
fn if_takes_one_of_two() {
    assert_eq!(ok("if(eq(a,a),\"yes\",\"no\")"), "yes");
    assert_eq!(ok("if(eq(a,b),\"yes\",\"no\")"), "no");
    assert_eq!(ok("if(eq(a,b),\"yes\",eq(a,a))"), "true");
    assert_eq!(err("if(\"true\",a,b)"), "expected bool");
}

#[test]
fn lower_lowers() {
    assert_eq!(ok("lower(\"AbC xYz 1\")"), "abc xyz 1");
    assert_eq!(ok("lower(\"ÄÖÜ\")"), "äöü");
    assert_eq!(err("lower(eq(a,a))"), "expected string");
}

#[test]
fn trim_trims() {
    assert_eq!(ok("trim(\" \\n\\ta b\\n \")"), "a b");
    assert_eq!(ok("trim(\"\u{a0}\u{3000}x\u{2003}\")"), "x");
    assert_eq!(err("trim(eq(a,a))"), "expected string");
}

#[test]
fn argument_counts() {
    assert_eq!(err("trim()"), "trim expects 1 argument(s), got 0");
    assert_eq!(err("lower(a,b)"), "lower expects 1 argument(s), got 2");
    assert_eq!(err("eq(a)"), "eq expects 2 argument(s), got 1");
    assert_eq!(err("if(a,b)"), "if expects 3 argument(s), got 2");
    let many: Vec<FormulaValue> = (0..12).map(|_| FormulaValue::Bool(true)).collect();
    assert_eq!(
        expect_arg_count("f", &many, 10),
        Err("f expects 10 argument(s), got 12".to_string())
    );
    assert_eq!(expect_arg_count("f", &many, 12), Ok(()));
}

#[test]
fn faults_of_formulas() {
    assert_eq!(err("upper(csv.First)"), "unknown function 'upper'");
    assert_eq!(err("trim(csv.First"), "expected ',' or ')'");
    assert_eq!(err("trim(csv.First csv.Last)"), "expected ',' or ')'");
    assert_eq!(err("\"open"), "unterminated string");
    assert_eq!(err("\"open\\"), "unterminated escape sequence");
    assert_eq!(err("csv.First rest"), "unexpected trailing input near 'rest'");
    assert_eq!(err("\"a\" + \"b\""), "unexpected trailing input near '+ \"b\"'");
    assert_eq!(err("csv."), "expected identifier near ''");
    assert_eq!(err("csv.-x"), "expected identifier near '-x'");
    assert_eq!(err("(x)"), "expected identifier near '(x)'");
    assert_eq!(err("concat(a,,b)"), "expected identifier near ',b)'");
    assert_eq!(err("csv[First]"), "expected string");
    assert_eq!(err("csv[\"First\""), "expected ']' after csv[...]");
    assert_eq!(err("trim(csv)"), "expected csv.Field or csv[\"Field\"]");
}

#[test]
fn the_first_fault_counts() {
    assert_eq!(err("concat(upper(a),\"open"), "unknown function 'upper'");
    assert_eq!(err("concat(eq(a,a),nope(a))"), "unknown function 'nope'");
}

#[test]
fn values_as_text() {
    assert_eq!(FormulaValue::String("x".to_string()).as_string(), "x");
    assert_eq!(FormulaValue::Bool(true).as_string(), "true");
    assert_eq!(FormulaValue::Bool(false).as_string(), "false");
    assert_eq!(bool_text(true), "true");
    assert_eq!(bool_text(false), "false");
    assert_eq!(FormulaValue::String("x".to_string()).expect_string(), Ok("x".to_string()));
    assert_eq!(FormulaValue::Bool(true).expect_string(), Err("expected string".to_string()));
    assert_eq!(FormulaValue::Bool(true).expect_bool(), Ok(true));
    assert_eq!(
        FormulaValue::String("true".to_string()).expect_bool(),
        Err("expected bool".to_string())
    );
    assert!(matches!(FormulaValue::Bool(true).clone(), FormulaValue::Bool(true)));
    assert!(
        matches!(FormulaValue::String("x".to_string()).clone(), FormulaValue::String(s) if s == "x")
    );
}

#[test]
fn reading_step_by_step() {
    let columns = sample();
    let mut parser = FormulaParser::new("  né_1 (x", &columns);
    assert_eq!(parser.peek_char(), Some(' '));
    parser.skip_ws();
    assert_eq!(parser.remaining(), "né_1 (x");
    assert_eq!(parser.next_char(), Some('n'));
    assert!(!parser.consume_char('x'));
    assert!(parser.consume_char('é'));
    assert_eq!(parser.parse_ident(), Ok("_1".to_string()));
    assert!(!parser.is_eof());
    parser.skip_ws();
    assert!(parser.consume_char('('));
    assert_eq!(parser.next_char(), Some('x'));
    assert!(parser.is_eof());
    assert_eq!(parser.peek_char(), None);
    assert_eq!(parser.next_char(), None);
    assert_eq!(parser.remaining(), "");
}

#[test]
fn reading_parts_of_formulas() {
    let columns = sample();
    let mut parser = FormulaParser::new("\"a\\\"b\" .First) rest", &columns);
    assert_eq!(parser.parse_string(), Ok("a\"b".to_string()));
    assert_eq!(parser.parse_csv_access(), Ok("Ann".to_string()));
    assert!(matches!(parser.parse_args(), Ok(args) if args.is_empty()));
    assert!(matches!(parser.parse_expr(), Ok(FormulaValue::String(s)) if s == "rest"));
    let parser = FormulaParser::new("", &columns);
    assert!(matches!(
        parser.eval_function("trim", vec![FormulaValue::String(" x ".to_string())]),
        Ok(FormulaValue::String(s)) if s == "x"
    ));
}
