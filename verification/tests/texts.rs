use sfdl::fields::CsvRow;
use sfdl::formula::eval_formula;
use sfdl::text::{characters, decimal_text, text_of};

fn white_space(c: char) -> bool {
    matches!(
        c,
        '\u{9}'..='\u{d}'
            | ' '
            | '\u{85}'
            | '\u{a0}'
            | '\u{1680}'
            | '\u{2000}'..='\u{200a}'
            | '\u{2028}'
            | '\u{2029}'
            | '\u{202f}'
            | '\u{205f}'
            | '\u{3000}'
    )
}

#[test]
fn the_characters_that_trimming_drops() {
    let row = CsvRow::new();
    for c in '\u{0}'..=char::MAX {
        if c == '"' || c == '\\' {
            continue;
        }
        let formula = format!("trim(\"{}\")", c);
        let expected = if white_space(c) { String::new() } else { c.to_string() };
        assert_eq!(eval_formula(&formula, &row), Ok(expected));
    }
}

#[test]
fn the_characters_of_identifiers_within_ascii() {
    let row = CsvRow::new();
    for c in '\u{0}'..='\u{7f}' {
        let formula = format!("concat({})", c);
        let value = eval_formula(&formula, &row);
        if c.is_ascii_alphanumeric() || c == '_' {
            assert_eq!(value, Ok(c.to_string()));
        } else if white_space(c) || c == ')' {
            assert_ne!(value, Ok(c.to_string()));
        } else {
            assert!(value.is_err());
        }
    }
}

#[test]
fn white_space_ends_an_identifier() {
    let row = CsvRow::new();
    for c in ('\u{0}'..=char::MAX).filter(|c| white_space(*c)) {
        assert_eq!(eval_formula(&format!("concat(a{},b)", c), &row), Ok("ab".to_string()));
    }
}

#[test]
fn letters_and_numbers_beyond_ascii() {
    let row = CsvRow::new();
    for c in ['é', 'ß', 'Ж', '中', '٣', '²'] {
        assert_eq!(eval_formula(&format!("concat({})", c), &row), Ok(c.to_string()));
    }
    for c in ['€', '–', '\u{200b}', '😀'] {
        assert!(eval_formula(&format!("concat({})", c), &row).is_err());
    }
}

#[test]
fn lower_case_within_ascii() {
    let row = CsvRow::new();
    for c in 'A'..='Z' {
        let lower = ((c as u8) + 32) as char;
        assert_eq!(eval_formula(&format!("lower({})", c), &row), Ok(lower.to_string()));
        assert_eq!(eval_formula(&format!("lower({})", lower), &row), Ok(lower.to_string()));
    }
}

#[test]
fn decimal_notation() {
    assert_eq!(decimal_text(0), "0");
    assert_eq!(decimal_text(9), "9");
    assert_eq!(decimal_text(10), "10");
    assert_eq!(decimal_text(1234567890), "1234567890");
    assert_eq!(decimal_text(u128::MAX), u128::MAX.to_string());
}

#[test]
fn characters_and_back() {
    let chars = characters("añb€");
    assert_eq!(chars, vec!['a', 'ñ', 'b', '€']);
    assert_eq!(text_of(&chars, 0, 4), "añb€");
    assert_eq!(text_of(&chars, 1, 3), "ñb");
    assert_eq!(text_of(&chars, 2, 2), "");
}

#[test]
fn a_row_keeps_the_last_value_of_a_name() {
    let mut row = CsvRow::new();
    assert!(row.get("A").is_none());
    row.insert("A".to_string(), "1".to_string());
    row.insert("B".to_string(), "  ".to_string());
    row.insert("A".to_string(), "2".to_string());
    assert_eq!(row.get("A").map(|s| s.as_str()), Some("2"));
    assert_eq!(row.get("B").map(|s| s.as_str()), Some("  "));
    let mut names = row.keys();
    names.sort();
    assert_eq!(names, vec!["A", "B"]);
    assert!(row.has_text());
    row.insert("A".to_string(), "\t".to_string());
    assert!(!row.has_text());
}
