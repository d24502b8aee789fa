//! Evaluating formulas.

use vstd::prelude::*;
use vstd::string::*;

use crate::fields::CsvRow;
use crate::grammar;
use crate::grammar::{Step, Datum};
use crate::text;
use crate::text::{characters, decimal_text, text_eq, text_of, Text};

verus! {

/// A value of the formula language.
#[derive(Debug)]
pub enum FormulaValue {
    String(String),
    Bool(bool),
}

impl View for FormulaValue {
    type V = Datum;

    open spec fn view(&self) -> Datum {
        match self {
            FormulaValue::String(s) => Datum::Str(s@),
            FormulaValue::Bool(b) => Datum::Bool(*b),
        }
    }
}

impl Clone for FormulaValue {
    fn clone(&self) -> (r: FormulaValue)
        ensures
            r@ == self@,
    {
        match self {
            FormulaValue::String(s) => FormulaValue::String(s.clone()),
            FormulaValue::Bool(b) => FormulaValue::Bool(*b),
        }
    }
}

/// The views of a vector of values.
pub open spec fn values(args: Seq<FormulaValue>) -> Seq<Datum> {
    args.map_values(|v: FormulaValue| v@)
}

impl FormulaValue {
    /// The text of the value.
    pub fn as_string(self) -> (r: String)
        ensures
            r@ == grammar::value_text(self@),
    {
        match self {
            FormulaValue::String(s) => s,
            FormulaValue::Bool(b) => bool_text(b),
        }
    }

    /// The string, where the value is one.
    pub fn expect_string(self) -> (r: Result<String, String>)
        ensures
            match r {
                Ok(s) => self@ == Datum::Str(s@),
                Err(message) => self@ is Bool && message@ == "expected string"@,
            },
    {
        match self {
            FormulaValue::String(s) => Ok(s),
            FormulaValue::Bool(_) => Err("expected string".to_string()),
        }
    }

    /// The truth value, where the value is one.
    pub fn expect_bool(self) -> (r: Result<bool, String>)
        ensures
            match r {
                Ok(b) => self@ == Datum::Bool(b),
                Err(message) => self@ is Str && message@ == "expected bool"@,
            },
    {
        match self {
            FormulaValue::Bool(b) => Ok(b),
            FormulaValue::String(_) => Err("expected bool".to_string()),
        }
    }
}

/// `true` or `false`.
pub fn bool_text(b: bool) -> (r: String)
    ensures
        r@ == text::truth_text(b),
{
    if b {
        "true".to_string()
    } else {
        "false".to_string()
    }
}

/// `r` is what `step` yields.
pub open spec fn yields(r: Result<String, String>, step: Step<Text>) -> bool {
    match r {
        Ok(s) => step.outcome == Ok::<Text, Text>(s@),
        Err(message) => step.outcome == Err::<Text, Text>(message@),
    }
}

/// `r` is the value that `outcome` is.
pub open spec fn yields_value(
    r: Result<FormulaValue, String>,
    outcome: Result<Datum, Text>,
) -> bool {
    match r {
        Ok(v) => outcome == Ok::<Datum, Text>(v@),
        Err(message) => outcome == Err::<Datum, Text>(message@),
    }
}

/// Fails where the number of arguments is not the expected one.
pub fn expect_arg_count(name: &str, args: &Vec<FormulaValue>, expected: usize) -> (r: Result<
    (),
    String,
>)
    ensures
        match r {
            Ok(_) => args@.len() == expected,
            Err(message) => args@.len() != expected && message@ == grammar::arg_count_message(
                name@,
                expected as nat,
                args@.len(),
            ),
        },
{
    if args.len() != expected {
        let mut message = name.to_string();
        message.append(" expects ");
        message.append(decimal_text(expected as u128).as_str());
        message.append(" argument(s), got ");
        message.append(decimal_text(args.len() as u128).as_str());
        return Err(message);
    }
    Ok(())
}

/// A reader of one formula, which evaluates it on one row as it reads.
pub struct FormulaParser<'a> {
    input: Vec<char>,
    pos: usize,
    row: &'a CsvRow,
}

impl<'a> FormulaParser<'a> {
    /// The formula that is read.
    pub closed spec fn input(&self) -> Text {
        self.input@
    }

    /// The position reached, counted in characters.
    pub closed spec fn pos(&self) -> int {
        self.pos as int
    }

    /// The row that the formula is evaluated on.
    pub closed spec fn row(&self) -> Map<Text, Text> {
        self.row@
    }

    /// The position lies within the formula.
    #[verifier::type_invariant]
    spec fn inv(self) -> bool {
        self.pos <= self.input@.len()
    }

    /// The same formula and row.
    pub open spec fn same_source(&self, before: &FormulaParser) -> bool {
        &&& self.input() == before.input()
        &&& self.row() == before.row()
    }

    /// A reader at the start of `input`.
    pub fn new(input: &str, row: &'a CsvRow) -> (r: FormulaParser<'a>)
        ensures
            r.input() == input@,
            r.pos() == 0,
            r.row() == row@,
    {
        FormulaParser { input: characters(input), pos: 0, row }
    }

    /// The character at the position, if there is one.
    pub fn peek_char(&self) -> (r: Option<char>)
        ensures
            r == (if self.pos() < self.input().len() {
                Some(self.input()[self.pos()])
            } else {
                None
            }),
    {
        proof {
            use_type_invariant(self);
        }
        if self.pos < self.input.len() {
            Some(self.input[self.pos])
        } else {
            None
        }
    }

    /// The character at the position, which is passed.
    pub fn next_char(&mut self) -> (r: Option<char>)
        ensures
            final(self).same_source(old(self)),
            if old(self).pos() < old(self).input().len() {
                &&& r == Some(old(self).input()[old(self).pos()])
                &&& final(self).pos() == old(self).pos() + 1
            } else {
                &&& r is None
                &&& final(self).pos() == old(self).pos()
            },
    {
        proof {
            use_type_invariant(&*self);
        }
        if self.pos < self.input.len() {
            let c = self.input[self.pos];
            self.pos = self.pos + 1;
            Some(c)
        } else {
            None
        }
    }

    /// Passes `expected` where it stands at the position.
    pub fn consume_char(&mut self, expected: char) -> (r: bool)
        ensures
            final(self).same_source(old(self)),
            r == grammar::char_at(old(self).input(), old(self).pos(), expected),
            final(self).pos() == (if r {
                old(self).pos() + 1
            } else {
                old(self).pos()
            }),
    {
        proof {
            use_type_invariant(&*self);
        }
        if self.pos < self.input.len() && self.input[self.pos] == expected {
            self.pos = self.pos + 1;
            true
        } else {
            false
        }
    }

    /// Passes the white space at the position.
    pub fn skip_ws(&mut self)
        ensures
            final(self).same_source(old(self)),
            final(self).pos() == grammar::skip_space(old(self).input(), old(self).pos()),
    {
        proof {
            use_type_invariant(&*self);
        }
        let ghost input = self.input@;
        let ghost start = self.pos as int;
        while self.pos < self.input.len() && self.input[self.pos].is_whitespace()
            invariant
                self.input@ == input,
                self.row@ == old(self).row@,
                self.pos <= self.input@.len(),
                grammar::skip_space(input, self.pos as int) == grammar::skip_space(input, start),
            decreases self.input@.len() - self.pos,
        {
            self.pos = self.pos + 1;
        }
    }

    /// Whether the whole formula has been read.
    pub fn is_eof(&self) -> (r: bool)
        ensures
            r == (self.pos() == self.input().len()),
    {
        proof {
            use_type_invariant(self);
        }
        self.pos >= self.input.len()
    }

    /// What has not been read.
    pub fn remaining(&self) -> (r: String)
        ensures
            r@ == self.input().skip(self.pos()),
    {
        proof {
            use_type_invariant(self);
        }
        text_of(&self.input, self.pos, self.input.len())
    }

    /// Reads an identifier.
    pub fn parse_ident(&mut self) -> (r: Result<String, String>)
        ensures
            final(self).same_source(old(self)),
            yields(r, grammar::ident_at(old(self).input(), old(self).pos())),
            final(self).pos() == grammar::ident_at(old(self).input(), old(self).pos()).pos,
    {
        self.skip_ws();
        proof {
            use_type_invariant(&*self);
        }
        let ghost input = self.input@;
        let start = self.pos;
        while self.pos < self.input.len() && (self.input[self.pos].is_alphanumeric()
            || self.input[self.pos] == '_')
            invariant
                self.input@ == input,
                self.row@ == old(self).row@,
                start <= self.pos <= self.input@.len(),
                grammar::ident_end(input, self.pos as int) == grammar::ident_end(
                    input,
                    start as int,
                ),
            decreases self.input@.len() - self.pos,
        {
            self.pos = self.pos + 1;
        }
        if self.pos == start {
            let mut message = "expected identifier near '".to_string();
            message.append(self.remaining().as_str());
            message.append("'");
            return Err(message);
        }
        Ok(text_of(&self.input, start, self.pos))
    }

    /// Reads a quoted string.
    pub fn parse_string(&mut self) -> (r: Result<String, String>)
        ensures
            final(self).same_source(old(self)),
            yields(r, grammar::string_at(old(self).input(), old(self).pos())),
            final(self).pos() == grammar::string_at(old(self).input(), old(self).pos()).pos,
    {
        proof {
            use_type_invariant(&*self);
        }
        if !self.consume_char('"') {
            return Err("expected string".to_string());
        }
        let ghost input = self.input@;
        let ghost start = self.pos as int;
        let mut out = String::new();
        while self.pos < self.input.len()
            invariant
                self.input@ == input,
                self.row@ == old(self).row@,
                self.pos <= self.input@.len(),
                input == old(self).input(),
                start == old(self).pos() + 1,
                grammar::char_at(input, start - 1, '"'),
                grammar::string_rest(input, self.pos as int, out@) == grammar::string_rest(
                    input,
                    start,
                    Seq::empty(),
                ),
            decreases self.input@.len() - self.pos,
        {
            let c = self.input[self.pos];
            self.pos = self.pos + 1;
            if c == '"' {
                return Ok(out);
            }
            if c == '\\' {
                if self.pos >= self.input.len() {
                    return Err("unterminated escape sequence".to_string());
                }
                let escaped = self.input[self.pos];
                self.pos = self.pos + 1;
                if escaped == 'n' {
                    out.push('\n');
                } else if escaped == 't' {
                    out.push('\t');
                } else {
                    out.push(escaped);
                }
            } else {
                out.push(c);
            }
        }
        Err("unterminated string".to_string())
    }

    /// Reads the access of a column, after `csv`.
    pub fn parse_csv_access(&mut self) -> (r: Result<String, String>)
        ensures
            final(self).same_source(old(self)),
            yields(
                r,
                grammar::access_at(old(self).input(), old(self).pos(), old(self).row()),
            ),
            final(self).pos() == grammar::access_at(
                old(self).input(),
                old(self).pos(),
                old(self).row(),
            ).pos,
    {
        self.skip_ws();
        let key = if self.consume_char('.') {
            match self.parse_ident() {
                Ok(key) => key,
                Err(message) => return Err(message),
            }
        } else if self.consume_char('[') {
            self.skip_ws();
            let key = match self.parse_string() {
                Ok(key) => key,
                Err(message) => return Err(message),
            };
            self.skip_ws();
            if !self.consume_char(']') {
                return Err("expected ']' after csv[...]".to_string());
            }
            key
        } else {
            return Err("expected csv.Field or csv[\"Field\"]".to_string());
        };
        match self.row.get(key.as_str()) {
            Some(value) => Ok(value.clone()),
            None => Ok(String::new()),
        }
    }

    /// Reads and evaluates an expression.
    pub fn parse_expr(&mut self) -> (r: Result<FormulaValue, String>)
        ensures
            final(self).same_source(old(self)),
            yields_value(
                r,
                grammar::expr_at(old(self).input(), old(self).pos(), old(self).row()).outcome,
            ),
            final(self).pos() == grammar::expr_at(
                old(self).input(),
                old(self).pos(),
                old(self).row(),
            ).pos,
        decreases old(self).input().len() - old(self).pos(), 0nat,
    {
        let ghost input = self.input@;
        let ghost p = self.pos as int;
        proof {
            use_type_invariant(&*self);
            grammar::lemma_skip_space(input, p);
            grammar::lemma_ident(input, grammar::skip_space(input, p));
        }
        self.skip_ws();
        if self.peek_char() == Some('"') {
            return match self.parse_string() {
                Ok(s) => Ok(FormulaValue::String(s)),
                Err(message) => Err(message),
            };
        }
        let ident = match self.parse_ident() {
            Ok(ident) => ident,
            Err(message) => return Err(message),
        };
        if text_eq(ident.as_str(), "csv") {
            return match self.parse_csv_access() {
                Ok(s) => Ok(FormulaValue::String(s)),
                Err(message) => Err(message),
            };
        }
        proof {
            grammar::lemma_skip_space(input, self.pos as int);
        }
        self.skip_ws();
        if self.consume_char('(') {
            let args = match self.parse_args() {
                Ok(args) => args,
                Err(message) => return Err(message),
            };
            return self.eval_function(ident.as_str(), args);
        }
        Ok(FormulaValue::String(ident))
    }

    /// Reads and evaluates the arguments of a call, after the opening
    /// parenthesis.
    pub fn parse_args(&mut self) -> (r: Result<Vec<FormulaValue>, String>)
        ensures
            final(self).same_source(old(self)),
            match r {
                Ok(args) => grammar::args_at(
                    old(self).input(),
                    old(self).pos(),
                    old(self).row(),
                ).outcome == Ok::<Seq<Datum>, Text>(values(args@)),
                Err(message) => grammar::args_at(
                    old(self).input(),
                    old(self).pos(),
                    old(self).row(),
                ).outcome == Err::<Seq<Datum>, Text>(message@),
            },
            final(self).pos() == grammar::args_at(
                old(self).input(),
                old(self).pos(),
                old(self).row(),
            ).pos,
        decreases old(self).input().len() - old(self).pos(), 1nat,
    {
        proof {
            use_type_invariant(&*self);
        }
        let ghost input = self.input@;
        let ghost row = self.row@;
        let ghost whole = grammar::args_at(input, self.pos as int, row);
        let mut args: Vec<FormulaValue> = Vec::new();
        loop
            invariant
                self.input@ == input,
                self.row@ == row,
                input == old(self).input(),
                row == old(self).row(),
                old(self).pos() <= self.pos <= self.input@.len(),
                whole == grammar::args_at(input, old(self).pos(), row),
                ({
                    let rest = grammar::args_at(input, self.pos as int, row);
                    &&& whole.pos == rest.pos
                    &&& match rest.outcome {
                        Ok(vs) => whole.outcome == Ok::<Seq<Datum>, Text>(values(args@) + vs),
                        Err(message) => whole.outcome == Err::<Seq<Datum>, Text>(message),
                    }
                }),
            decreases self.input@.len() - self.pos,
        {
            let ghost p = self.pos as int;
            let ghost before = args@;
            proof {
                grammar::lemma_skip_space(input, p);
            }
            self.skip_ws();
            if self.consume_char(')') {
                assert(values(args@) + Seq::<Datum>::empty() =~= values(args@));
                return Ok(args);
            }
            proof {
                grammar::lemma_expr_progress(input, self.pos as int, row);
                grammar::lemma_skip_space(
                    input,
                    grammar::expr_at(input, self.pos as int, row).pos,
                );
            }
            let value = match self.parse_expr() {
                Ok(value) => value,
                Err(message) => return Err(message),
            };
            let ghost v = value@;
            args.push(value);
            assert(values(args@) =~= values(before) + seq![v]);
            self.skip_ws();
            if self.consume_char(',') {
                proof {
                    let rest = grammar::args_at(input, self.pos as int, row);
                    if rest.outcome is Ok {
                        assert(values(before) + (seq![v] + rest.outcome->Ok_0) =~= values(args@)
                            + rest.outcome->Ok_0);
                    }
                }
                continue;
            }
            if self.consume_char(')') {
                return Ok(args);
            }
            return Err("expected ',' or ')'".to_string());
        }
    }

    /// The value of the function `name` on `args`.
    pub fn eval_function(&self, name: &str, args: Vec<FormulaValue>) -> (r: Result<
        FormulaValue,
        String,
    >)
        ensures
            yields_value(r, grammar::applied(name@, values(args@))),
    {
        proof {
            assert(forall|i: int| 0 <= i < args@.len() ==> values(args@)[i] == args@[i]@);
        }
        if text_eq(name, "trim") {
            match expect_arg_count(name, &args, 1) {
                Ok(_) => {},
                Err(message) => return Err(message),
            }
            match args[0].clone().expect_string() {
                Ok(s) => Ok(FormulaValue::String(s.as_str().trim().to_string())),
                Err(message) => Err(message),
            }
        } else if text_eq(name, "lower") {
            match expect_arg_count(name, &args, 1) {
                Ok(_) => {},
                Err(message) => return Err(message),
            }
            match args[0].clone().expect_string() {
                Ok(s) => Ok(FormulaValue::String(s.as_str().to_lowercase())),
                Err(message) => Err(message),
            }
        } else if text_eq(name, "concat") {
            match concat_values(&args) {
                Ok(s) => Ok(FormulaValue::String(s)),
                Err(message) => Err(message),
            }
        } else if text_eq(name, "eq") {
            match expect_arg_count(name, &args, 2) {
                Ok(_) => {},
                Err(message) => return Err(message),
            }
            let left = match args[0].clone().expect_string() {
                Ok(s) => s,
                Err(message) => return Err(message),
            };
            let right = match args[1].clone().expect_string() {
                Ok(s) => s,
                Err(message) => return Err(message),
            };
            Ok(FormulaValue::Bool(left == right))
        } else if text_eq(name, "if") {
            match expect_arg_count(name, &args, 3) {
                Ok(_) => {},
                Err(message) => return Err(message),
            }
            match args[0].clone().expect_bool() {
                Ok(condition) => if condition {
                    Ok(args[1].clone())
                } else {
                    Ok(args[2].clone())
                },
                Err(message) => Err(message),
            }
        } else {
            let mut message = "unknown function '".to_string();
            message.append(name);
            message.append("'");
            Err(message)
        }
    }
}

/// The arguments of `concat` joined.
fn concat_values(args: &Vec<FormulaValue>) -> (r: Result<String, String>)
    ensures
        match r {
            Ok(s) => grammar::concatenated(values(args@)) == Ok::<Text, Text>(s@),
            Err(message) => grammar::concatenated(values(args@)) == Err::<Text, Text>(message@),
        },
{
    let ghost vs = values(args@);
    let mut out = String::new();
    let mut i: usize = 0;
    while i < args.len()
        invariant
            i <= args@.len(),
            vs == values(args@),
            grammar::concatenated(vs.take(i as int)) == Ok::<Text, Text>(out@),
        decreases args@.len() - i,
    {
        proof {
            assert(vs.take(i + 1).drop_last() =~= vs.take(i as int));
            assert(vs.take(i + 1).last() == args@[i as int]@);
        }
        match args[i].clone().expect_string() {
            Ok(s) => out.append(s.as_str()),
            Err(message) => {
                proof {
                    lemma_concat_err(vs, i + 1);
                }
                return Err(message);
            },
        }
        i = i + 1;
    }
    assert(vs.take(i as int) =~= vs);
    Ok(out)
}

/// A fault among the first arguments is the fault of the whole.
proof fn lemma_concat_err(vs: Seq<Datum>, n: int)
    requires
        0 <= n <= vs.len(),
        grammar::concatenated(vs.take(n)) is Err,
    ensures
        grammar::concatenated(vs) == grammar::concatenated(vs.take(n)),
    decreases vs.len() - n,
{
    if n < vs.len() {
        assert(vs.take(n + 1).drop_last() =~= vs.take(n));
        lemma_concat_err(vs, n + 1);
    } else {
        assert(vs.take(n) =~= vs);
    }
}

/// Whether `prefix` starts `s`.
fn has_prefix(s: &Vec<char>, prefix: &str) -> (r: bool)
    ensures
        r == prefix@.is_prefix_of(s@),
{
    let p = characters(prefix);
    if s.len() < p.len() {
        return false;
    }
    let mut i: usize = 0;
    while i < p.len()
        invariant
            i <= p@.len() <= s@.len(),
            p@ == prefix@,
            forall|j: int| 0 <= j < i ==> s@[j] == p@[j],
        decreases p@.len() - i,
    {
        if s[i] != p[i] {
            return false;
        }
        i = i + 1;
    }
    assert(prefix@ =~= s@.subrange(0, prefix@.len() as int));
    true
}

/// Whether a formula stands for itself.
pub fn is_plain_literal(expr: &str) -> (r: bool)
    ensures
        r == grammar::plain_literal(expr@),
{
    let s = characters(expr);
    let mut i: usize = 0;
    while i < s.len()
        invariant
            i <= s@.len(),
            s@ == expr@,
            forall|j: int| 0 <= j < i ==> s@[j] != '(',
        decreases s@.len() - i,
    {
        if s[i] == '(' {
            assert(expr@.contains(expr@[i as int]));
            return false;
        }
        i = i + 1;
    }
    assert(!expr@.contains('('));
    if has_prefix(&s, "csv.") || has_prefix(&s, "csv[") {
        return false;
    }
    !(s.len() > 0 && s[0] == '"')
}

/// The value of the formula `expr` on `row`, as text.
pub fn eval_formula(expr: &str, row: &CsvRow) -> (r: Result<String, String>)
    ensures
        match r {
            Ok(s) => grammar::evaluated(expr@, row@) == Ok::<Text, Text>(s@),
            Err(message) => grammar::evaluated(expr@, row@) == Err::<Text, Text>(message@),
        },
{
    let trimmed = expr.trim();
    if is_plain_literal(trimmed) {
        return Ok(trimmed.to_string());
    }
    let mut parser = FormulaParser::new(trimmed, row);
    let value = match parser.parse_expr() {
        Ok(value) => value,
        Err(message) => return Err(message),
    };
    parser.skip_ws();
    proof {
        use_type_invariant(&parser);
    }
    if !parser.is_eof() {
        let mut message = "unexpected trailing input near '".to_string();
        message.append(parser.remaining().as_str());
        message.append("'");
        return Err(message);
    }
    Ok(value.as_string())
}

} // verus!
