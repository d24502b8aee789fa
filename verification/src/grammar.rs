//! The formula language: what a formula means on a row.
//!
//! A formula is read from left to right and evaluated as it is read, so the
//! first fault met, of syntax or of evaluation, is the one reported. Each
//! function `.._at(s, p, ..)` says what the construct that starts at position
//! `p` of the text `s` yields, and at which position reading stops.

use vstd::prelude::*;

use crate::fields;
use crate::text;
use crate::text::Text;

verus! {

/// A value of the formula language.
pub enum Datum {
    Str(Text),
    Bool(bool),
}

/// What reading one construct yields: its value or the fault met, and where
/// reading stopped.
pub struct Step<T> {
    pub outcome: Result<T, Text>,
    pub pos: int,
}

pub open spec fn ok_step<T>(value: T, pos: int) -> Step<T> {
    Step { outcome: Ok(value), pos }
}

pub open spec fn err_step<T>(message: Text, pos: int) -> Step<T> {
    Step { outcome: Err(message), pos }
}

/// The character at `p` is `c`.
pub open spec fn char_at(s: Text, p: int, c: char) -> bool {
    0 <= p < s.len() && s[p] == c
}

/// The first position from `p` on that holds no white space.
pub open spec fn skip_space(s: Text, p: int) -> int
    decreases s.len() - p,
{
    if 0 <= p < s.len() && text::white_space(s[p]) {
        skip_space(s, p + 1)
    } else {
        p
    }
}

/// A character of an identifier.
pub open spec fn ident_char(c: char) -> bool {
    text::alphanumeric(c) || c == '_'
}

/// The first position from `p` on that holds no character of an identifier.
pub open spec fn ident_end(s: Text, p: int) -> int
    decreases s.len() - p,
{
    if 0 <= p < s.len() && ident_char(s[p]) {
        ident_end(s, p + 1)
    } else {
        p
    }
}

/// The identifier after the white space at `p`.
pub open spec fn ident_at(s: Text, p: int) -> Step<Text> {
    let start = skip_space(s, p);
    let end = ident_end(s, start);
    if start == end {
        err_step("expected identifier near '"@ + s.skip(start) + "'"@, start)
    } else {
        ok_step(s.subrange(start, end), end)
    }
}

/// The character that `\` followed by `c` stands for.
pub open spec fn unescaped(c: char) -> char {
    if c == 'n' {
        '\n'
    } else if c == 't' {
        '\t'
    } else {
        c
    }
}

/// The rest of a quoted string from `p` on, after the characters `out`.
pub open spec fn string_rest(s: Text, p: int, out: Text) -> Step<Text>
    decreases s.len() - p,
{
    if !(0 <= p < s.len()) {
        err_step("unterminated string"@, p)
    } else if s[p] == '"' {
        ok_step(out, p + 1)
    } else if s[p] == '\\' {
        if p + 1 < s.len() {
            string_rest(s, p + 2, out.push(unescaped(s[p + 1])))
        } else {
            err_step("unterminated escape sequence"@, p + 1)
        }
    } else {
        string_rest(s, p + 1, out.push(s[p]))
    }
}

/// The quoted string at `p`.
pub open spec fn string_at(s: Text, p: int) -> Step<Text> {
    if char_at(s, p, '"') {
        string_rest(s, p + 1, Seq::empty())
    } else {
        err_step("expected string"@, p)
    }
}

/// The name in brackets after the `[` before `p`.
pub open spec fn bracket_at(s: Text, p: int) -> Step<Text> {
    let name = string_at(s, skip_space(s, p));
    let end = skip_space(s, name.pos);
    if name.outcome is Err {
        name
    } else if char_at(s, end, ']') {
        Step { outcome: name.outcome, pos: end + 1 }
    } else {
        err_step("expected ']' after csv[...]"@, end)
    }
}

/// The name of a column, as it is written after `csv`.
pub open spec fn column_at(s: Text, p: int) -> Step<Text> {
    let start = skip_space(s, p);
    if char_at(s, start, '.') {
        ident_at(s, start + 1)
    } else if char_at(s, start, '[') {
        bracket_at(s, start + 1)
    } else {
        err_step("expected csv.Field or csv[\"Field\"]"@, start)
    }
}

/// The value of the column named at `p`: the empty text where the row has no
/// such column.
pub open spec fn access_at(s: Text, p: int, row: Map<Text, Text>) -> Step<Text> {
    let column = column_at(s, p);
    match column.outcome {
        Ok(name) => ok_step(fields::value_or_empty(row, name), column.pos),
        Err(message) => err_step(message, column.pos),
    }
}

/// The fault of a wrong number of arguments.
pub open spec fn arg_count_message(name: Text, expected: nat, got: nat) -> Text {
    name + " expects "@ + text::decimal(expected) + " argument(s), got "@ + text::decimal(got)
}

/// The texts of `args`, one after the other; a fault where one is no text.
pub open spec fn concatenated(args: Seq<Datum>) -> Result<Text, Text>
    decreases args.len(),
{
    if args.len() == 0 {
        Ok(Seq::empty())
    } else {
        match concatenated(args.drop_last()) {
            Err(message) => Err(message),
            Ok(head) => match args.last() {
                Datum::Str(tail) => Ok(head + tail),
                Datum::Bool(_) => Err("expected string"@),
            },
        }
    }
}

/// The value of the function `name` on `args`.
pub open spec fn applied(name: Text, args: Seq<Datum>) -> Result<Datum, Text> {
    if name == "trim"@ {
        if args.len() != 1 {
            Err(arg_count_message(name, 1, args.len()))
        } else {
            match args[0] {
                Datum::Str(s) => Ok(Datum::Str(text::trimmed(s))),
                Datum::Bool(_) => Err("expected string"@),
            }
        }
    } else if name == "lower"@ {
        if args.len() != 1 {
            Err(arg_count_message(name, 1, args.len()))
        } else {
            match args[0] {
                Datum::Str(s) => Ok(Datum::Str(text::lowercase(s))),
                Datum::Bool(_) => Err("expected string"@),
            }
        }
    } else if name == "concat"@ {
        match concatenated(args) {
            Ok(s) => Ok(Datum::Str(s)),
            Err(message) => Err(message),
        }
    } else if name == "eq"@ {
        if args.len() != 2 {
            Err(arg_count_message(name, 2, args.len()))
        } else {
            match (args[0], args[1]) {
                (Datum::Str(a), Datum::Str(b)) => Ok(Datum::Bool(a == b)),
                _ => Err("expected string"@),
            }
        }
    } else if name == "if"@ {
        if args.len() != 3 {
            Err(arg_count_message(name, 3, args.len()))
        } else {
            match args[0] {
                Datum::Bool(true) => Ok(args[1]),
                Datum::Bool(false) => Ok(args[2]),
                Datum::Str(_) => Err("expected bool"@),
            }
        }
    } else {
        Err("unknown function '"@ + name + "'"@)
    }
}

/// The expression at `p`: a quoted string, a column, a call, or a bare
/// identifier, which stands for itself.
pub open spec fn expr_at(s: Text, p: int, row: Map<Text, Text>) -> Step<Datum>
    decreases s.len() - p, 0nat,
{
    let start = skip_space(s, p);
    if char_at(s, start, '"') {
        let string = string_at(s, start);
        match string.outcome {
            Ok(out) => ok_step(Datum::Str(out), string.pos),
            Err(message) => err_step(message, string.pos),
        }
    } else {
        let ident = ident_at(s, start);
        match ident.outcome {
            Err(message) => err_step(message, ident.pos),
            Ok(name) => if name == "csv"@ {
                let access = access_at(s, ident.pos, row);
                match access.outcome {
                    Ok(out) => ok_step(Datum::Str(out), access.pos),
                    Err(message) => err_step(message, access.pos),
                }
            } else {
                let open = skip_space(s, ident.pos);
                if char_at(s, open, '(') {
                    proof {
                        lemma_skip_space(s, p);
                        lemma_skip_space(s, start);
                        lemma_ident_end(s, skip_space(s, start));
                        lemma_skip_space(s, ident.pos);
                    }
                    let args = args_at(s, open + 1, row);
                    match args.outcome {
                        Ok(values) => Step { outcome: applied(name, values), pos: args.pos },
                        Err(message) => err_step(message, args.pos),
                    }
                } else {
                    ok_step(Datum::Str(name), open)
                }
            },
        }
    }
}

/// The arguments of a call from `p` on, up to the closing parenthesis. A comma
/// may stand before it. (An expression never ends before it starts; that
/// `e.pos > start` is tested only shows that reading terminates.)
pub open spec fn args_at(s: Text, p: int, row: Map<Text, Text>) -> Step<Seq<Datum>>
    decreases s.len() - p, 1nat,
{
    let start = skip_space(s, p);
    if char_at(s, start, ')') {
        ok_step(Seq::empty(), start + 1)
    } else {
        proof {
            lemma_skip_space(s, p);
        }
        let e = expr_at(s, start, row);
        match e.outcome {
            Err(message) => err_step(message, e.pos),
            Ok(value) => {
                let end = skip_space(s, e.pos);
                if e.pos > start && char_at(s, end, ',') {
                    proof {
                        lemma_skip_space(s, e.pos);
                    }
                    let rest = args_at(s, end + 1, row);
                    match rest.outcome {
                        Ok(values) => ok_step(seq![value] + values, rest.pos),
                        Err(message) => err_step(message, rest.pos),
                    }
                } else if char_at(s, end, ')') {
                    ok_step(seq![value], end + 1)
                } else {
                    err_step("expected ',' or ')'"@, end)
                }
            },
        }
    }
}

/// The text of a value.
pub open spec fn value_text(value: Datum) -> Text {
    match value {
        Datum::Str(s) => s,
        Datum::Bool(b) => text::truth_text(b),
    }
}

/// A formula that stands for itself: it calls nothing, and starts neither as
/// the access of a column nor as a quoted string.
pub open spec fn plain_literal(s: Text) -> bool {
    &&& !s.contains('(')
    &&& !"csv."@.is_prefix_of(s)
    &&& !"csv["@.is_prefix_of(s)
    &&& !char_at(s, 0, '"')
}

/// The value of `formula` on `row`, as text.
pub open spec fn evaluated(formula: Text, row: Map<Text, Text>) -> Result<Text, Text> {
    let s = text::trimmed(formula);
    if plain_literal(s) {
        Ok(s)
    } else {
        let e = expr_at(s, 0, row);
        let end = skip_space(s, e.pos);
        match e.outcome {
            Err(message) => Err(message),
            Ok(value) => if end < s.len() {
                Err("unexpected trailing input near '"@ + s.skip(end) + "'"@)
            } else {
                Ok(value_text(value))
            },
        }
    }
}

// ---------------------------------------------------------------------------
// Reading moves forward
// ---------------------------------------------------------------------------

/// Skipping white space never moves back, nor beyond the end.
pub proof fn lemma_skip_space(s: Text, p: int)
    ensures
        skip_space(s, p) >= p,
        0 <= p <= s.len() ==> skip_space(s, p) <= s.len(),
    decreases s.len() - p,
{
    if 0 <= p < s.len() && text::white_space(s[p]) {
        lemma_skip_space(s, p + 1);
    }
}

/// An identifier never ends before it starts, nor beyond the end.
pub proof fn lemma_ident_end(s: Text, p: int)
    ensures
        ident_end(s, p) >= p,
        0 <= p <= s.len() ==> ident_end(s, p) <= s.len(),
    decreases s.len() - p,
{
    if 0 <= p < s.len() && ident_char(s[p]) {
        lemma_ident_end(s, p + 1);
    }
}

pub(crate) proof fn lemma_string_rest(s: Text, p: int, out: Text)
    requires
        0 <= p <= s.len(),
    ensures
        p <= string_rest(s, p, out).pos <= s.len(),
    decreases s.len() - p,
{
    if p < s.len() && s[p] != '"' {
        if s[p] == '\\' {
            if p + 1 < s.len() {
                lemma_string_rest(s, p + 2, out.push(unescaped(s[p + 1])));
            }
        } else {
            lemma_string_rest(s, p + 1, out.push(s[p]));
        }
    }
}

pub(crate) proof fn lemma_access(s: Text, p: int, row: Map<Text, Text>)
    requires
        0 <= p <= s.len(),
    ensures
        p <= access_at(s, p, row).pos <= s.len(),
{
    lemma_skip_space(s, p);
    let start = skip_space(s, p);
    if char_at(s, start, '.') {
        lemma_ident(s, start + 1);
    } else if char_at(s, start, '[') {
        lemma_skip_space(s, start + 1);
        let q = skip_space(s, start + 1);
        if char_at(s, q, '"') {
            lemma_string_rest(s, q + 1, Seq::empty());
        }
        lemma_skip_space(s, string_at(s, q).pos);
    }
}

pub(crate) proof fn lemma_ident(s: Text, p: int)
    requires
        0 <= p <= s.len(),
    ensures
        p <= ident_at(s, p).pos <= s.len(),
        ident_at(s, p).outcome is Ok ==> p < ident_at(s, p).pos,
{
    lemma_skip_space(s, p);
    lemma_ident_end(s, skip_space(s, p));
}

/// Reading an expression ends within the text and not before it started; what
/// was read with success is not empty.
pub(crate) proof fn lemma_expr_progress(s: Text, p: int, row: Map<Text, Text>)
    requires
        0 <= p <= s.len(),
    ensures
        p <= expr_at(s, p, row).pos <= s.len(),
        expr_at(s, p, row).outcome is Ok ==> p < expr_at(s, p, row).pos,
    decreases s.len() - p, 0nat,
{
    lemma_skip_space(s, p);
    let start = skip_space(s, p);
    if char_at(s, start, '"') {
        lemma_string_rest(s, start + 1, Seq::empty());
    } else {
        lemma_ident(s, start);
        let ident = ident_at(s, start);
        if ident.outcome is Ok {
            lemma_access(s, ident.pos, row);
            lemma_skip_space(s, ident.pos);
            let open = skip_space(s, ident.pos);
            if char_at(s, open, '(') {
                lemma_args_progress(s, open + 1, row);
            }
        }
    }
}

/// Reading arguments ends within the text and not before it started.
pub(crate) proof fn lemma_args_progress(s: Text, p: int, row: Map<Text, Text>)
    requires
        0 <= p <= s.len(),
    ensures
        p <= args_at(s, p, row).pos <= s.len(),
    decreases s.len() - p, 1nat,
{
    lemma_skip_space(s, p);
    let start = skip_space(s, p);
    if !char_at(s, start, ')') {
        lemma_expr_progress(s, start, row);
        let e = expr_at(s, start, row);
        if e.outcome is Ok {
            lemma_skip_space(s, e.pos);
            let end = skip_space(s, e.pos);
            if char_at(s, end, ',') {
                lemma_args_progress(s, end + 1, row);
            }
        }
    }
}

} // verus!
