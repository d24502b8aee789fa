//! What holds of formulas in general.

use vstd::prelude::*;

use crate::grammar;
use crate::grammar::Datum;
use crate::text;
use crate::text::Text;

verus! {

// ---------------------------------------------------------------------------
// Formulas and how they are written
// ---------------------------------------------------------------------------

/// A character of a quoted string: as it is, or behind a backslash.
pub enum Piece {
    Plain(char),
    Escaped(char),
}

/// A formula, as what it is made of, with the white space between its parts.
pub enum Formula {
    /// A quoted string.
    Literal(Seq<Piece>),
    /// An identifier, which stands for itself.
    Name(Text),
    /// A column whose name is an identifier: `csv`, a dot, and the name.
    Field { before: Text, after: Text, name: Text },
    /// A column of any name: `csv`, and the quoted name in brackets.
    Column { before: Text, open: Text, title: Seq<Piece>, close: Text },
    /// A function and its arguments, with the white space around each of them.
    /// With an `end`, a comma stands behind the last argument.
    Call {
        name: Text,
        open: Text,
        args: Seq<Formula>,
        around: Seq<(Text, Text)>,
        end: Option<Text>,
    },
}

/// Nothing but white space.
pub open spec fn white(s: Text) -> bool {
    forall|i: int| 0 <= i < s.len() ==> text::white_space(#[trigger] s[i])
}

/// A name of letters, numbers and underscores.
pub open spec fn identifier(name: Text) -> bool {
    &&& name.len() > 0
    &&& forall|j: int| 0 <= j < name.len() ==> text::alphanumeric(#[trigger] name[j]) || name[j] == '_'
}

/// The pieces can stand in a quoted string.
pub open spec fn quotable(pieces: Seq<Piece>) -> bool {
    forall|i: int|
        0 <= i < pieces.len() ==> match #[trigger] pieces[i] {
            Piece::Plain(c) => c != '"' && c != '\\',
            Piece::Escaped(_) => true,
        }
}

/// The parts of `formula` are what they should be.
pub open spec fn well_formed(formula: Formula) -> bool
    decreases formula, 0nat,
{
    match formula {
        Formula::Literal(pieces) => quotable(pieces),
        Formula::Name(name) => identifier(name) && name != "csv"@,
        Formula::Field { before, after, name } => white(before) && white(after) && identifier(name),
        Formula::Column { before, open, title, close } => white(before) && white(open) && quotable(
            title,
        ) && white(close),
        Formula::Call { name, open, args, around, end } => {
            &&& identifier(name)
            &&& name != "csv"@
            &&& white(open)
            &&& around.len() == args.len()
            &&& all_well_formed(args, around, 0)
            &&& end is Some ==> white(end->Some_0)
        },
    }
}

/// So are the arguments from number `i` on.
pub open spec fn all_well_formed(args: Seq<Formula>, around: Seq<(Text, Text)>, i: int) -> bool
    decreases args, args.len() - i,
{
    0 <= i < args.len() ==> {
        &&& white(around[i].0)
        &&& well_formed(args[i])
        &&& white(around[i].1)
        &&& all_well_formed(args, around, i + 1)
    }
}

/// The pieces as they are written.
pub open spec fn pieces_written(pieces: Seq<Piece>) -> Text
    decreases pieces.len(),
{
    if pieces.len() == 0 {
        Seq::empty()
    } else {
        (match pieces[0] {
            Piece::Plain(c) => seq![c],
            Piece::Escaped(c) => seq!['\\', c],
        }) + pieces_written(pieces.skip(1))
    }
}

/// The text that the pieces stand for.
pub open spec fn pieces_value(pieces: Seq<Piece>) -> Text {
    pieces.map_values(
        |piece: Piece|
            match piece {
                Piece::Plain(c) => c,
                Piece::Escaped(c) => if c == 'n' {
                    '\n'
                } else if c == 't' {
                    '\t'
                } else {
                    c
                },
            },
    )
}

/// A quoted string as it is written.
pub open spec fn string_written(pieces: Seq<Piece>) -> Text {
    seq!['"'] + pieces_written(pieces) + seq!['"']
}

/// `formula` as it is written.
pub open spec fn written(formula: Formula) -> Text
    decreases formula, 0nat,
{
    match formula {
        Formula::Literal(pieces) => string_written(pieces),
        Formula::Name(name) => name,
        Formula::Field { before, after, name } => "csv"@ + before + seq!['.'] + after + name,
        Formula::Column { before, open, title, close } => "csv"@ + before + seq!['['] + open
            + string_written(title) + close + seq![']'],
        Formula::Call { name, open, args, around, end } => name + open + seq!['('] + args_written(
            args,
            around,
            end,
            0,
        ) + seq![')'],
    }
}

/// The arguments from number `i` on as they are written.
pub open spec fn args_written(
    args: Seq<Formula>,
    around: Seq<(Text, Text)>,
    end: Option<Text>,
    i: int,
) -> Text
    decreases args, args.len() - i,
{
    if !(0 <= i < args.len()) {
        match end {
            Some(gap) => gap,
            None => Seq::empty(),
        }
    } else {
        around[i].0 + written(args[i]) + around[i].1 + (if i + 1 < args.len() || end is Some {
            seq![',']
        } else {
            Seq::empty()
        }) + args_written(args, around, end, i + 1)
    }
}

// ---------------------------------------------------------------------------
// What they mean
// ---------------------------------------------------------------------------

/// The value of a column, or nothing where the row has no such column.
pub open spec fn column_value(row: Map<Text, Text>, name: Text) -> Text {
    if row.dom().contains(name) {
        row[name]
    } else {
        Seq::empty()
    }
}

/// The value of `formula` on `row`.
pub open spec fn value(formula: Formula, row: Map<Text, Text>) -> Result<Datum, Text>
    decreases formula, 0nat,
{
    match formula {
        Formula::Literal(pieces) => Ok(Datum::Str(pieces_value(pieces))),
        Formula::Name(name) => Ok(Datum::Str(name)),
        Formula::Field { name, .. } => Ok(Datum::Str(column_value(row, name))),
        Formula::Column { title, .. } => Ok(Datum::Str(column_value(row, pieces_value(title)))),
        Formula::Call { name, args, .. } => match args_value(args, 0, row) {
            Ok(values) => grammar::applied(name, values),
            Err(message) => Err(message),
        },
    }
}

/// The values of the arguments from number `i` on.
pub open spec fn args_value(args: Seq<Formula>, i: int, row: Map<Text, Text>) -> Result<
    Seq<Datum>,
    Text,
>
    decreases args, args.len() - i,
{
    if !(0 <= i < args.len()) {
        Ok(Seq::empty())
    } else {
        match value(args[i], row) {
            Err(message) => Err(message),
            Ok(first) => match args_value(args, i + 1, row) {
                Err(message) => Err(message),
                Ok(others) => Ok(seq![first] + others),
            },
        }
    }
}

// ---------------------------------------------------------------------------
// Functions
// ---------------------------------------------------------------------------

proof fn lemma_function_names()
    ensures
        "lower"@ != "trim"@,
        "concat"@ != "trim"@ && "concat"@ != "lower"@,
        "eq"@ != "trim"@ && "eq"@ != "lower"@ && "eq"@ != "concat"@,
        "if"@ != "trim"@ && "if"@ != "lower"@ && "if"@ != "concat"@ && "if"@ != "eq"@,
{
    reveal_strlit("trim");
    reveal_strlit("lower");
    reveal_strlit("concat");
    reveal_strlit("eq");
    reveal_strlit("if");
    assert("lower"@.len() != "trim"@.len());
    assert("concat"@.len() != "trim"@.len());
    assert("concat"@.len() != "lower"@.len());
    assert("eq"@.len() != "trim"@.len());
    assert("eq"@.len() != "lower"@.len());
    assert("eq"@.len() != "concat"@.len());
    assert("if"@.len() != "trim"@.len());
    assert("if"@.len() != "lower"@.len());
    assert("if"@.len() != "concat"@.len());
    assert("eq"@[0] != "if"@[0]);
}

/// The texts as values of the formula language.
pub open spec fn as_strings(texts: Seq<Text>) -> Seq<Datum> {
    texts.map_values(|t: Text| Datum::Str(t))
}

/// `concat` joins its arguments, however many there are.
pub proof fn law_concat_joins(texts: Seq<Text>)
    ensures
        grammar::applied("concat"@, as_strings(texts)) == Ok::<Datum, Text>(
            Datum::Str(texts.flatten()),
        ),
{
    lemma_function_names();
    lemma_concatenated(texts);
}

proof fn lemma_concatenated(texts: Seq<Text>)
    ensures
        grammar::concatenated(as_strings(texts)) == Ok::<Text, Text>(texts.flatten()),
    decreases texts.len(),
{
    if texts.len() == 0 {
        assert(texts.flatten() =~= Seq::<char>::empty());
    } else {
        let head = texts.drop_last();
        lemma_concatenated(head);
        assert(as_strings(texts).drop_last() =~= as_strings(head));
        assert(as_strings(texts).last() == Datum::Str(texts.last()));
        texts.lemma_flatten_and_flatten_alt_are_equivalent();
        head.lemma_flatten_and_flatten_alt_are_equivalent();
    }
}

/// One argument more makes the text of `concat` longer by that argument.
pub proof fn law_concat_grows(args: Seq<Datum>, before: Text, more: Text)
    requires
        grammar::applied("concat"@, args) == Ok::<Datum, Text>(Datum::Str(before)),
    ensures
        grammar::applied("concat"@, args.push(Datum::Str(more))) == Ok::<Datum, Text>(
            Datum::Str(before + more),
        ),
{
    lemma_function_names();
    assert(args.push(Datum::Str(more)).drop_last() =~= args);
}

/// `concat` fails where any of its arguments is no text.
pub proof fn law_concat_needs_texts(args: Seq<Datum>, i: int)
    requires
        0 <= i < args.len(),
        args[i] is Bool,
    ensures
        grammar::applied("concat"@, args) == Err::<Datum, Text>("expected string"@),
{
    lemma_function_names();
    lemma_not_concatenated(args, i);
}

proof fn lemma_not_concatenated(args: Seq<Datum>, i: int)
    requires
        0 <= i < args.len(),
        args[i] is Bool,
    ensures
        grammar::concatenated(args) == Err::<Text, Text>("expected string"@),
    decreases args.len(),
{
    let head = args.drop_last();
    lemma_concatenated_or_not(head);
    if i < args.len() - 1 {
        lemma_not_concatenated(head, i);
    }
}

proof fn lemma_concatenated_or_not(args: Seq<Datum>)
    ensures
        match grammar::concatenated(args) {
            Ok(_) => true,
            Err(message) => message == "expected string"@,
        },
    decreases args.len(),
{
    if args.len() > 0 {
        lemma_concatenated_or_not(args.drop_last());
    }
}

/// What the functions do, on any texts and truth values: `trim` drops outer
/// white space, `lower` lowers the case, `concat` joins, `eq` compares, and `if`
/// takes one of two values.
pub proof fn law_functions(a: Text, b: Text, x: Datum, y: Datum)
    ensures
        grammar::applied("trim"@, seq![Datum::Str(a)]) == Ok::<Datum, Text>(
            Datum::Str(text::trimmed(a)),
        ),
        grammar::applied("lower"@, seq![Datum::Str(a)]) == Ok::<Datum, Text>(
            Datum::Str(text::lowercase(a)),
        ),
        grammar::applied("concat"@, seq![Datum::Str(a), Datum::Str(b)]) == Ok::<Datum, Text>(
            Datum::Str(a + b),
        ),
        grammar::applied("eq"@, seq![Datum::Str(a), Datum::Str(b)]) == Ok::<Datum, Text>(
            Datum::Bool(a == b),
        ),
        grammar::applied("if"@, seq![Datum::Bool(true), x, y]) == Ok::<Datum, Text>(x),
        grammar::applied("if"@, seq![Datum::Bool(false), x, y]) == Ok::<Datum, Text>(y),
{
    lemma_function_names();
    let none = Seq::<Datum>::empty();
    assert(grammar::concatenated(none) == Ok::<Text, Text>(Seq::empty()));
    assert(none.push(Datum::Str(a)) =~= seq![Datum::Str(a)]);
    assert(seq![Datum::Str(a)].push(Datum::Str(b)) =~= seq![Datum::Str(a), Datum::Str(b)]);
    law_concat_grows(none, Seq::empty(), a);
    assert(Seq::<char>::empty() + a =~= a);
    law_concat_grows(seq![Datum::Str(a)], a, b);
}

/// What the functions do not take: arguments of another kind, or another number
/// of them; and there are no other functions.
pub proof fn law_function_faults(name: Text, args: Seq<Datum>, t: bool, x: Datum, y: Datum)
    ensures
        grammar::applied("trim"@, seq![Datum::Bool(t)]) == Err::<Datum, Text>("expected string"@),
        grammar::applied("lower"@, seq![Datum::Bool(t)]) == Err::<Datum, Text>("expected string"@),
        grammar::applied("eq"@, seq![Datum::Bool(t), x]) == Err::<Datum, Text>("expected string"@),
        grammar::applied("eq"@, seq![x, Datum::Bool(t)]) == Err::<Datum, Text>("expected string"@),
        !(x is Bool) ==> grammar::applied("if"@, seq![x, y, y]) == Err::<Datum, Text>(
            "expected bool"@,
        ),
        args.len() != 1 && (name == "trim"@ || name == "lower"@) ==> grammar::applied(name, args)
            == Err::<Datum, Text>(
            name + " expects "@ + text::decimal(1) + " argument(s), got "@ + text::decimal(
                args.len(),
            ),
        ),
        args.len() != 2 && name == "eq"@ ==> grammar::applied(name, args) == Err::<Datum, Text>(
            name + " expects "@ + text::decimal(2) + " argument(s), got "@ + text::decimal(
                args.len(),
            ),
        ),
        args.len() != 3 && name == "if"@ ==> grammar::applied(name, args) == Err::<Datum, Text>(
            name + " expects "@ + text::decimal(3) + " argument(s), got "@ + text::decimal(
                args.len(),
            ),
        ),
        name != "trim"@ && name != "lower"@ && name != "concat"@ && name != "eq"@ && name != "if"@
            ==> grammar::applied(name, args) == Err::<Datum, Text>(
            "unknown function '"@ + name + "'"@,
        ),
{
    lemma_function_names();
}

/// A value as text: a text itself, a truth value as `true` or `false`.
pub proof fn law_value_text(s: Text)
    ensures
        grammar::value_text(Datum::Str(s)) == s,
        grammar::value_text(Datum::Bool(true)) == "true"@,
        grammar::value_text(Datum::Bool(false)) == "false"@,
{
}

// ---------------------------------------------------------------------------
// Reading
// ---------------------------------------------------------------------------

/// `part` stands in `s` from `p` on.
pub open spec fn stands_at(s: Text, p: int, part: Text) -> bool {
    &&& 0 <= p
    &&& p + part.len() <= s.len()
    &&& s.subrange(p, p + part.len()) == part
}

pub(crate) proof fn lemma_stands(s: Text, p: int, part: Text, i: int)
    requires
        stands_at(s, p, part),
        0 <= i < part.len(),
    ensures
        s[p + i] == part[i],
{
    assert(s.subrange(p, p + part.len())[i] == part[i]);
}

pub(crate) proof fn lemma_stands_split(s: Text, p: int, a: Text, b: Text)
    requires
        stands_at(s, p, a + b),
    ensures
        stands_at(s, p, a),
        stands_at(s, p + a.len(), b),
{
    assert(s.subrange(p, p + a.len()) =~= a) by {
        assert forall|i: int| 0 <= i < a.len() implies s[p + i] == a[i] by {
            lemma_stands(s, p, a + b, i);
        }
    }
    assert(s.subrange(p + a.len(), p + a.len() + b.len()) =~= b) by {
        assert forall|i: int| 0 <= i < b.len() implies s[p + a.len() + i] == b[i] by {
            lemma_stands(s, p, a + b, a.len() + i);
        }
    }
}

/// White space is passed.
pub(crate) proof fn lemma_gap(s: Text, p: int, gap: Text)
    requires
        stands_at(s, p, gap),
        white(gap),
    ensures
        grammar::skip_space(s, p) == grammar::skip_space(s, p + gap.len()),
    decreases gap.len(),
{
    if gap.len() > 0 {
        lemma_stands(s, p, gap, 0);
        assert(gap =~= seq![gap[0]] + gap.skip(1));
        lemma_stands_split(s, p, seq![gap[0]], gap.skip(1));
        assert forall|i: int| 0 <= i < gap.skip(1).len() implies text::white_space(
            #[trigger] gap.skip(1)[i],
        ) by {
            assert(gap.skip(1)[i] == gap[i + 1]);
        }
        lemma_gap(s, p + 1, gap.skip(1));
    }
}

pub(crate) proof fn lemma_no_space(s: Text, p: int)
    requires
        !(p < s.len()) || !text::white_space(s[p]),
    ensures
        grammar::skip_space(s, p) == p,
{
}

proof fn lemma_string_rest_in(s: Text, p: int, pieces: Seq<Piece>, out: Text)
    requires
        quotable(pieces),
        stands_at(s, p, pieces_written(pieces) + seq!['"']),
    ensures
        grammar::string_rest(s, p, out) == grammar::ok_step(
            out + pieces_value(pieces),
            p + pieces_written(pieces).len() + 1,
        ),
    decreases pieces.len(),
{
    let e = pieces_written(pieces);
    lemma_stands_split(s, p, e, seq!['"']);
    if pieces.len() == 0 {
        assert(out + pieces_value(pieces) =~= out);
        lemma_stands(s, p, seq!['"'], 0);
    } else {
        let rest = pieces.skip(1);
        let tail = pieces_written(rest);
        assert forall|i: int| 0 <= i < rest.len() implies match #[trigger] rest[i] {
            Piece::Plain(c) => c != '"' && c != '\\',
            Piece::Escaped(_) => true,
        } by {
            assert(rest[i] == pieces[i + 1]);
        }
        let c = pieces_value(pieces)[0];
        assert(pieces_value(pieces) =~= seq![c] + pieces_value(rest));
        match pieces[0] {
            Piece::Escaped(d) => {
                let head = seq!['\\', d];
                assert(e + seq!['"'] =~= head + (tail + seq!['"']));
                lemma_stands_split(s, p, head, tail + seq!['"']);
                lemma_stands(s, p, head, 0);
                lemma_stands(s, p, head, 1);
                lemma_string_rest_in(s, p + 2, rest, out.push(c));
            },
            Piece::Plain(d) => {
                let head = seq![d];
                assert(e + seq!['"'] =~= head + (tail + seq!['"']));
                lemma_stands_split(s, p, head, tail + seq!['"']);
                lemma_stands(s, p, head, 0);
                lemma_string_rest_in(s, p + 1, rest, out.push(c));
            },
        }
        assert(out.push(c) + pieces_value(rest) =~= out + pieces_value(pieces));
    }
}

pub(crate) proof fn lemma_string_in(s: Text, p: int, pieces: Seq<Piece>)
    requires
        quotable(pieces),
        stands_at(s, p, string_written(pieces)),
    ensures
        grammar::string_at(s, p) == grammar::ok_step(
            pieces_value(pieces),
            p + string_written(pieces).len(),
        ),
        grammar::char_at(s, p, '"'),
{
    let e = pieces_written(pieces);
    assert(string_written(pieces) =~= seq!['"'] + (e + seq!['"']));
    lemma_stands_split(s, p, seq!['"'], e + seq!['"']);
    lemma_stands(s, p, seq!['"'], 0);
    lemma_string_rest_in(s, p + 1, pieces, Seq::empty());
    assert(Seq::<char>::empty() + pieces_value(pieces) =~= pieces_value(pieces));
}

/// An identifier that stands in `s` ends at the first character that no
/// identifier holds.
proof fn lemma_ident_end_in(s: Text, p: int, name: Text, i: int)
    requires
        stands_at(s, p, name),
        0 <= i <= name.len(),
        identifier(name),
        p + name.len() < s.len() ==> !grammar::ident_char(s[p + name.len()]),
    ensures
        grammar::ident_end(s, p + i) == p + name.len(),
    decreases name.len() - i,
{
    if i < name.len() {
        lemma_stands(s, p, name, i);
        lemma_ident_end_in(s, p, name, i + 1);
    }
}

/// An identifier that stands in `s` is read as such.
pub(crate) proof fn lemma_ident_in(s: Text, p: int, name: Text)
    requires
        stands_at(s, p, name),
        identifier(name),
        p + name.len() < s.len() ==> !grammar::ident_char(s[p + name.len()]),
    ensures
        grammar::ident_at(s, p) == grammar::ok_step(name, p + name.len()),
{
    lemma_stands(s, p, name, 0);
    assert(text::alphanumeric(name[0]) || name[0] == '_');
    lemma_no_space(s, p);
    lemma_ident_end_in(s, p, name, 0);
}

/// At `p` an identifier ends, and what follows does not make it a call.
pub open spec fn ends_at(s: Text, p: int) -> bool {
    let q = grammar::skip_space(s, p);
    &&& p < s.len() ==> !grammar::ident_char(s[p])
    &&& q < s.len() ==> s[q] != '('
}

/// What follows `formula` has to show where it ends.
pub open spec fn open_ended(formula: Formula) -> bool {
    formula is Name || formula is Field
}

/// Behind `gap` stands `c`, so no identifier goes on at the gap.
pub(crate) proof fn lemma_gap_ends(s: Text, p: int, gap: Text, c: char)
    requires
        stands_at(s, p, gap + seq![c]),
        white(gap),
        !grammar::ident_char(c),
        !text::white_space(c),
    ensures
        p < s.len() && !grammar::ident_char(s[p]),
        grammar::skip_space(s, p) == p + gap.len(),
        s[p + gap.len()] == c,
        p + gap.len() < s.len(),
{
    lemma_stands_split(s, p, gap, seq![c]);
    lemma_stands(s, p + gap.len(), seq![c], 0);
    lemma_gap(s, p, gap);
    if gap.len() > 0 {
        lemma_stands(s, p, gap, 0);
    }
}

/// A written formula starts with something, and not with white space or `)`.
pub(crate) proof fn lemma_start(formula: Formula)
    requires
        well_formed(formula),
    ensures
        written(formula).len() > 0,
        !text::white_space(written(formula)[0]),
        written(formula)[0] != ')',
{
    reveal_strlit("csv");
    match formula {
        Formula::Name(name) => {
            assert(text::alphanumeric(name[0]) || name[0] == '_');
        },
        Formula::Call { name, .. } => {
            assert(text::alphanumeric(name[0]) || name[0] == '_');
            assert(written(formula)[0] == name[0]);
        },
        _ => {},
    }
}

proof fn lemma_dot_access_in(
    s: Text,
    p: int,
    before: Text,
    after: Text,
    name: Text,
    row: Map<Text, Text>,
)
    requires
        white(before),
        white(after),
        identifier(name),
        stands_at(s, p, "csv"@ + before + seq!['.'] + after + name),
        ends_at(s, p + ("csv"@ + before + seq!['.'] + after + name).len()),
    ensures
        grammar::expr_at(s, p, row) == grammar::ok_step(
            Datum::Str(column_value(row, name)),
            p + ("csv"@ + before + seq!['.'] + after + name).len(),
        ),
{
    let b = before.len() as int;
    let a = after.len() as int;
    reveal_strlit("csv");
    let rest = before + seq!['.'];
    assert("csv"@ + before + seq!['.'] + after + name =~= "csv"@ + (rest + (after + name)));
    lemma_stands_split(s, p, "csv"@, rest + (after + name));
    lemma_stands_split(s, p + 3, rest, after + name);
    lemma_stands_split(s, p + 4 + b, after, name);
    lemma_gap_ends(s, p + 3, before, '.');
    lemma_stands(s, p, "csv"@, 0);
    lemma_no_space(s, p);
    lemma_ident_in(s, p, "csv"@);
    lemma_ident_in(s, p + 4 + b + a, name);
    lemma_gap(s, p + 4 + b, after);
    lemma_stands(s, p + 4 + b + a, name, 0);
    lemma_no_space(s, p + 4 + b + a);
    assert(grammar::ident_at(s, p + 4 + b) == grammar::ident_at(s, p + 4 + b + a));
}

proof fn lemma_bracket_access_in(
    s: Text,
    p: int,
    before: Text,
    open: Text,
    name: Seq<Piece>,
    close: Text,
    row: Map<Text, Text>,
)
    requires
        white(before),
        white(open),
        quotable(name),
        white(close),
        stands_at(
            s,
            p,
            "csv"@ + before + seq!['['] + open + string_written(name) + close + seq![']'],
        ),
    ensures
        grammar::expr_at(s, p, row) == grammar::ok_step(
            Datum::Str(column_value(row, pieces_value(name))),
            p + ("csv"@ + before + seq!['['] + open + string_written(name) + close
                + seq![']']).len(),
        ),
{
    let b = before.len() as int;
    let o = open.len() as int;
    let w = string_written(name);
    let n = w.len() as int;
    reveal_strlit("csv");
    assert("csv"@ + before + seq!['['] + open + w + close + seq![']'] =~= "csv"@ + ((before
        + seq!['[']) + (open + (w + (close + seq![']'])))));
    lemma_stands_split(s, p, "csv"@, (before + seq!['[']) + (open + (w + (close + seq![']']))));
    lemma_stands_split(s, p + 3, before + seq!['['], open + (w + (close + seq![']'])));
    lemma_stands_split(s, p + 4 + b, open, w + (close + seq![']']));
    lemma_stands_split(s, p + 4 + b + o, w, close + seq![']']);
    lemma_gap_ends(s, p + 3, before, '[');
    lemma_stands(s, p, "csv"@, 0);
    lemma_no_space(s, p);
    lemma_ident_in(s, p, "csv"@);
    lemma_gap(s, p + 4 + b, open);
    lemma_string_in(s, p + 4 + b + o, name);
    lemma_no_space(s, p + 4 + b + o);
    lemma_gap_ends(s, p + 4 + b + o + n, close, ']');
}

/// A written formula yields its value wherever it stands as an argument.
pub(crate) proof fn lemma_expr_in(s: Text, p: int, formula: Formula, row: Map<Text, Text>)
    requires
        well_formed(formula),
        stands_at(s, p, written(formula)),
        open_ended(formula) ==> ends_at(s, p + written(formula).len()),
    ensures
        match value(formula, row) {
            Ok(v) => {
                let e = grammar::expr_at(s, p, row);
                &&& e.outcome == Ok::<Datum, Text>(v)
                &&& e.pos > p
                &&& grammar::skip_space(s, e.pos) == grammar::skip_space(
                    s,
                    p + written(formula).len(),
                )
                &&& !open_ended(formula) ==> e.pos == p + written(formula).len()
            },
            Err(message) => grammar::expr_at(s, p, row).outcome == Err::<Datum, Text>(message),
        },
    decreases formula, 0nat,
{
    lemma_start(formula);
    lemma_stands(s, p, written(formula), 0);
    lemma_no_space(s, p);
    match formula {
        Formula::Literal(pieces) => {
            lemma_string_in(s, p, pieces);
        },
        Formula::Name(name) => {
            assert(text::alphanumeric(name[0]) || name[0] == '_');
            lemma_ident_in(s, p, name);
            let q = grammar::skip_space(s, p + name.len());
            grammar::lemma_skip_space(s, p + name.len());
            lemma_skipped(s, p + name.len());
        },
        Formula::Field { before, after, name } => {
            lemma_dot_access_in(s, p, before, after, name, row);
        },
        Formula::Column { before, open, title, close } => {
            lemma_bracket_access_in(s, p, before, open, title, close, row);
        },
        Formula::Call { name, open, args, around, end } => {
            let inner = args_written(args, around, end, 0);
            let n = name.len() as int;
            let o = open.len() as int;
            assert(text::alphanumeric(name[0]) || name[0] == '_');
            assert(written(formula) =~= name + ((open + seq!['(']) + (inner + seq![')'])));
            lemma_stands_split(s, p, name, (open + seq!['(']) + (inner + seq![')']));
            lemma_stands_split(s, p + n, open + seq!['('], inner + seq![')']);
            lemma_gap_ends(s, p + n, open, '(');
            lemma_ident_in(s, p, name);
            lemma_args_in(s, p + n + o + 1, args, around, end, 0, row);
        },
    }
}

/// Passing white space once is passing it all.
proof fn lemma_skipped(s: Text, p: int)
    ensures
        grammar::skip_space(s, grammar::skip_space(s, p)) == grammar::skip_space(s, p),
    decreases s.len() - p,
{
    if 0 <= p < s.len() && text::white_space(s[p]) {
        lemma_skipped(s, p + 1);
    }
}

/// The written arguments of a call yield their values.
proof fn lemma_args_in(
    s: Text,
    p: int,
    args: Seq<Formula>,
    around: Seq<(Text, Text)>,
    end: Option<Text>,
    i: int,
    row: Map<Text, Text>,
)
    requires
        0 <= i <= args.len(),
        all_well_formed(args, around, i),
        end is Some ==> white(end->Some_0),
        stands_at(s, p, args_written(args, around, end, i) + seq![')']),
    ensures
        match args_value(args, i, row) {
            Ok(values) => grammar::args_at(s, p, row) == grammar::ok_step(
                values,
                p + args_written(args, around, end, i).len() + 1,
            ),
            Err(message) => grammar::args_at(s, p, row).outcome == Err::<Seq<Datum>, Text>(message),
        },
    decreases args, args.len() - i,
{
    let whole = args_written(args, around, end, i);
    if i == args.len() {
        assert(white(whole));
        lemma_gap_ends(s, p, whole, ')');
    } else {
        let before = around[i].0;
        let first = written(args[i]);
        let after = around[i].1;
        let rest = args_written(args, around, end, i + 1);
        let q = p + before.len();
        let r = q + first.len();
        lemma_start(args[i]);
        if i + 1 < args.len() || end is Some {
            assert(whole + seq![')'] =~= before + (first + ((after + seq![',']) + (rest
                + seq![')']))));
            lemma_stands_split(s, p, before, first + ((after + seq![',']) + (rest + seq![')'])));
            lemma_stands_split(s, q, first, (after + seq![',']) + (rest + seq![')']));
            lemma_stands_split(s, r, after + seq![','], rest + seq![')']);
            lemma_gap_ends(s, r, after, ',');
            lemma_args_in(s, r + after.len() + 1, args, around, end, i + 1, row);
        } else {
            assert(rest =~= Seq::<char>::empty());
            assert(whole + seq![')'] =~= before + (first + (after + seq![')'])));
            lemma_stands_split(s, p, before, first + (after + seq![')']));
            lemma_stands_split(s, q, first, after + seq![')']);
            lemma_gap_ends(s, r, after, ')');
            assert(args_value(args, i + 1, row) == Ok::<Seq<Datum>, Text>(Seq::empty()));
        }
        lemma_gap(s, p, before);
        lemma_stands(s, q, first, 0);
        lemma_no_space(s, q);
        lemma_expr_in(s, q, args[i], row);
        match value(args[i], row) {
            Ok(v) => {
                assert(seq![v] + Seq::<Datum>::empty() =~= seq![v]);
            },
            Err(_) => {},
        }
    }
}

// ---------------------------------------------------------------------------
// Whole formulas
// ---------------------------------------------------------------------------

proof fn lemma_trim_start(gap: Text, s: Text)
    requires
        white(gap),
        s.len() > 0,
        !text::white_space(s[0]),
    ensures
        text::trimmed_start(gap + s) == s,
    decreases gap.len(),
{
    if gap.len() == 0 {
        assert(gap + s =~= s);
    } else {
        assert((gap + s).skip(1) =~= gap.skip(1) + s);
        assert(text::white_space(gap[0]));
        assert forall|i: int| 0 <= i < gap.skip(1).len() implies text::white_space(
            #[trigger] gap.skip(1)[i],
        ) by {
            assert(gap.skip(1)[i] == gap[i + 1]);
        }
        lemma_trim_start(gap.skip(1), s);
    }
}

proof fn lemma_trim_end(s: Text, gap: Text)
    requires
        white(gap),
        s.len() > 0,
        !text::white_space(s.last()),
    ensures
        text::trimmed_end(s + gap) == s,
    decreases gap.len(),
{
    if gap.len() == 0 {
        assert(s + gap =~= s);
    } else {
        assert((s + gap).drop_last() =~= s + gap.drop_last());
        assert(text::white_space(gap[gap.len() - 1]));
        assert((s + gap).last() == gap.last());
        assert forall|i: int| 0 <= i < gap.drop_last().len() implies text::white_space(
            #[trigger] gap.drop_last()[i],
        ) by {
            assert(gap.drop_last()[i] == gap[i]);
        }
        lemma_trim_end(s, gap.drop_last());
    }
}

/// White space around a text is trimmed.
proof fn lemma_trimmed_whole(before: Text, s: Text, after: Text)
    requires
        white(before),
        white(after),
        s.len() > 0,
        !text::white_space(s[0]),
        !text::white_space(s.last()),
    ensures
        text::trimmed(before + s + after) == s,
{
    assert(before + s + after =~= before + (s + after));
    lemma_trim_start(before, s + after);
    lemma_trim_end(s, after);
}

/// What stands alone as a formula: no white space behind `csv`.
pub open spec fn stands_alone(formula: Formula) -> bool {
    match formula {
        Formula::Field { before, .. } => before.len() == 0,
        Formula::Column { before, .. } => before.len() == 0,
        _ => true,
    }
}

proof fn lemma_finish(formula: Formula)
    requires
        well_formed(formula),
    ensures
        !text::white_space(written(formula).last()),
{
    lemma_start(formula);
    let s = written(formula);
    match formula {
        Formula::Name(name) => {
            assert(text::alphanumeric(name[name.len() - 1]) || name[name.len() - 1] == '_');
        },
        Formula::Field { before, after, name } => {
            assert(text::alphanumeric(name[name.len() - 1]) || name[name.len() - 1] == '_');
            assert(s.last() == name.last());
        },
        _ => {},
    }
}

/// What starts with a formula, and has a parenthesis where that is an
/// identifier, does not stand for itself.
proof fn lemma_not_plain(formula: Formula, more: Text)
    requires
        well_formed(formula),
        stands_alone(formula),
        formula is Name ==> more.contains('('),
    ensures
        !grammar::plain_literal(written(formula) + more),
{
    let w = written(formula);
    let s = w + more;
    reveal_strlit("csv");
    reveal_strlit("csv.");
    reveal_strlit("csv[");
    match formula {
        Formula::Column { .. } => {
            assert("csv["@ =~= s.subrange(0, 4));
        },
        Formula::Field { .. } => {
            assert("csv."@ =~= s.subrange(0, 4));
        },
        Formula::Call { name, open, .. } => {
            assert(s[name.len() as int + open.len() as int] == '(');
        },
        Formula::Name(_) => {
            let i = choose|i: int| 0 <= i < more.len() && more[i] == '(';
            assert(s[w.len() + i] == '(');
        },
        _ => {
            assert(s[0] == '"');
        },
    }
}

/// An identifier stands for itself.
proof fn lemma_name_plain(name: Text)
    requires
        identifier(name),
    ensures
        grammar::plain_literal(name),
{
    reveal_strlit("csv.");
    reveal_strlit("csv[");
    if name.contains('(') {
        let i = choose|i: int| 0 <= i < name.len() && name[i] == '(';
        assert(text::alphanumeric(name[i]) || name[i] == '_');
    }
    if "csv."@.is_prefix_of(name) {
        assert(name[3] == name.subrange(0, 4)[3]);
        assert(text::alphanumeric(name[3]) || name[3] == '_');
    }
    if "csv["@.is_prefix_of(name) {
        assert(name[3] == name.subrange(0, 4)[3]);
        assert(text::alphanumeric(name[3]) || name[3] == '_');
    }
    assert(text::alphanumeric(name[0]) || name[0] == '_');
}

/// A formula means what it is made of, at any depth and with any white space
/// between its parts: evaluated on a row, it yields the value of its parts put
/// together, or the fault of the first part that has one.
pub proof fn law_formula_value(before: Text, formula: Formula, after: Text, row: Map<Text, Text>)
    requires
        white(before),
        white(after),
        well_formed(formula),
        stands_alone(formula),
    ensures
        grammar::evaluated(before + written(formula) + after, row) == (match value(formula, row) {
            Ok(v) => Ok::<Text, Text>(grammar::value_text(v)),
            Err(message) => Err::<Text, Text>(message),
        }),
{
    let s = written(formula);
    let none = Seq::<char>::empty();
    lemma_start(formula);
    lemma_finish(formula);
    lemma_trimmed_whole(before, s, after);
    if formula is Name {
        lemma_name_plain(formula->Name_0);
    } else {
        lemma_not_plain(formula, none);
        assert(s + none =~= s);
        assert(s.subrange(0, s.len() as int) =~= s);
        lemma_no_space(s, s.len() as int);
        lemma_expr_in(s, 0, formula, row);
    }
}

/// What follows a formula does not change how it is read.
proof fn lemma_followed(formula: Formula, gap: Text, rest: Text)
    requires
        white(gap),
        rest.len() > 0,
        !text::white_space(rest[0]),
        gap.len() > 0 || !grammar::ident_char(rest[0]) || !open_ended(formula),
        rest[0] != '(' || !open_ended(formula),
    ensures
        ({
            let w = written(formula);
            let s = w + gap + rest;
            &&& stands_at(s, 0, w)
            &&& open_ended(formula) ==> ends_at(s, w.len() as int)
            &&& grammar::skip_space(s, w.len() as int) == w.len() + gap.len()
        }),
{
    let w = written(formula);
    let s = w + gap + rest;
    let n = w.len() as int;
    let m = n + gap.len();
    assert(s.subrange(0, n) =~= w);
    assert(s.subrange(n, m) =~= gap);
    assert(s[m] == rest[0]);
    lemma_gap(s, n, gap);
    lemma_no_space(s, m);
    if gap.len() > 0 {
        lemma_stands(s, n, gap, 0);
    }
}

/// What follows a formula, and is not white space, is a fault. (What follows an
/// identifier must be told from it, must not make it a call, and must hold a
/// parenthesis for the whole not to stand for itself.)
pub proof fn law_trailing_input(
    formula: Formula,
    gap: Text,
    rest: Text,
    row: Map<Text, Text>,
)
    requires
        well_formed(formula),
        stands_alone(formula),
        white(gap),
        rest.len() > 0,
        !text::white_space(rest[0]),
        !text::white_space(rest.last()),
        formula is Name || formula is Field ==> gap.len() > 0 || !(text::alphanumeric(rest[0])
            || rest[0] == '_'),
        formula is Name || formula is Field ==> rest[0] != '(',
        formula is Name ==> rest.contains('('),
        value(formula, row) is Ok,
    ensures
        grammar::evaluated(written(formula) + gap + rest, row) == Err::<Text, Text>(
            "unexpected trailing input near '"@ + rest + "'"@,
        ),
{
    let w = written(formula);
    let s = w + gap + rest;
    let m = (w.len() + gap.len()) as int;
    lemma_start(formula);
    assert(s[0] == w[0] && s.last() == rest.last());
    lemma_trimmed_whole(Seq::empty(), s, Seq::empty());
    assert(Seq::<char>::empty() + s + Seq::<char>::empty() =~= s);
    assert(formula is Name ==> (gap + rest).contains('(')) by {
        if formula is Name {
            let i = choose|i: int| 0 <= i < rest.len() && rest[i] == '(';
            assert((gap + rest)[gap.len() + i] == '(');
        }
    }
    lemma_not_plain(formula, gap + rest);
    assert(w + (gap + rest) =~= s);
    lemma_followed(formula, gap, rest);
    lemma_expr_in(s, 0, formula, row);
    assert(s.skip(m) =~= rest);
}

/// A text that neither calls anything, nor starts as the access of a column or
/// as a quoted string, stands for itself, without outer white space.
pub proof fn law_plain_text(s: Text, row: Map<Text, Text>)
    requires
        !text::trimmed(s).contains('('),
        !"csv."@.is_prefix_of(text::trimmed(s)),
        !"csv["@.is_prefix_of(text::trimmed(s)),
        text::trimmed(s).len() == 0 || text::trimmed(s)[0] != '"',
    ensures
        grammar::evaluated(s, row) == Ok::<Text, Text>(text::trimmed(s)),
{
}

/// `t` as a quoted string of the formula language.
pub open spec fn quoted(t: Text) -> Text {
    seq!['"'] + text::escaped(t, '"') + seq!['"']
}

/// `csv.` and a name.
pub open spec fn dot_access(name: Text) -> Text {
    "csv."@ + name
}

/// `csv[` and a quoted name and `]`.
pub open spec fn bracket_access(name: Text) -> Text {
    "csv["@ + quoted(name) + "]"@
}

/// The piece of a quoted string that stands for `c`.
spec fn piece_for(c: char) -> Piece {
    if c == '\\' || c == '"' {
        Piece::Escaped(c)
    } else {
        Piece::Plain(c)
    }
}

/// The pieces of the quoted string that stands for `t`.
spec fn pieces_of(t: Text) -> Seq<Piece> {
    Seq::new(t.len(), |i: int| piece_for(t[i]))
}

proof fn lemma_quoted(t: Text)
    ensures
        text::escaped(t, '"') == pieces_written(pieces_of(t)),
        quotable(pieces_of(t)),
        pieces_value(pieces_of(t)) == t,
    decreases t.len(),
{
    assert(pieces_value(pieces_of(t)) =~= t);
    if t.len() > 0 {
        lemma_quoted(t.skip(1));
        assert(pieces_of(t).skip(1) =~= pieces_of(t.skip(1)));
    }
}

/// Every text can be written as a quoted string: evaluating it gives the text
/// back, on every row.
pub proof fn law_quoted_text(t: Text, row: Map<Text, Text>)
    ensures
        grammar::evaluated(quoted(t), row) == Ok::<Text, Text>(t),
{
    let pieces = pieces_of(t);
    let none = Seq::<char>::empty();
    lemma_quoted(t);
    law_formula_value(none, Formula::Literal(pieces), none, row);
    assert(none + quoted(t) + none =~= quoted(t));
}

/// `csv.Name` is the value of the column `Name`, and nothing where the row has
/// no such column.
pub proof fn law_dot_access(name: Text, row: Map<Text, Text>)
    requires
        identifier(name),
    ensures
        row.dom().contains(name) ==> grammar::evaluated(dot_access(name), row) == Ok::<Text, Text>(
            row[name],
        ),
        !row.dom().contains(name) ==> grammar::evaluated(dot_access(name), row) == Ok::<Text, Text>(
            Seq::empty(),
        ),
{
    let none = Seq::<char>::empty();
    let formula = Formula::Field { before: none, after: none, name };
    law_formula_value(none, formula, none, row);
    reveal_strlit("csv");
    reveal_strlit("csv.");
    assert("csv."@ =~= "csv"@ + seq!['.']);
    assert(none + written(formula) + none =~= "csv."@ + name);
}

/// `csv["Any name"]` is the value of the column of that name, whatever
/// characters the name holds, and nothing where the row has no such column.
pub proof fn law_bracket_access(name: Text, row: Map<Text, Text>)
    ensures
        row.dom().contains(name) ==> grammar::evaluated(bracket_access(name), row) == Ok::<
            Text,
            Text,
        >(row[name]),
        !row.dom().contains(name) ==> grammar::evaluated(bracket_access(name), row)
            == Ok::<Text, Text>(Seq::empty()),
{
    let none = Seq::<char>::empty();
    let pieces = pieces_of(name);
    let formula = Formula::Column { before: none, open: none, title: pieces, close: none };
    lemma_quoted(name);
    law_formula_value(none, formula, none, row);
    reveal_strlit("csv");
    reveal_strlit("csv[");
    reveal_strlit("]");
    assert("csv["@ =~= "csv"@ + seq!['[']);
    assert("]"@ =~= seq![']']);
    assert(none + written(formula) + none =~= "csv["@ + quoted(name) + "]"@);
}

/// Both ways to write the access of a column mean the same.
pub proof fn law_accesses_agree(name: Text, row: Map<Text, Text>)
    requires
        identifier(name),
    ensures
        grammar::evaluated(dot_access(name), row) == grammar::evaluated(bracket_access(name), row),
{
    law_dot_access(name, row);
    law_bracket_access(name, row);
}

/// The function `name` on one argument, without white space.
#[verifier::opaque]
spec fn one_argument(name: Text, arg: Formula) -> Formula {
    Formula::Call {
        name,
        open: Seq::empty(),
        args: seq![arg],
        around: seq![(Seq::empty(), Seq::empty())],
        end: None,
    }
}

proof fn lemma_one_argument(name: Text, arg: Formula, row: Map<Text, Text>)
    ensures
        ({
            let call = one_argument(name, arg);
            &&& stands_alone(call)
            &&& written(call) == name + seq!['('] + written(arg) + seq![')']
            &&& identifier(name) && name != "csv"@ && well_formed(arg) ==> well_formed(call)
            &&& value(arg, row) matches Ok(v) ==> value(call, row) == grammar::applied(
                name,
                seq![v],
            )
        }),
{
    reveal(one_argument);
    let none = Seq::<char>::empty();
    let args = seq![arg];
    let around = seq![(none, none)];
    let call = one_argument(name, arg);
    assert(args_written(args, around, None, 1) == none);
    assert(args_written(args, around, None, 0) =~= written(arg));
    assert(written(call) =~= name + seq!['('] + written(arg) + seq![')']);
    assert(all_well_formed(args, around, 1));
    assert(args_value(args, 1, row) == Ok::<Seq<Datum>, Text>(Seq::empty()));
    match value(arg, row) {
        Ok(v) => {
            assert(seq![v] + Seq::<Datum>::empty() =~= seq![v]);
            assert(args_value(args, 0, row) == Ok::<Seq<Datum>, Text>(seq![v]));
        },
        Err(_) => {},
    }
}

proof fn lemma_lower_and_trim()
    ensures
        identifier("lower"@) && "lower"@ != "csv"@,
        identifier("trim"@) && "trim"@ != "csv"@,
{
    reveal_strlit("csv");
    reveal_strlit("trim");
    reveal_strlit("lower");
    assert("trim"@.len() != "csv"@.len());
    assert("lower"@.len() != "csv"@.len());
}

/// `lower(trim(csv.Name))`.
#[verifier::opaque]
spec fn lower_trim(name: Text) -> Formula {
    one_argument(
        "lower"@,
        one_argument(
            "trim"@,
            Formula::Field { before: Seq::empty(), after: Seq::empty(), name },
        ),
    )
}

proof fn lemma_lower_trim(name: Text, row: Map<Text, Text>)
    requires
        identifier(name),
    ensures
        well_formed(lower_trim(name)),
        stands_alone(lower_trim(name)),
        written(lower_trim(name)) == "lower"@ + seq!['('] + ("trim"@ + seq!['('] + dot_access(name)
            + seq![')']) + seq![')'],
        value(lower_trim(name), row) == Ok::<Datum, Text>(
            Datum::Str(text::lowercase(text::trimmed(column_value(row, name)))),
        ),
{
    reveal(lower_trim);
    let none = Seq::<char>::empty();
    let field = Formula::Field { before: none, after: none, name };
    let v = column_value(row, name);
    lemma_lower_and_trim();
    lemma_one_argument("trim"@, field, row);
    lemma_one_argument("lower"@, one_argument("trim"@, field), row);
    assert(written(field) =~= dot_access(name)) by {
        reveal_strlit("csv");
        reveal_strlit("csv.");
        assert("csv."@ =~= "csv"@ + seq!['.']);
    }
    law_functions(v, v, Datum::Str(v), Datum::Str(v));
    law_functions(text::trimmed(v), v, Datum::Str(v), Datum::Str(v));
}

/// `lower(trim(csv.Name))` is the value of the column, trimmed and in lower
/// case.
pub proof fn law_lower_trim(name: Text, row: Map<Text, Text>)
    requires
        identifier(name),
    ensures
        grammar::evaluated(
            "lower"@ + seq!['('] + ("trim"@ + seq!['('] + dot_access(name) + seq![')']) + seq![')'],
            row,
        ) == Ok::<Text, Text>(text::lowercase(text::trimmed(column_value(row, name)))),
{
    let none = Seq::<char>::empty();
    lemma_lower_trim(name, row);
    law_formula_value(none, lower_trim(name), none, row);
    assert(none + written(lower_trim(name)) + none =~= written(lower_trim(name)));
}

/// The characters of identifiers: the underscore, the letters and digits of
/// ASCII, and beyond ASCII what the Unicode tables have as letters and numbers.
pub proof fn law_identifier_characters(c: char)
    ensures
        grammar::ident_char(c) <==> c == '_' || 'a' <= c <= 'z' || 'A' <= c <= 'Z' || '0' <= c <= '9'
            || (c > '\u{7f}' && !text::white_space(c) && text::unicode_alphanumeric(c)),
{
}

} // verus!
