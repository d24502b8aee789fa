//! What can be read as a formula, and what cannot.

use vstd::prelude::*;

use crate::formula_laws;
use crate::formula_laws::{
    lemma_expr_in, lemma_gap, lemma_gap_ends, lemma_ident_in, lemma_no_space, lemma_stands,
    lemma_stands_split, lemma_start, lemma_string_in, Formula, Piece,
};
use crate::grammar;
use crate::grammar::{lemma_ident_end, lemma_skip_space, Datum};
use crate::text;
use crate::text::Text;
use crate::text_laws::law_trimmed_ends;

verus! {

// ---------------------------------------------------------------------------
// Parts
// ---------------------------------------------------------------------------

proof fn lemma_joint(s: Text, p: int, a: Text, b: Text)
    requires
        formula_laws::stands_at(s, p, a),
        formula_laws::stands_at(s, p + a.len(), b),
    ensures
        formula_laws::stands_at(s, p, a + b),
{
    let whole = s.subrange(p, p + (a + b).len());
    assert forall|i: int| 0 <= i < whole.len() implies whole[i] == (a + b)[i] by {
        if i < a.len() {
            lemma_stands(s, p, a, i);
        } else {
            lemma_stands(s, p + a.len(), b, i - a.len());
        }
    }
    assert(whole =~= a + b);
}

/// What is skipped is white space.
proof fn lemma_skipped_gap(s: Text, p: int)
    requires
        0 <= p <= s.len(),
    ensures
        p <= grammar::skip_space(s, p) <= s.len(),
        formula_laws::white(s.subrange(p, grammar::skip_space(s, p))),
        formula_laws::stands_at(s, p, s.subrange(p, grammar::skip_space(s, p))),
        grammar::skip_space(s, p) < s.len() ==> !text::white_space(s[grammar::skip_space(s, p)]),
    decreases s.len() - p,
{
    lemma_skip_space(s, p);
    if p < s.len() && text::white_space(s[p]) {
        lemma_skipped_gap(s, p + 1);
        let q = grammar::skip_space(s, p);
        let gap = s.subrange(p, q);
        assert forall|i: int| 0 <= i < gap.len() implies text::white_space(#[trigger] gap[i]) by {
            if i > 0 {
                assert(s.subrange(p + 1, q)[i - 1] == gap[i]);
            }
        }
    }
}

/// What is read as an identifier is one.
proof fn lemma_ident_out(s: Text, p: int)
    requires
        0 <= p <= s.len(),
        grammar::ident_at(s, p).outcome is Ok,
    ensures
        ({
            let start = grammar::skip_space(s, p);
            let e = grammar::ident_at(s, p);
            let name = e.outcome->Ok_0;
            &&& p <= start < e.pos <= s.len()
            &&& formula_laws::identifier(name)
            &&& formula_laws::stands_at(s, start, name)
            &&& e.pos == start + name.len()
        }),
{
    let start = grammar::skip_space(s, p);
    lemma_skip_space(s, p);
    lemma_ident_end(s, start);
    lemma_ident_run(s, start);
    let end = grammar::ident_end(s, start);
    let name = s.subrange(start, end);
    assert forall|j: int| 0 <= j < name.len() implies text::alphanumeric(#[trigger] name[j])
        || name[j] == '_' by {
        assert(grammar::ident_char(s[start + j]));
    }
}

proof fn lemma_ident_run(s: Text, p: int)
    requires
        0 <= p <= s.len(),
    ensures
        p <= grammar::ident_end(s, p) <= s.len(),
        forall|i: int| p <= i < grammar::ident_end(s, p) ==> grammar::ident_char(#[trigger] s[i]),
    decreases s.len() - p,
{
    if p < s.len() && grammar::ident_char(s[p]) {
        lemma_ident_run(s, p + 1);
    }
}

/// What is read as the rest of a quoted string is one.
proof fn lemma_pieces_out(s: Text, p: int, out: Text) -> (r: Seq<Piece>)
    requires
        0 <= p <= s.len(),
        grammar::string_rest(s, p, out).outcome is Ok,
    ensures
        formula_laws::quotable(r),
        formula_laws::stands_at(s, p, formula_laws::pieces_written(r) + seq!['"']),
        grammar::string_rest(s, p, out) == grammar::ok_step(
            out + formula_laws::pieces_value(r),
            p + formula_laws::pieces_written(r).len() + 1,
        ),
    decreases s.len() - p,
{
    if s[p] == '"' {
        let pieces = Seq::<Piece>::empty();
        assert(formula_laws::pieces_written(pieces) + seq!['"'] =~= seq!['"']);
        assert(s.subrange(p, p + 1) =~= seq!['"']);
        assert(out + formula_laws::pieces_value(pieces) =~= out);
        pieces
    } else if s[p] == '\\' {
        let c = grammar::unescaped(s[p + 1]);
        let rest = lemma_pieces_out(s, p + 2, out.push(c));
        let piece = Piece::Escaped(s[p + 1]);
        assert(s.subrange(p, p + 2) =~= seq!['\\', s[p + 1]]);
        lemma_pieces_more(s, p, out, piece, c, seq!['\\', s[p + 1]], rest);
        with_first(piece, rest)
    } else {
        let rest = lemma_pieces_out(s, p + 1, out.push(s[p]));
        let piece = Piece::Plain(s[p]);
        assert(s.subrange(p, p + 1) =~= seq![s[p]]);
        lemma_pieces_more(s, p, out, piece, s[p], seq![s[p]], rest);
        with_first(piece, rest)
    }
}

spec fn with_first(piece: Piece, rest: Seq<Piece>) -> Seq<Piece> {
    seq![piece] + rest
}

proof fn lemma_pieces_more(
    s: Text,
    p: int,
    out: Text,
    piece: Piece,
    c: char,
    spelled: Text,
    rest: Seq<Piece>,
)
    requires
        formula_laws::quotable(rest),
        match piece {
            Piece::Plain(x) => x == c && c != '"' && c != '\\' && spelled == seq![x],
            Piece::Escaped(x) => c == grammar::unescaped(x) && spelled == seq!['\\', x],
        },
        formula_laws::stands_at(s, p, spelled),
        formula_laws::stands_at(
            s,
            p + spelled.len(),
            formula_laws::pieces_written(rest) + seq!['"'],
        ),
    ensures
        formula_laws::quotable(with_first(piece, rest)),
        formula_laws::pieces_written(with_first(piece, rest)) == spelled + formula_laws::pieces_written(
            rest,
        ),
        formula_laws::stands_at(
            s,
            p,
            formula_laws::pieces_written(with_first(piece, rest)) + seq!['"'],
        ),
        out.push(c) + formula_laws::pieces_value(rest) == out + formula_laws::pieces_value(
            with_first(piece, rest),
        ),
{
    let pieces = with_first(piece, rest);
    assert(pieces.skip(1) =~= rest);
    assert(pieces[0] == piece);
    assert forall|i: int| 0 <= i < pieces.len() implies match #[trigger] pieces[i] {
        Piece::Plain(x) => x != '"' && x != '\\',
        Piece::Escaped(_) => true,
    } by {
        if i > 0 {
            assert(pieces[i] == rest[i - 1]);
        }
    }
    lemma_joint(s, p, spelled, formula_laws::pieces_written(rest) + seq!['"']);
    assert(spelled + (formula_laws::pieces_written(rest) + seq!['"'])
        =~= formula_laws::pieces_written(pieces) + seq!['"']);
    let all = formula_laws::pieces_value(pieces);
    assert(all[0] == c);
    assert(all =~= seq![c] + formula_laws::pieces_value(rest));
    assert(out.push(c) + formula_laws::pieces_value(rest) =~= out + all);
}

/// What is read as a quoted string is one.
proof fn lemma_string_out(s: Text, p: int) -> (r: Seq<Piece>)
    requires
        0 <= p <= s.len(),
        grammar::string_at(s, p).outcome is Ok,
    ensures
        formula_laws::quotable(r),
        formula_laws::stands_at(s, p, formula_laws::string_written(r)),
        grammar::string_at(s, p) == grammar::ok_step(
            formula_laws::pieces_value(r),
            p + formula_laws::string_written(r).len(),
        ),
{
    let pieces = lemma_pieces_out(s, p + 1, Seq::empty());
    let rest = formula_laws::pieces_written(pieces) + seq!['"'];
    assert(s.subrange(p, p + 1) =~= seq!['"']);
    lemma_joint(s, p, seq!['"'], rest);
    assert(seq!['"'] + rest =~= formula_laws::string_written(pieces));
    assert(Seq::<char>::empty() + formula_laws::pieces_value(pieces) =~= formula_laws::pieces_value(
        pieces,
    ));
    pieces
}

// ---------------------------------------------------------------------------
// Formulas
// ---------------------------------------------------------------------------

/// What is read at `p` is `formula`: it stands there behind white space, its
/// value is what is read, and between its end and where reading stops is
/// nothing but white space.
spec fn reads(s: Text, p: int, row: Map<Text, Text>, formula: Formula) -> bool {
    let e = grammar::expr_at(s, p, row);
    let end = grammar::skip_space(s, p) + formula_laws::written(formula).len();
    &&& formula_laws::well_formed(formula)
    &&& formula_laws::stands_at(s, grammar::skip_space(s, p), formula_laws::written(formula))
    &&& end <= e.pos <= s.len()
    &&& formula_laws::white(s.subrange(end, e.pos))
    &&& formula_laws::value(formula, row) == e.outcome
}

/// Arguments of a call, with the white space around them and what stands behind
/// the last.
struct Arguments {
    args: Seq<Formula>,
    around: Seq<(Text, Text)>,
    end: Option<Text>,
}

/// What is read as arguments from `p` on is `read`.
spec fn reads_args(s: Text, p: int, row: Map<Text, Text>, read: Arguments) -> bool {
    let e = grammar::args_at(s, p, row);
    let spelled = formula_laws::args_written(read.args, read.around, read.end, 0);
    &&& read.around.len() == read.args.len()
    &&& formula_laws::all_well_formed(read.args, read.around, 0)
    &&& read.end is Some ==> formula_laws::white(read.end->Some_0)
    &&& read.args.len() == 0 ==> read.end is Some
    &&& formula_laws::args_value(read.args, 0, row) == e.outcome
    &&& formula_laws::stands_at(s, p, spelled + seq![')'])
    &&& e.pos == p + spelled.len() + 1
}

/// `first` and then the arguments `rest`.
spec fn with_argument(first: Formula, gaps: (Text, Text), rest: Arguments) -> Arguments {
    Arguments {
        args: seq![first] + rest.args,
        around: seq![gaps] + rest.around,
        end: rest.end,
    }
}

proof fn lemma_argument_more(
    first: Formula,
    gaps: (Text, Text),
    rest: Arguments,
    row: Map<Text, Text>,
    i: int,
)
    requires
        0 <= i <= rest.args.len(),
        rest.around.len() == rest.args.len(),
    ensures
        ({
            let all = with_argument(first, gaps, rest);
            &&& formula_laws::all_well_formed(all.args, all.around, i + 1)
                == formula_laws::all_well_formed(rest.args, rest.around, i)
            &&& formula_laws::args_written(all.args, all.around, all.end, i + 1)
                == formula_laws::args_written(rest.args, rest.around, rest.end, i)
            &&& formula_laws::args_value(all.args, i + 1, row) == formula_laws::args_value(
                rest.args,
                i,
                row,
            )
        }),
    decreases rest.args.len() - i,
{
    let all = with_argument(first, gaps, rest);
    if i < rest.args.len() {
        lemma_argument_more(first, gaps, rest, row, i + 1);
        assert(all.args[i + 1] == rest.args[i]);
        assert(all.around[i + 1] == rest.around[i]);
    }
}

/// What is read as a column is written as one.
proof fn lemma_column_out(s: Text, p: int, row: Map<Text, Text>) -> (r: Formula)
    requires
        0 <= p <= s.len(),
        grammar::ident_at(s, grammar::skip_space(s, p)).outcome == Ok::<Text, Text>("csv"@),
        grammar::expr_at(s, p, row).outcome is Ok,
        !grammar::char_at(s, grammar::skip_space(s, p), '"'),
    ensures
        reads(s, p, row, r),
{
    let start = grammar::skip_space(s, p);
    lemma_skipped_gap(s, p);
    lemma_ident_out(s, start);
    lemma_no_space(s, start);
    reveal_strlit("csv");
    let q = start + 3;
    let dot = grammar::skip_space(s, q);
    lemma_skipped_gap(s, q);
    let before = s.subrange(q, dot);
    lemma_joint(s, start, "csv"@, before);
    if grammar::char_at(s, dot, '.') {
        assert(s.subrange(dot, dot + 1) =~= seq!['.']);
        lemma_ident_out(s, dot + 1);
        lemma_skipped_gap(s, dot + 1);
        let after = s.subrange(dot + 1, grammar::skip_space(s, dot + 1));
        let name = grammar::ident_at(s, dot + 1).outcome->Ok_0;
        let formula = Formula::Field { before, after, name };
        lemma_joint(s, start, "csv"@ + before, seq!['.']);
        lemma_joint(s, start, "csv"@ + before + seq!['.'], after);
        lemma_joint(s, start, "csv"@ + before + seq!['.'] + after, name);
        assert(reads(s, p, row, formula));
        formula
    } else {
        assert(grammar::char_at(s, dot, '['));
        assert(s.subrange(dot, dot + 1) =~= seq!['[']);
        lemma_skipped_gap(s, dot + 1);
        let quote = grammar::skip_space(s, dot + 1);
        let open = s.subrange(dot + 1, quote);
        let title = lemma_string_out(s, quote);
        let behind = grammar::string_at(s, quote).pos;
        lemma_skipped_gap(s, behind);
        let close = s.subrange(behind, grammar::skip_space(s, behind));
        let end = grammar::skip_space(s, behind);
        assert(grammar::char_at(s, end, ']'));
        assert(s.subrange(end, end + 1) =~= seq![']']);
        let formula = Formula::Column { before, open, title, close };
        lemma_joint(s, start, "csv"@ + before, seq!['[']);
        lemma_joint(s, start, "csv"@ + before + seq!['['], open);
        lemma_joint(
            s,
            start,
            "csv"@ + before + seq!['['] + open,
            formula_laws::string_written(title),
        );
        lemma_joint(
            s,
            start,
            "csv"@ + before + seq!['['] + open + formula_laws::string_written(title),
            close,
        );
        lemma_joint(
            s,
            start,
            "csv"@ + before + seq!['['] + open + formula_laws::string_written(title) + close,
            seq![']'],
        );
        assert(reads(s, p, row, formula));
        formula
    }
}

/// What is read as a formula is written as one.
proof fn lemma_expr_out(s: Text, p: int, row: Map<Text, Text>) -> (r: Formula)
    requires
        0 <= p <= s.len(),
        grammar::expr_at(s, p, row).outcome is Ok,
    ensures
        reads(s, p, row, r),
    decreases s.len() - p, 0nat,
{
    let start = grammar::skip_space(s, p);
    lemma_skipped_gap(s, p);
    lemma_no_space(s, start);
    if grammar::char_at(s, start, '"') {
        let pieces = lemma_string_out(s, start);
        let formula = Formula::Literal(pieces);
        assert(reads(s, p, row, formula));
        formula
    } else {
        let ident = grammar::ident_at(s, start);
        lemma_ident_out(s, start);
        let name = ident.outcome->Ok_0;
        if name == "csv"@ {
            lemma_column_out(s, p, row)
        } else {
            lemma_skipped_gap(s, ident.pos);
            let open = grammar::skip_space(s, ident.pos);
            let gap = s.subrange(ident.pos, open);
            if grammar::char_at(s, open, '(') {
                let read = lemma_args_out(s, open + 1, row);
                let formula = Formula::Call {
                    name,
                    open: gap,
                    args: read.args,
                    around: read.around,
                    end: read.end,
                };
                let spelled = formula_laws::args_written(read.args, read.around, read.end, 0);
                assert(s.subrange(open, open + 1) =~= seq!['(']);
                lemma_joint(s, start, name, gap);
                lemma_joint(s, start, name + gap, seq!['(']);
                lemma_joint(s, start, name + gap + seq!['('], spelled + seq![')']);
                assert(name + gap + seq!['('] + (spelled + seq![')']) =~= name + gap + seq!['(']
                    + spelled + seq![')']);
                assert(reads(s, p, row, formula));
                formula
            } else {
                let formula = Formula::Name(name);
                assert(reads(s, p, row, formula));
                formula
            }
        }
    }
}

/// What is read as the arguments of a call is written as such.
proof fn lemma_args_out(s: Text, p: int, row: Map<Text, Text>) -> (r: Arguments)
    requires
        0 <= p <= s.len(),
        grammar::args_at(s, p, row).outcome is Ok,
    ensures
        reads_args(s, p, row, r),
    decreases s.len() - p, 1nat,
{
    let start = grammar::skip_space(s, p);
    lemma_skipped_gap(s, p);
    let gap = s.subrange(p, start);
    let none = Arguments { args: Seq::empty(), around: Seq::empty(), end: Some(gap) };
    if grammar::char_at(s, start, ')') {
        assert(s.subrange(start, start + 1) =~= seq![')']);
        lemma_joint(s, p, gap, seq![')']);
        assert(reads_args(s, p, row, none));
        none
    } else {
        let first = lemma_expr_out(s, start, row);
        lemma_no_space(s, start);
        let e = grammar::expr_at(s, start, row);
        let end = grammar::skip_space(s, e.pos);
        let spelled = formula_laws::written(first);
        let behind = start + spelled.len();
        lemma_skipped_gap(s, e.pos);
        let after = s.subrange(behind, end);
        assert forall|i: int| 0 <= i < after.len() implies text::white_space(#[trigger] after[i]) by {
            if behind + i < e.pos {
                assert(s.subrange(behind, e.pos)[i] == after[i]);
            } else {
                assert(s.subrange(e.pos, end)[behind + i - e.pos] == after[i]);
            }
        }
        lemma_joint(s, p, gap, spelled);
        lemma_joint(s, p, gap + spelled, after);
        if e.pos > start && grammar::char_at(s, end, ',') {
            let rest = lemma_args_out(s, end + 1, row);
            let all = with_argument(first, (gap, after), rest);
            lemma_argument_more(first, (gap, after), rest, row, 0);
            assert(all.args[0] == first && all.around[0] == (gap, after));
            let others = formula_laws::args_written(rest.args, rest.around, rest.end, 0);
            assert(s.subrange(end, end + 1) =~= seq![',']);
            lemma_joint(s, p, gap + spelled + after, seq![',']);
            lemma_joint(s, p, gap + spelled + after + seq![','], others + seq![')']);
            assert(formula_laws::args_written(all.args, all.around, all.end, 0) =~= gap + spelled
                + after + seq![','] + others);
            assert(gap + spelled + after + seq![','] + (others + seq![')']) =~= gap + spelled
                + after + seq![','] + others + seq![')']);
            assert(reads_args(s, p, row, all));
            all
        } else {
            let one = Arguments { args: seq![first], around: seq![(gap, after)], end: None };
            assert(s.subrange(end, end + 1) =~= seq![')']);
            lemma_joint(s, p, gap + spelled + after, seq![')']);
            assert(formula_laws::all_well_formed(one.args, one.around, 1));
            assert(formula_laws::args_written(one.args, one.around, one.end, 1) =~= Seq::empty());
            assert(formula_laws::args_written(one.args, one.around, one.end, 0) =~= gap + spelled
                + after);
            assert(formula_laws::args_value(one.args, 1, row) == Ok::<Seq<Datum>, Text>(
                Seq::empty(),
            ));
            assert(seq![e.outcome->Ok_0] + Seq::<Datum>::empty() =~= seq![e.outcome->Ok_0]);
            assert(reads_args(s, p, row, one));
            one
        }
    }
}

/// `formula` is how `s` is written, and its value on `row`, as text, is `t`.
pub open spec fn reads_as(s: Text, formula: Formula, row: Map<Text, Text>, t: Text) -> bool {
    &&& formula_laws::well_formed(formula)
    &&& formula_laws::written(formula) == s
    &&& formula_laws::value(formula, row) matches Ok(v)
    &&& t == grammar::value_text(v)
}

/// `s` does not stand for itself: it calls something, or starts as the access of
/// a column or as a quoted string.
pub open spec fn starts_or_calls(s: Text) -> bool {
    ||| s.contains('(')
    ||| "csv."@.is_prefix_of(s)
    ||| "csv["@.is_prefix_of(s)
    ||| s.len() > 0 && s[0] == '"'
}

/// Nothing but formulas has a value: what is evaluated, and does not stand for
/// itself, is written as a formula, and has the value of that.
pub proof fn law_only_formulas(formula: Text, row: Map<Text, Text>)
    requires
        grammar::evaluated(formula, row) is Ok,
        starts_or_calls(text::trimmed(formula)),
    ensures
        exists|read: Formula| #[trigger]
            reads_as(
                text::trimmed(formula),
                read,
                row,
                grammar::evaluated(formula, row)->Ok_0,
            ),
{
    let s = text::trimmed(formula);
    law_trimmed_ends(formula);
    let read = lemma_expr_out(s, 0, row);
    let e = grammar::expr_at(s, 0, row);
    lemma_skipped_gap(s, 0);
    lemma_skipped_gap(s, e.pos);
    assert(s.len() > 0) by {
        if s.len() == 0 {
            assert(grammar::ident_end(s, 0) == 0);
            assert(grammar::skip_space(s, 0) == 0);
        }
    }
    lemma_no_space(s, 0);
    let n = formula_laws::written(read).len() as int;
    if n < e.pos {
        assert(s.subrange(n, e.pos)[e.pos - 1 - n] == s[e.pos - 1]);
    }
    if e.pos < s.len() {
        let gap = s.subrange(e.pos, s.len() as int);
        assert(gap[gap.len() - 1] == s.last());
    }
    assert(n == s.len());
    assert(s.subrange(0, n) =~= s);
    assert(reads_as(s, read, row, grammar::evaluated(formula, row)->Ok_0));
}

// ---------------------------------------------------------------------------
// Faults
// ---------------------------------------------------------------------------

/// The string with the given pieces that breaks off behind them.
proof fn lemma_pieces_open(s: Text, p: int, pieces: Seq<Piece>, out: Text)
    requires
        formula_laws::quotable(pieces),
        formula_laws::stands_at(s, p, formula_laws::pieces_written(pieces)),
    ensures
        ({
            let q = p + formula_laws::pieces_written(pieces).len();
            let r = grammar::string_rest(s, p, out);
            &&& q == s.len() ==> r.outcome == Err::<Text, Text>("unterminated string"@)
            &&& q + 1 == s.len() && s[q] == '\\' ==> r.outcome == Err::<Text, Text>(
                "unterminated escape sequence"@,
            )
        }),
    decreases pieces.len(),
{
    if pieces.len() > 0 {
        let rest = pieces.skip(1);
        let tail = formula_laws::pieces_written(rest);
        assert forall|i: int| 0 <= i < rest.len() implies match #[trigger] rest[i] {
            Piece::Plain(c) => c != '"' && c != '\\',
            Piece::Escaped(_) => true,
        } by {
            assert(rest[i] == pieces[i + 1]);
        }
        match pieces[0] {
            Piece::Plain(c) => {
                lemma_stands_split(s, p, seq![c], tail);
                lemma_stands(s, p, seq![c], 0);
                lemma_pieces_open(s, p + 1, rest, out.push(c));
            },
            Piece::Escaped(c) => {
                lemma_stands_split(s, p, seq!['\\', c], tail);
                lemma_stands(s, p, seq!['\\', c], 0);
                lemma_stands(s, p, seq!['\\', c], 1);
                lemma_pieces_open(s, p + 2, rest, out.push(grammar::unescaped(c)));
            },
        }
    }
}

/// A string without a closing quote is a fault.
pub proof fn law_unterminated_string(formula: Text, pieces: Seq<Piece>, row: Map<Text, Text>)
    requires
        formula_laws::quotable(pieces),
        text::trimmed(formula) == seq!['"'] + formula_laws::pieces_written(pieces),
    ensures
        grammar::evaluated(formula, row) == Err::<Text, Text>("unterminated string"@),
{
    let s = text::trimmed(formula);
    lemma_no_space(s, 0);
    assert(s.subrange(1, s.len() as int) =~= formula_laws::pieces_written(pieces));
    lemma_pieces_open(s, 1, pieces, Seq::empty());
}

/// A string that breaks off behind a backslash is a fault.
pub proof fn law_unterminated_escape(formula: Text, pieces: Seq<Piece>, row: Map<Text, Text>)
    requires
        formula_laws::quotable(pieces),
        text::trimmed(formula) == seq!['"'] + formula_laws::pieces_written(pieces) + seq!['\\'],
    ensures
        grammar::evaluated(formula, row) == Err::<Text, Text>("unterminated escape sequence"@),
{
    let s = text::trimmed(formula);
    lemma_no_space(s, 0);
    assert(s.subrange(1, s.len() - 1) =~= formula_laws::pieces_written(pieces));
    lemma_pieces_open(s, 1, pieces, Seq::empty());
}

/// What starts neither as a string nor with an identifier is a fault.
pub proof fn law_no_identifier(formula: Text, row: Map<Text, Text>)
    requires
        text::trimmed(formula).contains('('),
        text::trimmed(formula)[0] != '"',
        !text::alphanumeric(text::trimmed(formula)[0]),
        text::trimmed(formula)[0] != '_',
    ensures
        grammar::evaluated(formula, row) == Err::<Text, Text>(
            "expected identifier near '"@ + text::trimmed(formula) + "'"@,
        ),
{
    let s = text::trimmed(formula);
    law_trimmed_ends(formula);
    lemma_no_space(s, 0);
    assert(s.skip(0) =~= s);
}

/// `csv`, white space, and something that goes on neither with an identifier nor
/// with white space.
proof fn lemma_csv_in(s: Text, gap: Text, rest: Text)
    requires
        s == "csv"@ + gap + rest,
        formula_laws::white(gap),
        gap.len() > 0 || rest.len() == 0 || !grammar::ident_char(rest[0]),
        rest.len() == 0 || !text::white_space(rest[0]),
    ensures
        grammar::skip_space(s, 0) == 0,
        !grammar::char_at(s, 0, '"'),
        grammar::ident_at(s, 0) == grammar::ok_step("csv"@, 3),
        grammar::skip_space(s, 3) == 3 + gap.len(),
{
    reveal_strlit("csv");
    let n = 3 + gap.len() as int;
    assert(s.subrange(0, 3) =~= "csv"@);
    assert(s.subrange(3, n) =~= gap);
    if rest.len() > 0 {
        assert(s[n] == rest[0]);
    }
    if gap.len() > 0 {
        lemma_stands(s, 3, gap, 0);
    }
    lemma_no_space(s, 0);
    lemma_ident_in(s, 0, "csv"@);
    lemma_gap(s, 3, gap);
    lemma_no_space(s, n);
}

/// `csv` with neither a dot nor a bracket behind it is a fault.
pub proof fn law_no_access(formula: Text, gap: Text, rest: Text, row: Map<Text, Text>)
    requires
        text::trimmed(formula) == "csv"@ + gap + rest,
        text::trimmed(formula).contains('('),
        formula_laws::white(gap),
        rest.len() > 0,
        gap.len() > 0 || !(text::alphanumeric(rest[0]) || rest[0] == '_'),
        !text::white_space(rest[0]),
        rest[0] != '.',
        rest[0] != '[',
    ensures
        grammar::evaluated(formula, row) == Err::<Text, Text>(
            "expected csv.Field or csv[\"Field\"]"@,
        ),
{
    let s = text::trimmed(formula);
    lemma_csv_in(s, gap, rest);
    reveal_strlit("csv");
    assert(s[3 + gap.len() as int] == rest[0]);
}

/// `csv.` without an identifier behind it is a fault.
pub proof fn law_no_field(formula: Text, before: Text, after: Text, rest: Text, row: Map<Text, Text>)
    requires
        text::trimmed(formula) == "csv"@ + before + seq!['.'] + after + rest,
        starts_or_calls(text::trimmed(formula)),
        formula_laws::white(before),
        formula_laws::white(after),
        rest.len() == 0 || !(text::alphanumeric(rest[0]) || rest[0] == '_' || text::white_space(
            rest[0],
        )),
    ensures
        grammar::evaluated(formula, row) == Err::<Text, Text>(
            "expected identifier near '"@ + rest + "'"@,
        ),
{
    let s = text::trimmed(formula);
    reveal_strlit("csv");
    let n = 4 + before.len() as int;
    let m = n + after.len();
    let behind = seq!['.'] + after + rest;
    assert(s =~= "csv"@ + before + behind);
    assert(behind[0] == '.');
    lemma_csv_in(s, before, behind);
    assert(s[n - 1] == '.');
    assert(s.subrange(n, m) =~= after);
    lemma_gap(s, n, after);
    if rest.len() > 0 {
        assert(s[m] == rest[0]);
    }
    lemma_no_space(s, m);
    assert(s.skip(m) =~= rest);
}

/// `csv[` without a quoted string behind it is a fault.
pub proof fn law_no_column(formula: Text, before: Text, open: Text, rest: Text, row: Map<Text, Text>)
    requires
        text::trimmed(formula) == "csv"@ + before + seq!['['] + open + rest,
        starts_or_calls(text::trimmed(formula)),
        formula_laws::white(before),
        formula_laws::white(open),
        rest.len() == 0 || rest[0] != '"' && !text::white_space(rest[0]),
    ensures
        grammar::evaluated(formula, row) == Err::<Text, Text>("expected string"@),
{
    let s = text::trimmed(formula);
    reveal_strlit("csv");
    let n = 4 + before.len() as int;
    let m = n + open.len();
    let behind = seq!['['] + open + rest;
    assert(s =~= "csv"@ + before + behind);
    assert(behind[0] == '[');
    lemma_csv_in(s, before, behind);
    assert(s[n - 1] == '[');
    assert(s.subrange(n, m) =~= open);
    lemma_gap(s, n, open);
    if rest.len() > 0 {
        assert(s[m] == rest[0]);
    }
    lemma_no_space(s, m);
}

/// A quoted name without a closing bracket behind it is a fault.
pub proof fn law_no_bracket(
    formula: Text,
    before: Text,
    open: Text,
    title: Seq<Piece>,
    close: Text,
    rest: Text,
    row: Map<Text, Text>,
)
    requires
        text::trimmed(formula) == "csv"@ + before + seq!['['] + open + formula_laws::string_written(
            title,
        ) + close + rest,
        starts_or_calls(text::trimmed(formula)),
        formula_laws::white(before),
        formula_laws::white(open),
        formula_laws::quotable(title),
        formula_laws::white(close),
        rest.len() == 0 || rest[0] != ']' && !text::white_space(rest[0]),
    ensures
        grammar::evaluated(formula, row) == Err::<Text, Text>("expected ']' after csv[...]"@),
{
    let s = text::trimmed(formula);
    reveal_strlit("csv");
    let name = formula_laws::string_written(title);
    let n = 4 + before.len() as int;
    let m = n + open.len();
    let k = m + name.len();
    let end = k + close.len();
    let behind = seq!['['] + open + name + close + rest;
    assert(s =~= "csv"@ + before + behind);
    assert(behind[0] == '[');
    lemma_csv_in(s, before, behind);
    assert(s[n - 1] == '[');
    assert(s.subrange(n, m) =~= open);
    assert(s.subrange(m, k) =~= name);
    assert(s.subrange(k, end) =~= close);
    lemma_gap(s, n, open);
    lemma_string_in(s, m, title);
    lemma_no_space(s, m);
    lemma_gap(s, k, close);
    if rest.len() > 0 {
        assert(s[end] == rest[0]);
    }
    lemma_no_space(s, end);
}

/// Arguments, each with its comma, then one with neither a comma nor a closing
/// parenthesis behind it.
proof fn lemma_args_open(
    s: Text,
    p: int,
    args: Seq<Formula>,
    around: Seq<(Text, Text)>,
    gap: Text,
    last: Formula,
    i: int,
    row: Map<Text, Text>,
)
    requires
        0 <= i <= args.len(),
        formula_laws::all_well_formed(args, around, i),
        formula_laws::white(gap),
        formula_laws::well_formed(last),
        formula_laws::stands_at(
            s,
            p,
            formula_laws::args_written(args, around, Some(gap), i) + formula_laws::written(last),
        ),
        ({
            let end = p + formula_laws::args_written(args, around, Some(gap), i).len()
                + formula_laws::written(last).len();
            let q = grammar::skip_space(s, end);
            &&& formula_laws::open_ended(last) ==> formula_laws::ends_at(s, end)
            &&& q < s.len() ==> s[q] != ',' && s[q] != ')'
        }),
        formula_laws::args_value(args, i, row) is Ok,
        formula_laws::value(last, row) is Ok,
    ensures
        grammar::args_at(s, p, row).outcome == Err::<Seq<Datum>, Text>("expected ',' or ')'"@),
    decreases args.len() - i,
{
    let whole = formula_laws::args_written(args, around, Some(gap), i);
    let spelled = formula_laws::written(last);
    lemma_start(last);
    if i == args.len() {
        lemma_stands_split(s, p, gap, spelled);
        lemma_gap(s, p, gap);
        let q = p + gap.len();
        lemma_stands(s, q, spelled, 0);
        lemma_no_space(s, q);
        lemma_expr_in(s, q, last, row);
    } else {
        let before = around[i].0;
        let first = formula_laws::written(args[i]);
        let after = around[i].1;
        let rest = formula_laws::args_written(args, around, Some(gap), i + 1);
        let q = p + before.len();
        let r = q + first.len();
        lemma_start(args[i]);
        assert(whole + spelled =~= before + (first + ((after + seq![',']) + (rest + spelled))));
        lemma_stands_split(s, p, before, first + ((after + seq![',']) + (rest + spelled)));
        lemma_stands_split(s, q, first, (after + seq![',']) + (rest + spelled));
        lemma_stands_split(s, r, after + seq![','], rest + spelled);
        lemma_gap_ends(s, r, after, ',');
        lemma_args_open(s, r + after.len() + 1, args, around, gap, last, i + 1, row);
        lemma_gap(s, p, before);
        lemma_stands(s, q, first, 0);
        lemma_no_space(s, q);
        lemma_expr_in(s, q, args[i], row);
    }
}

/// What stands behind an argument, after white space, ends it.
proof fn lemma_behind(s: Text, end: int, last: Formula, after: Text, rest: Text)
    requires
        formula_laws::stands_at(s, end, after + rest),
        end + after.len() + rest.len() == s.len(),
        formula_laws::white(after),
        rest.len() == 0 || rest[0] != ',' && rest[0] != ')' && !text::white_space(rest[0]),
        last is Name || last is Field ==> rest.len() == 0 || (rest[0] != '(' && (after.len() > 0
            || !(text::alphanumeric(rest[0]) || rest[0] == '_'))),
    ensures
        ({
            let q = grammar::skip_space(s, end);
            &&& formula_laws::open_ended(last) ==> formula_laws::ends_at(s, end)
            &&& q < s.len() ==> s[q] != ',' && s[q] != ')'
        }),
{
    let q = end + after.len();
    lemma_stands_split(s, end, after, rest);
    lemma_gap(s, end, after);
    if rest.len() > 0 {
        lemma_stands(s, q, rest, 0);
    }
    if after.len() > 0 {
        lemma_stands(s, end, after, 0);
    }
    lemma_no_space(s, q);
}

/// A call whose arguments are a fault.
proof fn lemma_call_fault(s: Text, name: Text, open: Text, rest: Text, row: Map<Text, Text>)
    requires
        s == name + ((open + seq!['(']) + rest),
        formula_laws::identifier(name),
        name != "csv"@,
        formula_laws::white(open),
        grammar::args_at(s, (name.len() + open.len() + 1) as int, row).outcome is Err,
    ensures
        grammar::expr_at(s, 0, row).outcome == Err::<Datum, Text>(
            grammar::args_at(s, (name.len() + open.len() + 1) as int, row).outcome->Err_0,
        ),
        s.contains('('),
{
    let n = name.len() as int;
    let o = open.len() as int;
    assert(s.subrange(0, s.len() as int) =~= s);
    lemma_stands_split(s, 0, name, (open + seq!['(']) + rest);
    lemma_stands_split(s, n, open + seq!['('], rest);
    lemma_gap_ends(s, n, open, '(');
    assert(text::alphanumeric(name[0]) || name[0] == '_');
    lemma_stands(s, 0, name, 0);
    lemma_no_space(s, 0);
    lemma_ident_in(s, 0, name);
    assert(s[n + o] == '(');
}

/// A call in which neither a comma nor a closing parenthesis follows an argument
/// is a fault, whatever comes before that argument. (What follows an identifier
/// must be told from it, and must not make it a call.)
pub proof fn law_unfinished_call(
    formula: Text,
    name: Text,
    open: Text,
    args: Seq<Formula>,
    around: Seq<(Text, Text)>,
    gap: Text,
    last: Formula,
    after: Text,
    rest: Text,
    row: Map<Text, Text>,
)
    requires
        text::trimmed(formula) == name + open + seq!['('] + formula_laws::args_written(
            args,
            around,
            Some(gap),
            0,
        ) + formula_laws::written(last) + after + rest,
        formula_laws::identifier(name),
        name != "csv"@,
        formula_laws::white(open),
        formula_laws::all_well_formed(args, around, 0),
        formula_laws::white(gap),
        formula_laws::well_formed(last),
        formula_laws::white(after),
        rest.len() == 0 || rest[0] != ',' && rest[0] != ')' && !text::white_space(rest[0]),
        last is Name || last is Field ==> rest.len() == 0 || (rest[0] != '(' && (after.len() > 0
            || !(text::alphanumeric(rest[0]) || rest[0] == '_'))),
        formula_laws::args_value(args, 0, row) is Ok,
        formula_laws::value(last, row) is Ok,
    ensures
        grammar::evaluated(formula, row) == Err::<Text, Text>("expected ',' or ')'"@),
{
    let s = text::trimmed(formula);
    let head = formula_laws::args_written(args, around, Some(gap), 0);
    let spelled = formula_laws::written(last);
    let p = (name.len() + open.len() + 1) as int;
    let end = p + head.len() + spelled.len();
    assert(s =~= name + ((open + seq!['(']) + (head + spelled + after + rest)));
    assert(s.subrange(p, end) =~= head + spelled);
    assert(s.subrange(end, s.len() as int) =~= after + rest);
    lemma_behind(s, end, last, after, rest);
    lemma_args_open(s, p, args, around, gap, last, 0, row);
    lemma_call_fault(s, name, open, head + spelled + after + rest, row);
}

} // verus!
