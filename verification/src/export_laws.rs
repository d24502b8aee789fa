//! What holds of written CSV documents in general: they can be read back.

use vstd::prelude::*;

use crate::export;
use crate::export::{lemma_less_total, lemma_less_transitive, lemma_push_contains};
use crate::fields;
use crate::fields::{law_names_listed, OutputObject};
use crate::text;
use crate::text::Text;
use crate::text_laws;

verus! {

// ---------------------------------------------------------------------------
// Columns
// ---------------------------------------------------------------------------

/// Every line has a value for each header, and each field that an object sets
/// stands in the column of that name.
pub proof fn law_fields_in_columns(
    names: Seq<Text>,
    objects: Seq<OutputObject>,
    i: int,
    name: Text,
)
    requires
        export::are_headers(names, objects),
        0 <= i < objects.len(),
        objects[i]@.dom().contains(name),
    ensures
        export::csv_row(names, objects[i]@).len() == names.len(),
        exists|c: int|
            0 <= c < names.len() && names[c] == name && #[trigger] export::csv_row(
                names,
                objects[i]@,
            )[c] == objects[i]@[name],
{
    assert(export::set_somewhere(objects, name));
    assert(names.contains(name));
    let c = choose|c: int| 0 <= c < names.len() && names[c] == name;
    assert(export::csv_row(names, objects[i]@)[c] == fields::value_or_empty(objects[i]@, name));
}

// ---------------------------------------------------------------------------
// Reading
// ---------------------------------------------------------------------------

/// A field within quotation marks, read up to the closing mark, and what
/// follows it. A doubled mark stands for one. None where nothing closes it.
pub open spec fn quoted_read(s: Text) -> Option<(Text, Text)>
    decreases s.len(),
{
    if s.len() == 0 {
        None
    } else if s[0] == '"' {
        if s.len() > 1 && s[1] == '"' {
            match quoted_read(s.skip(2)) {
                Some((field, rest)) => Some((seq!['"'] + field, rest)),
                None => None,
            }
        } else {
            Some((Seq::empty(), s.skip(1)))
        }
    } else {
        match quoted_read(s.skip(1)) {
            Some((field, rest)) => Some((seq![s[0]] + field, rest)),
            None => None,
        }
    }
}

/// A field without quotation marks, read up to the first special character, and
/// what follows it.
pub open spec fn bare_read(s: Text) -> (Text, Text)
    decreases s.len(),
{
    if s.len() == 0 || export::special(s[0]) {
        (Seq::empty(), s)
    } else {
        let (field, rest) = bare_read(s.skip(1));
        (seq![s[0]] + field, rest)
    }
}

/// A field, and what follows it.
pub open spec fn field_read(s: Text) -> Option<(Text, Text)> {
    if s.len() > 0 && s[0] == '"' {
        quoted_read(s.skip(1))
    } else {
        Some(bare_read(s))
    }
}

/// A record, and what follows its line end.
pub open spec fn record_read(s: Text) -> Option<(Seq<Text>, Text)>
    decreases s.len(),
    via record_read_decreases
{
    match field_read(s) {
        Some((field, rest)) => if rest.len() > 0 && rest[0] == ',' {
            match record_read(rest.skip(1)) {
                Some((fields, end)) => Some((seq![field] + fields, end)),
                None => None,
            }
        } else if rest.len() > 1 && rest[0] == '\r' && rest[1] == '\n' {
            Some((seq![field], rest.skip(2)))
        } else {
            None
        },
        None => None,
    }
}

#[via_fn]
proof fn record_read_decreases(s: Text) {
    lemma_field_shrinks(s);
}

proof fn lemma_quoted_shrinks(s: Text)
    ensures
        quoted_read(s) matches Some((_, rest)) ==> rest.len() < s.len(),
    decreases s.len(),
{
    if s.len() > 0 {
        if s[0] == '"' {
            if s.len() > 1 && s[1] == '"' {
                lemma_quoted_shrinks(s.skip(2));
            }
        } else {
            lemma_quoted_shrinks(s.skip(1));
        }
    }
}

proof fn lemma_bare_shrinks(s: Text)
    ensures
        bare_read(s).1.len() <= s.len(),
    decreases s.len(),
{
    if s.len() > 0 && !export::special(s[0]) {
        lemma_bare_shrinks(s.skip(1));
    }
}

proof fn lemma_field_shrinks(s: Text)
    ensures
        field_read(s) matches Some((_, rest)) ==> rest.len() <= s.len(),
{
    if s.len() > 0 && s[0] == '"' {
        lemma_quoted_shrinks(s.skip(1));
    } else {
        lemma_bare_shrinks(s);
    }
}

proof fn lemma_doubled_read(s: Text, rest: Text)
    requires
        rest.len() > 0 ==> rest[0] != '"',
    ensures
        quoted_read(export::doubled(s) + seq!['"'] + rest) == Some((s, rest)),
    decreases s.len(),
{
    let whole = export::doubled(s) + seq!['"'] + rest;
    if s.len() == 0 {
        assert(whole =~= seq!['"'] + rest);
        assert(whole.skip(1) =~= rest);
        assert(s =~= Seq::empty());
    } else {
        let tail = export::doubled(s.skip(1)) + seq!['"'] + rest;
        lemma_doubled_read(s.skip(1), rest);
        if s[0] == '"' {
            assert(whole =~= seq!['"', '"'] + tail);
            assert(whole.skip(2) =~= tail);
        } else {
            assert(whole =~= seq![s[0]] + tail);
            assert(whole.skip(1) =~= tail);
        }
        assert(s =~= seq![s[0]] + s.skip(1));
    }
}

proof fn lemma_bare(s: Text, rest: Text)
    requires
        forall|i: int| 0 <= i < s.len() ==> !export::special(#[trigger] s[i]),
        rest.len() > 0,
        export::special(rest[0]),
    ensures
        bare_read(s + rest) == (s, rest),
    decreases s.len(),
{
    let whole = s + rest;
    if s.len() == 0 {
        assert(whole =~= rest);
        assert(s =~= Seq::empty());
    } else {
        assert forall|i: int| 0 <= i < s.skip(1).len() implies !export::special(
            #[trigger] s.skip(1)[i],
        ) by {
            assert(s.skip(1)[i] == s[i + 1]);
        }
        lemma_bare(s.skip(1), rest);
        assert(whole.skip(1) =~= s.skip(1) + rest);
        assert(whole[0] == s[0]);
        assert(s =~= seq![s[0]] + s.skip(1));
    }
}

/// A written field, with a comma or a line end behind it, is read back.
pub proof fn law_field_read_back(s: Text, rest: Text)
    requires
        rest.len() > 0,
        rest[0] == ',' || rest[0] == '\r',
    ensures
        field_read(export::csv_field(s) + rest) == Some((s, rest)),
{
    let whole = export::csv_field(s) + rest;
    if exists|i: int| 0 <= i < s.len() && export::special(#[trigger] s[i]) {
        lemma_doubled_read(s, rest);
        assert(whole.skip(1) =~= export::doubled(s) + seq!['"'] + rest);
    } else {
        lemma_bare(s, rest);
        if s.len() > 0 {
            assert(!export::special(s[0]));
            assert(whole[0] == s[0]);
        }
    }
}

/// The written fields, with a comma between neighbours.
pub open spec fn fields_written(values: Seq<Text>) -> Text {
    text::joined(values.map_values(|v: Text| export::csv_field(v)), ","@)
}

proof fn lemma_record(values: Seq<Text>, rest: Text)
    requires
        values.len() > 0,
    ensures
        record_read(fields_written(values) + seq!['\r', '\n'] + rest) == Some((values, rest)),
    decreases values.len(),
{
    let written = values.map_values(|v: Text| export::csv_field(v));
    let whole = fields_written(values) + seq!['\r', '\n'] + rest;
    lemma_field_shrinks(whole);
    if values.len() == 1 {
        let end = seq!['\r', '\n'] + rest;
        assert(written[0] == export::csv_field(values[0]));
        assert(whole =~= export::csv_field(values[0]) + end);
        law_field_read_back(values[0], end);
        assert(end.skip(2) =~= rest);
        assert(values =~= seq![values[0]]);
    } else {
        let others = values.skip(1);
        let tail = fields_written(others) + seq!['\r', '\n'] + rest;
        text_laws::lemma_joined_first(written, ","@);
        assert(written.skip(1) =~= others.map_values(|v: Text| export::csv_field(v)));
        assert(written[0] == export::csv_field(values[0]));
        reveal_strlit(",");
        assert(","@ =~= seq![',']);
        let end = seq![','] + tail;
        assert(whole =~= export::csv_field(values[0]) + end);
        law_field_read_back(values[0], end);
        assert(end.skip(1) =~= tail);
        lemma_record(others, rest);
        assert(values =~= seq![values[0]] + others);
    }
}

/// A written record is read back, if it has a field at all.
pub proof fn law_line_read_back(values: Seq<Text>, rest: Text)
    requires
        values.len() > 0,
    ensures
        record_read(export::csv_line(values) + rest) == Some((values, rest)),
{
    let body = fields_written(values);
    lemma_record(values, rest);
    if body.len() == 0 {
        lemma_one_empty(values);
        let whole = export::csv_line(values) + rest;
        let end = seq!['\r', '\n'] + rest;
        lemma_field_shrinks(whole);
        assert(whole =~= seq!['"'] + (seq!['"'] + end));
        assert(whole.skip(1) =~= seq!['"'] + end);
        assert((seq!['"'] + end).skip(1) =~= end);
        assert(end.skip(2) =~= rest);
        assert(values =~= seq![Seq::<char>::empty()]);
    } else {
        assert(export::csv_line(values) + rest =~= body + seq!['\r', '\n'] + rest);
    }
}

proof fn lemma_one_empty(values: Seq<Text>)
    requires
        values.len() > 0,
        fields_written(values).len() == 0,
    ensures
        values.len() == 1,
        values[0].len() == 0,
{
    let written = values.map_values(|v: Text| export::csv_field(v));
    if values.len() > 1 {
        text_laws::lemma_joined_first(written, ","@);
        reveal_strlit(",");
    } else {
        assert(written[0] == export::csv_field(values[0]));
    }
}

/// The records of a document. None where it cannot be read.
pub open spec fn document_read(s: Text) -> Option<Seq<Seq<Text>>>
    decreases s.len(),
    via document_read_decreases
{
    if s.len() == 0 {
        Some(Seq::empty())
    } else {
        match record_read(s) {
            Some((record, rest)) => match document_read(rest) {
                Some(records) => Some(seq![record] + records),
                None => None,
            },
            None => None,
        }
    }
}

#[via_fn]
proof fn document_read_decreases(s: Text) {
    lemma_record_shrinks(s);
}

proof fn lemma_record_shrinks(s: Text)
    ensures
        record_read(s) matches Some((_, rest)) ==> rest.len() < s.len(),
    decreases s.len(),
{
    lemma_field_shrinks(s);
    match field_read(s) {
        Some((field, rest)) => {
            if rest.len() > 0 && rest[0] == ',' {
                lemma_record_shrinks(rest.skip(1));
            }
        },
        None => {},
    }
}

/// The lines of the objects from number `n` on.
pub open spec fn lines_from(names: Seq<Text>, objects: Seq<OutputObject>, n: int) -> Text
    decreases objects.len() - n,
{
    if n >= objects.len() {
        Seq::empty()
    } else {
        export::csv_line(export::csv_row(names, objects[n]@)) + lines_from(names, objects, n + 1)
    }
}

proof fn lemma_lines_split(names: Seq<Text>, objects: Seq<OutputObject>, n: int)
    requires
        0 <= n <= objects.len(),
    ensures
        export::csv_lines(names, objects, objects.len() as int) == export::csv_lines(
            names,
            objects,
            n,
        ) + lines_from(names, objects, n),
    decreases objects.len() - n,
{
    let all = export::csv_lines(names, objects, objects.len() as int);
    if n == objects.len() {
        assert(all =~= all + lines_from(names, objects, n));
    } else {
        lemma_lines_split(names, objects, n + 1);
        assert(all =~= export::csv_lines(names, objects, n) + lines_from(names, objects, n));
    }
}

/// The records of the objects from number `n` on.
pub open spec fn rows_from(names: Seq<Text>, objects: Seq<OutputObject>, n: int) -> Seq<Seq<Text>>
    decreases objects.len() - n,
{
    if n >= objects.len() {
        Seq::empty()
    } else {
        seq![export::csv_row(names, objects[n]@)] + rows_from(names, objects, n + 1)
    }
}

proof fn lemma_rows_from(names: Seq<Text>, objects: Seq<OutputObject>, n: int)
    requires
        0 <= n <= objects.len(),
    ensures
        rows_from(names, objects, n) == Seq::new(
            (objects.len() - n) as nat,
            |i: int| export::csv_row(names, objects[n + i]@),
        ),
    decreases objects.len() - n,
{
    let rows = Seq::new(
        (objects.len() - n) as nat,
        |i: int| export::csv_row(names, objects[n + i]@),
    );
    if n < objects.len() {
        lemma_rows_from(names, objects, n + 1);
    }
    assert(rows_from(names, objects, n) =~= rows);
}

proof fn lemma_lines_read(names: Seq<Text>, objects: Seq<OutputObject>, n: int)
    requires
        names.len() > 0,
        0 <= n <= objects.len(),
    ensures
        document_read(lines_from(names, objects, n)) == Some(rows_from(names, objects, n)),
    decreases objects.len() - n,
{
    let whole = lines_from(names, objects, n);
    lemma_record_shrinks(whole);
    if n < objects.len() {
        lemma_lines_read(names, objects, n + 1);
        law_line_read_back(
            export::csv_row(names, objects[n]@),
            lines_from(names, objects, n + 1),
        );
    }
}

/// A written document is read back: the headers, and for each object the value
/// of each header. Of objects without a single field there are no headers, and
/// nothing to read back.
pub proof fn law_document_read_back(objects: Seq<OutputObject>)
    requires
        export::headers_of(objects).len() > 0,
    ensures
        document_read(export::csv_document(objects)) == Some(
            seq![export::headers_of(objects)] + Seq::new(
                objects.len(),
                |i: int| export::csv_row(export::headers_of(objects), objects[i]@),
            ),
        ),
{
    let names = export::headers_of(objects);
    let whole = export::csv_document(objects);
    lemma_record_shrinks(whole);
    lemma_lines_split(names, objects, 0);
    lemma_lines_read(names, objects, 0);
    lemma_rows_from(names, objects, 0);
    assert(rows_from(names, objects, 0) =~= Seq::new(
        objects.len(),
        |i: int| export::csv_row(names, objects[i]@),
    ));
    assert(whole =~= export::csv_line(names) + lines_from(names, objects, 0));
    law_line_read_back(names, lines_from(names, objects, 0));
}

/// The value of `name` in `object`, or nothing where it is not set.
pub open spec fn set_value(object: Map<Text, Text>, name: Text) -> Text {
    if object.dom().contains(name) {
        object[name]
    } else {
        Seq::empty()
    }
}

/// A written document is read back value by value: the headers, then for each
/// object, in order, what it holds under each header, all of it.
pub proof fn law_values_read_back(objects: Seq<OutputObject>)
    requires
        export::headers_of(objects).len() > 0,
    ensures
        ({
            let names = export::headers_of(objects);
            let read = document_read(export::csv_document(objects));
            &&& read is Some
            &&& read->Some_0.len() == objects.len() + 1
            &&& read->Some_0[0] == names
            &&& forall|i: int|
                0 <= i < objects.len() ==> (#[trigger] read->Some_0[i + 1]).len() == names.len()
            &&& forall|i: int, c: int|
                0 <= i < objects.len() && 0 <= c < names.len()
                    ==> #[trigger] read->Some_0[i + 1][c] == set_value(objects[i]@, names[c])
        }),
{
    law_document_read_back(objects);
}

/// The headers are the names that some object sets, each once and in order; so
/// every field of every object has its column.
pub proof fn law_headers(names: Seq<Text>, objects: Seq<OutputObject>)
    requires
        export::are_headers(names, objects),
    ensures
        forall|i: int, j: int|
            0 <= i < j < names.len() ==> text::text_less(#[trigger] names[i], #[trigger] names[j]),
        forall|name: Text| #[trigger]
            names.contains(name) <==> exists|i: int|
                0 <= i < objects.len() && (#[trigger] objects[i])@.dom().contains(name),
{
    assert forall|name: Text| #[trigger]
        names.contains(name) <==> exists|i: int|
            0 <= i < objects.len() && (#[trigger] objects[i])@.dom().contains(name) by {
        assert(names.contains(name) <==> export::set_somewhere(objects, name));
    }
}

/// `more` are `names` and `name`, in ascending order.
spec fn takes_in(more: Seq<Text>, names: Seq<Text>, name: Text) -> bool {
    &&& export::ascending(more)
    &&& forall|k: Text| #[trigger] more.contains(k) <==> names.contains(k) || k == name
}

proof fn lemma_name_taken_in(names: Seq<Text>, name: Text) -> (r: Seq<Text>)
    requires
        export::ascending(names),
    ensures
        takes_in(r, names, name),
    decreases names.len(),
{
    if names.len() == 0 {
        let more = names.push(name);
        assert forall|k: Text| #[trigger] more.contains(k) <==> names.contains(k) || k == name by {
            lemma_push_contains(names, name, k);
        }
        more
    } else {
        let last = names.last();
        let head = names.drop_last();
        lemma_less_total(last, name);
        if last == name {
            assert(names.contains(name));
            names
        } else if text::text_less(last, name) {
            let more = names.push(name);
            assert forall|i: int, j: int| 0 <= i < j < more.len() implies text::text_less(
                #[trigger] more[i],
                #[trigger] more[j],
            ) by {
                if j < names.len() {
                    assert(text::text_less(names[i], names[j]));
                } else if i < names.len() - 1 {
                    assert(text::text_less(names[i], names[names.len() - 1]));
                    lemma_less_transitive(names[i], last, name);
                }
            }
            assert forall|k: Text| #[trigger] more.contains(k) <==> names.contains(k) || k
                == name by {
                lemma_push_contains(names, name, k);
            }
            more
        } else {
            let most = lemma_name_taken_in(head, name);
            let more = most.push(last);
            assert forall|i: int, j: int| 0 <= i < j < more.len() implies text::text_less(
                #[trigger] more[i],
                #[trigger] more[j],
            ) by {
                if j < most.len() {
                    assert(text::text_less(most[i], most[j]));
                } else {
                    assert(most.contains(most[i]));
                    if most[i] != name {
                        assert(head.contains(most[i]));
                        let k = choose|k: int| 0 <= k < head.len() && head[k] == most[i];
                        assert(text::text_less(names[k], names[names.len() - 1]));
                    }
                }
            }
            assert(head.push(last) =~= names);
            assert forall|k: Text| #[trigger] more.contains(k) <==> names.contains(k) || k
                == name by {
                lemma_push_contains(most, last, k);
                lemma_push_contains(head, last, k);
                assert(most.contains(k) <==> head.contains(k) || k == name);
            }
            more
        }
    }
}

/// `more` are `names` and the first `n` of `added`, in ascending order.
spec fn takes_all_in(more: Seq<Text>, names: Seq<Text>, added: Seq<Text>, n: int) -> bool {
    &&& export::ascending(more)
    &&& forall|k: Text| #[trigger]
        more.contains(k) <==> names.contains(k) || added.take(n).contains(k)
}

proof fn lemma_names_taken_in(names: Seq<Text>, added: Seq<Text>, n: int) -> (r: Seq<Text>)
    requires
        export::ascending(names),
        0 <= n <= added.len(),
    ensures
        takes_all_in(r, names, added, n),
    decreases n,
{
    if n == 0 {
        assert forall|k: Text| !(#[trigger] added.take(n).contains(k)) by {}
        names
    } else {
        let most = lemma_names_taken_in(names, added, n - 1);
        let more = lemma_name_taken_in(most, added[n - 1]);
        assert(added.take(n) =~= added.take(n - 1).push(added[n - 1]));
        assert forall|k: Text| #[trigger] more.contains(k) <==> names.contains(k) || added.take(
            n,
        ).contains(k) by {
            lemma_push_contains(added.take(n - 1), added[n - 1], k);
            assert(most.contains(k) <==> names.contains(k) || added.take(n - 1).contains(k));
        }
        more
    }
}

proof fn lemma_headers_exist(objects: Seq<OutputObject>) -> (r: Seq<Text>)
    ensures
        export::are_headers(r, objects),
    decreases objects.len(),
{
    if objects.len() == 0 {
        let none = Seq::<Text>::empty();
        assert(export::are_headers(none, objects));
        none
    } else {
        let head = objects.drop_last();
        let last = objects.last();
        let names = lemma_headers_exist(head);
        law_names_listed(last);
        let added = choose|added: Seq<Text>| #[trigger] fields::lists_names(added, last@);
        let all = lemma_names_taken_in(names, added, added.len() as int);
        assert(added.take(added.len() as int) =~= added);
        assert forall|name: Text| #[trigger] all.contains(name) <==> export::set_somewhere(
            objects,
            name,
        ) by {
            assert(all.contains(name) <==> names.contains(name) || added.contains(name));
            assert(names.contains(name) <==> export::set_somewhere(head, name));
            if export::set_somewhere(head, name) {
                let i = choose|i: int|
                    0 <= i < head.len() && (#[trigger] head[i])@.dom().contains(name);
                assert(objects[i]@.dom().contains(name));
            }
            if added.contains(name) {
                assert(objects[objects.len() - 1]@.dom().contains(name));
            }
            if export::set_somewhere(objects, name) {
                let i = choose|i: int|
                    0 <= i < objects.len() && (#[trigger] objects[i])@.dom().contains(name);
                if i < head.len() {
                    assert(head[i]@.dom().contains(name));
                }
            }
        }
        assert(export::are_headers(all, objects));
        all
    }
}

/// The columns of a document are the names of all the fields that some object
/// sets, each once and in order.
pub proof fn law_all_columns(objects: Seq<OutputObject>)
    ensures
        forall|name: Text| #[trigger]
            export::headers_of(objects).contains(name) <==> exists|i: int|
                0 <= i < objects.len() && (#[trigger] objects[i])@.dom().contains(name),
        forall|i: int, j: int|
            0 <= i < j < export::headers_of(objects).len() ==> text::text_less(
                #[trigger] export::headers_of(objects)[i],
                #[trigger] export::headers_of(objects)[j],
            ),
{
    let names = lemma_headers_exist(objects);
    assert(export::are_headers(names, objects));
    law_headers(export::headers_of(objects), objects);
}

/// Only what has to be quoted is quoted.
pub proof fn law_plain_field(s: Text)
    requires
        forall|i: int|
            0 <= i < s.len() ==> #[trigger] s[i] != ',' && s[i] != '"' && s[i] != '\r' && s[i] != '\n',
    ensures
        export::csv_field(s) == s,
{
}

} // verus!
