//! Writing objects as CSV.

use vstd::prelude::*;
use vstd::utf8::*;

use crate::fields;
use crate::fields::OutputObject;
use crate::text;
use crate::text::{text_lt, Text};

verus! {

// ---------------------------------------------------------------------------
// The order of texts
// ---------------------------------------------------------------------------

proof fn lemma_less_irreflexive(a: Text)
    ensures
        !text::text_less(a, a),
    decreases a.len(),
{
    if a.len() > 0 {
        lemma_less_irreflexive(a.skip(1));
    }
}

pub(crate) proof fn lemma_less_transitive(a: Text, b: Text, c: Text)
    requires
        text::text_less(a, b),
        text::text_less(b, c),
    ensures
        text::text_less(a, c),
    decreases a.len(),
{
    if a.len() > 0 && b.len() > 0 && c.len() > 0 && a[0] == b[0] && b[0] == c[0] {
        lemma_less_transitive(a.skip(1), b.skip(1), c.skip(1));
    }
}

pub(crate) proof fn lemma_less_total(a: Text, b: Text)
    ensures
        text::text_less(a, b) || a == b || text::text_less(b, a),
    decreases a.len(),
{
    if a.len() > 0 && b.len() > 0 && a[0] == b[0] {
        lemma_less_total(a.skip(1), b.skip(1));
        if a.skip(1) == b.skip(1) {
            assert forall|i: int| 0 <= i < a.len() implies a[i] == b[i] by {
                if i > 0 {
                    assert(a.skip(1)[i - 1] == b.skip(1)[i - 1]);
                }
            }
            assert(a.len() == b.len()) by {
                assert(a.skip(1).len() == b.skip(1).len());
            }
            assert(a =~= b);
        }
    } else if a.len() == 0 && b.len() == 0 {
        assert(a =~= b);
    }
}

/// In ascending order, and nothing twice.
pub open spec fn ascending(names: Seq<Text>) -> bool {
    forall|i: int, j: int|
        0 <= i < j < names.len() ==> text::text_less(#[trigger] names[i], #[trigger] names[j])
}

// ---------------------------------------------------------------------------
// Headers
// ---------------------------------------------------------------------------

/// Some object sets the field `name`.
pub open spec fn set_somewhere(objects: Seq<OutputObject>, name: Text) -> bool {
    exists|i: int| 0 <= i < objects.len() && (#[trigger] objects[i])@.dom().contains(name)
}

/// `names` are the names of the fields that some object sets, in ascending
/// order.
pub open spec fn are_headers(names: Seq<Text>, objects: Seq<OutputObject>) -> bool {
    &&& ascending(names)
    &&& forall|name: Text| #[trigger] names.contains(name) <==> set_somewhere(objects, name)
}

/// The names of the fields that some object sets, in ascending order.
pub open spec fn headers_of(objects: Seq<OutputObject>) -> Seq<Text> {
    choose|names: Seq<Text>| are_headers(names, objects)
}

/// There is one list of names in ascending order.
pub proof fn law_headers_unique(a: Seq<Text>, b: Seq<Text>)
    requires
        ascending(a),
        ascending(b),
        forall|name: Text| #[trigger] a.contains(name) <==> b.contains(name),
    ensures
        a == b,
    decreases a.len(),
{
    if a.len() == 0 {
        if b.len() > 0 {
            assert(b.contains(b[0]));
            assert(a.contains(b[0]));
        }
        assert(a =~= b);
    } else {
        assert(a.contains(a[0]));
        assert(b.contains(a[0]));
        let i = choose|i: int| 0 <= i < b.len() && b[i] == a[0];
        if i > 0 {
            assert(b.contains(b[0]));
            assert(a.contains(b[0]));
            let j = choose|j: int| 0 <= j < a.len() && a[j] == b[0];
            lemma_less_irreflexive(b[0]);
            if j > 0 {
                assert(text::text_less(a[0], a[j]));
                assert(text::text_less(b[0], b[i]));
                lemma_less_transitive(a[0], a[j], a[0]);
                lemma_less_irreflexive(a[0]);
            }
        }
        assert(a[0] == b[0]);
        let x = a.skip(1);
        let y = b.skip(1);
        assert forall|name: Text| #[trigger] x.contains(name) <==> y.contains(name) by {
            lemma_tail(a, name);
            lemma_tail(b, name);
            assert(a.contains(name) <==> b.contains(name));
        }
        law_headers_unique(x, y);
        assert(a =~= seq![a[0]] + x);
        assert(b =~= seq![b[0]] + y);
    }
}

proof fn lemma_tail(a: Seq<Text>, name: Text)
    requires
        ascending(a),
        a.len() > 0,
    ensures
        a.skip(1).contains(name) <==> a.contains(name) && name != a[0],
{
    let x = a.skip(1);
    if x.contains(name) {
        let i = choose|i: int| 0 <= i < x.len() && x[i] == name;
        assert(a[i + 1] == name);
        assert(text::text_less(a[0], a[i + 1]));
        lemma_less_irreflexive(name);
    }
    if a.contains(name) && name != a[0] {
        let i = choose|i: int| 0 <= i < a.len() && a[i] == name;
        assert(x[i - 1] == name);
    }
}

/// Adds `name` to `names`, which are in ascending order.
fn add_name(names: &mut Vec<String>, name: &String)
    requires
        ascending(text::texts(old(names)@)),
    ensures
        ascending(text::texts(final(names)@)),
        forall|k: Text| #[trigger]
            text::texts(final(names)@).contains(k) <==> text::texts(old(names)@).contains(k) || k
                == name@,
{
    let ghost before = text::texts(names@);
    let mut p: usize = 0;
    while p < names.len() && text_lt(names[p].as_str(), name.as_str())
        invariant
            p <= names@.len(),
            text::texts(names@) == before,
            forall|i: int| 0 <= i < p ==> text::text_less(#[trigger] before[i], name@),
        decreases names@.len() - p,
    {
        p = p + 1;
    }
    if p < names.len() && names[p] == *name {
        assert(before[p as int] == name@);
        assert(before.contains(name@));
        return;
    }
    names.insert(p, name.clone());
    proof {
        let after = text::texts(names@);
        assert(after =~= before.insert(p as int, name@));
        if p < before.len() {
            lemma_less_total(before[p as int], name@);
        }
        assert forall|i: int| p <= i < before.len() implies text::text_less(
            name@,
            #[trigger] before[i],
        ) by {
            if i > p {
                assert(text::text_less(before[p as int], before[i]));
                lemma_less_transitive(name@, before[p as int], before[i]);
            }
        }
        assert forall|i: int, j: int| 0 <= i < j < after.len() implies text::text_less(
            #[trigger] after[i],
            #[trigger] after[j],
        ) by {
            if i < p {
                assert(after[i] == before[i]);
                if j < p {
                    assert(after[j] == before[j]);
                } else if j > p {
                    assert(after[j] == before[j - 1]);
                }
            } else if i == p {
                assert(after[j] == before[j - 1]);
            } else {
                assert(after[i] == before[i - 1]);
                assert(after[j] == before[j - 1]);
            }
        }
        assert forall|k: Text| #[trigger] after.contains(k) <==> before.contains(k) || k
            == name@ by {
            assert(after[p as int] == name@);
            if before.contains(k) {
                let i = choose|i: int| 0 <= i < before.len() && before[i] == k;
                if i < p {
                    assert(after[i] == k);
                } else {
                    assert(after[i + 1] == k);
                }
            }
            if after.contains(k) && k != name@ {
                let i = choose|i: int| 0 <= i < after.len() && after[i] == k;
                if i < p {
                    assert(before[i] == k);
                } else {
                    assert(before[i - 1] == k);
                }
            }
        }
    }
}

/// The names of the fields that some object sets, in ascending order.
pub fn output_headers(objects: &Vec<OutputObject>) -> (r: Vec<String>)
    ensures
        are_headers(text::texts(r@), objects@),
        text::texts(r@) == headers_of(objects@),
{
    let mut names: Vec<String> = Vec::new();
    let mut i: usize = 0;
    while i < objects.len()
        invariant
            i <= objects@.len(),
            are_headers(text::texts(names@), objects@.take(i as int)),
        decreases objects@.len() - i,
    {
        let keys = objects[i].keys();
        let ghost before = text::texts(names@);
        let mut j: usize = 0;
        while j < keys.len()
            invariant
                j <= keys@.len(),
                ascending(text::texts(names@)),
                forall|k: Text| #[trigger]
                    text::texts(names@).contains(k) <==> before.contains(k) || text::texts(
                        keys@,
                    ).take(j as int).contains(k),
            decreases keys@.len() - j,
        {
            let ghost earlier = text::texts(names@);
            add_name(&mut names, &keys[j]);
            proof {
                let ks = text::texts(keys@);
                assert(ks.take(j + 1) =~= ks.take(j as int).push(ks[j as int]));
                assert forall|k: Text| #[trigger] text::texts(names@).contains(k)
                    <==> before.contains(k) || ks.take(j + 1).contains(k) by {
                    assert(earlier.contains(k) <==> before.contains(k) || ks.take(
                        j as int,
                    ).contains(k));
                    lemma_push_contains(ks.take(j as int), ks[j as int], k);
                }
            }
            j = j + 1;
        }
        proof {
            let ks = text::texts(keys@);
            assert(ks.take(j as int) =~= ks);
            let head = objects@.take(i as int);
            let more = objects@.take(i + 1);
            assert forall|name: Text| #[trigger] text::texts(names@).contains(name)
                <==> set_somewhere(more, name) by {
                assert(before.contains(name) <==> set_somewhere(head, name));
                assert(ks.contains(name) <==> objects@[i as int]@.dom().contains(name));
                if set_somewhere(head, name) {
                    let a = choose|a: int|
                        0 <= a < head.len() && (#[trigger] head[a])@.dom().contains(name);
                    assert(more[a] == head[a]);
                }
                assert(more[i as int] == objects@[i as int]);
                if set_somewhere(more, name) {
                    let a = choose|a: int|
                        0 <= a < more.len() && (#[trigger] more[a])@.dom().contains(name);
                    if a < i {
                        assert(head[a] == more[a]);
                    }
                }
            }
        }
        i = i + 1;
    }
    proof {
        assert(objects@.take(i as int) =~= objects@);
        let chosen = headers_of(objects@);
        assert(are_headers(text::texts(names@), objects@));
        assert(are_headers(chosen, objects@));
        assert forall|name: Text| #[trigger] text::texts(names@).contains(name)
            <==> chosen.contains(name) by {
            assert(chosen.contains(name) <==> set_somewhere(objects@, name));
        }
        law_headers_unique(text::texts(names@), chosen);
    }
    names
}

pub(crate) proof fn lemma_push_contains(s: Seq<Text>, item: Text, k: Text)
    ensures
        s.push(item).contains(k) <==> s.contains(k) || k == item,
{
    let after = s.push(item);
    assert(after[s.len() as int] == item);
    if s.contains(k) {
        let i = choose|i: int| 0 <= i < s.len() && s[i] == k;
        assert(after[i] == k);
    }
    if after.contains(k) && k != item {
        let i = choose|i: int| 0 <= i < after.len() && after[i] == k;
        assert(s[i] == k);
    }
}

// ---------------------------------------------------------------------------
// CSV
// ---------------------------------------------------------------------------

/// A character that may not stand in an unquoted field.
pub open spec fn special(c: char) -> bool {
    c == ',' || c == '"' || c == '\r' || c == '\n'
}

/// `s` with every quotation mark doubled.
pub open spec fn doubled(s: Text) -> Text
    decreases s.len(),
{
    if s.len() == 0 {
        Seq::empty()
    } else {
        let head = if s[0] == '"' {
            seq!['"', '"']
        } else {
            seq![s[0]]
        };
        head + doubled(s.skip(1))
    }
}

/// A field as it is written: in quotation marks only where it must be.
pub open spec fn csv_field(s: Text) -> Text {
    if exists|i: int| 0 <= i < s.len() && special(#[trigger] s[i]) {
        seq!['"'] + doubled(s) + seq!['"']
    } else {
        s
    }
}

/// A record as it is written. One that would come out empty is written as an
/// empty field in quotation marks.
pub open spec fn csv_line(values: Seq<Text>) -> Text {
    let body = text::joined(values.map_values(|v: Text| csv_field(v)), ","@);
    (if body.len() == 0 {
        seq!['"', '"']
    } else {
        body
    }) + seq!['\r', '\n']
}

/// The value of each of `names` in `object`; nothing for a field not set.
pub open spec fn csv_row(names: Seq<Text>, object: Map<Text, Text>) -> Seq<Text> {
    names.map_values(|name: Text| fields::value_or_empty(object, name))
}

/// The lines of the first `n` objects.
pub open spec fn csv_lines(names: Seq<Text>, objects: Seq<OutputObject>, n: int) -> Text
    decreases n,
{
    if n <= 0 {
        Seq::empty()
    } else {
        csv_lines(names, objects, n - 1) + csv_line(csv_row(names, objects[n - 1]@))
    }
}

/// The objects as a CSV document: a header line, and a line for each object.
pub open spec fn csv_document(objects: Seq<OutputObject>) -> Text {
    let names = headers_of(objects);
    csv_line(names) + csv_lines(names, objects, objects.len() as int)
}

/// `csv::Writer::write_record`, on a writer that ends records with CRLF and is
/// otherwise as `csv::WriterBuilder::new` makes it, into memory: the bytes of
/// the one record. Fields with a comma, a quotation mark or a line break are
/// quoted, their quotation marks doubled; a record without a character is
/// written as an empty quoted field. Writing a single record into memory does
/// not fail.
#[verifier::external_body]
fn encode_record(values: &Vec<String>) -> (r: Result<Vec<u8>, csv::Error>)
    ensures
        r is Ok,
        r->Ok_0@ == encode_utf8(csv_line(text::texts(values@))),
{
    let mut bytes: Vec<u8> = Vec::new();
    let mut builder = csv::WriterBuilder::new();
    let mut writer = builder.terminator(csv::Terminator::CRLF).from_writer(&mut bytes);
    writer.write_record(values)?;
    writer.flush()?;
    drop(writer);
    Ok(bytes)
}

proof fn lemma_encode_concat(a: Text, b: Text)
    ensures
        encode_utf8(a + b) == encode_utf8(a) + encode_utf8(b),
    decreases a.len(),
{
    if a.len() == 0 {
        assert(a + b =~= b);
        assert(encode_utf8(a) + encode_utf8(b) =~= encode_utf8(b));
    } else {
        assert((a + b).drop_first() =~= a.drop_first() + b);
        lemma_encode_concat(a.drop_first(), b);
        assert(encode_utf8(a + b) =~= encode_utf8(a) + encode_utf8(b));
    }
}

/// The value of each of `names` in `object`.
fn row_values(names: &Vec<String>, object: &OutputObject) -> (r: Vec<String>)
    ensures
        text::texts(r@) == csv_row(text::texts(names@), object@),
{
    let mut values: Vec<String> = Vec::new();
    let mut i: usize = 0;
    while i < names.len()
        invariant
            i == values@.len() <= names@.len(),
            forall|j: int|
                0 <= j < i ==> (#[trigger] values@[j])@ == fields::value_or_empty(
                    object@,
                    names@[j]@,
                ),
        decreases names@.len() - i,
    {
        let value = match object.get(names[i].as_str()) {
            Some(value) => value.clone(),
            None => String::new(),
        };
        values.push(value);
        i = i + 1;
    }
    assert(text::texts(values@) =~= csv_row(text::texts(names@), object@));
    values
}

/// The objects as a CSV document, in UTF-8.
pub fn write_objects_to_csv(objects: &Vec<OutputObject>) -> (r: Result<Vec<u8>, csv::Error>)
    ensures
        r is Ok,
        r->Ok_0@ == encode_utf8(csv_document(objects@)),
{
    let headers = output_headers(objects);
    let ghost names = text::texts(headers@);
    let mut out: Vec<u8> = match encode_record(&headers) {
        Ok(bytes) => bytes,
        Err(error) => return Err(error),
    };
    let mut i: usize = 0;
    assert(csv_line(names) + csv_lines(names, objects@, 0) =~= csv_line(names));
    while i < objects.len()
        invariant
            i <= objects@.len(),
            names == text::texts(headers@),
            out@ == encode_utf8(csv_line(names) + csv_lines(names, objects@, i as int)),
        decreases objects@.len() - i,
    {
        let values = row_values(&headers, &objects[i]);
        let mut line: Vec<u8> = match encode_record(&values) {
            Ok(bytes) => bytes,
            Err(error) => return Err(error),
        };
        proof {
            let before = csv_line(names) + csv_lines(names, objects@, i as int);
            let more = csv_line(csv_row(names, objects@[i as int]@));
            lemma_encode_concat(before, more);
            assert(before + more =~= csv_line(names) + csv_lines(names, objects@, i + 1));
        }
        out.append(&mut line);
        i = i + 1;
    }
    Ok(out)
}

} // verus!
