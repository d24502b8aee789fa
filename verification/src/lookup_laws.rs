//! What holds of lookups in general.

use vstd::prelude::*;

use crate::cache;
use crate::cache::Key;
use crate::fields::CsvRow;
use crate::grammar;
use crate::keys;
use crate::lists;
use crate::lookup;
use crate::lookup::{FieldValue, SfRecord};
use crate::queries;
use crate::queries::Group;
use crate::query_laws;
use crate::template::{TemplateField, TemplateLookup, TemplateMatchRule};
use crate::text;
use crate::text::Text;

verus! {

// ---------------------------------------------------------------------------
// The keys asked for are the keys needed
// ---------------------------------------------------------------------------

/// Rule number `k` of `lookup` needs `key` on `row`.
pub open spec fn rule_needs(lookup: TemplateLookup, k: int, row: Map<Text, Text>, key: Key) -> bool {
    &&& 0 <= k < lookup.match_rules@.len()
    &&& match grammar::evaluated(lookup.match_rules@[k].value@, row) {
        Ok(value) => !text::blank(value) && key == (Key {
            object: lookup.object@,
            field: lookup.match_rules@[k].field@,
            value: text::trimmed(value),
        }),
        Err(_) => false,
    }
}

/// Rule number `k` of the reference `field` needs `key` on `row`.
pub open spec fn field_needs(field: TemplateField, k: int, row: Map<Text, Text>, key: Key) -> bool {
    match field {
        TemplateField::Reference { lookup, .. } => rule_needs(lookup, k, row, key),
        _ => false,
    }
}

/// Some rule of field number `j` needs `key` on row number `i`.
pub open spec fn needed_at(
    fields: Seq<TemplateField>,
    rows: Seq<CsvRow>,
    i: int,
    j: int,
    k: int,
    key: Key,
) -> bool {
    &&& 0 <= i < rows.len()
    &&& 0 <= j < fields.len()
    &&& field_needs(fields[j], k, rows[i]@, key)
}

proof fn lemma_concat_contains(a: Seq<Key>, b: Seq<Key>, key: Key)
    ensures
        (a + b).contains(key) <==> a.contains(key) || b.contains(key),
{
    if a.contains(key) {
        let i = choose|i: int| 0 <= i < a.len() && a[i] == key;
        assert((a + b)[i] == key);
    }
    if b.contains(key) {
        let i = choose|i: int| 0 <= i < b.len() && b[i] == key;
        assert((a + b)[a.len() + i] == key);
    }
    if (a + b).contains(key) {
        let i = choose|i: int| 0 <= i < (a + b).len() && (a + b)[i] == key;
        if i < a.len() {
            assert(a[i] == key);
        } else {
            assert(b[i - a.len()] == key);
        }
    }
}

proof fn lemma_rules_needed(
    lookup: TemplateLookup,
    n: int,
    row: Map<Text, Text>,
    num: nat,
    key: Key,
)
    requires
        0 <= n <= lookup.match_rules@.len(),
        keys::rules_demand(lookup, n, row, num) is Ok,
    ensures
        keys::rules_demand(lookup, n, row, num)->Ok_0.contains(key) <==> exists|k: int|
            0 <= k < n && #[trigger] rule_needs(lookup, k, row, key),
        forall|k: int|
            0 <= k < n ==> grammar::evaluated(
                (#[trigger] lookup.match_rules@[k]).value@,
                row,
            ) is Ok,
    decreases n,
{
    if n > 0 {
        lemma_rules_needed(lookup, n - 1, row, num, key);
        let head = keys::rules_demand(lookup, n - 1, row, num)->Ok_0;
        let whole = keys::rules_demand(lookup, n, row, num)->Ok_0;
        let rule = lookup.match_rules@[n - 1];
        let value = grammar::evaluated(rule.value@, row)->Ok_0;
        if !text::blank(value) {
            let last = keys::rule_key(lookup, rule, value);
            assert(whole =~= head + seq![last]);
            assert(seq![last].contains(key) <==> key == last) by {
                assert(seq![last][0] == last);
            }
            lemma_concat_contains(head, seq![last], key);
        }
        assert(rule_needs(lookup, n - 1, row, key) <==> !text::blank(value) && key
            == keys::rule_key(lookup, rule, value));
        if whole.contains(key) && head.contains(key) {
            let k = choose|k: int| 0 <= k < n - 1 && #[trigger] rule_needs(lookup, k, row, key);
            assert(rule_needs(lookup, k, row, key));
        }
    }
}

proof fn lemma_fields_needed(
    fields: Seq<TemplateField>,
    n: int,
    row: Map<Text, Text>,
    num: nat,
    key: Key,
)
    requires
        0 <= n <= fields.len(),
        keys::fields_demand(fields, n, row, num) is Ok,
    ensures
        keys::fields_demand(fields, n, row, num)->Ok_0.contains(key) <==> exists|j: int, k: int|
            0 <= j < n && #[trigger] field_needs(fields[j], k, row, key),
        forall|j: int|
            0 <= j < n ==> keys::field_demand(#[trigger] fields[j], row, num) is Ok,
    decreases n,
{
    if n > 0 {
        lemma_fields_needed(fields, n - 1, row, num, key);
        let head = keys::fields_demand(fields, n - 1, row, num)->Ok_0;
        let more = keys::field_demand(fields[n - 1], row, num)->Ok_0;
        let whole = keys::fields_demand(fields, n, row, num)->Ok_0;
        lemma_concat_contains(head, more, key);
        match fields[n - 1] {
            TemplateField::Reference { lookup, .. } => {
                lemma_rules_needed(lookup, lookup.match_rules@.len() as int, row, num, key);
                if more.contains(key) {
                    let k = choose|k: int|
                        0 <= k < lookup.match_rules@.len() && #[trigger] rule_needs(
                            lookup,
                            k,
                            row,
                            key,
                        );
                    assert(field_needs(fields[n - 1], k, row, key));
                }
            },
            _ => {},
        }
        if head.contains(key) {
            let (j, k) = choose|j: int, k: int|
                0 <= j < n - 1 && #[trigger] field_needs(fields[j], k, row, key);
            assert(field_needs(fields[j], k, row, key));
        }
        if exists|j: int, k: int| 0 <= j < n && #[trigger] field_needs(fields[j], k, row, key) {
            let (j, k) = choose|j: int, k: int|
                0 <= j < n && #[trigger] field_needs(fields[j], k, row, key);
            assert(field_needs(fields[j], k, row, key));
            if j == n - 1 {
                match fields[j] {
                    TemplateField::Reference { lookup, .. } => {
                        assert(rule_needs(lookup, k, row, key));
                    },
                    _ => {},
                }
            }
        }
    }
}

proof fn lemma_rows_needed(fields: Seq<TemplateField>, rows: Seq<CsvRow>, n: int, key: Key)
    requires
        0 <= n <= rows.len(),
        keys::rows_demand(fields, rows, n) is Ok,
    ensures
        keys::rows_demand(fields, rows, n)->Ok_0.contains(key) <==> exists|i: int, j: int, k: int|
            i < n && #[trigger] needed_at(fields, rows, i, j, k, key),
        forall|i: int|
            0 <= i < n ==> keys::fields_demand(
                fields,
                fields.len() as int,
                (#[trigger] rows[i])@,
                keys::row_number(i),
            ) is Ok,
    decreases n,
{
    if n > 0 {
        lemma_rows_needed(fields, rows, n - 1, key);
        let row = rows[n - 1]@;
        let num = keys::row_number(n - 1);
        let head = keys::rows_demand(fields, rows, n - 1)->Ok_0;
        let more = keys::fields_demand(fields, fields.len() as int, row, num)->Ok_0;
        lemma_concat_contains(head, more, key);
        lemma_fields_needed(fields, fields.len() as int, row, num, key);
        if more.contains(key) {
            let (j, k) = choose|j: int, k: int|
                0 <= j < fields.len() && #[trigger] field_needs(fields[j], k, row, key);
            assert(needed_at(fields, rows, n - 1, j, k, key));
        }
        if head.contains(key) {
            let (i, j, k) = choose|i: int, j: int, k: int|
                i < n - 1 && #[trigger] needed_at(fields, rows, i, j, k, key);
            assert(needed_at(fields, rows, i, j, k, key));
        }
        if exists|i: int, j: int, k: int|
            i < n && #[trigger] needed_at(fields, rows, i, j, k, key) {
            let (i, j, k) = choose|i: int, j: int, k: int|
                i < n && #[trigger] needed_at(fields, rows, i, j, k, key);
            assert(needed_at(fields, rows, i, j, k, key));
            if i == n - 1 {
                assert(field_needs(fields[j], k, row, key));
            }
        }
    } else {
        assert(!keys::rows_demand(fields, rows, n)->Ok_0.contains(key));
    }
}

/// The keys that a load asks for are those that some row needs, each once.
pub proof fn law_asked_is_needed(fields: Seq<TemplateField>, rows: Seq<CsvRow>, key: Key)
    requires
        keys::demand(fields, rows) is Ok,
    ensures
        ({
            let asked = lists::distinct(keys::demand(fields, rows)->Ok_0);
            &&& asked.no_duplicates()
            &&& asked.contains(key) <==> exists|i: int, j: int, k: int|
                #[trigger] needed_at(fields, rows, i, j, k, key)
        }),
{
    let all = keys::demand(fields, rows)->Ok_0;
    lists::law_distinct(all);
    lemma_rows_needed(fields, rows, rows.len() as int, key);
    if exists|i: int, j: int, k: int| #[trigger] needed_at(fields, rows, i, j, k, key) {
        let (i, j, k) = choose|i: int, j: int, k: int|
            #[trigger] needed_at(fields, rows, i, j, k, key);
        assert(i < rows.len() && needed_at(fields, rows, i, j, k, key));
    }
    if all.contains(key) {
        let (i, j, k) = choose|i: int, j: int, k: int|
            i < rows.len() && #[trigger] needed_at(fields, rows, i, j, k, key);
        assert(needed_at(fields, rows, i, j, k, key));
    }
    assert(lists::distinct(all).contains(key) <==> all.contains(key));
}

/// `rule` has a value on `row` to look up.
pub open spec fn has_wish(rule: TemplateMatchRule, row: Map<Text, Text>) -> bool {
    match grammar::evaluated(rule.value@, row) {
        Ok(value) => !text::blank(value),
        Err(_) => false,
    }
}

/// What `rule` looks up of the given kind of record on `row`.
pub open spec fn wish(object: Text, rule: TemplateMatchRule, row: Map<Text, Text>) -> Key {
    Key {
        object,
        field: rule.field@,
        value: text::trimmed(grammar::evaluated(rule.value@, row)->Ok_0),
    }
}

/// What `field` looks up on `row`, rule by rule.
pub open spec fn field_wishes(field: TemplateField, row: Map<Text, Text>) -> Seq<Key> {
    match field {
        TemplateField::Reference { lookup, .. } => lookup.match_rules@.filter(
            |rule: TemplateMatchRule| has_wish(rule, row),
        ).map_values(|rule: TemplateMatchRule| wish(lookup.object@, rule, row)),
        _ => Seq::empty(),
    }
}

/// What is looked up on `row`, field by field.
pub open spec fn row_wishes(fields: Seq<TemplateField>, row: Map<Text, Text>) -> Seq<Key> {
    fields.map_values(|field: TemplateField| field_wishes(field, row)).flatten()
}

proof fn lemma_rules_in_order(lookup: TemplateLookup, n: int, row: Map<Text, Text>, num: nat)
    requires
        0 <= n <= lookup.match_rules@.len(),
        keys::rules_demand(lookup, n, row, num) is Ok,
    ensures
        keys::rules_demand(lookup, n, row, num)->Ok_0 == lookup.match_rules@.take(n).filter(
            |rule: TemplateMatchRule| has_wish(rule, row),
        ).map_values(|rule: TemplateMatchRule| wish(lookup.object@, rule, row)),
    decreases n,
{
    reveal(Seq::filter);
    let has = |rule: TemplateMatchRule| has_wish(rule, row);
    let key = |rule: TemplateMatchRule| wish(lookup.object@, rule, row);
    let rules = lookup.match_rules@;
    if n > 0 {
        lemma_rules_in_order(lookup, n - 1, row, num);
        let last = rules[n - 1];
        assert(rules.take(n).drop_last() =~= rules.take(n - 1));
        assert(rules.take(n).last() == last);
        let head = rules.take(n - 1).filter(has);
        if has(last) {
            assert(rules.take(n).filter(has) =~= head.push(last));
            assert(head.push(last).map_values(key) =~= head.map_values(key).push(key(last)));
        } else {
            assert(rules.take(n).filter(has) =~= head);
        }
    } else {
        assert(rules.take(n).filter(has).map_values(key) =~= Seq::<Key>::empty());
    }
}

proof fn lemma_fields_in_order(fields: Seq<TemplateField>, n: int, row: Map<Text, Text>, num: nat)
    requires
        0 <= n <= fields.len(),
        keys::fields_demand(fields, n, row, num) is Ok,
    ensures
        keys::fields_demand(fields, n, row, num)->Ok_0 == row_wishes(fields.take(n), row),
    decreases n,
{
    let wishes = |field: TemplateField| field_wishes(field, row);
    if n > 0 {
        let field = fields[n - 1];
        lemma_fields_in_order(fields, n - 1, row, num);
        assert(fields.take(n).map_values(wishes) =~= fields.take(n - 1).map_values(wishes).push(
            wishes(field),
        ));
        fields.take(n - 1).map_values(wishes).lemma_flatten_push(wishes(field));
        match field {
            TemplateField::Reference { lookup, .. } => {
                let rules = lookup.match_rules@;
                lemma_rules_in_order(lookup, rules.len() as int, row, num);
                assert(rules.take(rules.len() as int) =~= rules);
            },
            _ => {},
        }
    } else {
        assert(fields.take(n).map_values(wishes) =~= Seq::<Seq<Key>>::empty());
    }
}

proof fn lemma_rows_in_order(fields: Seq<TemplateField>, rows: Seq<CsvRow>, n: int)
    requires
        0 <= n <= rows.len(),
        keys::rows_demand(fields, rows, n) is Ok,
    ensures
        keys::rows_demand(fields, rows, n)->Ok_0 == rows.take(n).map_values(
            |row: CsvRow| row_wishes(fields, row@),
        ).flatten(),
    decreases n,
{
    let wishes = |row: CsvRow| row_wishes(fields, row@);
    if n > 0 {
        let row = rows[n - 1];
        lemma_rows_in_order(fields, rows, n - 1);
        assert(rows.take(n).map_values(wishes) =~= rows.take(n - 1).map_values(wishes).push(
            wishes(row),
        ));
        rows.take(n - 1).map_values(wishes).lemma_flatten_push(wishes(row));
        lemma_fields_in_order(fields, fields.len() as int, row@, keys::row_number(n - 1));
        assert(fields.take(fields.len() as int) =~= fields);
    } else {
        assert(rows.take(n).map_values(wishes) =~= Seq::<Seq<Key>>::empty());
    }
}

/// What a load looks up comes row by row, in each row field by field, and in
/// each field rule by rule.
pub proof fn law_needs_in_order(fields: Seq<TemplateField>, rows: Seq<CsvRow>)
    requires
        keys::demand(fields, rows) is Ok,
    ensures
        keys::demand(fields, rows)->Ok_0 == rows.map_values(
            |row: CsvRow| row_wishes(fields, row@),
        ).flatten(),
{
    lemma_rows_in_order(fields, rows, rows.len() as int);
    assert(rows.take(rows.len() as int) =~= rows);
}

/// The batches of a load ask for exactly the keys that some row needs, and for
/// each of them once.
pub proof fn law_batches_ask_for_needs(fields: Seq<TemplateField>, rows: Seq<CsvRow>, key: Key)
    requires
        keys::demand(fields, rows) is Ok,
    ensures
        ({
            let asked = lists::distinct(keys::demand(fields, rows)->Ok_0);
            let requested = query_laws::requested(queries::planned(queries::grouped(asked)));
            &&& requested.no_duplicates()
            &&& requested.contains(key) <==> exists|i: int, j: int, k: int|
                #[trigger] needed_at(fields, rows, i, j, k, key)
        }),
{
    let asked = lists::distinct(keys::demand(fields, rows)->Ok_0);
    let requested = query_laws::requested(queries::planned(queries::grouped(asked)));
    law_asked_is_needed(fields, rows, key);
    query_laws::law_batches_ask_once(asked);
    asked.lemma_multiset_has_no_duplicates();
    requested.lemma_multiset_has_no_duplicates_conv();
    assert(requested.contains(key) <==> asked.contains(key)) by {
        broadcast use vstd::seq_lib::group_to_multiset_ensures;

        assert(requested.contains(key) <==> requested.to_multiset().count(key) > 0);
        assert(asked.contains(key) <==> asked.to_multiset().count(key) > 0);
    }
}

/// Batch number `b` has a query that asks for the values `values` of a field of
/// a kind of record, as read from the text of the query.
pub open spec fn query_asks(batches: Seq<Group>, b: int, key: Key) -> bool {
    &&& 0 <= b < batches.len()
    &&& batches[b].object == key.object
    &&& batches[b].field == key.field
    &&& match query_laws::literals_read(
        queries::query_text(batches[b]),
        query_laws::query_start(batches[b]).len() as int,
    ) {
        Some((values, end)) => end == queries::query_text(batches[b]).len() && values.contains(
            key.value,
        ),
        None => false,
    }
}

/// The queries of a load ask, in their texts, for exactly the keys that some row
/// needs.
pub proof fn law_queries_ask_for_needs(fields: Seq<TemplateField>, rows: Seq<CsvRow>, key: Key)
    requires
        keys::demand(fields, rows) is Ok,
    ensures
        ({
            let asked = lists::distinct(keys::demand(fields, rows)->Ok_0);
            let batches = queries::planned(queries::grouped(asked));
            (exists|b: int| #[trigger] query_asks(batches, b, key)) <==> exists|
                i: int,
                j: int,
                k: int,
            |
                #[trigger] needed_at(fields, rows, i, j, k, key)
        }),
{
    let asked = lists::distinct(keys::demand(fields, rows)->Ok_0);
    let groups = queries::grouped(asked);
    let batches = queries::planned(groups);
    law_batches_ask_for_needs(fields, rows, key);
    query_laws::law_batch_sizes(groups);
    if exists|b: int| #[trigger] query_asks(batches, b, key) {
        let b = choose|b: int| #[trigger] query_asks(batches, b, key);
        query_laws::law_query_read_back(batches[b]);
        lemma_requested(batches, key);
    }
    if query_laws::requested(batches).contains(key) {
        lemma_requested(batches, key);
        let b = choose|b: int|
            0 <= b < batches.len() && #[trigger] query_laws::group_keys(batches[b]).contains(key);
        let keys = query_laws::group_keys(batches[b]);
        let v = choose|v: int| 0 <= v < keys.len() && keys[v] == key;
        assert(batches[b].values[v] == key.value);
        query_laws::law_query_read_back(batches[b]);
        assert(query_asks(batches, b, key));
    }
}

proof fn lemma_requested(batches: Seq<Group>, key: Key)
    ensures
        query_laws::requested(batches).contains(key) <==> exists|b: int|
            0 <= b < batches.len() && #[trigger] query_laws::group_keys(batches[b]).contains(key),
        forall|b: int|
            0 <= b < batches.len() && (#[trigger] batches[b]).object == key.object
                && batches[b].field == key.field && batches[b].values.contains(key.value)
                ==> query_laws::requested(batches).contains(key),
    decreases batches.len(),
{
    if batches.len() > 0 {
        let head = batches.drop_last();
        let last = query_laws::group_keys(batches.last());
        lemma_requested(head, key);
        lemma_concat_contains(query_laws::requested(head), last, key);
        if last.contains(key) {
            assert(query_laws::group_keys(batches[batches.len() - 1]).contains(key));
        }
        if query_laws::requested(head).contains(key) {
            let b = choose|b: int|
                0 <= b < head.len() && #[trigger] query_laws::group_keys(head[b]).contains(key);
            assert(query_laws::group_keys(batches[b]).contains(key));
        }
        if exists|b: int|
            0 <= b < batches.len() && #[trigger] query_laws::group_keys(batches[b]).contains(key) {
            let b = choose|b: int|
                0 <= b < batches.len() && #[trigger] query_laws::group_keys(batches[b]).contains(
                    key,
                );
            if b < head.len() {
                assert(query_laws::group_keys(head[b]).contains(key));
            }
        }
        assert forall|b: int|
            0 <= b < batches.len() && (#[trigger] batches[b]).object == key.object
                && batches[b].field == key.field && batches[b].values.contains(
                key.value,
            ) implies query_laws::requested(batches).contains(key) by {
            if b < head.len() {
                assert(head[b] == batches[b]);
            } else {
                let v = choose|v: int|
                    0 <= v < batches[b].values.len() && batches[b].values[v] == key.value;
                assert(last[v] == key);
            }
        }
    }
}

/// The formula of rule number `k` of field number `j` has the value `outcome` on
/// row number `i`.
pub open spec fn rule_value(
    fields: Seq<TemplateField>,
    rows: Seq<CsvRow>,
    i: int,
    j: int,
    k: int,
    outcome: Result<Text, Text>,
) -> bool {
    &&& 0 <= i < rows.len()
    &&& 0 <= j < fields.len()
    &&& fields[j] matches TemplateField::Reference { lookup, .. }
    &&& 0 <= k < lookup.match_rules@.len()
    &&& outcome == grammar::evaluated(lookup.match_rules@[k].value@, rows[i]@)
}

/// `(i, j, k)` comes before `(a, b, c)`: by row, then by field, then by rule.
pub open spec fn comes_before(i: int, j: int, k: int, a: int, b: int, c: int) -> bool {
    i < a || (i == a && (j < b || (j == b && k < c)))
}

/// The keys cannot be asked for exactly where some lookup formula fails; the
/// fault is that of the first, by row, field and rule, and names the row, the
/// header being row one.
pub proof fn law_first_lookup_fault(fields: Seq<TemplateField>, rows: Seq<CsvRow>)
    ensures
        match keys::demand(fields, rows) {
            Ok(_) => forall|i: int, j: int, k: int, e: Text|
                !#[trigger] rule_value(fields, rows, i, j, k, Err(e)),
            Err(message) => exists|i: int, j: int, k: int, e: Text| #[trigger]
                rule_value(fields, rows, i, j, k, Err(e)) && message == "Row "@ + text::decimal(
                    (i + 2) as nat,
                ) + ": lookup formula error: "@ + e && forall|a: int, b: int, c: int, f: Text|
                    comes_before(a, b, c, i, j, k) ==> !#[trigger] rule_value(
                        fields,
                        rows,
                        a,
                        b,
                        c,
                        Err(f),
                    ),
        },
{
    lemma_rows_fault(fields, rows, rows.len() as int);
}

proof fn lemma_rules_fault(
    lookup: TemplateLookup,
    n: int,
    row: Map<Text, Text>,
    num: nat,
)
    requires
        0 <= n <= lookup.match_rules@.len(),
    ensures
        match keys::rules_demand(lookup, n, row, num) {
            Ok(_) => forall|k: int|
                0 <= k < n ==> grammar::evaluated(
                    (#[trigger] lookup.match_rules@[k]).value@,
                    row,
                ) is Ok,
            Err(message) => exists|k: int|
                0 <= k < n && match grammar::evaluated(
                    (#[trigger] lookup.match_rules@[k]).value@,
                    row,
                ) {
                    Err(e) => message == "Row "@ + text::decimal(num) + ": lookup formula error: "@
                        + e,
                    Ok(_) => false,
                } && forall|h: int|
                    0 <= h < k ==> grammar::evaluated(
                        (#[trigger] lookup.match_rules@[h]).value@,
                        row,
                    ) is Ok,
        },
    decreases n,
{
    if n > 0 {
        lemma_rules_fault(lookup, n - 1, row, num);
        let rule = lookup.match_rules@[n - 1];
        assert(grammar::evaluated(rule.value@, row) is Ok || grammar::evaluated(
            rule.value@,
            row,
        ) is Err);
    }
}

proof fn lemma_fields_fault(
    fields: Seq<TemplateField>,
    rows: Seq<CsvRow>,
    i: int,
    n: int,
)
    requires
        0 <= n <= fields.len(),
        0 <= i < rows.len(),
    ensures
        match keys::fields_demand(fields, n, rows[i]@, (i + 2) as nat) {
            Ok(_) => forall|j: int, k: int, e: Text|
                j < n ==> !#[trigger] rule_value(fields, rows, i, j, k, Err(e)),
            Err(message) => exists|j: int, k: int, e: Text|
                j < n && #[trigger] rule_value(fields, rows, i, j, k, Err(e)) && message == "Row "@
                    + text::decimal((i + 2) as nat) + ": lookup formula error: "@ + e && forall|
                    b: int,
                    c: int,
                    f: Text,
                |
                    comes_before(i, b, c, i, j, k) ==> !#[trigger] rule_value(
                        fields,
                        rows,
                        i,
                        b,
                        c,
                        Err(f),
                    ),
        },
    decreases n,
{
    if n > 0 {
        lemma_fields_fault(fields, rows, i, n - 1);
        let num = (i + 2) as nat;
        let row = rows[i]@;
        match keys::fields_demand(fields, n - 1, row, num) {
            Err(message) => {
                let (j, k, e) = choose|j: int, k: int, e: Text|
                    j < n - 1 && #[trigger] rule_value(fields, rows, i, j, k, Err(e)) && message
                        == "Row "@ + text::decimal((i + 2) as nat) + ": lookup formula error: "@
                        + e && forall|b: int, c: int, f: Text|
                        comes_before(i, b, c, i, j, k) ==> !#[trigger] rule_value(
                            fields,
                            rows,
                            i,
                            b,
                            c,
                            Err(f),
                        );
                assert(rule_value(fields, rows, i, j, k, Err(e)));
            },
            Ok(_) => {
                match fields[n - 1] {
                    TemplateField::Reference { lookup, .. } => {
                        let m = lookup.match_rules@.len() as int;
                        lemma_rules_fault(lookup, m, row, num);
                        match keys::rules_demand(lookup, m, row, num) {
                            Ok(_) => {},
                            Err(message) => {
                                let k = choose|k: int|
                                    0 <= k < m && match grammar::evaluated(
                                        (#[trigger] lookup.match_rules@[k]).value@,
                                        row,
                                    ) {
                                        Err(e) => message == "Row "@ + text::decimal(num)
                                            + ": lookup formula error: "@ + e,
                                        Ok(_) => false,
                                    } && forall|h: int|
                                        0 <= h < k ==> grammar::evaluated(
                                            (#[trigger] lookup.match_rules@[h]).value@,
                                            row,
                                        ) is Ok;
                                let e = grammar::evaluated(
                                    lookup.match_rules@[k].value@,
                                    row,
                                )->Err_0;
                                assert(rule_value(fields, rows, i, n - 1, k, Err(e)));
                            },
                        }
                    },
                    _ => {},
                }
            },
        }
    }
}

proof fn lemma_rows_fault(fields: Seq<TemplateField>, rows: Seq<CsvRow>, n: int)
    requires
        0 <= n <= rows.len(),
    ensures
        match keys::rows_demand(fields, rows, n) {
            Ok(_) => forall|i: int, j: int, k: int, e: Text|
                i < n ==> !#[trigger] rule_value(fields, rows, i, j, k, Err(e)),
            Err(message) => exists|i: int, j: int, k: int, e: Text|
                i < n && #[trigger] rule_value(fields, rows, i, j, k, Err(e)) && message == "Row "@
                    + text::decimal((i + 2) as nat) + ": lookup formula error: "@ + e && forall|
                    a: int,
                    b: int,
                    c: int,
                    f: Text,
                |
                    comes_before(a, b, c, i, j, k) ==> !#[trigger] rule_value(
                        fields,
                        rows,
                        a,
                        b,
                        c,
                        Err(f),
                    ),
        },
    decreases n,
{
    if n > 0 {
        lemma_rows_fault(fields, rows, n - 1);
        lemma_fields_fault(fields, rows, n - 1, fields.len() as int);
        match keys::rows_demand(fields, rows, n - 1) {
            Err(message) => {
                let (i, j, k, e) = choose|i: int, j: int, k: int, e: Text|
                    i < n - 1 && #[trigger] rule_value(fields, rows, i, j, k, Err(e)) && message
                        == "Row "@ + text::decimal((i + 2) as nat) + ": lookup formula error: "@
                        + e && forall|a: int, b: int, c: int, f: Text|
                        comes_before(a, b, c, i, j, k) ==> !#[trigger] rule_value(
                            fields,
                            rows,
                            a,
                            b,
                            c,
                            Err(f),
                        );
                assert(rule_value(fields, rows, i, j, k, Err(e)));
            },
            Ok(_) => {
                let r = keys::fields_demand(
                    fields,
                    fields.len() as int,
                    rows[n - 1]@,
                    keys::row_number(n - 1),
                );
                if r is Err {
                    let message = r->Err_0;
                    let (j, k, e) = choose|j: int, k: int, e: Text|
                        j < fields.len() && #[trigger] rule_value(
                            fields,
                            rows,
                            n - 1,
                            j,
                            k,
                            Err(e),
                        ) && message == "Row "@ + text::decimal((n - 1 + 2) as nat)
                            + ": lookup formula error: "@ + e && forall|b: int, c: int, f: Text|
                            comes_before(n - 1, b, c, n - 1, j, k) ==> !#[trigger] rule_value(
                                fields,
                                rows,
                                n - 1,
                                b,
                                c,
                                Err(f),
                            );
                    assert(rule_value(fields, rows, n - 1, j, k, Err(e)));
                    assert forall|a: int, b: int, c: int, f: Text|
                        comes_before(a, b, c, n - 1, j, k) implies !#[trigger] rule_value(
                        fields,
                        rows,
                        a,
                        b,
                        c,
                        Err(f),
                    ) by {}
                }
            },
        }
    }
}

// ---------------------------------------------------------------------------
// Resolving
// ---------------------------------------------------------------------------

/// Several records were found.
pub open spec fn several_message(lookup: TemplateLookup, field: Text, value: Text) -> Text {
    "Multiple "@ + lookup.object@ + " records matched "@ + field + " = '"@ + value + "'"@
}

/// The faults that resolving can have once all formulas have values: nothing
/// matched, several records matched, or no rule tells which to take.
pub open spec fn is_match_fault(lookup: TemplateLookup, message: Text) -> bool {
    ||| lookup.on_missing@ == "error"@ && message == "No "@ + lookup.object@
        + " record matched any lookup rule"@
    ||| message == "Multiple matches found but unsupported strategy '"@ + lookup.strategy@ + "'"@
    ||| lookup.on_multiple@ == "error"@ && exists|field: Text, value: Text|
        message == #[trigger] several_message(lookup, field, value)
}

proof fn lemma_resolved_faults(
    lookup: TemplateLookup,
    i: int,
    row: Map<Text, Text>,
    found: Map<Key, Seq<Text>>,
)
    requires
        0 <= i,
        forall|k: int|
            0 <= k < lookup.match_rules@.len() ==> grammar::evaluated(
                (#[trigger] lookup.match_rules@[k]).value@,
                row,
            ) is Ok,
    ensures
        match lookup::resolved_from(lookup, i, row, found) {
            Err(message) => is_match_fault(lookup, message),
            Ok(_) => true,
        },
    decreases lookup.match_rules@.len() - i,
{
    if i < lookup.match_rules@.len() {
        let rule = lookup.match_rules@[i];
        let value = grammar::evaluated(rule.value@, row)->Ok_0;
        let key = keys::rule_key(lookup, rule, value);
        if text::blank(value) || cache::ids_under(found, key).len() == 0 {
            lemma_resolved_faults(lookup, i + 1, row, found);
        } else {
            let message = several_message(lookup, key.field, key.value);
            assert(message == several_message(lookup, key.field, key.value));
        }
    }
}

/// Once the keys of all rows have been asked for, no reference of any row fails
/// for want of a formula's value: only a match can be missing, or be one of
/// several.
pub proof fn law_resolving_has_values(
    fields: Seq<TemplateField>,
    rows: Seq<CsvRow>,
    i: int,
    j: int,
    found: Map<Key, Seq<Text>>,
)
    requires
        keys::demand(fields, rows) is Ok,
        0 <= i < rows.len(),
        0 <= j < fields.len(),
    ensures
        match fields[j] {
            TemplateField::Reference { lookup, .. } => match lookup::resolved(
                lookup,
                rows[i]@,
                found,
            ) {
                Err(message) => is_match_fault(lookup, message),
                Ok(_) => true,
            },
            _ => true,
        },
{
    let key = Key { object: Seq::empty(), field: Seq::empty(), value: Seq::empty() };
    let num = keys::row_number(i);
    lemma_rows_needed(fields, rows, rows.len() as int, key);
    let row = rows[i];
    lemma_fields_needed(fields, fields.len() as int, row@, num, key);
    let field = fields[j];
    match field {
        TemplateField::Reference { lookup, .. } => {
            assert(keys::field_demand(field, row@, num) is Ok);
            lemma_rules_needed(lookup, lookup.match_rules@.len() as int, row@, num, key);
            lemma_resolved_faults(lookup, 0, row@, found);
        },
        _ => {},
    }
}

/// The ids found for the value `value` of rule number `k`: those under the kind
/// of record of the lookup, the field of the rule, and the value without outer
/// white space.
pub open spec fn ids_for(
    lookup: TemplateLookup,
    k: int,
    value: Text,
    found: Map<Key, Seq<Text>>,
) -> Seq<Text> {
    let key = Key {
        object: lookup.object@,
        field: lookup.match_rules@[k].field@,
        value: text::trimmed(value),
    };
    if found.dom().contains(key) {
        found[key]
    } else {
        Seq::empty()
    }
}

/// Rule number `k` finds something for `row`.
pub open spec fn rule_finds(
    lookup: TemplateLookup,
    k: int,
    row: Map<Text, Text>,
    found: Map<Key, Seq<Text>>,
) -> bool {
    match grammar::evaluated(lookup.match_rules@[k].value@, row) {
        Ok(value) => !text::blank(value) && ids_for(lookup, k, value, found).len() > 0,
        Err(_) => false,
    }
}

/// The ids that rule number `k` finds for `row`.
pub open spec fn rule_ids(
    lookup: TemplateLookup,
    k: int,
    row: Map<Text, Text>,
    found: Map<Key, Seq<Text>>,
) -> Seq<Text> {
    ids_for(lookup, k, grammar::evaluated(lookup.match_rules@[k].value@, row)->Ok_0, found)
}

/// The rules before number `k` have values for `row`, and find nothing.
pub open spec fn nothing_before(
    lookup: TemplateLookup,
    k: int,
    row: Map<Text, Text>,
    found: Map<Key, Seq<Text>>,
) -> bool {
    forall|h: int|
        0 <= h < k ==> grammar::evaluated((#[trigger] lookup.match_rules@[h]).value@, row) is Ok
            && !rule_finds(lookup, h, row, found)
}

proof fn lemma_nothing_before(
    lookup: TemplateLookup,
    k: int,
    i: int,
    row: Map<Text, Text>,
    found: Map<Key, Seq<Text>>,
)
    requires
        0 <= i <= k <= lookup.match_rules@.len(),
        nothing_before(lookup, k, row, found),
    ensures
        lookup::resolved_from(lookup, i, row, found) == lookup::resolved_from(
            lookup,
            k,
            row,
            found,
        ),
    decreases k - i,
{
    if i < k {
        let rule = lookup.match_rules@[i];
        assert(!rule_finds(lookup, i, row, found));
        lemma_nothing_before(lookup, k, i + 1, row, found);
    }
}

/// Where the rules before it find nothing, a rule that finds one record gives
/// its id. Where it finds several, the first is taken if the lookup allows it;
/// else that is a fault.
pub proof fn law_found_is_taken(
    lookup: TemplateLookup,
    k: int,
    value: Text,
    row: Map<Text, Text>,
    found: Map<Key, Seq<Text>>,
)
    requires
        0 <= k < lookup.match_rules@.len(),
        nothing_before(lookup, k, row, found),
        grammar::evaluated(lookup.match_rules@[k].value@, row) == Ok::<Text, Text>(value),
        !text::blank(value),
        ids_for(lookup, k, value, found).len() > 0,
    ensures
        ({
            let ids = ids_for(lookup, k, value, found);
            let r = lookup::resolved(lookup, row, found);
            &&& ids.len() == 1 ==> r == Ok::<Option<Text>, Text>(Some(ids[0]))
            &&& ids.len() > 1 && lookup.on_multiple@ != "error"@ && lookup.strategy@
                == "first_match"@ ==> r == Ok::<Option<Text>, Text>(Some(ids[0]))
            &&& ids.len() > 1 && lookup.on_multiple@ == "error"@ ==> r == Err::<
                Option<Text>,
                Text,
            >(
                "Multiple "@ + lookup.object@ + " records matched "@
                    + lookup.match_rules@[k].field@ + " = '"@ + text::trimmed(value) + "'"@,
            )
            &&& ids.len() > 1 && lookup.on_multiple@ != "error"@ && lookup.strategy@
                != "first_match"@ ==> r == Err::<Option<Text>, Text>(
                "Multiple matches found but unsupported strategy '"@ + lookup.strategy@ + "'"@,
            )
        }),
{
    lemma_nothing_before(lookup, k, 0, row, found);
}

/// Where no rule finds anything, that is a fault if the lookup says so, and else
/// there is no id.
pub proof fn law_nothing_is_found(
    lookup: TemplateLookup,
    row: Map<Text, Text>,
    found: Map<Key, Seq<Text>>,
)
    requires
        nothing_before(lookup, lookup.match_rules@.len() as int, row, found),
    ensures
        lookup.on_missing@ == "error"@ ==> lookup::resolved(lookup, row, found) == Err::<
            Option<Text>,
            Text,
        >("No "@ + lookup.object@ + " record matched any lookup rule"@),
        lookup.on_missing@ != "error"@ ==> lookup::resolved(lookup, row, found) == Ok::<
            Option<Text>,
            Text,
        >(None),
{
    lemma_nothing_before(lookup, lookup.match_rules@.len() as int, 0, row, found);
}

/// Where the rules before it find nothing, the fault of a rule's formula is the
/// fault of the lookup.
pub proof fn law_rule_fault(
    lookup: TemplateLookup,
    k: int,
    message: Text,
    row: Map<Text, Text>,
    found: Map<Key, Seq<Text>>,
)
    requires
        0 <= k < lookup.match_rules@.len(),
        nothing_before(lookup, k, row, found),
        grammar::evaluated(lookup.match_rules@[k].value@, row) == Err::<Text, Text>(message),
    ensures
        lookup::resolved(lookup, row, found) == Err::<Option<Text>, Text>(message),
{
    lemma_nothing_before(lookup, k, 0, row, found);
}

proof fn lemma_resolved_rule(
    lookup: TemplateLookup,
    i: int,
    row: Map<Text, Text>,
    found: Map<Key, Seq<Text>>,
)
    requires
        0 <= i,
    ensures
        match lookup::resolved_from(lookup, i, row, found) {
            Ok(Some(id)) => exists|k: int|
                i <= k < lookup.match_rules@.len() && #[trigger] rule_finds(lookup, k, row, found)
                    && id == rule_ids(lookup, k, row, found)[0] && (rule_ids(
                    lookup,
                    k,
                    row,
                    found,
                ).len() == 1 || lookup.on_multiple@ != "error"@ && lookup.strategy@
                    == "first_match"@) && forall|h: int|
                    i <= h < k ==> !#[trigger] rule_finds(lookup, h, row, found),
            Ok(None) => lookup.on_missing@ != "error"@ && forall|h: int|
                i <= h < lookup.match_rules@.len() ==> !#[trigger] rule_finds(
                    lookup,
                    h,
                    row,
                    found,
                ),
            Err(_) => true,
        },
    decreases lookup.match_rules@.len() - i,
{
    if i < lookup.match_rules@.len() {
        match grammar::evaluated(lookup.match_rules@[i].value@, row) {
            Ok(value) => {
                if !rule_finds(lookup, i, row, found) {
                    lemma_resolved_rule(lookup, i + 1, row, found);
                }
            },
            Err(_) => {},
        }
    }
}

/// A reference resolves to the first id found for the first rule that finds
/// anything; to one of several only where the lookup allows it; and to none
/// only where no rule finds anything and the lookup allows it.
pub proof fn law_first_rule_wins(
    lookup: TemplateLookup,
    row: Map<Text, Text>,
    found: Map<Key, Seq<Text>>,
)
    ensures
        match lookup::resolved(lookup, row, found) {
            Ok(Some(id)) => exists|k: int|
                0 <= k < lookup.match_rules@.len() && #[trigger] rule_finds(lookup, k, row, found)
                    && id == rule_ids(lookup, k, row, found)[0] && (rule_ids(
                    lookup,
                    k,
                    row,
                    found,
                ).len() == 1 || lookup.on_multiple@ != "error"@ && lookup.strategy@
                    == "first_match"@) && forall|h: int|
                    0 <= h < k ==> !#[trigger] rule_finds(lookup, h, row, found),
            Ok(None) => lookup.on_missing@ != "error"@ && forall|h: int|
                0 <= h < lookup.match_rules@.len() ==> !#[trigger] rule_finds(
                    lookup,
                    h,
                    row,
                    found,
                ),
            Err(_) => true,
        },
{
    lemma_resolved_rule(lookup, 0, row, found);
}

// ---------------------------------------------------------------------------
// The cache
// ---------------------------------------------------------------------------

/// The answer to one batch leaves the keys of all other kinds of records and
/// fields as they were.
pub proof fn law_other_keys_untouched(
    found: Map<Key, Seq<Text>>,
    batch: Group,
    records: Seq<SfRecord>,
    n: int,
    key: Key,
)
    requires
        key.object != batch.object || key.field != batch.field,
    ensures
        cache::ids_under(lookup::with_records(found, batch, records, n), key) == cache::ids_under(
            found,
            key,
        ),
    decreases n,
{
    if n > 0 {
        law_other_keys_untouched(found, batch, records, n - 1, key);
    }
}

/// What was found stays found, in the same order, before what an answer adds.
pub proof fn law_found_stays(
    found: Map<Key, Seq<Text>>,
    batch: Group,
    records: Seq<SfRecord>,
    n: int,
    key: Key,
)
    ensures
        cache::ids_under(found, key).is_prefix_of(
            cache::ids_under(lookup::with_records(found, batch, records, n), key),
        ),
    decreases n,
{
    let before = cache::ids_under(found, key);
    if n > 0 {
        law_found_stays(found, batch, records, n - 1, key);
        let middle = cache::ids_under(lookup::with_records(found, batch, records, n - 1), key);
        let after = cache::ids_under(lookup::with_records(found, batch, records, n), key);
        assert(after == middle || after == middle.push(after.last()));
        assert(before =~= after.subrange(0, before.len() as int));
    } else {
        assert(before =~= before.subrange(0, before.len() as int));
    }
}

/// `record`, returned by the query for `batch`, answers for `key` with `id`.
pub open spec fn answers(batch: Group, record: SfRecord, key: Key, id: Text) -> bool {
    &&& key.object == batch.object
    &&& key.field == batch.field
    &&& lookup::field_text(record.fields@, "Id"@) == Some(id)
    &&& lookup::field_text(record.fields@, batch.field) == Some(key.value)
}

/// An id is found for a key after an answer exactly where it was found before,
/// or where one of the records answers for the key with it.
pub proof fn law_found_is_answered(
    found: Map<Key, Seq<Text>>,
    batch: Group,
    records: Seq<SfRecord>,
    n: int,
    key: Key,
    id: Text,
)
    requires
        0 <= n <= records.len(),
    ensures
        cache::ids_under(lookup::with_records(found, batch, records, n), key).contains(id) <==> (
        cache::ids_under(found, key).contains(id) || exists|m: int|
            0 <= m < n && #[trigger] answers(batch, records[m], key, id)),
    decreases n,
{
    if n > 0 {
        law_found_is_answered(found, batch, records, n - 1, key, id);
        let record = records[n - 1];
        let middle = cache::ids_under(lookup::with_records(found, batch, records, n - 1), key);
        let after = cache::ids_under(lookup::with_records(found, batch, records, n), key);
        assert(answers(batch, record, key, id) || !answers(batch, record, key, id));
        if after == middle {
            assert(!answers(batch, record, key, id) || after.contains(id)) by {
                if answers(batch, record, key, id) {
                    assert(after.len() == middle.len() + 1);
                }
            }
        } else {
            let last = after.last();
            assert(after =~= middle.push(last));
            assert(answers(batch, record, key, last));
            assert(after[middle.len() as int] == last);
            if middle.contains(id) {
                let m = choose|m: int| 0 <= m < middle.len() && middle[m] == id;
                assert(after[m] == id);
            }
            if after.contains(id) && id != last {
                let m = choose|m: int| 0 <= m < after.len() && after[m] == id;
                assert(middle[m] == id);
            }
        }
        if exists|m: int| 0 <= m < n - 1 && #[trigger] answers(batch, records[m], key, id) {
            let m = choose|m: int| 0 <= m < n - 1 && #[trigger] answers(batch, records[m], key, id);
            assert(answers(batch, records[m], key, id));
        }
    }
}

/// What the answers to the first `n` batches hold.
pub open spec fn found_after(
    batches: Seq<Group>,
    replies: Seq<Seq<SfRecord>>,
    n: int,
) -> Map<Key, Seq<Text>>
    decreases n,
{
    if n <= 0 {
        Map::empty()
    } else {
        lookup::with_records(
            found_after(batches, replies, n - 1),
            batches[n - 1],
            replies[n - 1],
            replies[n - 1].len() as int,
        )
    }
}

/// Record number `m` of the reply to batch number `b` answers for `key` with
/// `id`.
pub open spec fn replied(
    batches: Seq<Group>,
    replies: Seq<Seq<SfRecord>>,
    b: int,
    m: int,
    key: Key,
    id: Text,
) -> bool {
    0 <= m < replies[b].len() && answers(batches[b], replies[b][m], key, id)
}

/// The cache holds what the replies hold, and nothing else.
pub proof fn law_cache_is_replies(
    batches: Seq<Group>,
    replies: Seq<Seq<SfRecord>>,
    n: int,
    key: Key,
    id: Text,
)
    requires
        0 <= n <= batches.len(),
        batches.len() == replies.len(),
    ensures
        cache::ids_under(found_after(batches, replies, n), key).contains(id) <==> exists|
            b: int,
            m: int,
        |
            0 <= b < n && #[trigger] replied(batches, replies, b, m, key, id),
    decreases n,
{
    if n > 0 {
        law_cache_is_replies(batches, replies, n - 1, key, id);
        let before = found_after(batches, replies, n - 1);
        let last = replies[n - 1];
        law_found_is_answered(before, batches[n - 1], last, last.len() as int, key, id);
        if exists|m: int|
            0 <= m < last.len() && #[trigger] answers(batches[n - 1], last[m], key, id) {
            let m = choose|m: int|
                0 <= m < last.len() && #[trigger] answers(batches[n - 1], last[m], key, id);
            assert(replied(batches, replies, n - 1, m, key, id));
        }
        if exists|b: int, m: int|
            0 <= b < n - 1 && #[trigger] replied(batches, replies, b, m, key, id) {
            let (b, m) = choose|b: int, m: int|
                0 <= b < n - 1 && #[trigger] replied(batches, replies, b, m, key, id);
            assert(replied(batches, replies, b, m, key, id));
        }
        if exists|b: int, m: int|
            0 <= b < n && #[trigger] replied(batches, replies, b, m, key, id) {
            let (b, m) = choose|b: int, m: int|
                0 <= b < n && #[trigger] replied(batches, replies, b, m, key, id);
            if b == n - 1 {
                assert(answers(batches[n - 1], last[m], key, id));
            }
        }
    }
}

/// Record number `m` of the reply to batch number `b` has the id `id`, and is a
/// match by rule number `k` of `lookup` for `row`: it is of the kind that the
/// lookup asks for, and its field is the value of the rule's formula.
pub open spec fn matches_row(
    lookup: TemplateLookup,
    row: Map<Text, Text>,
    batches: Seq<Group>,
    replies: Seq<Seq<SfRecord>>,
    k: int,
    b: int,
    m: int,
    id: Text,
) -> bool {
    &&& 0 <= k < lookup.match_rules@.len()
    &&& 0 <= b < batches.len()
    &&& 0 <= m < replies[b].len()
    &&& batches[b].object == lookup.object@
    &&& lookup::field_text(replies[b][m].fields@, "Id"@) == Some(id)
    &&& match grammar::evaluated(lookup.match_rules@[k].value@, row) {
        Ok(value) => lookup::field_text(
            replies[b][m].fields@,
            lookup.match_rules@[k].field@,
        ) == Some(text::trimmed(value)),
        Err(_) => false,
    }
}

/// The id that a reference resolves to is that of a record, among the replies,
/// that matches the row.
pub proof fn law_resolved_record_matches(
    lookup: TemplateLookup,
    row: Map<Text, Text>,
    batches: Seq<Group>,
    replies: Seq<Seq<SfRecord>>,
    id: Text,
)
    requires
        batches.len() == replies.len(),
        lookup::resolved(lookup, row, found_after(batches, replies, batches.len() as int)) == Ok::<
            Option<Text>,
            Text,
        >(Some(id)),
    ensures
        exists|k: int, b: int, m: int| #[trigger]
            matches_row(lookup, row, batches, replies, k, b, m, id),
{
    let found = found_after(batches, replies, batches.len() as int);
    law_first_rule_wins(lookup, row, found);
    let k = choose|k: int|
        0 <= k < lookup.match_rules@.len() && #[trigger] rule_finds(lookup, k, row, found) && id
            == rule_ids(lookup, k, row, found)[0];
    let rule = lookup.match_rules@[k];
    let value = grammar::evaluated(rule.value@, row)->Ok_0;
    let key = keys::rule_key(lookup, rule, value);
    assert(cache::ids_under(found, key).contains(id));
    law_cache_is_replies(batches, replies, batches.len() as int, key, id);
    let (b, m) = choose|b: int, m: int|
        0 <= b < batches.len() && #[trigger] replied(batches, replies, b, m, key, id);
    assert(matches_row(lookup, row, batches, replies, k, b, m, id));
}

/// The field `name` of a record holds the text `t`, in the first field of that
/// name.
pub open spec fn holds_text(fields: Seq<(String, FieldValue)>, name: Text, t: Text) -> bool {
    exists|i: int|
        0 <= i < fields.len() && (#[trigger] fields[i]).0@ == name && (forall|j: int|
            0 <= j < i ==> (#[trigger] fields[j]).0@ != name) && match fields[i].1 {
            FieldValue::Text(s) => s@ == t,
            FieldValue::Other => false,
        }
}

/// The text in a field is found wherever the field stands in the record.
pub proof fn law_field_text(fields: Seq<(String, FieldValue)>, name: Text, t: Text)
    ensures
        lookup::field_text(fields, name) == Some(t) <==> holds_text(fields, name, t),
    decreases fields.len(),
{
    if fields.len() > 0 {
        let rest = fields.skip(1);
        law_field_text(rest, name, t);
        if fields[0].0@ == name {
            if holds_text(fields, name, t) {
                let i = choose|i: int|
                    0 <= i < fields.len() && (#[trigger] fields[i]).0@ == name && (forall|j: int|
                        0 <= j < i ==> (#[trigger] fields[j]).0@ != name) && match fields[i].1 {
                        FieldValue::Text(s) => s@ == t,
                        FieldValue::Other => false,
                    };
                if i > 0 {
                    assert(fields[0].0@ != name);
                }
            }
            if lookup::field_text(fields, name) == Some(t) {
                assert(fields[0].0@ == name);
            }
        } else {
            if holds_text(rest, name, t) {
                let i = choose|i: int|
                    0 <= i < rest.len() && (#[trigger] rest[i]).0@ == name && (forall|j: int|
                        0 <= j < i ==> (#[trigger] rest[j]).0@ != name) && match rest[i].1 {
                        FieldValue::Text(s) => s@ == t,
                        FieldValue::Other => false,
                    };
                assert forall|j: int| 0 <= j < i + 1 implies (#[trigger] fields[j]).0@ != name by {
                    if j > 0 {
                        assert(rest[j - 1] == fields[j]);
                    }
                }
                assert(fields[i + 1].0@ == name);
            }
            if holds_text(fields, name, t) {
                let i = choose|i: int|
                    0 <= i < fields.len() && (#[trigger] fields[i]).0@ == name && (forall|j: int|
                        0 <= j < i ==> (#[trigger] fields[j]).0@ != name) && match fields[i].1 {
                        FieldValue::Text(s) => s@ == t,
                        FieldValue::Other => false,
                    };
                assert forall|j: int| 0 <= j < i - 1 implies (#[trigger] rest[j]).0@ != name by {
                    assert(fields[j + 1].0@ != name);
                }
                assert(rest[i - 1].0@ == name);
            }
        }
    }
}

/// A record answers for `key`.
pub open spec fn answers_key(batch: Group, key: Key) -> spec_fn(SfRecord) -> bool {
    |record: SfRecord|
        key.object == batch.object && key.field == batch.field && lookup::field_text(
            record.fields@,
            "Id"@,
        ) is Some && lookup::field_text(record.fields@, batch.field) == Some(key.value)
}

/// After an answer, the ids under a key are those that were there, and behind
/// them those of the records that answer for the key, all of them and in their
/// order.
pub proof fn law_ids_in_order(
    found: Map<Key, Seq<Text>>,
    batch: Group,
    records: Seq<SfRecord>,
    key: Key,
)
    ensures
        ({
            let after = lookup::with_records(found, batch, records, records.len() as int);
            let before = if found.dom().contains(key) {
                found[key]
            } else {
                Seq::empty()
            };
            let more = records.filter(answers_key(batch, key)).map_values(
                |record: SfRecord| lookup::field_text(record.fields@, "Id"@)->Some_0,
            );
            (if after.dom().contains(key) {
                after[key]
            } else {
                Seq::empty()
            }) == before + more
        }),
{
    lemma_ids_in_order(found, batch, records, records.len() as int, key);
    assert(records.take(records.len() as int) =~= records);
}

proof fn lemma_ids_in_order(
    found: Map<Key, Seq<Text>>,
    batch: Group,
    records: Seq<SfRecord>,
    n: int,
    key: Key,
)
    requires
        0 <= n <= records.len(),
    ensures
        cache::ids_under(lookup::with_records(found, batch, records, n), key) == cache::ids_under(
            found,
            key,
        ) + records.take(n).filter(answers_key(batch, key)).map_values(
            |record: SfRecord| lookup::field_text(record.fields@, "Id"@)->Some_0,
        ),
    decreases n,
{
    reveal(Seq::filter);
    let some = records.take(n);
    let id = |record: SfRecord| lookup::field_text(record.fields@, "Id"@)->Some_0;
    let old_ids = cache::ids_under(found, key);
    let all = some.filter(answers_key(batch, key)).map_values(id);
    if n == 0 {
        assert(all =~= Seq::<Text>::empty());
        assert(old_ids + all =~= old_ids);
    } else {
        lemma_ids_in_order(found, batch, records, n - 1, key);
        let record = records[n - 1];
        assert(some.drop_last() =~= records.take(n - 1));
        assert(some.last() == record);
        let middle = lookup::with_records(found, batch, records, n - 1);
        let ids = cache::ids_under(middle, key);
        let before = records.take(n - 1).filter(answers_key(batch, key));
        if answers_key(batch, key)(record) {
            assert(some.filter(answers_key(batch, key)) == before.push(record));
            assert(all =~= before.map_values(id).push(id(record)));
            assert(old_ids + all =~= ids.push(id(record)));
        } else {
            assert(some.filter(answers_key(batch, key)) == before);
        }
    }
}

} // verus!
