//! What holds of queries in general.

use vstd::prelude::*;

use crate::cache::{Key, LookupCacheKey};
use crate::keys;
use crate::lists;
use crate::queries;
use crate::queries::{Group, LookupGroup, BATCH_SIZE};
use crate::text;
use crate::text::Text;
use crate::text_laws;

verus! {

// ---------------------------------------------------------------------------
// String literals
// ---------------------------------------------------------------------------

/// Reads a string literal of a query from `p` on, after its opening quotation
/// mark and the characters `out`: the text it stands for, and the position
/// after its closing quotation mark. A backslash stands before a character
/// that is part of the text.
pub open spec fn literal_read(s: Text, p: int, out: Text) -> Option<(Text, int)>
    decreases s.len() - p,
{
    if !(0 <= p < s.len()) {
        None
    } else if s[p] == '\'' {
        Some((out, p + 1))
    } else if s[p] == '\\' {
        if p + 1 < s.len() {
            literal_read(s, p + 2, out.push(s[p + 1]))
        } else {
            None
        }
    } else {
        literal_read(s, p + 1, out.push(s[p]))
    }
}

proof fn lemma_literal_rest(head: Text, v: Text, rest: Text, out: Text)
    ensures
        literal_read(
            head + text::escaped(v, '\'') + seq!['\''] + rest,
            head.len() as int,
            out,
        ) == Some((out + v, (head.len() + text::escaped(v, '\'').len() + 1) as int)),
    decreases v.len(),
{
    let e = text::escaped(v, '\'');
    let s = head + e + seq!['\''] + rest;
    let p = head.len() as int;
    if v.len() == 0 {
        assert(s[p] == '\'');
        assert(out + v =~= out);
    } else {
        let tail = text::escaped(v.skip(1), '\'');
        let first = if v[0] == '\\' || v[0] == '\'' {
            seq!['\\', v[0]]
        } else {
            seq![v[0]]
        };
        assert(s =~= (head + first) + tail + seq!['\''] + rest);
        assert(s[p] == first[0]);
        if first.len() == 2 {
            assert(s[p + 1] == first[1]);
        }
        lemma_literal_rest(head + first, v.skip(1), rest, out.push(v[0]));
        assert(out.push(v[0]) + v.skip(1) =~= out + v);
    }
}

/// Whatever the value holds, its literal is read back as the value, and ends
/// where the literal ends: nothing of the value becomes part of the query.
pub proof fn law_literal_read_back(value: Text, rest: Text)
    ensures
        literal_read(queries::soql_literal(value) + rest, 1, Seq::empty()) == Some(
            (value, queries::soql_literal(value).len() as int),
        ),
{
    reveal_strlit("'");
    assert("'"@ =~= seq!['\'']);
    assert(queries::soql_literal(value) + rest =~= "'"@ + text::escaped(value, '\'') + seq!['\'']
        + rest);
    lemma_literal_rest("'"@, value, rest, Seq::empty());
    assert(Seq::<char>::empty() + value =~= value);
}

/// Different values have different literals.
pub proof fn law_literals_differ(a: Text, b: Text)
    requires
        a != b,
    ensures
        queries::soql_literal(a) != queries::soql_literal(b),
        text::escaped(a, '\'') != text::escaped(b, '\''),
{
    law_literal_read_back(a, Seq::empty());
    law_literal_read_back(b, Seq::empty());
}

/// Reads the string literals of a query from `p` on, separated by a comma and a
/// blank, up to and with a closing parenthesis: the texts that they stand for,
/// and the position behind the parenthesis.
pub open spec fn literals_read(s: Text, p: int) -> Option<(Seq<Text>, int)>
    decreases s.len() - p,
    via literals_read_decreases
{
    if !(0 <= p < s.len() && s[p] == '\'') {
        None
    } else {
        match literal_read(s, p + 1, Seq::empty()) {
            None => None,
            Some((value, q)) => if q < s.len() && s[q] == ')' {
                Some((seq![value], q + 1))
            } else if q + 1 < s.len() && s[q] == ',' && s[q + 1] == ' ' {
                match literals_read(s, q + 2) {
                    Some((values, end)) => Some((seq![value] + values, end)),
                    None => None,
                }
            } else {
                None
            },
        }
    }
}

#[via_fn]
proof fn literals_read_decreases(s: Text, p: int) {
    lemma_literal_forward(s, p + 1, Seq::empty());
}

proof fn lemma_literal_forward(s: Text, p: int, out: Text)
    ensures
        literal_read(s, p, out) matches Some((_, q)) ==> q > p,
    decreases s.len() - p,
{
    if 0 <= p < s.len() && s[p] != '\'' {
        if s[p] == '\\' {
            if p + 1 < s.len() {
                lemma_literal_forward(s, p + 2, out.push(s[p + 1]));
            }
        } else {
            lemma_literal_forward(s, p + 1, out.push(s[p]));
        }
    }
}

proof fn lemma_list_read(head: Text, values: Seq<Text>)
    requires
        values.len() > 0,
    ensures
        literals_read(head + queries::in_list(values) + seq![')'], head.len() as int) == Some(
            (values, (head.len() + queries::in_list(values).len() + 1) as int),
        ),
    decreases values.len(),
{
    let parts = values.map_values(|v: Text| queries::soql_literal(v));
    let first = queries::soql_literal(values[0]);
    let list = queries::in_list(values);
    let s = head + list + seq![')'];
    let p = head.len() as int;
    let q = p + first.len();
    reveal_strlit("'");
    reveal_strlit(", ");
    assert("'"@ =~= seq!['\'']);
    assert(parts[0] == first);
    let e = text::escaped(values[0], '\'');
    assert(first =~= seq!['\''] + e + seq!['\'']);
    if values.len() == 1 {
        assert(list == first);
        assert(s =~= (head + seq!['\'']) + e + seq!['\''] + seq![')']);
        lemma_literal_rest(head + seq!['\''], values[0], seq![')'], Seq::empty());
        assert(Seq::<char>::empty() + values[0] =~= values[0]);
        assert(values =~= seq![values[0]]);
    } else {
        let others = values.skip(1);
        let more = queries::in_list(others);
        text_laws::lemma_joined_first(parts, ", "@);
        assert(parts.skip(1) =~= others.map_values(|v: Text| queries::soql_literal(v)));
        assert(list == first + ", "@ + more);
        let rest = ", "@ + more + seq![')'];
        assert(s =~= (head + seq!['\'']) + e + seq!['\''] + rest);
        lemma_literal_rest(head + seq!['\''], values[0], rest, Seq::empty());
        assert(Seq::<char>::empty() + values[0] =~= values[0]);
        assert(s[q] == ',' && s[q + 1] == ' ');
        let longer = head + first + ", "@;
        assert(s =~= longer + more + seq![')']);
        lemma_list_read(longer, others);
        assert(values =~= seq![values[0]] + others);
    }
}

/// The start of the query for a batch: the fields that it selects, the kind of
/// record, and the field that it asks by.
pub open spec fn query_start(batch: Group) -> Text {
    "SELECT Id, "@ + batch.field + " FROM "@ + batch.object + " WHERE "@ + batch.field + " IN ("@
}

/// The query for a batch names its field and its kind of record, and asks for
/// all the values of the batch, in order, and for nothing else: they are read
/// back from the text of the query.
pub proof fn law_query_read_back(batch: Group)
    requires
        batch.values.len() > 0,
    ensures
        query_start(batch).is_prefix_of(queries::query_text(batch)),
        literals_read(queries::query_text(batch), query_start(batch).len() as int) == Some(
            (batch.values, queries::query_text(batch).len() as int),
        ),
{
    let start = query_start(batch);
    let query = queries::query_text(batch);
    reveal_strlit(")");
    assert(")"@ =~= seq![')']);
    assert(query =~= start + queries::in_list(batch.values) + seq![')']);
    assert(start =~= query.subrange(0, start.len() as int));
    lemma_list_read(start, batch.values);
}

// ---------------------------------------------------------------------------
// Batches
// ---------------------------------------------------------------------------

/// The keys that a group asks for.
pub open spec fn group_keys(group: Group) -> Seq<Key> {
    group.values.map_values(
        |v: Text| Key { object: group.object, field: group.field, value: v },
    )
}

/// The keys that all groups ask for.
pub open spec fn requested(groups: Seq<Group>) -> Seq<Key>
    decreases groups.len(),
{
    if groups.len() == 0 {
        Seq::empty()
    } else {
        requested(groups.drop_last()) + group_keys(groups.last())
    }
}

proof fn lemma_requested_concat(a: Seq<Group>, b: Seq<Group>)
    ensures
        requested(a + b) == requested(a) + requested(b),
    decreases b.len(),
{
    if b.len() == 0 {
        assert(a + b =~= a);
        assert(requested(a) + requested(b) =~= requested(a));
    } else {
        assert((a + b).drop_last() =~= a + b.drop_last());
        lemma_requested_concat(a, b.drop_last());
        assert(requested(a + b) =~= requested(a) + requested(b));
    }
}

proof fn lemma_requested_one(group: Group)
    ensures
        requested(seq![group]) == group_keys(group),
{
    assert(seq![group].drop_last() =~= Seq::<Group>::empty());
    assert(requested(Seq::<Group>::empty()) =~= Seq::<Key>::empty());
    assert(requested(seq![group]) =~= group_keys(group));
}

proof fn lemma_batches_requested(group: Group)
    ensures
        requested(queries::batches_of(group)) == group_keys(group),
    decreases group.values.len(),
{
    let batches = queries::batches_of(group);
    let n = group.values.len();
    if n == 0 {
        assert(requested(batches) =~= group_keys(group));
    } else if n <= BATCH_SIZE {
        assert(batches =~= seq![group]);
        lemma_requested_one(group);
    } else {
        let first = Group { values: group.values.take(BATCH_SIZE as int), ..group };
        let rest = Group { values: group.values.skip(BATCH_SIZE as int), ..group };
        assert(batches =~= seq![first] + queries::batches_of(rest));
        lemma_requested_concat(seq![first], queries::batches_of(rest));
        lemma_batches_requested(rest);
        lemma_requested_one(first);
        assert(group_keys(first) + group_keys(rest) =~= group_keys(group));
    }
}

proof fn lemma_planned_requested(groups: Seq<Group>)
    ensures
        requested(queries::planned(groups)) == requested(groups),
    decreases groups.len(),
{
    if groups.len() > 0 {
        lemma_planned_requested(groups.drop_last());
        lemma_batches_requested(groups.last());
        lemma_requested_concat(
            queries::planned(groups.drop_last()),
            queries::batches_of(groups.last()),
        );
    }
}

/// One value more in one group.
proof fn lemma_requested_more(before: Seq<Group>, after: Seq<Group>, i: int, value: Text)
    requires
        before.len() == after.len(),
        0 <= i < before.len(),
        forall|j: int| 0 <= j < before.len() && j != i ==> #[trigger] after[j] == before[j],
        after[i] == (Group { values: before[i].values.push(value), ..before[i] }),
    ensures
        requested(after).to_multiset() == requested(before).to_multiset().insert(
            Key { object: before[i].object, field: before[i].field, value },
        ),
    decreases before.len(),
{
    broadcast use vstd::seq_lib::group_to_multiset_ensures;

    let n = before.len() - 1;
    let key = Key { object: before[i].object, field: before[i].field, value };
    vstd::seq_lib::lemma_multiset_commutative(
        requested(before.drop_last()),
        group_keys(before.last()),
    );
    vstd::seq_lib::lemma_multiset_commutative(
        requested(after.drop_last()),
        group_keys(after.last()),
    );
    if i == n {
        assert(after.drop_last() =~= before.drop_last());
        assert(group_keys(after.last()) =~= group_keys(before.last()).push(key));
    } else {
        assert(after[n] == before[n]);
        lemma_requested_more(before.drop_last(), after.drop_last(), i, value);
    }
    assert(requested(after).to_multiset() =~= requested(before).to_multiset().insert(key));
}

proof fn lemma_grouped_requested(asked: Seq<Key>)
    ensures
        requested(queries::grouped(asked)).to_multiset() == asked.to_multiset(),
    decreases asked.len(),
{
    broadcast use vstd::seq_lib::group_to_multiset_ensures;

    if asked.len() == 0 {
        assert(queries::grouped(asked) =~= Seq::<Group>::empty());
        assert(requested(queries::grouped(asked)) =~= asked);
    } else {
        let head = asked.drop_last();
        let key = asked.last();
        let before = queries::grouped(head);
        let after = queries::grouped(asked);
        let pairs = lists::distinct(queries::pairs_of(head));
        let pair = (key.object, key.field);
        lemma_grouped_requested(head);
        assert(asked =~= head.push(key));
        queries::lemma_grouped_push(head, key);
        if pairs.contains(pair) {
            lists::law_distinct(queries::pairs_of(head));
            let i = choose|i: int| 0 <= i < pairs.len() && pairs[i] == pair;
            assert forall|j: int| 0 <= j < before.len() && j != i implies #[trigger] after[j]
                == before[j] by {
                assert(pairs[j] != pairs[i]);
            }
            lemma_requested_more(before, after, i, key.value);
        } else {
            let new = Group { object: key.object, field: key.field, values: seq![key.value] };
            assert(after.drop_last() =~= before);
            assert(group_keys(new) =~= seq![key]);
            assert(requested(after) =~= requested(before).push(key));
        }
        assert(asked.to_multiset() =~= head.to_multiset().insert(key));
    }
}

/// The batches ask for every key once and for nothing else.
pub proof fn law_batches_ask_once(asked: Seq<Key>)
    ensures
        requested(queries::planned(queries::grouped(asked))).to_multiset() == asked.to_multiset(),
{
    lemma_planned_requested(queries::grouped(asked));
    lemma_grouped_requested(asked);
}

proof fn lemma_chunk_sizes(values: Seq<Text>)
    ensures
        forall|i: int|
            0 <= i < queries::chunked(values).len() ==> 0 < (#[trigger] queries::chunked(
                values,
            )[i]).len() <= BATCH_SIZE,
    decreases values.len(),
{
    if values.len() > BATCH_SIZE {
        let rest = values.skip(BATCH_SIZE as int);
        lemma_chunk_sizes(rest);
        assert forall|i: int| 0 <= i < queries::chunked(values).len() implies 0 < (
        #[trigger] queries::chunked(values)[i]).len() <= BATCH_SIZE by {
            if i > 0 {
                assert(queries::chunked(values)[i] == queries::chunked(rest)[i - 1]);
            }
        }
    }
}

/// A group with `n` values takes a batch for each hundred of them, and one for
/// the rest.
pub proof fn law_batch_count(group: Group)
    ensures
        queries::batches_of(group).len() == (group.values.len() + 99) / 100,
    decreases group.values.len(),
{
    if group.values.len() > BATCH_SIZE {
        law_batch_count(Group { values: group.values.skip(BATCH_SIZE as int), ..group });
    }
}

/// No batch is empty, and none asks for more than a hundred values.
pub proof fn law_batch_sizes(groups: Seq<Group>)
    ensures
        forall|i: int|
            0 <= i < queries::planned(groups).len() ==> 0 < (#[trigger] queries::planned(
                groups,
            )[i]).values.len() <= 100,
    decreases groups.len(),
{
    if groups.len() > 0 {
        law_batch_sizes(groups.drop_last());
        lemma_chunk_sizes(groups.last().values);
        let head = queries::planned(groups.drop_last());
        let tail = queries::batches_of(groups.last());
        assert forall|i: int| 0 <= i < queries::planned(groups).len() implies 0 < (
        #[trigger] queries::planned(groups)[i]).values.len() <= BATCH_SIZE by {
            if i >= head.len() {
                assert(queries::planned(groups)[i] == tail[i - head.len()]);
                assert(tail[i - head.len()].values == queries::chunked(
                    groups.last().values,
                )[i - head.len()]);
            } else {
                assert(queries::planned(groups)[i] == head[i]);
            }
        }
    }
}

/// No two groups are of the same kind of record and field, and there is one for
/// every kind and field that is asked for.
pub proof fn law_one_group_each(asked: Seq<Key>, i: int, j: int)
    requires
        0 <= i < j < queries::grouped(asked).len(),
    ensures
        queries::grouped(asked)[i].object != queries::grouped(asked)[j].object
            || queries::grouped(asked)[i].field != queries::grouped(asked)[j].field,
{
    let pairs = lists::distinct(queries::pairs_of(asked));
    lists::law_distinct(queries::pairs_of(asked));
    assert(pairs[i] != pairs[j]);
}

/// `key` is of the given kind of record and field.
pub open spec fn is_of(key: Key, object: Text, field: Text) -> bool {
    key.object == object && key.field == field
}

proof fn lemma_values_in_order(asked: Seq<Key>, object: Text, field: Text)
    ensures
        queries::values_of(asked, object, field) == asked.filter(
            |key: Key| is_of(key, object, field),
        ).map_values(|key: Key| key.value),
    decreases asked.len(),
{
    reveal(Seq::filter);
    if asked.len() > 0 {
        let of = |key: Key| is_of(key, object, field);
        let value = |key: Key| key.value;
        let head = asked.drop_last();
        let last = asked.last();
        lemma_values_in_order(head, object, field);
        if of(last) {
            assert(asked.filter(of) =~= head.filter(of).push(last));
            assert(head.filter(of).push(last).map_values(value) =~= head.filter(of).map_values(
                value,
            ).push(last.value));
        } else {
            assert(asked.filter(of) =~= head.filter(of));
        }
    }
}

/// The values of a group are those of all the keys of its kind of record and
/// field, in the order in which they are asked for.
pub proof fn law_values_in_order(asked: Seq<Key>, i: int)
    requires
        0 <= i < queries::grouped(asked).len(),
    ensures
        queries::grouped(asked)[i].values == asked.filter(
            |key: Key|
                is_of(
                    key,
                    queries::grouped(asked)[i].object,
                    queries::grouped(asked)[i].field,
                ),
        ).map_values(|key: Key| key.value),
{
    let group = queries::grouped(asked)[i];
    lemma_values_in_order(asked, group.object, group.field);
}

/// The groups come in the order in which their kinds of records and fields are
/// first asked for.
pub proof fn law_groups_in_order(asked: Seq<Key>, i: int, j: int)
    requires
        0 <= i < j < queries::grouped(asked).len(),
    ensures
        ({
            let first = queries::grouped(asked)[i];
            let second = queries::grouped(asked)[j];
            exists|a: int|
                0 <= a < asked.len() && is_of(#[trigger] asked[a], first.object, first.field)
                    && forall|b: int|
                    0 <= b <= a ==> !is_of(#[trigger] asked[b], second.object, second.field)
        }),
{
    let pairs = queries::pairs_of(asked);
    let first = queries::grouped(asked)[i];
    let second = queries::grouped(asked)[j];
    lists::law_distinct_in_order(pairs, i, j);
    let a = choose|a: int|
        0 <= a < pairs.len() && #[trigger] pairs[a] == lists::distinct(pairs)[i] && forall|b: int|
            0 <= b <= a ==> #[trigger] pairs[b] != lists::distinct(pairs)[j];
    assert(pairs[a] == (asked[a].object, asked[a].field));
    assert(is_of(asked[a], first.object, first.field));
    assert forall|b: int| 0 <= b <= a implies !is_of(
        #[trigger] asked[b],
        second.object,
        second.field,
    ) by {
        assert(pairs[b] == (asked[b].object, asked[b].field));
    }
}

/// The batches of a group, one after the other, ask for all its values in their
/// order, of its kind of record and by its field; all but the last are full.
pub proof fn law_batches_in_order(group: Group)
    ensures
        queries::batches_of(group).map_values(|batch: Group| batch.values).flatten()
            == group.values,
        forall|i: int|
            0 <= i < queries::batches_of(group).len() ==> {
                let batch = #[trigger] queries::batches_of(group)[i];
                &&& batch.object == group.object
                &&& batch.field == group.field
                &&& i + 1 < queries::batches_of(group).len() ==> batch.values.len() == 100
            },
    decreases group.values.len(),
{
    let values = |batch: Group| batch.values;
    let batches = queries::batches_of(group);
    reveal_with_fuel(Seq::flatten, 2);
    if group.values.len() > BATCH_SIZE {
        let rest = Group { values: group.values.skip(BATCH_SIZE as int), ..group };
        law_batches_in_order(rest);
        let others = queries::batches_of(rest);
        assert(batches.map_values(values).drop_first() =~= others.map_values(values));
        assert(group.values.take(BATCH_SIZE as int) + rest.values =~= group.values);
        assert forall|i: int| 0 <= i < batches.len() implies {
            let batch = #[trigger] batches[i];
            &&& batch.object == group.object
            &&& batch.field == group.field
            &&& i + 1 < batches.len() ==> batch.values.len() == 100
        } by {
            if i > 0 {
                assert(batches[i] == others[i - 1]);
            }
        }
    } else if group.values.len() > 0 {
        assert(batches.map_values(values) =~= seq![group.values]);
        assert(seq![group.values].drop_first() =~= Seq::<Seq<Text>>::empty());
        assert(group.values + Seq::<Text>::empty() =~= group.values);
    } else {
        assert(batches.map_values(values) =~= Seq::<Seq<Text>>::empty());
    }
}

/// The groups are queried one after the other.
pub proof fn law_plan_in_order(groups: Seq<Group>, more: Seq<Group>, group: Group)
    ensures
        queries::planned(groups + more) == queries::planned(groups) + queries::planned(more),
        queries::planned(seq![group]) == queries::batches_of(group),
        queries::planned(Seq::empty()).len() == 0,
    decreases more.len(),
{
    let one = seq![group];
    assert(one.drop_last() =~= Seq::<Group>::empty());
    assert(queries::planned(one.drop_last()) =~= Seq::<Group>::empty());
    assert(queries::planned(one) =~= queries::batches_of(one.last()));
    if more.len() == 0 {
        assert(groups + more =~= groups);
    } else {
        law_plan_in_order(groups, more.drop_last(), group);
        assert((groups + more).drop_last() =~= groups + more.drop_last());
        assert((groups + more).last() == more.last());
    }
}

/// Vectors of groups and keys are seen one by one, with all they hold.
pub proof fn law_groups_seen(groups: Seq<LookupGroup>, keys: Seq<LookupCacheKey>)
    ensures
        queries::groups_of(groups).len() == groups.len(),
        forall|i: int|
            0 <= i < groups.len() ==> {
                let seen = #[trigger] queries::groups_of(groups)[i];
                &&& seen.object == groups[i].object@
                &&& seen.field == groups[i].field@
                &&& seen.values.len() == groups[i].values@.len()
                &&& forall|k: int|
                    0 <= k < seen.values.len() ==> #[trigger] seen.values[k] == groups[i].values@[k]@
            },
        keys::keys_of(keys).len() == keys.len(),
        forall|i: int|
            0 <= i < keys.len() ==> {
                let seen = #[trigger] keys::keys_of(keys)[i];
                &&& seen.object == keys[i].object@
                &&& seen.field == keys[i].field@
                &&& seen.value == keys[i].value@
            },
{
}

} // verus!
