//! The queries that ask for looked-up records.

use vstd::prelude::*;
use vstd::string::*;

use crate::cache::{Key, LookupCacheKey};
use crate::keys;
use crate::lists;
use crate::text;
use crate::text::{characters, text_eq, Text};

verus! {

// ---------------------------------------------------------------------------
// Grouping
// ---------------------------------------------------------------------------

/// Values of one field of one kind of record.
#[derive(Debug)]
pub struct LookupGroup {
    pub object: String,
    pub field: String,
    pub values: Vec<String>,
}

/// A group, as contracts see it.
pub struct Group {
    pub object: Text,
    pub field: Text,
    pub values: Seq<Text>,
}

impl View for LookupGroup {
    type V = Group;

    open spec fn view(&self) -> Group {
        Group { object: self.object@, field: self.field@, values: text::texts(self.values@) }
    }
}

/// The views of a vector of groups.
pub open spec fn groups_of(groups: Seq<LookupGroup>) -> Seq<Group> {
    groups.map_values(|g: LookupGroup| g@)
}

/// The kind of record and the field of each key.
pub open spec fn pairs_of(asked: Seq<Key>) -> Seq<(Text, Text)> {
    asked.map_values(|k: Key| (k.object, k.field))
}

/// The values of the keys of one kind of record and one field, in order.
pub open spec fn values_of(asked: Seq<Key>, object: Text, field: Text) -> Seq<Text>
    decreases asked.len(),
{
    if asked.len() == 0 {
        Seq::empty()
    } else {
        let head = values_of(asked.drop_last(), object, field);
        if asked.last().object == object && asked.last().field == field {
            head.push(asked.last().value)
        } else {
            head
        }
    }
}

/// One group for each kind of record and field, with all the values asked for.
pub open spec fn grouped(asked: Seq<Key>) -> Seq<Group> {
    lists::distinct(pairs_of(asked)).map_values(
        |p: (Text, Text)|
            Group { object: p.0, field: p.1, values: values_of(asked, p.0, p.1) },
    )
}

proof fn lemma_no_values(asked: Seq<Key>, object: Text, field: Text)
    requires
        !pairs_of(asked).contains((object, field)),
    ensures
        values_of(asked, object, field) == Seq::<Text>::empty(),
    decreases asked.len(),
{
    if asked.len() > 0 {
        let n = asked.len() - 1;
        assert(pairs_of(asked)[n] == (asked[n].object, asked[n].field));
        assert(pairs_of(asked.drop_last()) =~= pairs_of(asked).drop_last());
        if pairs_of(asked.drop_last()).contains((object, field)) {
            let i = choose|i: int|
                0 <= i < n && pairs_of(asked.drop_last())[i] == (object, field);
            assert(pairs_of(asked)[i] == (object, field));
        }
        lemma_no_values(asked.drop_last(), object, field);
    }
}

/// One more key: a value more in its group, which is a new one at the end
/// where there was none.
pub(crate) proof fn lemma_grouped_push(asked: Seq<Key>, key: Key)
    ensures
        ({
            let before = grouped(asked);
            let after = grouped(asked.push(key));
            let pairs = lists::distinct(pairs_of(asked));
            let pair = (key.object, key.field);
            &&& before.len() == pairs.len()
            &&& if pairs.contains(pair) {
                &&& after.len() == before.len()
                &&& forall|i: int|
                    0 <= i < before.len() ==> #[trigger] after[i] == (if pairs[i] == pair {
                        Group { values: before[i].values.push(key.value), ..before[i] }
                    } else {
                        before[i]
                    })
            } else {
                after == before.push(
                    Group { object: key.object, field: key.field, values: seq![key.value] },
                )
            }
        }),
{
    let more = asked.push(key);
    let pairs = lists::distinct(pairs_of(asked));
    let pair = (key.object, key.field);
    assert(pairs_of(more) =~= pairs_of(asked).push(pair));
    assert(pairs_of(more).drop_last() =~= pairs_of(asked));
    assert(more.drop_last() =~= asked);
    assert(lists::distinct(pairs_of(more)) == lists::with_item(pairs, pair));
    if !pairs.contains(pair) {
        lists::law_distinct(pairs_of(asked));
        lemma_no_values(asked, key.object, key.field);
        let after = grouped(more);
        assert(Seq::<Text>::empty().push(key.value) =~= seq![key.value]);
        assert forall|i: int| 0 <= i < pairs.len() implies #[trigger] after[i] == grouped(
            asked,
        )[i] by {
            assert(pairs[i] != pair);
        }
        assert(after =~= grouped(asked).push(
            Group { object: key.object, field: key.field, values: seq![key.value] },
        ));
    }
}

/// The group of the given kind of record and field.
fn find_group(groups: &Vec<LookupGroup>, key: &LookupCacheKey) -> (r: Option<usize>)
    ensures
        match r {
            Some(g) => g < groups@.len() && groups@[g as int].object@ == key.object@
                && groups@[g as int].field@ == key.field@,
            None => forall|g: int|
                0 <= g < groups@.len() ==> !((#[trigger] groups@[g]).object@ == key.object@
                    && groups@[g].field@ == key.field@),
        },
{
    let mut g: usize = 0;
    while g < groups.len()
        invariant
            g <= groups@.len(),
            forall|h: int|
                0 <= h < g ==> !((#[trigger] groups@[h]).object@ == key.object@
                    && groups@[h].field@ == key.field@),
        decreases groups@.len() - g,
    {
        if text_eq(groups[g].object.as_str(), key.object.as_str())
            && text_eq(groups[g].field.as_str(), key.field.as_str()) {
            return Some(g);
        }
        g = g + 1;
    }
    None
}

/// The keys by kind of record and field.
pub fn group_lookup_keys(keys: Vec<LookupCacheKey>) -> (r: Vec<LookupGroup>)
    ensures
        groups_of(r@) == grouped(keys::keys_of(keys@)),
{
    let ghost asked = keys::keys_of(keys@);
    let mut groups: Vec<LookupGroup> = Vec::new();
    let mut i: usize = 0;
    assert(groups_of(groups@) =~= grouped(asked.take(0)));
    while i < keys.len()
        invariant
            i <= keys@.len(),
            asked == keys::keys_of(keys@),
            groups_of(groups@) == grouped(asked.take(i as int)),
        decreases keys@.len() - i,
    {
        let key = &keys[i];
        let ghost before = groups@;
        let ghost head = asked.take(i as int);
        let ghost pairs = lists::distinct(pairs_of(head));
        proof {
            assert(asked.take(i + 1) =~= head.push(key@));
            lemma_grouped_push(head, key@);
            lists::law_distinct(pairs_of(head));
            assert forall|h: int| 0 <= h < before.len() implies (#[trigger] before[h]).object@
                == pairs[h].0 && before[h].field@ == pairs[h].1 by {
                assert(groups_of(before)[h] == grouped(head)[h]);
            }
        }
        match find_group(&groups, key) {
            Some(g) => {
                groups[g].values.push(key.value.clone());
                proof {
                    let pair = (key.object@, key.field@);
                    assert(pairs[g as int] == pair);
                    assert(pairs.contains(pair));
                    assert(text::texts(groups@[g as int].values@) =~= text::texts(
                        before[g as int].values@,
                    ).push(key.value@));
                    assert forall|h: int| 0 <= h < groups@.len() implies #[trigger] groups_of(
                        groups@,
                    )[h] == grouped(asked.take(i + 1))[h] by {
                        assert(groups_of(before)[h] == grouped(head)[h]);
                    }
                    assert(groups_of(groups@) =~= grouped(asked.take(i + 1)));
                }
            },
            None => {
                let mut values: Vec<String> = Vec::new();
                values.push(key.value.clone());
                groups.push(
                    LookupGroup { object: key.object.clone(), field: key.field.clone(), values },
                );
                proof {
                    let pair = (key.object@, key.field@);
                    if pairs.contains(pair) {
                        let h = choose|h: int| 0 <= h < pairs.len() && pairs[h] == pair;
                        assert(before[h].object@ == key.object@);
                    }
                    assert(text::texts(values@) =~= seq![key.value@]);
                    assert(groups_of(groups@) =~= groups_of(before).push(groups@.last()@));
                }
            },
        }
        i = i + 1;
    }
    assert(asked.take(i as int) =~= asked);
    groups
}

// ---------------------------------------------------------------------------
// Batches
// ---------------------------------------------------------------------------

/// The largest number of values that one query asks for.
pub const BATCH_SIZE: usize = 100;

/// `values` cut into pieces of `BATCH_SIZE`, the last one as long as what is
/// left.
pub open spec fn chunked(values: Seq<Text>) -> Seq<Seq<Text>>
    decreases values.len(),
{
    if values.len() == 0 {
        Seq::empty()
    } else if values.len() <= BATCH_SIZE {
        seq![values]
    } else {
        seq![values.take(BATCH_SIZE as int)] + chunked(values.skip(BATCH_SIZE as int))
    }
}

/// The batches of one group.
pub open spec fn batches_of(group: Group) -> Seq<Group> {
    chunked(group.values).map_values(
        |piece: Seq<Text>| Group { object: group.object, field: group.field, values: piece },
    )
}

/// The batches of all groups, group by group.
pub open spec fn planned(groups: Seq<Group>) -> Seq<Group>
    decreases groups.len(),
{
    if groups.len() == 0 {
        Seq::empty()
    } else {
        planned(groups.drop_last()) + batches_of(groups.last())
    }
}

/// Appends the batches of `group` to `batches`.
fn add_batches(group: &LookupGroup, batches: &mut Vec<LookupGroup>)
    ensures
        groups_of(final(batches)@) == groups_of(old(batches)@) + batches_of(group@),
{
    let ghost all = text::texts(group.values@);
    let ghost before = groups_of(batches@);
    let mut start: usize = 0;
    assert(all.skip(0) =~= all);
    assert(batches_of(group@) =~= batches_of(Group { values: all.skip(0), ..group@ }));
    while start < group.values.len()
        invariant
            start <= group.values@.len(),
            all == text::texts(group.values@),
            before + batches_of(group@) == groups_of(batches@) + batches_of(
                Group { values: all.skip(start as int), ..group@ },
            ),
        decreases group.values@.len() - start,
    {
        let left: usize = group.values.len() - start;
        let size: usize = if left <= BATCH_SIZE {
            left
        } else {
            BATCH_SIZE
        };
        let end: usize = start + size;
        let mut values: Vec<String> = Vec::new();
        let mut i: usize = start;
        while i < end
            invariant
                start <= i <= end <= group.values@.len(),
                text::texts(values@) == text::texts(group.values@).subrange(start as int, i as int),
            decreases end - i,
        {
            let ghost so_far = values@;
            values.push(group.values[i].clone());
            assert(text::texts(values@) =~= text::texts(so_far).push(group.values@[i as int]@));
            i = i + 1;
        }
        let ghost earlier = batches@;
        batches.push(
            LookupGroup { object: group.object.clone(), field: group.field.clone(), values },
        );
        proof {
            let rest = all.skip(start as int);
            let piece = Group { values: rest.take(size as int), ..group@ };
            let tail = Group { values: rest.skip(size as int), ..group@ };
            assert(text::texts(values@) =~= rest.take(size as int));
            assert(rest.skip(size as int) =~= all.skip(end as int));
            assert(groups_of(batches@) =~= groups_of(earlier).push(piece));
            if left <= BATCH_SIZE {
                assert(rest.take(size as int) =~= rest);
                assert(batches_of(Group { values: rest, ..group@ }) =~= seq![piece]);
                assert(batches_of(tail) =~= Seq::<Group>::empty());
            } else {
                assert(batches_of(Group { values: rest, ..group@ }) =~= seq![piece] + batches_of(
                    tail,
                ));
            }
            assert(groups_of(earlier) + batches_of(Group { values: rest, ..group@ }) =~= groups_of(
                batches@,
            ) + batches_of(tail));
        }
        start = end;
    }
    proof {
        assert(all.skip(start as int) =~= Seq::<Text>::empty());
        assert(batches_of(Group { values: Seq::empty(), ..group@ }) =~= Seq::<Group>::empty());
        assert(groups_of(batches@) + Seq::<Group>::empty() =~= groups_of(batches@));
    }
}

/// The batches of all groups.
pub fn plan_batches(groups: &Vec<LookupGroup>) -> (r: Vec<LookupGroup>)
    ensures
        groups_of(r@) == planned(groups_of(groups@)),
{
    let ghost all = groups_of(groups@);
    let mut batches: Vec<LookupGroup> = Vec::new();
    let mut i: usize = 0;
    assert(groups_of(batches@) =~= planned(all.take(0)));
    while i < groups.len()
        invariant
            i <= groups@.len(),
            all == groups_of(groups@),
            groups_of(batches@) == planned(all.take(i as int)),
        decreases groups@.len() - i,
    {
        proof {
            assert(all.take(i + 1).drop_last() =~= all.take(i as int));
            assert(all.take(i + 1).last() == groups@[i as int]@);
        }
        add_batches(&groups[i], &mut batches);
        i = i + 1;
    }
    assert(all.take(i as int) =~= all);
    batches
}

// ---------------------------------------------------------------------------
// Query texts
// ---------------------------------------------------------------------------

/// The characters of `value` as they stand in a query's string literal.
pub fn soql_escape(value: &str) -> (r: String)
    ensures
        r@ == text::escaped(value@, '\''),
{
    let s = characters(value);
    let mut out = String::new();
    let mut i: usize = 0;
    assert(s@.skip(0) =~= s@);
    while i < s.len()
        invariant
            i <= s@.len(),
            s@ == value@,
            text::escaped(s@, '\'') == out@ + text::escaped(s@.skip(i as int), '\''),
        decreases s@.len() - i,
    {
        let ghost before = out@;
        let c = s[i];
        if c == '\\' || c == '\'' {
            out.push('\\');
        }
        out.push(c);
        proof {
            let rest = s@.skip(i as int);
            assert(rest.skip(1) =~= s@.skip(i + 1));
            assert(before + text::escaped(rest, '\'') =~= out@ + text::escaped(
                s@.skip(i + 1),
                '\'',
            ));
        }
        i = i + 1;
    }
    assert(out@ + Seq::<char>::empty() =~= out@);
    out
}

/// `value` as a string literal of a query.
pub open spec fn soql_literal(value: Text) -> Text {
    "'"@ + text::escaped(value, '\'') + "'"@
}

/// `value` as a string literal of a query.
pub fn soql_string(value: &str) -> (r: String)
    ensures
        r@ == soql_literal(value@),
{
    let mut out = "'".to_string();
    out.append(soql_escape(value).as_str());
    out.append("'");
    out
}

/// The literals of `values`, separated by commas.
pub open spec fn in_list(values: Seq<Text>) -> Text {
    text::joined(values.map_values(|v: Text| soql_literal(v)), ", "@)
}

/// The query for the records of a batch.
pub open spec fn query_text(batch: Group) -> Text {
    "SELECT Id, "@ + batch.field + " FROM "@ + batch.object + " WHERE "@ + batch.field + " IN ("@
        + in_list(batch.values) + ")"@
}

fn in_list_text(values: &Vec<String>) -> (r: String)
    ensures
        r@ == in_list(text::texts(values@)),
{
    let ghost parts = text::texts(values@).map_values(|v: Text| soql_literal(v));
    let mut out = String::new();
    let mut i: usize = 0;
    assert(parts.take(0) =~= Seq::<Text>::empty());
    while i < values.len()
        invariant
            i <= values@.len(),
            parts == text::texts(values@).map_values(|v: Text| soql_literal(v)),
            out@ == text::joined(parts.take(i as int), ", "@),
        decreases values@.len() - i,
    {
        let ghost before = out@;
        if i > 0 {
            out.append(", ");
        }
        out.append(soql_string(values[i].as_str()).as_str());
        proof {
            assert(parts.take(i + 1).drop_last() =~= parts.take(i as int));
            assert(parts.take(i + 1).last() == soql_literal(values@[i as int]@));
            if i == 0 {
                assert(out@ =~= parts.take(1)[0]);
            }
        }
        i = i + 1;
    }
    assert(parts.take(i as int) =~= parts);
    out
}

/// The query for the records of a batch.
pub fn lookup_query(batch: &LookupGroup) -> (r: String)
    ensures
        r@ == query_text(batch@),
{
    let mut out = "SELECT Id, ".to_string();
    out.append(batch.field.as_str());
    out.append(" FROM ");
    out.append(batch.object.as_str());
    out.append(" WHERE ");
    out.append(batch.field.as_str());
    out.append(" IN (");
    out.append(in_list_text(&batch.values).as_str());
    out.append(")");
    out
}

} // verus!
