//! Looking records up: filling the cache, and resolving references from it.

use vstd::prelude::*;
use vstd::string::*;

use crate::cache;
use crate::cache::{Key, LookupCache, LookupCacheKey};
use crate::fields::CsvRow;
use crate::formula::eval_formula;
use crate::grammar;
use crate::keys;
use crate::keys::collect_lookup_values;
use crate::lists;
use crate::queries;
use crate::queries::{group_lookup_keys, lookup_query, plan_batches, Group, LookupGroup};
use crate::template::{TemplateConfig, TemplateLookup};
use crate::text;
use crate::text::{text_eq, Text};

verus! {

// ---------------------------------------------------------------------------
// Records
// ---------------------------------------------------------------------------

/// The value of a field of a record: a text, or something else.
#[derive(Debug)]
pub enum FieldValue {
    Text(String),
    Other,
}

/// A record that a query returned.
#[derive(Debug)]
pub struct SfRecord {
    pub fields: Vec<(String, FieldValue)>,
}

/// The text in the field `name`, where the first field of that name holds one.
pub open spec fn field_text(fields: Seq<(String, FieldValue)>, name: Text) -> Option<Text>
    decreases fields.len(),
{
    if fields.len() == 0 {
        None
    } else if fields[0].0@ == name {
        match fields[0].1 {
            FieldValue::Text(s) => Some(s@),
            FieldValue::Other => None,
        }
    } else {
        field_text(fields.skip(1), name)
    }
}

impl SfRecord {
    /// The text in the field `name`.
    pub fn text(&self, name: &str) -> (r: Option<&String>)
        ensures
            match r {
                Some(s) => field_text(self.fields@, name@) == Some(s@),
                None => field_text(self.fields@, name@) is None,
            },
    {
        let mut i: usize = 0;
        assert(self.fields@.skip(0) =~= self.fields@);
        while i < self.fields.len()
            invariant
                i <= self.fields@.len(),
                field_text(self.fields@, name@) == field_text(self.fields@.skip(i as int), name@),
            decreases self.fields@.len() - i,
        {
            if text_eq(self.fields[i].0.as_str(), name) {
                return match &self.fields[i].1 {
                    FieldValue::Text(s) => Some(s),
                    FieldValue::Other => None,
                };
            }
            assert(self.fields@.skip(i as int).skip(1) =~= self.fields@.skip(i + 1));
            i = i + 1;
        }
        None
    }
}

// ---------------------------------------------------------------------------
// Filling the cache
// ---------------------------------------------------------------------------

/// The cache with the id of `record`, one of the records that the query for
/// `batch` returned. A record counts where both its id and the field asked for
/// are texts.
pub open spec fn with_record(
    found: Map<Key, Seq<Text>>,
    batch: Group,
    record: SfRecord,
) -> Map<Key, Seq<Text>> {
    match (field_text(record.fields@, "Id"@), field_text(record.fields@, batch.field)) {
        (Some(id), Some(value)) => {
            let key = Key { object: batch.object, field: batch.field, value };
            found.insert(key, cache::ids_under(found, key).push(id))
        },
        _ => found,
    }
}

/// The cache with the first `n` of `records`, which the query for `batch`
/// returned.
pub open spec fn with_records(
    found: Map<Key, Seq<Text>>,
    batch: Group,
    records: Seq<SfRecord>,
    n: int,
) -> Map<Key, Seq<Text>>
    decreases n,
{
    if n <= 0 {
        found
    } else {
        with_record(with_records(found, batch, records, n - 1), batch, records[n - 1])
    }
}

/// The lookups of one load: the batches to query, how many have been answered,
/// and what the answers held.
pub struct LookupRun {
    batches: Vec<LookupGroup>,
    next: usize,
    found: LookupCache,
}

impl LookupRun {
    #[verifier::type_invariant]
    spec fn inv(self) -> bool {
        self.next <= self.batches@.len()
    }

    /// The batches, in the order in which they are queried.
    pub closed spec fn batches(&self) -> Seq<Group> {
        queries::groups_of(self.batches@)
    }

    /// How many batches have been answered.
    pub closed spec fn answered(&self) -> nat {
        self.next as nat
    }

    /// What the answers held.
    pub closed spec fn found(&self) -> Map<Key, Seq<Text>> {
        self.found@
    }

    /// The batch to query next; none once all are answered.
    pub fn next_batch(&self) -> (r: Option<&LookupGroup>)
        ensures
            match r {
                Some(batch) => self.answered() < self.batches().len() && batch@
                    == self.batches()[self.answered() as int],
                None => self.answered() == self.batches().len(),
            },
    {
        proof {
            use_type_invariant(self);
        }
        if self.next < self.batches.len() {
            Some(&self.batches[self.next])
        } else {
            None
        }
    }

    /// The query to run next; none once all batches are answered.
    pub fn next_query(&self) -> (r: Option<String>)
        ensures
            match r {
                Some(query) => self.answered() < self.batches().len() && query@
                    == queries::query_text(self.batches()[self.answered() as int]),
                None => self.answered() == self.batches().len(),
            },
    {
        match self.next_batch() {
            Some(batch) => Some(lookup_query(batch)),
            None => None,
        }
    }

    /// Takes the records that the query returned.
    pub fn answer(&mut self, records: &Vec<SfRecord>)
        requires
            old(self).answered() < old(self).batches().len(),
        ensures
            final(self).batches() == old(self).batches(),
            final(self).answered() == old(self).answered() + 1,
            final(self).found() == with_records(
                old(self).found(),
                old(self).batches()[old(self).answered() as int],
                records@,
                records@.len() as int,
            ),
    {
        proof {
            use_type_invariant(&*self);
        }
        let next: usize = self.next;
        assert(next < self.batches.len());
        let mut found = LookupCache::new();
        std::mem::swap(&mut found, &mut self.found);
        add_records(&mut found, &self.batches[next], records);
        self.found = found;
        self.next = next + 1;
    }

    /// The cache, with all that was found.
    pub fn into_cache(self) -> (r: LookupCache)
        ensures
            r@ == self.found(),
    {
        self.found
    }
}

/// Adds the ids of the records that the query for `batch` returned.
fn add_records(found: &mut LookupCache, batch: &LookupGroup, records: &Vec<SfRecord>)
    ensures
        final(found)@ == with_records(old(found)@, batch@, records@, records@.len() as int),
{
    let mut i: usize = 0;
    while i < records.len()
        invariant
            i <= records@.len(),
            found@ == with_records(old(found)@, batch@, records@, i as int),
        decreases records@.len() - i,
    {
        match records[i].text("Id") {
            Some(id) => match records[i].text(batch.field.as_str()) {
                Some(value) => {
                    let key = LookupCacheKey {
                        object: batch.object.clone(),
                        field: batch.field.clone(),
                        value: value.clone(),
                    };
                    found.push(&key, id.clone());
                },
                None => {},
            },
            None => {},
        }
        i = i + 1;
    }
}

/// The lookups that `rows` ask for, none of them answered yet, or the first
/// fault of a lookup formula.
pub fn build_lookup_cache(template_config: &TemplateConfig, rows: &Vec<CsvRow>) -> (r: Result<
    LookupRun,
    String,
>)
    ensures
        match (r, keys::demand(template_config.fields@, rows@)) {
            (Ok(run), Ok(asked)) => {
                &&& run.batches() == queries::planned(queries::grouped(lists::distinct(asked)))
                &&& run.answered() == 0
                &&& run.found() == Map::<Key, Seq<Text>>::empty()
            },
            (Err(message), Err(fault)) => message@ == fault,
            _ => false,
        },
{
    match collect_lookup_values(template_config, rows) {
        Ok(asked) => {
            let groups = group_lookup_keys(asked);
            Ok(LookupRun { batches: plan_batches(&groups), next: 0, found: LookupCache::new() })
        },
        Err(message) => Err(message),
    }
}

// ---------------------------------------------------------------------------
// Resolving references
// ---------------------------------------------------------------------------

/// Several records matched.
pub open spec fn multiple_message(lookup: TemplateLookup, field: Text, value: Text) -> Text {
    "Multiple "@ + lookup.object@ + " records matched "@ + field + " = '"@ + value + "'"@
}

/// Several records matched, and there is no telling which to take.
pub open spec fn strategy_message(lookup: TemplateLookup) -> Text {
    "Multiple matches found but unsupported strategy '"@ + lookup.strategy@ + "'"@
}

/// No record matched.
pub open spec fn missing_message(lookup: TemplateLookup) -> Text {
    "No "@ + lookup.object@ + " record matched any lookup rule"@
}

/// What to do with the ids that were found for one rule.
pub open spec fn chosen(
    lookup: TemplateLookup,
    field: Text,
    value: Text,
    ids: Seq<Text>,
) -> Result<Option<Text>, Text> {
    if ids.len() == 1 {
        Ok(Some(ids[0]))
    } else if lookup.on_multiple@ == "error"@ {
        Err(multiple_message(lookup, field, value))
    } else if lookup.strategy@ == "first_match"@ {
        Ok(Some(ids[0]))
    } else {
        Err(strategy_message(lookup))
    }
}

/// The id that the rules from number `i` on find for `row`: that of the first
/// rule whose value is not blank and is found. Nothing found is a fault or no
/// id, as the lookup says.
pub open spec fn resolved_from(
    lookup: TemplateLookup,
    i: int,
    row: Map<Text, Text>,
    found: Map<Key, Seq<Text>>,
) -> Result<Option<Text>, Text>
    decreases lookup.match_rules@.len() - i,
{
    if i >= lookup.match_rules@.len() {
        if lookup.on_missing@ == "error"@ {
            Err(missing_message(lookup))
        } else {
            Ok(None)
        }
    } else {
        let rule = lookup.match_rules@[i];
        match grammar::evaluated(rule.value@, row) {
            Err(message) => Err(message),
            Ok(value) => {
                let key = keys::rule_key(lookup, rule, value);
                let ids = cache::ids_under(found, key);
                if text::blank(value) || ids.len() == 0 {
                    resolved_from(lookup, i + 1, row, found)
                } else {
                    chosen(lookup, key.field, key.value, ids)
                }
            },
        }
    }
}

/// The id that `lookup` finds for `row`.
pub open spec fn resolved(
    lookup: TemplateLookup,
    row: Map<Text, Text>,
    found: Map<Key, Seq<Text>>,
) -> Result<Option<Text>, Text> {
    resolved_from(lookup, 0, row, found)
}

/// `r` is what `outcome` says.
pub open spec fn is_resolved(
    r: Result<Option<String>, String>,
    outcome: Result<Option<Text>, Text>,
) -> bool {
    match r {
        Ok(Some(id)) => outcome == Ok::<Option<Text>, Text>(Some(id@)),
        Ok(None) => outcome == Ok::<Option<Text>, Text>(None),
        Err(message) => outcome == Err::<Option<Text>, Text>(message@),
    }
}

/// Takes one of the ids that were found for one rule.
fn choose_id(lookup: &TemplateLookup, field: &str, value: &str, ids: &Vec<String>) -> (r: Result<
    Option<String>,
    String,
>)
    requires
        ids@.len() > 0,
    ensures
        is_resolved(r, chosen(*lookup, field@, value@, text::texts(ids@))),
{
    if ids.len() == 1 {
        return Ok(Some(ids[0].clone()));
    }
    if text_eq(lookup.on_multiple.as_str(), "error") {
        let mut message = "Multiple ".to_string();
        message.append(lookup.object.as_str());
        message.append(" records matched ");
        message.append(field);
        message.append(" = '");
        message.append(value);
        message.append("'");
        return Err(message);
    }
    if text_eq(lookup.strategy.as_str(), "first_match") {
        return Ok(Some(ids[0].clone()));
    }
    let mut message = "Multiple matches found but unsupported strategy '".to_string();
    message.append(lookup.strategy.as_str());
    message.append("'");
    Err(message)
}

/// The id that `lookup` finds for `row` in the cache.
pub fn resolve_reference(row: &CsvRow, lookup: &TemplateLookup, lookup_cache: &LookupCache) -> (r:
    Result<Option<String>, String>)
    ensures
        is_resolved(r, resolved(*lookup, row@, lookup_cache@)),
{
    let mut i: usize = 0;
    while i < lookup.match_rules.len()
        invariant
            i <= lookup.match_rules@.len(),
            resolved(*lookup, row@, lookup_cache@) == resolved_from(
                *lookup,
                i as int,
                row@,
                lookup_cache@,
            ),
        decreases lookup.match_rules@.len() - i,
    {
        let rule = &lookup.match_rules[i];
        let value = match eval_formula(rule.value.as_str(), row) {
            Ok(value) => value,
            Err(message) => return Err(message),
        };
        let value = value.as_str().trim();
        if !value.is_empty() {
            let key = LookupCacheKey {
                object: lookup.object.clone(),
                field: rule.field.clone(),
                value: value.to_string(),
            };
            match lookup_cache.get(&key) {
                Some(ids) => {
                    if ids.len() > 0 {
                        return choose_id(lookup, rule.field.as_str(), value, ids);
                    }
                },
                None => {},
            }
        }
        i = i + 1;
    }
    if text_eq(lookup.on_missing.as_str(), "error") {
        let mut message = "No ".to_string();
        message.append(lookup.object.as_str());
        message.append(" record matched any lookup rule");
        return Err(message);
    }
    Ok(None)
}

} // verus!
