//! Which keys a load looks up.

use vstd::prelude::*;
use vstd::string::*;

use crate::cache::{Key, LookupCache, LookupCacheKey};
use crate::fields::CsvRow;
use crate::formula::eval_formula;
use crate::grammar;
use crate::lists;
use crate::template::{TemplateConfig, TemplateField, TemplateLookup, TemplateMatchRule};
use crate::text;
use crate::text::{decimal_text, Text};

verus! {

// ---------------------------------------------------------------------------
// The keys that rows ask for
// ---------------------------------------------------------------------------

/// The key that `rule` asks for where its formula yields `value`.
pub open spec fn rule_key(lookup: TemplateLookup, rule: TemplateMatchRule, value: Text) -> Key {
    Key { object: lookup.object@, field: rule.field@, value: text::trimmed(value) }
}

/// The fault of a lookup formula in the row with the given number.
pub open spec fn lookup_fault(row_number: nat, message: Text) -> Text {
    "Row "@ + text::decimal(row_number) + ": lookup formula error: "@ + message
}

/// The keys that the first `n` rules of `lookup` ask for on `row`, in order,
/// or the first fault. A rule whose value is blank asks for nothing.
pub open spec fn rules_demand(
    lookup: TemplateLookup,
    n: int,
    row: Map<Text, Text>,
    row_number: nat,
) -> Result<Seq<Key>, Text>
    decreases n,
{
    if n <= 0 {
        Ok(Seq::empty())
    } else {
        match rules_demand(lookup, n - 1, row, row_number) {
            Err(message) => Err(message),
            Ok(keys) => {
                let rule = lookup.match_rules@[n - 1];
                match grammar::evaluated(rule.value@, row) {
                    Err(message) => Err(lookup_fault(row_number, message)),
                    Ok(value) => if text::blank(value) {
                        Ok(keys)
                    } else {
                        Ok(keys.push(rule_key(lookup, rule, value)))
                    },
                }
            },
        }
    }
}

/// The keys that one field asks for on `row`.
pub open spec fn field_demand(
    field: TemplateField,
    row: Map<Text, Text>,
    row_number: nat,
) -> Result<Seq<Key>, Text> {
    match field {
        TemplateField::Reference { lookup, .. } => rules_demand(
            lookup,
            lookup.match_rules@.len() as int,
            row,
            row_number,
        ),
        _ => Ok(Seq::empty()),
    }
}

/// The keys that the first `n` of `fields` ask for on `row`, or the first
/// fault.
pub open spec fn fields_demand(
    fields: Seq<TemplateField>,
    n: int,
    row: Map<Text, Text>,
    row_number: nat,
) -> Result<Seq<Key>, Text>
    decreases n,
{
    if n <= 0 {
        Ok(Seq::empty())
    } else {
        match fields_demand(fields, n - 1, row, row_number) {
            Err(message) => Err(message),
            Ok(keys) => match field_demand(fields[n - 1], row, row_number) {
                Err(message) => Err(message),
                Ok(more) => Ok(keys + more),
            },
        }
    }
}

/// The number by which messages call the row at `index`: the header is row
/// one.
pub open spec fn row_number(index: int) -> nat {
    (index + 2) as nat
}

/// The keys that the first `n` of `rows` ask for, or the first fault.
pub open spec fn rows_demand(
    fields: Seq<TemplateField>,
    rows: Seq<CsvRow>,
    n: int,
) -> Result<Seq<Key>, Text>
    decreases n,
{
    if n <= 0 {
        Ok(Seq::empty())
    } else {
        match rows_demand(fields, rows, n - 1) {
            Err(message) => Err(message),
            Ok(keys) => match fields_demand(
                fields,
                fields.len() as int,
                rows[n - 1]@,
                row_number(n - 1),
            ) {
                Err(message) => Err(message),
                Ok(more) => Ok(keys + more),
            },
        }
    }
}

/// The keys that all of `rows` ask for, or the first fault.
pub open spec fn demand(fields: Seq<TemplateField>, rows: Seq<CsvRow>) -> Result<Seq<Key>, Text> {
    rows_demand(fields, rows, rows.len() as int)
}

proof fn lemma_rules_fault(lookup: TemplateLookup, n: int, m: int, row: Map<Text, Text>, num: nat)
    requires
        n <= m,
        rules_demand(lookup, n, row, num) is Err,
    ensures
        rules_demand(lookup, m, row, num) == rules_demand(lookup, n, row, num),
    decreases m - n,
{
    if n < m {
        lemma_rules_fault(lookup, n, m - 1, row, num);
    }
}

proof fn lemma_fields_fault(
    fields: Seq<TemplateField>,
    n: int,
    m: int,
    row: Map<Text, Text>,
    num: nat,
)
    requires
        n <= m,
        fields_demand(fields, n, row, num) is Err,
    ensures
        fields_demand(fields, m, row, num) == fields_demand(fields, n, row, num),
    decreases m - n,
{
    if n < m {
        lemma_fields_fault(fields, n, m - 1, row, num);
    }
}

proof fn lemma_rows_fault(fields: Seq<TemplateField>, rows: Seq<CsvRow>, n: int, m: int)
    requires
        n <= m,
        rows_demand(fields, rows, n) is Err,
    ensures
        rows_demand(fields, rows, m) == rows_demand(fields, rows, n),
    decreases m - n,
{
    if n < m {
        lemma_rows_fault(fields, rows, n, m - 1);
    }
}

/// The views of a vector of keys.
pub open spec fn keys_of(keys: Seq<LookupCacheKey>) -> Seq<Key> {
    keys.map_values(|k: LookupCacheKey| k@)
}

/// Keys, each once, in the order in which they came.
struct KeyList {
    keys: Vec<LookupCacheKey>,
    seen: LookupCache,
}

impl KeyList {
    /// `seen` holds exactly the keys of the list.
    spec fn wf(&self) -> bool {
        forall|k: Key| #[trigger]
            self.seen@.dom().contains(k) <==> keys_of(self.keys@).contains(k)
    }

    fn new() -> (r: KeyList)
        ensures
            r.wf(),
            keys_of(r.keys@) == Seq::<Key>::empty(),
    {
        KeyList { keys: Vec::new(), seen: LookupCache::new() }
    }

    fn add(&mut self, key: LookupCacheKey)
        requires
            old(self).wf(),
        ensures
            final(self).wf(),
            keys_of(final(self).keys@) == lists::with_item(keys_of(old(self).keys@), key@),
    {
        if self.seen.get(&key).is_none() {
            self.seen.add(&key);
            let ghost before = self.keys@;
            self.keys.push(key);
            proof {
                let after = keys_of(self.keys@);
                assert(after =~= keys_of(before).push(key@));
                assert forall|k: Key| #[trigger] self.seen@.dom().contains(k) <==> after.contains(
                    k,
                ) by {
                    if keys_of(before).contains(k) {
                        let i = choose|i: int| 0 <= i < before.len() && keys_of(before)[i] == k;
                        assert(after[i] == k);
                    }
                    assert(after[before.len() as int] == key@);
                    if after.contains(k) && k != key@ {
                        let i = choose|i: int| 0 <= i < after.len() && after[i] == k;
                        assert(keys_of(before)[i] == k);
                    }
                }
            }
        }
    }
}

/// Adds the keys that `lookup` asks for on `row`.
fn collect_rule_values(lookup: &TemplateLookup, row: &CsvRow, number: u128, list: &mut KeyList) -> (r:
    Result<(), String>)
    requires
        old(list).wf(),
    ensures
        final(list).wf(),
        match (r, rules_demand(*lookup, lookup.match_rules@.len() as int, row@, number as nat)) {
            (Ok(_), Ok(keys)) => keys_of(final(list).keys@) == lists::with_items(
                keys_of(old(list).keys@),
                keys,
            ),
            (Err(message), Err(fault)) => message@ == fault,
            _ => false,
        },
{
    let ghost before = keys_of(list.keys@);
    let mut i: usize = 0;
    while i < lookup.match_rules.len()
        invariant
            i <= lookup.match_rules@.len(),
            list.wf(),
            match rules_demand(*lookup, i as int, row@, number as nat) {
                Ok(keys) => keys_of(list.keys@) == lists::with_items(before, keys),
                Err(_) => false,
            },
        decreases lookup.match_rules@.len() - i,
    {
        let rule = &lookup.match_rules[i];
        match eval_formula(rule.value.as_str(), row) {
            Err(message) => {
                let mut text = "Row ".to_string();
                text.append(decimal_text(number).as_str());
                text.append(": lookup formula error: ");
                text.append(message.as_str());
                proof {
                    lemma_rules_fault(
                        *lookup,
                        i + 1,
                        lookup.match_rules@.len() as int,
                        row@,
                        number as nat,
                    );
                }
                return Err(text);
            },
            Ok(value) => {
                let value = value.as_str().trim();
                if !value.is_empty() {
                    let key = LookupCacheKey {
                        object: lookup.object.clone(),
                        field: rule.field.clone(),
                        value: value.to_string(),
                    };
                    proof {
                        let keys = rules_demand(*lookup, i as int, row@, number as nat)->Ok_0;
                        assert(keys.push(key@).drop_last() =~= keys);
                    }
                    list.add(key);
                }
            },
        }
        i = i + 1;
    }
    Ok(())
}

/// Adds the keys that `fields` ask for on `row`.
fn collect_row_values(
    fields: &Vec<TemplateField>,
    row: &CsvRow,
    number: u128,
    list: &mut KeyList,
) -> (r: Result<(), String>)
    requires
        old(list).wf(),
    ensures
        final(list).wf(),
        match (r, fields_demand(fields@, fields@.len() as int, row@, number as nat)) {
            (Ok(_), Ok(keys)) => keys_of(final(list).keys@) == lists::with_items(
                keys_of(old(list).keys@),
                keys,
            ),
            (Err(message), Err(fault)) => message@ == fault,
            _ => false,
        },
{
    let ghost before = keys_of(list.keys@);
    let mut i: usize = 0;
    while i < fields.len()
        invariant
            i <= fields@.len(),
            list.wf(),
            match fields_demand(fields@, i as int, row@, number as nat) {
                Ok(keys) => keys_of(list.keys@) == lists::with_items(before, keys),
                Err(_) => false,
            },
        decreases fields@.len() - i,
    {
        let ghost keys = fields_demand(fields@, i as int, row@, number as nat)->Ok_0;
        match &fields[i] {
            TemplateField::Reference { target: _, lookup } => {
                match collect_rule_values(lookup, row, number, list) {
                    Ok(_) => {
                        proof {
                            let more = field_demand(fields@[i as int], row@, number as nat)->Ok_0;
                            lists::lemma_with_items_concat(before, keys, more);
                        }
                    },
                    Err(message) => {
                        proof {
                            lemma_fields_fault(
                                fields@,
                                i + 1,
                                fields@.len() as int,
                                row@,
                                number as nat,
                            );
                        }
                        return Err(message);
                    },
                }
            },
            _ => {
                assert(keys + Seq::<Key>::empty() =~= keys);
            },
        }
        i = i + 1;
    }
    Ok(())
}

/// The keys that `rows` ask for, each once, or the first fault.
pub fn collect_lookup_values(template_config: &TemplateConfig, rows: &Vec<CsvRow>) -> (r: Result<
    Vec<LookupCacheKey>,
    String,
>)
    ensures
        match (r, demand(template_config.fields@, rows@)) {
            (Ok(keys), Ok(asked)) => keys_of(keys@) == lists::distinct(asked),
            (Err(message), Err(fault)) => message@ == fault,
            _ => false,
        },
{
    let mut list = KeyList::new();
    let mut i: usize = 0;
    while i < rows.len()
        invariant
            i <= rows@.len(),
            list.wf(),
            match rows_demand(template_config.fields@, rows@, i as int) {
                Ok(keys) => keys_of(list.keys@) == lists::distinct(keys),
                Err(_) => false,
            },
        decreases rows@.len() - i,
    {
        let ghost keys = rows_demand(template_config.fields@, rows@, i as int)->Ok_0;
        match collect_row_values(&template_config.fields, &rows[i], i as u128 + 2, &mut list) {
            Ok(_) => {
                proof {
                    let more = fields_demand(
                        template_config.fields@,
                        template_config.fields@.len() as int,
                        rows@[i as int]@,
                        row_number(i as int),
                    )->Ok_0;
                    lists::lemma_with_items_concat(Seq::empty(), keys, more);
                }
            },
            Err(message) => {
                proof {
                    lemma_rows_fault(template_config.fields@, rows@, i + 1, rows@.len() as int);
                }
                return Err(message);
            },
        }
        i = i + 1;
    }
    Ok(list.keys)
}

} // verus!
