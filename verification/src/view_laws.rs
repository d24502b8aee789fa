//! What contracts see of values and results.

use vstd::prelude::*;

use crate::cache;
use crate::cache::{Key, LookupCacheKey};
use crate::fields;
use crate::formula;
use crate::formula::FormulaValue;
use crate::grammar::{Datum, Step};
use crate::lookup;
use crate::text;
use crate::text::Text;
use crate::text_laws::law_blank;

verus! {

/// A name that is there has its own value; one that is not has the empty text.
pub proof fn law_value_or_empty(known: Map<Text, Text>, name: Text, value: Text)
    ensures
        fields::value_or_empty(known.insert(name, value), name) == value,
        fields::value_or_empty(known.remove(name), name).len() == 0,
{
}

/// Other names do not matter to the value of a name.
pub proof fn law_value_of_other_names(known: Map<Text, Text>, name: Text, other: Text, value: Text)
    requires
        name != other,
    ensures
        fields::value_or_empty(known.insert(other, value), name) == fields::value_or_empty(
            known,
            name,
        ),
{
}

/// A value with a character that is not white space is text; where no value has
/// one, there is no text.
pub proof fn law_has_text(known: Map<Text, Text>, name: Text, i: int)
    ensures
        known.dom().contains(name) && 0 <= i < known[name].len() && !text::white_space(
            known[name][i],
        ) ==> fields::has_text(known),
        (forall|other: Text, j: int|
            known.dom().contains(other) && 0 <= j < known[other].len() ==> text::white_space(
                #[trigger] known[other][j],
            )) ==> !fields::has_text(known),
{
    if known.dom().contains(name) {
        law_blank(known[name]);
    }
    if fields::has_text(known) {
        let other = choose|other: Text| #[trigger]
            known.dom().contains(other) && !text::blank(known[other]);
        law_blank(known[other]);
        let j = choose|j: int|
            0 <= j < known[other].len() && !text::white_space(#[trigger] known[other][j]);
        assert(!text::white_space(known[other][j]));
    }
}

/// The ids under a key are those that are there, all of them and in their order;
/// there are none under a key that is not there.
pub proof fn law_ids_under(found: Map<Key, Seq<Text>>, key: Key, ids: Seq<Text>)
    ensures
        cache::ids_under(found.insert(key, ids), key) == ids,
        cache::ids_under(found.remove(key), key).len() == 0,
{
}

/// Two keys are seen as the same exactly where they agree in the kind of record,
/// the field and the value.
pub proof fn law_keys_seen(a: LookupCacheKey, b: LookupCacheKey)
    ensures
        a@ == b@ <==> a.object@ == b.object@ && a.field@ == b.field@ && a.value@ == b.value@,
        a@.object == a.object@,
        a@.field == a.field@,
        a@.value == a.value@,
{
}

/// A value is seen as the text or the truth value that it is.
pub proof fn law_values_seen(args: Seq<FormulaValue>, s: String, b: bool)
    ensures
        (FormulaValue::String(s))@ == Datum::Str(s@),
        (FormulaValue::Bool(b))@ == Datum::Bool(b),
        formula::values(args).len() == args.len(),
        forall|i: int| 0 <= i < args.len() ==> #[trigger] formula::values(args)[i] == args[i]@,
{
}

/// A result is what was read exactly where both are values or both are faults,
/// and of the same text.
pub proof fn law_results_seen(
    s: String,
    v: FormulaValue,
    step: Step<Text>,
    outcome: Result<Datum, Text>,
)
    ensures
        formula::yields(Ok(s), step) <==> step.outcome == Ok::<Text, Text>(s@),
        formula::yields(Err(s), step) <==> step.outcome == Err::<Text, Text>(s@),
        formula::yields_value(Ok(v), outcome) <==> outcome == Ok::<Datum, Text>(v@),
        formula::yields_value(Err(s), outcome) <==> outcome == Err::<Datum, Text>(s@),
{
}

/// A lookup's result is what it should be exactly where both are the same id,
/// both are no id, or both are the same fault.
pub proof fn law_lookups_seen(s: String, outcome: Result<Option<Text>, Text>)
    ensures
        lookup::is_resolved(Ok(Some(s)), outcome) <==> outcome == Ok::<Option<Text>, Text>(
            Some(s@),
        ),
        lookup::is_resolved(Ok(None), outcome) <==> outcome == Ok::<Option<Text>, Text>(None),
        lookup::is_resolved(Err(s), outcome) <==> outcome == Err::<Option<Text>, Text>(s@),
{
}

} // verus!
