//! Building the objects to load.

use vstd::prelude::*;
use vstd::string::*;

use crate::cache::{Key, LookupCache};
use crate::fields;
use crate::fields::{CsvRow, OutputObject};
use crate::formula::eval_formula;
use crate::grammar;
use crate::keys;
use crate::lookup;
use crate::lookup::resolve_reference;
use crate::template::{TemplateConfig, TemplateField};
use crate::text;
use crate::text::{decimal_text, text_eq, Text};

verus! {

/// A required column is empty.
pub open spec fn required_message(number: nat, target: Text, source: Text) -> Text {
    "Row "@ + text::decimal(number) + ": missing required value for '"@ + target
        + "' from CSV column '"@ + source + "'"@
}

/// A formula has no value.
pub open spec fn formula_message(number: nat, target: Text, message: Text) -> Text {
    "Row "@ + text::decimal(number) + ": formula for '"@ + target + "': "@ + message
}

/// A reference cannot be resolved.
pub open spec fn reference_message(number: nat, target: Text, message: Text) -> Text {
    "Row "@ + text::decimal(number) + ": reference for '"@ + target + "': "@ + message
}

/// The field of the object that `field` sets.
pub open spec fn target_of(field: TemplateField) -> Text {
    match field {
        TemplateField::Column { target, .. } => target@,
        TemplateField::Formula { target, .. } => target@,
        TemplateField::Reference { target, .. } => target@,
    }
}

/// What `field` sets on `row`: a value, nothing, or a fault. A column sets its
/// trimmed value unless that is empty, which is a fault where the column is
/// required.
pub open spec fn field_value(
    field: TemplateField,
    row: Map<Text, Text>,
    found: Map<Key, Seq<Text>>,
    number: nat,
) -> Result<Option<Text>, Text> {
    match field {
        TemplateField::Column { target, source, required } => {
            let value = text::trimmed(fields::value_or_empty(row, source@));
            if value.len() > 0 {
                Ok(Some(value))
            } else if required == Some(true) {
                Err(required_message(number, target@, source@))
            } else {
                Ok(None)
            }
        },
        TemplateField::Formula { target, expr } => match grammar::evaluated(expr@, row) {
            Ok(value) => Ok(Some(value)),
            Err(message) => Err(formula_message(number, target@, message)),
        },
        TemplateField::Reference { target, lookup } => match lookup::resolved(
            lookup,
            row,
            found,
        ) {
            Ok(id) => Ok(id),
            Err(message) => Err(reference_message(number, target@, message)),
        },
    }
}

/// The object that the first `n` of `fields` build from `row`, or the first
/// fault. A field that is set twice keeps the later value.
pub open spec fn object_of(
    template_fields: Seq<TemplateField>,
    n: int,
    row: Map<Text, Text>,
    found: Map<Key, Seq<Text>>,
    number: nat,
) -> Result<Map<Text, Text>, Text>
    decreases n,
{
    if n <= 0 {
        Ok(Map::empty())
    } else {
        match object_of(template_fields, n - 1, row, found, number) {
            Err(message) => Err(message),
            Ok(object) => match field_value(template_fields[n - 1], row, found, number) {
                Err(message) => Err(message),
                Ok(None) => Ok(object),
                Ok(Some(value)) => Ok(object.insert(target_of(template_fields[n - 1]), value)),
            },
        }
    }
}

/// The object that `template_fields` build from the row at `index`.
pub open spec fn row_object(
    template_fields: Seq<TemplateField>,
    rows: Seq<CsvRow>,
    found: Map<Key, Seq<Text>>,
    index: int,
) -> Result<Map<Text, Text>, Text> {
    object_of(
        template_fields,
        template_fields.len() as int,
        rows[index]@,
        found,
        keys::row_number(index),
    )
}

proof fn lemma_object_fault(
    template_fields: Seq<TemplateField>,
    n: int,
    m: int,
    row: Map<Text, Text>,
    found: Map<Key, Seq<Text>>,
    number: nat,
)
    requires
        n <= m,
        object_of(template_fields, n, row, found, number) is Err,
    ensures
        object_of(template_fields, m, row, found, number) == object_of(
            template_fields,
            n,
            row,
            found,
            number,
        ),
    decreases m - n,
{
    if n < m {
        lemma_object_fault(template_fields, n, m - 1, row, found, number);
    }
}

/// What one field sets on a row.
fn eval_field(field: &TemplateField, row: &CsvRow, lookup_cache: &LookupCache, number: u128) -> (r:
    Result<Option<String>, String>)
    ensures
        lookup::is_resolved(r, field_value(*field, row@, lookup_cache@, number as nat)),
{
    match field {
        TemplateField::Column { target, source, required } => {
            let value = match row.get(source.as_str()) {
                Some(value) => value.as_str().trim().to_string(),
                None => {
                    assert(text::trimmed(Seq::<char>::empty()) =~= Seq::<char>::empty());
                    String::new()
                },
            };
            let required = match required {
                Some(required) => *required,
                None => false,
            };
            if required && value.as_str().is_empty() {
                let mut message = "Row ".to_string();
                message.append(decimal_text(number).as_str());
                message.append(": missing required value for '");
                message.append(target.as_str());
                message.append("' from CSV column '");
                message.append(source.as_str());
                message.append("'");
                return Err(message);
            }
            if value.as_str().is_empty() {
                Ok(None)
            } else {
                Ok(Some(value))
            }
        },
        TemplateField::Formula { target, expr } => match eval_formula(expr.as_str(), row) {
            Ok(value) => Ok(Some(value)),
            Err(fault) => {
                let mut message = "Row ".to_string();
                message.append(decimal_text(number).as_str());
                message.append(": formula for '");
                message.append(target.as_str());
                message.append("': ");
                message.append(fault.as_str());
                Err(message)
            },
        },
        TemplateField::Reference { target, lookup } => match resolve_reference(
            row,
            lookup,
            lookup_cache,
        ) {
            Ok(id) => Ok(id),
            Err(fault) => {
                let mut message = "Row ".to_string();
                message.append(decimal_text(number).as_str());
                message.append(": reference for '");
                message.append(target.as_str());
                message.append("': ");
                message.append(fault.as_str());
                Err(message)
            },
        },
    }
}

fn target_name(field: &TemplateField) -> (r: &String)
    ensures
        r@ == target_of(*field),
{
    match field {
        TemplateField::Column { target, .. } => target,
        TemplateField::Formula { target, .. } => target,
        TemplateField::Reference { target, .. } => target,
    }
}

/// The object that one row builds.
fn build_object(
    template_fields: &Vec<TemplateField>,
    row: &CsvRow,
    lookup_cache: &LookupCache,
    number: u128,
) -> (r: Result<OutputObject, String>)
    ensures
        match r {
            Ok(object) => object_of(
                template_fields@,
                template_fields@.len() as int,
                row@,
                lookup_cache@,
                number as nat,
            ) == Ok::<Map<Text, Text>, Text>(object@),
            Err(message) => object_of(
                template_fields@,
                template_fields@.len() as int,
                row@,
                lookup_cache@,
                number as nat,
            ) == Err::<Map<Text, Text>, Text>(message@),
        },
{
    let mut object = OutputObject::new();
    let mut i: usize = 0;
    while i < template_fields.len()
        invariant
            i <= template_fields@.len(),
            object_of(template_fields@, i as int, row@, lookup_cache@, number as nat) == Ok::<
                Map<Text, Text>,
                Text,
            >(object@),
        decreases template_fields@.len() - i,
    {
        match eval_field(&template_fields[i], row, lookup_cache, number) {
            Ok(Some(value)) => {
                object.insert(target_name(&template_fields[i]).clone(), value);
            },
            Ok(None) => {},
            Err(message) => {
                proof {
                    lemma_object_fault(
                        template_fields@,
                        i + 1,
                        template_fields@.len() as int,
                        row@,
                        lookup_cache@,
                        number as nat,
                    );
                }
                return Err(message);
            },
        }
        i = i + 1;
    }
    Ok(object)
}

/// The objects to load, one for each row and in the order of the rows, or the
/// fault of the first row that has one.
pub fn build_objects(
    template_config: &TemplateConfig,
    rows: &Vec<CsvRow>,
    lookup_cache: &LookupCache,
) -> (r: Result<Vec<OutputObject>, String>)
    ensures
        match r {
            Ok(objects) => {
                &&& objects@.len() == rows@.len()
                &&& forall|i: int|
                    0 <= i < rows@.len() ==> row_object(
                        template_config.fields@,
                        rows@,
                        lookup_cache@,
                        i,
                    ) == Ok::<Map<Text, Text>, Text>((#[trigger] objects@[i])@)
            },
            Err(message) => exists|i: int|
                0 <= i < rows@.len() && #[trigger] row_object(
                    template_config.fields@,
                    rows@,
                    lookup_cache@,
                    i,
                ) == Err::<Map<Text, Text>, Text>(message@) && forall|j: int|
                    0 <= j < i ==> #[trigger] row_object(
                        template_config.fields@,
                        rows@,
                        lookup_cache@,
                        j,
                    ) is Ok,
        },
{
    let mut objects: Vec<OutputObject> = Vec::new();
    let mut i: usize = 0;
    while i < rows.len()
        invariant
            i == objects@.len() <= rows@.len(),
            forall|j: int|
                0 <= j < i ==> row_object(template_config.fields@, rows@, lookup_cache@, j) == Ok::<
                    Map<Text, Text>,
                    Text,
                >((#[trigger] objects@[j])@),
        decreases rows@.len() - i,
    {
        match build_object(&template_config.fields, &rows[i], lookup_cache, i as u128 + 2) {
            Ok(object) => objects.push(object),
            Err(message) => {
                proof {
                    assert forall|j: int| 0 <= j < i implies #[trigger] row_object(
                        template_config.fields@,
                        rows@,
                        lookup_cache@,
                        j,
                    ) is Ok by {
                        let _ = objects@[j];
                    }
                    assert(row_object(template_config.fields@, rows@, lookup_cache@, i as int)
                        == Err::<Map<Text, Text>, Text>(message@));
                }
                return Err(message);
            },
        }
        i = i + 1;
    }
    Ok(objects)
}

// ---------------------------------------------------------------------------
// Operations
// ---------------------------------------------------------------------------

/// An object that names no record to update.
pub open spec fn lacks_id(object: Map<Text, Text>) -> bool {
    text::blank(fields::value_or_empty(object, "Id"@))
}

/// The row at `index` names no record to update.
pub open spec fn id_message(index: int) -> Text {
    "Row "@ + text::decimal(keys::row_number(index))
        + ": update requires an Id field. Add a reference field with target: Id."@
}

/// There is no such operation.
pub open spec fn operation_message(operation: Text) -> Text {
    "Unsupported operation '"@ + operation + "'. Use insert or update."@
}

/// The objects can be loaded: the operation is `insert`, or it is `update` and
/// every object names the record to update.
pub open spec fn loadable(operation: Text, objects: Seq<OutputObject>) -> bool {
    ||| operation == "insert"@
    ||| operation == "update"@ && forall|i: int|
        0 <= i < objects.len() ==> !lacks_id((#[trigger] objects[i])@)
}

/// `message` says why the objects cannot be loaded: of the first object that
/// names no record to update, or of the operation.
pub open spec fn is_load_fault(operation: Text, objects: Seq<OutputObject>, message: Text) -> bool {
    if operation == "update"@ {
        exists|i: int|
            0 <= i < objects.len() && lacks_id((#[trigger] objects[i])@) && message == id_message(i)
                && forall|j: int| 0 <= j < i ==> !lacks_id((#[trigger] objects[j])@)
    } else {
        message == operation_message(operation)
    }
}

/// Fails where the objects cannot be loaded.
pub fn validate_operation_requirements(
    template_config: &TemplateConfig,
    objects: &Vec<OutputObject>,
) -> (r: Result<(), String>)
    ensures
        match r {
            Ok(_) => loadable(template_config.target.operation@, objects@),
            Err(message) => {
                &&& !loadable(template_config.target.operation@, objects@)
                &&& is_load_fault(template_config.target.operation@, objects@, message@)
            },
        },
{
    let operation = template_config.target.operation.as_str();
    if text_eq(operation, "insert") {
        return Ok(());
    }
    if text_eq(operation, "update") {
        proof {
            assert("insert"@[0] != "update"@[0]) by {
                reveal_strlit("insert");
                reveal_strlit("update");
            }
        }
        let mut i: usize = 0;
        while i < objects.len()
            invariant
                i <= objects@.len(),
                operation@ == template_config.target.operation@,
                operation@ == "update"@,
                "insert"@ != "update"@,
                forall|j: int| 0 <= j < i ==> !lacks_id((#[trigger] objects@[j])@),
            decreases objects@.len() - i,
        {
            let lacking = match objects[i].get("Id") {
                Some(id) => id.as_str().trim().is_empty(),
                None => {
                    assert(text::trimmed(Seq::<char>::empty()) =~= Seq::<char>::empty());
                    true
                },
            };
            if lacking {
                let mut message = "Row ".to_string();
                message.append(decimal_text(i as u128 + 2).as_str());
                message.append(
                    ": update requires an Id field. Add a reference field with target: Id.",
                );
                return Err(message);
            }
            i = i + 1;
        }
        return Ok(());
    }
    let mut message = "Unsupported operation '".to_string();
    message.append(operation);
    message.append("'. Use insert or update.");
    Err(message)
}

} // verus!
