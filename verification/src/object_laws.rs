//! What holds of built objects in general.

use vstd::prelude::*;

use crate::cache::Key;
use crate::fields;
use crate::fields::{CsvRow, OutputObject};
use crate::grammar;
use crate::lookup;
use crate::objects;
use crate::template::{TemplateField, TemplateLookup};
use crate::text;
use crate::text::Text;

verus! {

/// `field` sets its target, to `value`, on `row`.
pub open spec fn sets(
    field: TemplateField,
    row: Map<Text, Text>,
    found: Map<Key, Seq<Text>>,
    number: nat,
    value: Text,
) -> bool {
    objects::field_value(field, row, found, number) == Ok::<Option<Text>, Text>(Some(value))
}

/// Field number `j` of a template sets `name` to `value`, and none of the
/// fields after it up to number `n` sets `name` again.
pub open spec fn sets_last(
    template_fields: Seq<TemplateField>,
    n: int,
    j: int,
    row: Map<Text, Text>,
    found: Map<Key, Seq<Text>>,
    number: nat,
    name: Text,
    value: Text,
) -> bool {
    &&& 0 <= j < n
    &&& objects::target_of(template_fields[j]) == name
    &&& sets(template_fields[j], row, found, number, value)
    &&& forall|k: int|
        j < k < n && objects::target_of(#[trigger] template_fields[k]) == name
            ==> objects::field_value(template_fields[k], row, found, number) == Ok::<
            Option<Text>,
            Text,
        >(None)
}

/// An object holds exactly what the fields of the template set: a name is in it
/// with the value of the last field that sets the name.
pub proof fn law_last_field_wins(
    template_fields: Seq<TemplateField>,
    n: int,
    row: Map<Text, Text>,
    found: Map<Key, Seq<Text>>,
    number: nat,
    name: Text,
    value: Text,
)
    requires
        0 <= n <= template_fields.len(),
        objects::object_of(template_fields, n, row, found, number) is Ok,
    ensures
        ({
            let object = objects::object_of(template_fields, n, row, found, number)->Ok_0;
            object.dom().contains(name) && object[name] == value <==> exists|j: int| #[trigger]
                sets_last(template_fields, n, j, row, found, number, name, value)
        }),
    decreases n,
{
    if n > 0 {
        law_last_field_wins(template_fields, n - 1, row, found, number, name, value);
        let before = objects::object_of(template_fields, n - 1, row, found, number)->Ok_0;
        let object = objects::object_of(template_fields, n, row, found, number)->Ok_0;
        let last = template_fields[n - 1];
        let set = objects::field_value(last, row, found, number);
        if object.dom().contains(name) && object[name] == value {
            if objects::target_of(last) == name && set is Ok && set->Ok_0 is Some {
                assert(sets_last(template_fields, n, n - 1, row, found, number, name, value));
            } else {
                let j = choose|j: int| #[trigger]
                    sets_last(template_fields, n - 1, j, row, found, number, name, value);
                assert(sets_last(template_fields, n, j, row, found, number, name, value));
            }
        }
        if exists|j: int| #[trigger]
            sets_last(template_fields, n, j, row, found, number, name, value) {
            let j = choose|j: int| #[trigger]
                sets_last(template_fields, n, j, row, found, number, name, value);
            if j < n - 1 {
                assert(sets_last(template_fields, n - 1, j, row, found, number, name, value));
            }
        }
    }
}

/// Where an object is built, no field had a fault, and every required column
/// had a value.
pub proof fn law_required_columns_have_values(
    template_fields: Seq<TemplateField>,
    n: int,
    row: Map<Text, Text>,
    found: Map<Key, Seq<Text>>,
    number: nat,
    j: int,
)
    requires
        0 <= j < n <= template_fields.len(),
        objects::object_of(template_fields, n, row, found, number) is Ok,
    ensures
        objects::field_value(template_fields[j], row, found, number) is Ok,
        match template_fields[j] {
            TemplateField::Column { target, source, required } => required == Some(true) ==> {
                &&& !text::blank(fields::value_or_empty(row, source@))
                &&& objects::object_of(
                    template_fields,
                    n,
                    row,
                    found,
                    number,
                )->Ok_0.dom().contains(target@)
            },
            _ => true,
        },
    decreases n,
{
    if j < n - 1 {
        law_required_columns_have_values(template_fields, n - 1, row, found, number, j);
    }
}

/// An object holds a target of the template and nothing else.
pub proof fn law_only_targets(
    template_fields: Seq<TemplateField>,
    n: int,
    row: Map<Text, Text>,
    found: Map<Key, Seq<Text>>,
    number: nat,
    name: Text,
)
    requires
        0 <= n <= template_fields.len(),
        objects::object_of(template_fields, n, row, found, number) is Ok,
        objects::object_of(template_fields, n, row, found, number)->Ok_0.dom().contains(name),
    ensures
        exists|j: int|
            0 <= j < n && objects::target_of(#[trigger] template_fields[j]) == name,
    decreases n,
{
    if n > 0 {
        let before = objects::object_of(template_fields, n - 1, row, found, number)->Ok_0;
        if objects::target_of(template_fields[n - 1]) != name {
            law_only_targets(template_fields, n - 1, row, found, number, name);
        }
    }
}

// ---------------------------------------------------------------------------
// What each kind of field sets
// ---------------------------------------------------------------------------

/// `field` sets the field `name` of the object, if it sets anything.
pub open spec fn targets(field: TemplateField, name: Text) -> bool {
    match field {
        TemplateField::Column { target, .. } => target@ == name,
        TemplateField::Formula { target, .. } => target@ == name,
        TemplateField::Reference { target, .. } => target@ == name,
    }
}

/// The column `source` of `row` holds more than white space.
pub open spec fn has_value(row: Map<Text, Text>, source: Text) -> bool {
    row.dom().contains(source) && !text::blank(row[source])
}

proof fn lemma_no_value(row: Map<Text, Text>, source: Text)
    requires
        !has_value(row, source),
    ensures
        text::trimmed(fields::value_or_empty(row, source)).len() == 0,
{
    assert(text::trimmed(Seq::<char>::empty()) =~= Seq::<char>::empty());
}

/// What the fields after number `j`, up to number `n`, keep: none of them has
/// the target `name`.
pub open spec fn last_for(
    template_fields: Seq<TemplateField>,
    n: int,
    j: int,
    name: Text,
) -> bool {
    &&& 0 <= j < n <= template_fields.len()
    &&& targets(template_fields[j], name)
    &&& forall|k: int| j < k < n ==> !targets(#[trigger] template_fields[k], name)
}

proof fn lemma_kept(
    template_fields: Seq<TemplateField>,
    n: int,
    m: int,
    row: Map<Text, Text>,
    found: Map<Key, Seq<Text>>,
    number: nat,
    name: Text,
)
    requires
        0 <= m <= n <= template_fields.len(),
        forall|k: int| m <= k < n ==> !targets(#[trigger] template_fields[k], name),
        objects::object_of(template_fields, n, row, found, number) is Ok,
    ensures
        ({
            let before = objects::object_of(template_fields, m, row, found, number);
            let after = objects::object_of(template_fields, n, row, found, number)->Ok_0;
            &&& before is Ok
            &&& after.dom().contains(name) <==> before->Ok_0.dom().contains(name)
            &&& after.dom().contains(name) ==> after[name] == before->Ok_0[name]
        }),
    decreases n - m,
{
    if m < n {
        lemma_kept(template_fields, n - 1, m, row, found, number, name);
        assert(!targets(template_fields[n - 1], name));
    }
}

/// A column puts the row's value, without outer white space, under its target,
/// all of it; and puts nothing there where the row has no value but white
/// space. (No later field has the same target.)
pub proof fn law_column_value(
    template_fields: Seq<TemplateField>,
    n: int,
    j: int,
    row: Map<Text, Text>,
    found: Map<Key, Seq<Text>>,
    number: nat,
    name: Text,
    source: Text,
)
    requires
        last_for(template_fields, n, j, name),
        template_fields[j] matches TemplateField::Column { source: s, .. } && s@ == source,
        objects::object_of(template_fields, n, row, found, number) is Ok,
    ensures
        ({
            let object = objects::object_of(template_fields, n, row, found, number)->Ok_0;
            &&& has_value(row, source) ==> object.dom().contains(name) && object[name]
                == text::trimmed(row[source])
            &&& !has_value(row, source) && (forall|k: int|
                0 <= k < j ==> !targets(#[trigger] template_fields[k], name))
                ==> !object.dom().contains(name)
        }),
{
    lemma_kept(template_fields, n, j + 1, row, found, number, name);
    if !has_value(row, source) {
        lemma_no_value(row, source);
        if forall|k: int| 0 <= k < j ==> !targets(#[trigger] template_fields[k], name) {
            lemma_kept(template_fields, j, 0, row, found, number, name);
        }
    }
}

/// A formula puts its value under its target, also where that is the empty
/// text. (No later field has the same target.)
pub proof fn law_formula_field_value(
    template_fields: Seq<TemplateField>,
    n: int,
    j: int,
    row: Map<Text, Text>,
    found: Map<Key, Seq<Text>>,
    number: nat,
    name: Text,
    expr: Text,
)
    requires
        last_for(template_fields, n, j, name),
        template_fields[j] matches TemplateField::Formula { expr: e, .. } && e@ == expr,
        objects::object_of(template_fields, n, row, found, number) is Ok,
    ensures
        ({
            let object = objects::object_of(template_fields, n, row, found, number)->Ok_0;
            object.dom().contains(name) && grammar::evaluated(expr, row) == Ok::<Text, Text>(
                object[name],
            )
        }),
{
    lemma_kept(template_fields, n, j + 1, row, found, number, name);
}

/// A reference puts the id that it resolves to under its target, and nothing
/// where there is none. (No later field has the same target.)
pub proof fn law_reference_value(
    template_fields: Seq<TemplateField>,
    n: int,
    j: int,
    row: Map<Text, Text>,
    found: Map<Key, Seq<Text>>,
    number: nat,
    name: Text,
    lookup: TemplateLookup,
)
    requires
        last_for(template_fields, n, j, name),
        template_fields[j] matches TemplateField::Reference { lookup: l, .. } && l == lookup,
        objects::object_of(template_fields, n, row, found, number) is Ok,
    ensures
        ({
            let object = objects::object_of(template_fields, n, row, found, number)->Ok_0;
            match lookup::resolved(lookup, row, found) {
                Ok(Some(id)) => object.dom().contains(name) && object[name] == id,
                Ok(None) => (forall|k: int|
                    0 <= k < j ==> !targets(#[trigger] template_fields[k], name))
                    ==> !object.dom().contains(name),
                Err(_) => false,
            }
        }),
{
    lemma_kept(template_fields, n, j + 1, row, found, number, name);
    if forall|k: int| 0 <= k < j ==> !targets(#[trigger] template_fields[k], name) {
        lemma_kept(template_fields, j, 0, row, found, number, name);
    }
}

/// The fault of `field` on `row`, in the words that name the row: a required
/// column without a value, a formula at fault, a reference that cannot be
/// resolved.
pub open spec fn field_fault(
    field: TemplateField,
    row: Map<Text, Text>,
    found: Map<Key, Seq<Text>>,
    number: nat,
    message: Text,
) -> bool {
    match field {
        TemplateField::Column { target, source, required } => required == Some(true) && !has_value(
            row,
            source@,
        ) && message == "Row "@ + text::decimal(number) + ": missing required value for '"@
            + target@ + "' from CSV column '"@ + source@ + "'"@,
        TemplateField::Formula { target, expr } => match grammar::evaluated(expr@, row) {
            Err(e) => message == "Row "@ + text::decimal(number) + ": formula for '"@ + target@
                + "': "@ + e,
            Ok(_) => false,
        },
        TemplateField::Reference { target, lookup } => match lookup::resolved(
            lookup,
            row,
            found,
        ) {
            Err(e) => message == "Row "@ + text::decimal(number) + ": reference for '"@ + target@
                + "': "@ + e,
            Ok(_) => false,
        },
    }
}

/// Field number `j` has the fault `message`, and no field before it has one.
pub open spec fn first_fault_at(
    template_fields: Seq<TemplateField>,
    j: int,
    row: Map<Text, Text>,
    found: Map<Key, Seq<Text>>,
    number: nat,
    message: Text,
) -> bool {
    &&& field_fault(template_fields[j], row, found, number, message)
    &&& no_fault_before(template_fields, j, row, found, number)
}

/// None of the fields before number `n` has a fault.
pub open spec fn no_fault_before(
    template_fields: Seq<TemplateField>,
    n: int,
    row: Map<Text, Text>,
    found: Map<Key, Seq<Text>>,
    number: nat,
) -> bool {
    forall|j: int, message: Text|
        0 <= j < n ==> !#[trigger] field_fault(template_fields[j], row, found, number, message)
}

/// An object cannot be built exactly where some field has a fault; the fault is
/// that of the first.
pub proof fn law_first_field_fault(
    template_fields: Seq<TemplateField>,
    n: int,
    row: Map<Text, Text>,
    found: Map<Key, Seq<Text>>,
    number: nat,
)
    requires
        0 <= n <= template_fields.len(),
    ensures
        objects::object_of(template_fields, n, row, found, number) is Ok <==> no_fault_before(
            template_fields,
            n,
            row,
            found,
            number,
        ),
        objects::object_of(template_fields, n, row, found, number) is Err ==> exists|j: int|
            0 <= j < n && #[trigger] first_fault_at(
                template_fields,
                j,
                row,
                found,
                number,
                objects::object_of(template_fields, n, row, found, number)->Err_0,
            ),
    decreases n,
{
    if n > 0 {
        law_first_field_fault(template_fields, n - 1, row, found, number);
        let field = template_fields[n - 1];
        let head = objects::object_of(template_fields, n - 1, row, found, number);
        let whole = objects::object_of(template_fields, n, row, found, number);
        lemma_field_fault(field, row, found, number);
        if head is Err {
            let j = choose|j: int|
                0 <= j < n - 1 && #[trigger] first_fault_at(
                    template_fields,
                    j,
                    row,
                    found,
                    number,
                    head->Err_0,
                );
            assert(first_fault_at(template_fields, j, row, found, number, whole->Err_0));
            assert(field_fault(template_fields[j], row, found, number, head->Err_0));
        } else if whole is Err {
            assert(field_fault(template_fields[n - 1], row, found, number, whole->Err_0));
            assert(first_fault_at(template_fields, n - 1, row, found, number, whole->Err_0));
        } else {
            assert forall|j: int, message: Text| 0 <= j < n implies !#[trigger] field_fault(
                template_fields[j],
                row,
                found,
                number,
                message,
            ) by {
                if j == n - 1 {
                    assert(!field_fault(field, row, found, number, message));
                }
            }
        }
    }
}

proof fn lemma_field_fault(
    field: TemplateField,
    row: Map<Text, Text>,
    found: Map<Key, Seq<Text>>,
    number: nat,
)
    ensures
        forall|message: Text| #[trigger]
            field_fault(field, row, found, number, message) <==> objects::field_value(
                field,
                row,
                found,
                number,
            ) == Err::<Option<Text>, Text>(message),
{
    match field {
        TemplateField::Column { source, .. } => {
            if !has_value(row, source@) {
                lemma_no_value(row, source@);
            }
        },
        _ => {},
    }
}

/// The object of a row is built from that row by all the fields, and its number
/// is counted from two, the header being row one.
pub proof fn law_row_object(
    template_fields: Seq<TemplateField>,
    rows: Seq<CsvRow>,
    found: Map<Key, Seq<Text>>,
    index: int,
)
    requires
        0 <= index < rows.len(),
    ensures
        objects::row_object(template_fields, rows, found, index) == objects::object_of(
            template_fields,
            template_fields.len() as int,
            rows[index]@,
            found,
            (index + 2) as nat,
        ),
{
}

// ---------------------------------------------------------------------------
// Operations
// ---------------------------------------------------------------------------

/// Inserting takes all objects; updating takes those that all hold an `Id` of
/// more than white space; there is no other operation.
pub proof fn law_loadable(operation: Text, loaded: Seq<OutputObject>)
    ensures
        objects::loadable(operation, loaded) <==> operation == "insert"@ || (operation == "update"@
            && forall|i: int|
            0 <= i < loaded.len() ==> has_value((#[trigger] loaded[i])@, "Id"@)),
{
    assert forall|i: int| 0 <= i < loaded.len() implies objects::lacks_id((#[trigger] loaded[i])@)
        == !has_value(loaded[i]@, "Id"@) by {
        if !has_value(loaded[i]@, "Id"@) {
            lemma_no_value(loaded[i]@, "Id"@);
        }
    }
}

/// Why objects cannot be loaded: the first that has no `Id`, by its row, or the
/// operation.
pub proof fn law_load_fault(operation: Text, loaded: Seq<OutputObject>, message: Text)
    requires
        objects::is_load_fault(operation, loaded, message),
    ensures
        operation == "update"@ ==> exists|i: int|
            0 <= i < loaded.len() && !has_value((#[trigger] loaded[i])@, "Id"@) && message
                == "Row "@ + text::decimal((i + 2) as nat)
                + ": update requires an Id field. Add a reference field with target: Id."@
                && forall|j: int| 0 <= j < i ==> has_value((#[trigger] loaded[j])@, "Id"@),
        operation != "update"@ ==> message == "Unsupported operation '"@ + operation
            + "'. Use insert or update."@,
{
    assert forall|i: int| 0 <= i < loaded.len() implies objects::lacks_id((#[trigger] loaded[i])@)
        == !has_value(loaded[i]@, "Id"@) by {
        if !has_value(loaded[i]@, "Id"@) {
            lemma_no_value(loaded[i]@, "Id"@);
        }
    }
}

} // verus!
