//! The rules that a schema must follow, and what analysis makes of it.
//!
//! A schema is checked in stages. A stage that finds something ends the analysis, and what is
//! reported is the first thing it found in source order; only the stage that settles who owns
//! `Related` reports everything it found in an entity.

use vstd::prelude::*;

use crate::analyzed::{AnalyzedEntityView, AnalyzedFieldView};
use crate::definitions::{EntityAttrsView, EntityDefView, FieldDefView, RawFieldTypeView};
use crate::diagnostics::Message;
use crate::identifier::IdentifierView;
use crate::messages::{
    created_at_text, duplicate_entity_text, marked_has_many_text, marked_scalar_text,
    missing_column_text, relation_column_text, several_has_many_text, surplus_mark_text,
    unknown_entity_text, unknown_type_text, unmarked_text, updated_at_text,
};
use crate::sequences::{first_some, gathered, positions};
use crate::text::{joined, quoted};
use crate::types::FieldTypeView;

verus! {

// ---- Names of entities ----

/// The names of the entities of a schema.
pub open spec fn entity_names(entities: Seq<EntityDefView>) -> Set<Seq<char>> {
    Set::new(|name: Seq<char>| exists|i: int|
        0 <= i < entities.len() && (#[trigger] entities[i]).name.text == name)
}

/// Reports an entity that has the name of an earlier one.
pub open spec fn duplicate_check(entities: Seq<EntityDefView>) -> spec_fn(int) -> Option<Message> {
    |i: int|
        if exists|j: int|
            0 <= j < i && (#[trigger] entities[j]).name.text == entities[i].name.text {
            Some((entities[i].name.span, duplicate_entity_text(entities[i].name.text)))
        } else {
            None
        }
}

// ---- Generated columns ----

/// Reports a field that has the name of a generated column.
pub open spec fn timestamp_check(
    attrs: EntityAttrsView,
    fields: Seq<FieldDefView>,
) -> spec_fn(int) -> Option<Message> {
    |i: int|
        if fields[i].name.text == "created_at"@ && attrs.has_created_at {
            Some((fields[i].name.span, created_at_text()))
        } else if fields[i].name.text == "updated_at"@ && attrs.has_updated_at {
            Some((fields[i].name.span, updated_at_text()))
        } else {
            None
        }
}

// ---- Types of fields ----

/// What a written type means where `names` are the entities: a `Vec` of an entity is a has_many,
/// the entity itself is a belongs_to.
pub open spec fn resolved_type(names: Set<Seq<char>>, ty: RawFieldTypeView) -> Result<
    FieldTypeView,
    Message,
> {
    match ty {
        RawFieldTypeView::Scalar { scalar, optional } => Ok(
            FieldTypeView::Scalar { scalar, optional },
        ),
        RawFieldTypeView::Vec { inner } => if names.contains(inner.text) {
            Ok(FieldTypeView::HasMany { target: inner })
        } else {
            Err((inner.span, unknown_entity_text(inner.text)))
        },
        RawFieldTypeView::Unknown { name, optional } => if names.contains(name.text) {
            Ok(FieldTypeView::BelongsTo { target: name, optional })
        } else {
            Err((name.span, unknown_type_text(name.text)))
        },
    }
}

/// Reports a field whose type means nothing.
pub open spec fn type_check(
    names: Set<Seq<char>>,
    fields: Seq<FieldDefView>,
) -> spec_fn(int) -> Option<Message> {
    |i: int|
        match resolved_type(names, fields[i].ty) {
            Ok(_) => None,
            Err(message) => Some(message),
        }
}

/// A field with its type resolved, before it is settled who owns `Related`.
pub open spec fn resolved_field(names: Set<Seq<char>>, field: FieldDefView) -> AnalyzedFieldView {
    AnalyzedFieldView {
        attrs: field.attrs,
        name: field.name,
        ty: resolved_type(names, field.ty)->Ok_0,
        span: field.span,
        implements_related: false,
    }
}

/// The fields with their types resolved.
pub open spec fn resolved_fields(names: Set<Seq<char>>, fields: Seq<FieldDefView>) -> Seq<
    AnalyzedFieldView,
> {
    fields.map_values(|field: FieldDefView| resolved_field(names, field))
}

// ---- Owners of `Related` ----

/// The entity that a relationship points at; nothing for a scalar.
pub open spec fn target_of(ty: FieldTypeView) -> Option<IdentifierView> {
    match ty {
        FieldTypeView::BelongsTo { target, .. } => Some(target),
        FieldTypeView::HasMany { target } => Some(target),
        FieldTypeView::Scalar { .. } => None,
    }
}

/// Whether a field points at the entity of the given name.
pub open spec fn points_at(field: AnalyzedFieldView, target: Seq<char>) -> bool {
    target_of(field.ty) matches Some(ident) && ident.text == target
}

/// Reports a mark on a field that can not own `Related` by it.
pub open spec fn mark_check(fields: Seq<AnalyzedFieldView>) -> spec_fn(int) -> Option<Message> {
    |i: int|
        if !fields[i].attrs.related {
            None
        } else {
            match fields[i].ty {
                FieldTypeView::BelongsTo { .. } => None,
                FieldTypeView::HasMany { .. } => Some(
                    (fields[i].name.span, marked_has_many_text(fields[i].name.text)),
                ),
                FieldTypeView::Scalar { .. } => Some(
                    (fields[i].name.span, marked_scalar_text(fields[i].name.text)),
                ),
            }
        }
}

/// Holds at the fields that point at the target.
pub open spec fn member_test(fields: Seq<AnalyzedFieldView>, target: Seq<char>) -> spec_fn(
    int,
) -> bool {
    |i: int| 0 <= i < fields.len() && points_at(fields[i], target)
}

/// The fields that point at the target, in the order in which they are declared.
pub open spec fn members(fields: Seq<AnalyzedFieldView>, target: Seq<char>) -> Seq<int> {
    positions(fields.len(), member_test(fields, target))
}

/// Holds at the fields that are the first to point at their target.
pub open spec fn leader_test(fields: Seq<AnalyzedFieldView>) -> spec_fn(int) -> bool {
    |i: int|
        0 <= i < fields.len() && target_of(fields[i].ty) is Some && forall|j: int|
            0 <= j < i ==> !points_at(
                #[trigger] fields[j],
                (target_of(fields[i].ty)->Some_0).text,
            )
}

/// The fields that are the first to point at their target.
pub open spec fn leaders(fields: Seq<AnalyzedFieldView>) -> Seq<int> {
    positions(fields.len(), leader_test(fields))
}

/// The group that the field at `i` belongs to: its target, and all fields that point there.
pub open spec fn group_of(fields: Seq<AnalyzedFieldView>, i: int) -> (Seq<char>, Seq<int>) {
    let target = (target_of(fields[i].ty)->Some_0).text;
    (target, members(fields, target))
}

/// The relationship fields grouped by target. Groups stand in the order of their first fields.
pub open spec fn groups(fields: Seq<AnalyzedFieldView>) -> Seq<(Seq<char>, Seq<int>)> {
    leaders(fields).map_values(|i: int| group_of(fields, i))
}

/// Holds at the belongs_to fields.
pub open spec fn belongs_to_test(fields: Seq<AnalyzedFieldView>) -> spec_fn(int) -> bool {
    |i: int| 0 <= i < fields.len() && fields[i].ty is BelongsTo
}

/// Holds at the fields that are no belongs_to.
pub open spec fn other_kind_test(fields: Seq<AnalyzedFieldView>) -> spec_fn(int) -> bool {
    |i: int| 0 <= i < fields.len() && !(fields[i].ty is BelongsTo)
}

/// Holds at the fields that are marked `#[related]`.
pub open spec fn marked_test(fields: Seq<AnalyzedFieldView>) -> spec_fn(int) -> bool {
    |i: int| 0 <= i < fields.len() && fields[i].attrs.related
}

/// The quoted names of the fields at the given places, separated by commas.
pub open spec fn name_list(places: Seq<int>, fields: Seq<AnalyzedFieldView>) -> Seq<char> {
    joined(places.map_values(|i: int| quoted(fields[i].name.text)), ", "@)
}

/// Reports several has_many fields to one target: they describe the same join, and nothing tells
/// them apart.
pub open spec fn has_many_problem(
    entity: IdentifierView,
    target: Seq<char>,
    has_many: Seq<int>,
    fields: Seq<AnalyzedFieldView>,
) -> Option<Message> {
    if has_many.len() < 2 {
        None
    } else {
        Some(
            (
                entity.span,
                several_has_many_text(
                    entity.text,
                    has_many.len(),
                    target,
                    name_list(has_many, fields),
                ),
            ),
        )
    }
}

/// The owner among the belongs_to fields to one target: the only one there is, or else the only
/// one that is marked. Every mark after the first is reported.
pub open spec fn belongs_to_owner(
    entity: IdentifierView,
    target: Seq<char>,
    belongs_to: Seq<int>,
    fields: Seq<AnalyzedFieldView>,
) -> Result<int, Seq<Message>> {
    let marked = belongs_to.filter(marked_test(fields));
    if belongs_to.len() == 1 {
        Ok(belongs_to[0])
    } else if marked.len() == 1 {
        Ok(marked[0])
    } else if marked.len() == 0 {
        Err(
            seq![
                (
                    entity.span,
                    unmarked_text(
                        entity.text,
                        belongs_to.len(),
                        target,
                        name_list(belongs_to, fields),
                    ),
                ),
            ],
        )
    } else {
        Err(
            marked.drop_first().map_values(
                |i: int|
                    (
                        fields[i].name.span,
                        surplus_mark_text(target, fields[marked[0]].name.text),
                    ),
            ),
        )
    }
}

/// The owner among all fields to one target.
pub open spec fn group_owner(
    entity: IdentifierView,
    target: Seq<char>,
    members: Seq<int>,
    fields: Seq<AnalyzedFieldView>,
) -> Result<int, Seq<Message>> {
    if members.len() == 1 {
        Ok(members[0])
    } else {
        match has_many_problem(entity, target, members.filter(other_kind_test(fields)), fields) {
            Some(message) => Err(seq![message]),
            None => belongs_to_owner(
                entity,
                target,
                members.filter(belongs_to_test(fields)),
                fields,
            ),
        }
    }
}

/// What the groups of an entity have wrong, group by group.
pub open spec fn group_problems(
    entity: IdentifierView,
    fields: Seq<AnalyzedFieldView>,
) -> spec_fn(int) -> Seq<Message> {
    |k: int|
        match group_owner(entity, groups(fields)[k].0, groups(fields)[k].1, fields) {
            Ok(_) => seq![],
            Err(messages) => messages,
        }
}

/// Everything that the groups of an entity have wrong.
pub open spec fn ownership_problems(
    entity: IdentifierView,
    fields: Seq<AnalyzedFieldView>,
) -> Seq<Message> {
    gathered(groups(fields).len(), group_problems(entity, fields))
}

/// Whether the field at `i` is the owner among the fields to its target.
pub open spec fn owns_related(
    entity: IdentifierView,
    fields: Seq<AnalyzedFieldView>,
    i: int,
) -> bool {
    target_of(fields[i].ty) matches Some(ident) && group_owner(
        entity,
        ident.text,
        members(fields, ident.text),
        fields,
    ) == Ok::<int, Seq<Message>>(i)
}

/// The fields with `Related` granted to the owners.
pub open spec fn with_owners(entity: IdentifierView, fields: Seq<AnalyzedFieldView>) -> Seq<
    AnalyzedFieldView,
> {
    Seq::new(
        fields.len(),
        |i: int|
            AnalyzedFieldView {
                implements_related: fields[i].implements_related || owns_related(
                    entity,
                    fields,
                    i,
                ),
                ..fields[i]
            },
    )
}

/// What is wrong with the relationships of an entity.
pub open spec fn relation_problems(
    entity: IdentifierView,
    fields: Seq<AnalyzedFieldView>,
) -> Seq<Message> {
    match first_some(fields.len(), mark_check(fields)) {
        Some(message) => seq![message],
        None => ownership_problems(entity, fields),
    }
}

// ---- Primary keys ----

/// Reports a primary key column that no field has the name of.
pub open spec fn column_check(
    entity: IdentifierView,
    fields: Seq<AnalyzedFieldView>,
    columns: Seq<Seq<char>>,
) -> spec_fn(int) -> Option<Message> {
    |i: int|
        if exists|j: int| 0 <= j < fields.len() && (#[trigger] fields[j]).name.text == columns[i] {
            None
        } else {
            Some((entity.span, missing_column_text(columns[i], entity.text)))
        }
}

/// Reports a field of the primary key that is a relationship.
pub open spec fn key_type_check(
    fields: Seq<AnalyzedFieldView>,
    columns: Seq<Seq<char>>,
) -> spec_fn(int) -> Option<Message> {
    |i: int|
        if columns.contains(fields[i].name.text) && !(fields[i].ty is Scalar) {
            Some((fields[i].name.span, relation_column_text(fields[i].name.text)))
        } else {
            None
        }
}

/// What is wrong with the primary key of an entity.
pub open spec fn key_problem(
    entity: IdentifierView,
    fields: Seq<AnalyzedFieldView>,
    key: Option<Seq<Seq<char>>>,
) -> Option<Message> {
    match key {
        None => None,
        Some(columns) => match first_some(columns.len(), column_check(entity, fields, columns)) {
            Some(message) => Some(message),
            None => first_some(fields.len(), key_type_check(fields, columns)),
        },
    }
}

// ---- Entities and schemas ----

/// What analysis makes of an entity where `names` are the entities of the schema.
pub open spec fn entity_analysis(names: Set<Seq<char>>, entity: EntityDefView) -> Result<
    AnalyzedEntityView,
    Seq<Message>,
> {
    let fields = resolved_fields(names, entity.fields);
    let owned = with_owners(entity.name, fields);
    if let Some(message) = first_some(
        entity.fields.len(),
        timestamp_check(entity.attrs, entity.fields),
    ) {
        Err(seq![message])
    } else if let Some(message) = first_some(
        entity.fields.len(),
        type_check(names, entity.fields),
    ) {
        Err(seq![message])
    } else if relation_problems(entity.name, fields).len() > 0 {
        Err(relation_problems(entity.name, fields))
    } else if let Some(message) = key_problem(entity.name, owned, entity.attrs.primary_key) {
        Err(seq![message])
    } else {
        Ok(
            AnalyzedEntityView {
                attrs: entity.attrs,
                name: entity.name,
                fields: owned,
                span: entity.span,
            },
        )
    }
}

/// Reports an entity that analysis rejects, with all that it says of it.
pub open spec fn entity_check(
    names: Set<Seq<char>>,
    entities: Seq<EntityDefView>,
) -> spec_fn(int) -> Option<Seq<Message>> {
    |i: int|
        match entity_analysis(names, entities[i]) {
            Ok(_) => None,
            Err(messages) => Some(messages),
        }
}

/// What analysis makes of a schema.
pub open spec fn schema_analysis(entities: Seq<EntityDefView>) -> Result<
    Seq<AnalyzedEntityView>,
    Seq<Message>,
> {
    let names = entity_names(entities);
    if let Some(message) = first_some(entities.len(), duplicate_check(entities)) {
        Err(seq![message])
    } else if let Some(messages) = first_some(entities.len(), entity_check(names, entities)) {
        Err(messages)
    } else {
        Ok(entities.map_values(|entity: EntityDefView| entity_analysis(names, entity)->Ok_0))
    }
}

} // verus!
