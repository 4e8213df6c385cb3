//! What a schema must be like to be accepted, said of the schema as it is written.

use vstd::prelude::*;

use crate::definitions::{EntityDefView, FieldDefView, RawFieldTypeView};
use crate::rules::entity_names;

verus! {

/// Whether a field is a `Vec` of the named type.
pub open spec fn is_vec_of(field: FieldDefView, name: Seq<char>) -> bool {
    field.ty matches RawFieldTypeView::Vec { inner } && inner.text == name
}

/// Whether a field is of the named type, or an `Option` of it, and the name is that of no scalar.
pub open spec fn is_one_of(field: FieldDefView, name: Seq<char>) -> bool {
    field.ty matches RawFieldTypeView::Unknown { name: ty, .. } && ty.text == name
}

/// No field has the name of a column that is generated.
pub open spec fn no_generated_column(entity: EntityDefView) -> bool {
    forall|i: int|
        0 <= i < entity.fields.len() ==> {
            &&& (#[trigger] entity.fields[i]).name.text == "created_at"@
                ==> !entity.attrs.has_created_at
            &&& entity.fields[i].name.text == "updated_at"@ ==> !entity.attrs.has_updated_at
        }
}

/// Whether every type that is no scalar is the name of an entity.
pub open spec fn types_known(names: Set<Seq<char>>, fields: Seq<FieldDefView>) -> bool {
    forall|i: int|
        0 <= i < fields.len() ==> match (#[trigger] fields[i]).ty {
            RawFieldTypeView::Scalar { .. } => true,
            RawFieldTypeView::Vec { inner } => names.contains(inner.text),
            RawFieldTypeView::Unknown { name, .. } => names.contains(name.text),
        }
}

/// Only a field that names another entity is marked `#[related]`.
pub open spec fn marks_placed(fields: Seq<FieldDefView>) -> bool {
    forall|i: int|
        0 <= i < fields.len() && (#[trigger] fields[i]).attrs.related ==> fields[i].ty is Unknown
}

/// No two fields are `Vec`s of one type.
pub open spec fn vecs_distinct(fields: Seq<FieldDefView>) -> bool {
    forall|i: int, j: int, name: Seq<char>|
        0 <= i < fields.len() && 0 <= j < fields.len() && #[trigger] is_vec_of(fields[i], name)
            && #[trigger] is_vec_of(fields[j], name) ==> i == j
}

/// No two fields of one type are both marked.
pub open spec fn marks_distinct(fields: Seq<FieldDefView>) -> bool {
    forall|i: int, j: int, name: Seq<char>|
        0 <= i < fields.len() && 0 <= j < fields.len() && #[trigger] is_one_of(fields[i], name)
            && #[trigger] is_one_of(fields[j], name) && fields[i].attrs.related
            && fields[j].attrs.related ==> i == j
}

/// Where several fields are of one type, one of them is marked.
pub open spec fn choices_made(fields: Seq<FieldDefView>) -> bool {
    forall|i: int, j: int, name: Seq<char>|
        0 <= i < fields.len() && 0 <= j < fields.len() && i != j && #[trigger] is_one_of(
            fields[i],
            name,
        ) && #[trigger] is_one_of(fields[j], name) ==> exists|m: int|
            0 <= m < fields.len() && #[trigger] is_one_of(fields[m], name)
                && fields[m].attrs.related
}

/// Whether one of the fields has the given name.
pub open spec fn has_field(fields: Seq<FieldDefView>, name: Seq<char>) -> bool {
    exists|i: int| 0 <= i < fields.len() && (#[trigger] fields[i]).name.text == name
}

/// Every column of the primary key is the name of a field, and every field of that name is a
/// scalar.
pub open spec fn key_valid(entity: EntityDefView) -> bool {
    entity.attrs.primary_key matches Some(columns) ==> {
        &&& forall|c: int|
            0 <= c < columns.len() ==> has_field(entity.fields, #[trigger] columns[c])
        &&& forall|i: int|
            0 <= i < entity.fields.len() && columns.contains(
                (#[trigger] entity.fields[i]).name.text,
            ) ==> entity.fields[i].ty is Scalar
    }
}

/// An entity that analysis accepts where `names` are the entities of the schema.
pub open spec fn valid_entity(names: Set<Seq<char>>, entity: EntityDefView) -> bool {
    &&& no_generated_column(entity)
    &&& types_known(names, entity.fields)
    &&& marks_placed(entity.fields)
    &&& vecs_distinct(entity.fields)
    &&& marks_distinct(entity.fields)
    &&& choices_made(entity.fields)
    &&& key_valid(entity)
}

/// No two entities have one name.
pub open spec fn names_distinct(entities: Seq<EntityDefView>) -> bool {
    forall|i: int, j: int|
        0 <= i < entities.len() && 0 <= j < entities.len() && (#[trigger] entities[i]).name.text
            == (#[trigger] entities[j]).name.text ==> i == j
}

/// A schema that analysis accepts.
pub open spec fn valid_schema(entities: Seq<EntityDefView>) -> bool {
    &&& names_distinct(entities)
    &&& forall|i: int|
        0 <= i < entities.len() ==> valid_entity(entity_names(entities), #[trigger] entities[i])
}

} // verus!
