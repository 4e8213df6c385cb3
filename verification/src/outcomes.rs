//! What comes of a schema, said of the schema as it is written and of what comes out.

use vstd::prelude::*;

use crate::analyzed::{AnalyzedEntityView, AnalyzedFieldView};
use crate::definitions::{EntityDefView, FieldDefView, RawFieldTypeView};
use crate::diagnostics::Message;
use crate::laws::{
    law_entity_accepted_iff_valid, law_marked_field_owns, law_one_owner_per_target,
    law_owner_is_the_nominated_field, lemma_names,
};
use crate::ownership::{nominated, same_target};
use crate::rules::{
    duplicate_check, entity_analysis, entity_check, entity_names, points_at, resolved_field,
    resolved_fields, schema_analysis, target_of, type_check,
};
use crate::sequences::{first_some, lemma_first_some};
use crate::types::FieldTypeView;
use crate::validity::{
    choices_made, has_field, is_one_of, is_vec_of, marks_distinct, names_distinct, valid_entity,
    vecs_distinct,
};

verus! {

/// An entity is accepted exactly if
///
/// - no field has the name of a column that is generated,
/// - every type that is no scalar is the name of an entity,
/// - only fields that name an entity are marked,
/// - no two fields are `Vec`s of one entity,
/// - no two fields that name one entity are both marked,
/// - of several fields that name one entity one is marked,
/// - every column of the primary key is the name of a field, and no field of that name is a
///   relationship.
pub proof fn law_entity_is_accepted_exactly(names: Set<Seq<char>>, entity: EntityDefView)
    ensures
        entity_analysis(names, entity) is Ok <==> {
            let fields = entity.fields;
            &&& forall|i: int|
                0 <= i < fields.len() ==> !((#[trigger] fields[i]).name.text == "created_at"@
                    && entity.attrs.has_created_at)
            &&& forall|i: int|
                0 <= i < fields.len() ==> !((#[trigger] fields[i]).name.text == "updated_at"@
                    && entity.attrs.has_updated_at)
            &&& forall|i: int|
                0 <= i < fields.len() && (#[trigger] fields[i]).ty is Vec ==> names.contains(
                    fields[i].ty->inner.text,
                )
            &&& forall|i: int|
                0 <= i < fields.len() && (#[trigger] fields[i]).ty is Unknown ==> names.contains(
                    fields[i].ty->name.text,
                )
            &&& forall|i: int|
                0 <= i < fields.len() && (#[trigger] fields[i]).attrs.related ==> fields[i].ty
                    is Unknown
            &&& forall|i: int, j: int|
                0 <= i < j < fields.len() && (#[trigger] fields[i]).ty is Vec && (
                #[trigger] fields[j]).ty is Vec ==> fields[i].ty->inner.text
                    != fields[j].ty->inner.text
            &&& forall|i: int, j: int|
                0 <= i < j < fields.len() && (#[trigger] fields[i]).ty is Unknown && (
                #[trigger] fields[j]).ty is Unknown && fields[i].attrs.related
                    && fields[j].attrs.related ==> fields[i].ty->name.text
                    != fields[j].ty->name.text
            &&& forall|i: int, j: int|
                0 <= i < j < fields.len() && (#[trigger] fields[i]).ty is Unknown && (
                #[trigger] fields[j]).ty is Unknown && fields[i].ty->name.text
                    == fields[j].ty->name.text ==> exists|m: int|
                    0 <= m < fields.len() && (#[trigger] fields[m]).ty is Unknown
                        && fields[m].ty->name.text == fields[i].ty->name.text
                        && fields[m].attrs.related
            &&& forall|column: Seq<char>|
                entity.attrs.primary_key is Some
                    && #[trigger] entity.attrs.primary_key->Some_0.contains(column) ==> exists|
                    i: int,
                |
                    0 <= i < fields.len() && (#[trigger] fields[i]).name.text == column
            &&& forall|i: int|
                0 <= i < fields.len() && entity.attrs.primary_key is Some
                    && entity.attrs.primary_key->Some_0.contains((#[trigger] fields[i]).name.text)
                    ==> fields[i].ty is Scalar
        },
{
    let fields = entity.fields;
    law_entity_accepted_iff_valid(names, entity);
    if valid_entity(names, entity) {
        assert forall|i: int, j: int|
            0 <= i < j < fields.len() && (#[trigger] fields[i]).ty is Vec && (
            #[trigger] fields[j]).ty is Vec implies fields[i].ty->inner.text
            != fields[j].ty->inner.text by {
            let name = fields[i].ty->inner.text;
            assert(is_vec_of(fields[i], name));
            assert(is_vec_of(fields[j], name) ==> i == j);
        }
        assert forall|i: int, j: int|
            0 <= i < j < fields.len() && (#[trigger] fields[i]).ty is Unknown && (
            #[trigger] fields[j]).ty is Unknown && fields[i].attrs.related
                && fields[j].attrs.related implies fields[i].ty->name.text
            != fields[j].ty->name.text by {
            let name = fields[i].ty->name.text;
            assert(is_one_of(fields[i], name));
            assert(is_one_of(fields[j], name) ==> i == j);
        }
        assert forall|i: int, j: int|
            0 <= i < j < fields.len() && (#[trigger] fields[i]).ty is Unknown && (
            #[trigger] fields[j]).ty is Unknown && fields[i].ty->name.text
                == fields[j].ty->name.text implies exists|m: int|
            0 <= m < fields.len() && (#[trigger] fields[m]).ty is Unknown
                && fields[m].ty->name.text == fields[i].ty->name.text
                && fields[m].attrs.related by {
            let name = fields[i].ty->name.text;
            assert(is_one_of(fields[i], name) && is_one_of(fields[j], name));
            let m = choose|m: int|
                0 <= m < fields.len() && #[trigger] is_one_of(fields[m], name)
                    && fields[m].attrs.related;
            assert(fields[m].ty is Unknown);
        }
        assert forall|column: Seq<char>|
            entity.attrs.primary_key is Some
                && #[trigger] entity.attrs.primary_key->Some_0.contains(column) implies exists|
            i: int,
        |
            0 <= i < fields.len() && (#[trigger] fields[i]).name.text == column by {
            let columns = entity.attrs.primary_key->Some_0;
            let c = choose|c: int| 0 <= c < columns.len() && columns[c] == column;
            assert(has_field(fields, columns[c]));
        }
    }
    if {
        &&& forall|i: int, j: int|
            0 <= i < j < fields.len() && (#[trigger] fields[i]).ty is Vec && (
            #[trigger] fields[j]).ty is Vec ==> fields[i].ty->inner.text
                != fields[j].ty->inner.text
    } {
        assert(vecs_distinct(fields)) by {
            assert forall|i: int, j: int, name: Seq<char>|
                0 <= i < fields.len() && 0 <= j < fields.len() && #[trigger] is_vec_of(
                    fields[i],
                    name,
                ) && #[trigger] is_vec_of(fields[j], name) implies i == j by {
                assert(fields[i].ty is Vec && fields[j].ty is Vec);
            }
        }
    }
    if forall|i: int, j: int|
        0 <= i < j < fields.len() && (#[trigger] fields[i]).ty is Unknown && (
        #[trigger] fields[j]).ty is Unknown && fields[i].attrs.related && fields[j].attrs.related
            ==> fields[i].ty->name.text != fields[j].ty->name.text {
        assert(marks_distinct(fields)) by {
            assert forall|i: int, j: int, name: Seq<char>|
                0 <= i < fields.len() && 0 <= j < fields.len() && #[trigger] is_one_of(
                    fields[i],
                    name,
                ) && #[trigger] is_one_of(fields[j], name) && fields[i].attrs.related
                    && fields[j].attrs.related implies i == j by {
                assert(fields[i].ty is Unknown && fields[j].ty is Unknown);
            }
        }
    }
    if forall|i: int, j: int|
        0 <= i < j < fields.len() && (#[trigger] fields[i]).ty is Unknown && (
        #[trigger] fields[j]).ty is Unknown && fields[i].ty->name.text == fields[j].ty->name.text
            ==> exists|m: int|
            0 <= m < fields.len() && (#[trigger] fields[m]).ty is Unknown
                && fields[m].ty->name.text == fields[i].ty->name.text && fields[m].attrs.related {
        assert(choices_made(fields)) by {
            assert forall|i: int, j: int, name: Seq<char>|
                0 <= i < fields.len() && 0 <= j < fields.len() && i != j && #[trigger] is_one_of(
                    fields[i],
                    name,
                ) && #[trigger] is_one_of(fields[j], name) implies exists|m: int|
                0 <= m < fields.len() && #[trigger] is_one_of(fields[m], name)
                    && fields[m].attrs.related by {
                let (a, b) = if i < j {
                    (i, j)
                } else {
                    (j, i)
                };
                assert(fields[a].ty is Unknown && fields[b].ty is Unknown);
                let m = choose|m: int|
                    0 <= m < fields.len() && (#[trigger] fields[m]).ty is Unknown
                        && fields[m].ty->name.text == fields[a].ty->name.text
                        && fields[m].attrs.related;
                assert(is_one_of(fields[m], name));
            }
        }
    }
    if entity.attrs.primary_key is Some {
        let columns = entity.attrs.primary_key->Some_0;
        if forall|column: Seq<char>|
            #[trigger] entity.attrs.primary_key->Some_0.contains(column) ==> exists|i: int|
                0 <= i < fields.len() && (#[trigger] fields[i]).name.text == column {
            assert forall|c: int| 0 <= c < columns.len() implies has_field(
                fields,
                #[trigger] columns[c],
            ) by {
                assert(entity.attrs.primary_key->Some_0.contains(columns[c]));
            }
        }
    }
}

/// An accepted entity comes out with its attributes, its name, its place and as many fields as it
/// has. Each field comes out with its attributes, its name and its place, and
///
/// - a scalar as that scalar, optional if it is written so,
/// - `Vec<T>` as a has_many of `T`,
/// - `T` as a belongs_to of `T`, and `Option<T>` as an optional one.
pub proof fn law_accepted_entity_comes_out(names: Set<Seq<char>>, entity: EntityDefView)
    requires
        entity_analysis(names, entity) is Ok,
    ensures
        ({
            let out = entity_analysis(names, entity)->Ok_0;
            &&& out.attrs == entity.attrs
            &&& out.name == entity.name
            &&& out.span == entity.span
            &&& out.fields.len() == entity.fields.len()
            &&& forall|f: int|
                0 <= f < entity.fields.len() ==> (#[trigger] out.fields[f]).attrs
                    == entity.fields[f].attrs && out.fields[f].name == entity.fields[f].name
                    && out.fields[f].span == entity.fields[f].span
            &&& forall|f: int|
                0 <= f < entity.fields.len() ==> match entity.fields[f].ty {
                    RawFieldTypeView::Scalar { scalar, optional } => (#[trigger] out.fields[f]).ty
                        == (FieldTypeView::Scalar { scalar, optional }),
                    RawFieldTypeView::Vec { inner } => out.fields[f].ty == (
                    FieldTypeView::HasMany { target: inner }),
                    RawFieldTypeView::Unknown { name, optional } => out.fields[f].ty == (
                    FieldTypeView::BelongsTo { target: name, optional }),
                }
        }),
{
    let out = entity_analysis(names, entity)->Ok_0;
    let raw = entity.fields;
    let check = type_check(names, raw);
    lemma_first_some(raw.len(), check);
    assert forall|f: int| 0 <= f < raw.len() implies (#[trigger] out.fields[f]).attrs
        == raw[f].attrs && out.fields[f].name == raw[f].name && out.fields[f].span
        == raw[f].span by {
        assert(resolved_fields(names, raw)[f] == resolved_field(names, raw[f]));
    }
    assert forall|f: int| 0 <= f < raw.len() implies match raw[f].ty {
        RawFieldTypeView::Scalar { scalar, optional } => (#[trigger] out.fields[f]).ty == (
        FieldTypeView::Scalar { scalar, optional }),
        RawFieldTypeView::Vec { inner } => out.fields[f].ty == (FieldTypeView::HasMany {
            target: inner,
        }),
        RawFieldTypeView::Unknown { name, optional } => out.fields[f].ty == (
        FieldTypeView::BelongsTo { target: name, optional }),
    } by {
        assert(check(f) is None);
        assert(resolved_fields(names, raw)[f] == resolved_field(names, raw[f]));
    }
}

/// Whether the type of a written field refers to an entity of the given name.
pub open spec fn refers_to(field: FieldDefView, name: Seq<char>) -> bool {
    match field.ty {
        RawFieldTypeView::Scalar { .. } => false,
        RawFieldTypeView::Vec { inner } => inner.text == name,
        RawFieldTypeView::Unknown { name: ty, .. } => ty.text == name,
    }
}

/// Whether a field is to own `Related`, as the fields are written: a `Vec<T>` where no other field
/// refers to `T`; a `T` or `Option<T>` that is marked, or where no other field is one.
pub open spec fn is_to_own(fields: Seq<FieldDefView>, f: int) -> bool {
    match fields[f].ty {
        RawFieldTypeView::Scalar { .. } => false,
        RawFieldTypeView::Vec { inner } => forall|j: int|
            0 <= j < fields.len() && refers_to(#[trigger] fields[j], inner.text) ==> j == f,
        RawFieldTypeView::Unknown { name, .. } => fields[f].attrs.related || forall|j: int|
            0 <= j < fields.len() && refers_to(#[trigger] fields[j], name.text)
                && fields[j].ty is Unknown ==> j == f,
    }
}

/// In an accepted entity a field owns `Related` exactly if it is to, as the fields are written.
pub proof fn law_owners_are_those_written(names: Set<Seq<char>>, entity: EntityDefView, f: int)
    requires
        entity_analysis(names, entity) is Ok,
        0 <= f < entity.fields.len(),
    ensures
        entity_analysis(names, entity)->Ok_0.fields[f].implements_related <==> is_to_own(
            entity.fields,
            f,
        ),
{
    let raw = entity.fields;
    let out = entity_analysis(names, entity)->Ok_0.fields;
    law_accepted_entity_comes_out(names, entity);
    law_owner_is_the_nominated_field(names, entity, f);
    assert(out[f].attrs == raw[f].attrs);
    assert forall|j: int, name: Seq<char>| 0 <= j < raw.len() implies (points_at(
        #[trigger] out[j],
        name,
    ) <==> #[trigger] refers_to(raw[j], name)) && (out[j].ty is BelongsTo <==> raw[j].ty
        is Unknown) && (out[j].ty is HasMany <==> raw[j].ty is Vec) by {}
    if !(raw[f].ty is Scalar) {
        let name = (target_of(out[f].ty)->Some_0).text;
        assert(refers_to(raw[f], name));
        if nominated(out, f) && !is_to_own(raw, f) {
            let j = choose|j: int|
                0 <= j < raw.len() && refers_to(#[trigger] raw[j], name) && j != f && (raw[f].ty
                    is Unknown ==> raw[j].ty is Unknown);
            assert(points_at(out[j], name));
            assert(same_target(out[f], out[j]));
        }
        if is_to_own(raw, f) {
            assert forall|j: int|
                0 <= j < raw.len() && same_target(out[f], #[trigger] out[j]) implies refers_to(
                raw[j],
                name,
            ) by {
                assert(points_at(out[j], name));
            }
            if raw[f].ty is Unknown && !raw[f].attrs.related {
                assert forall|j: int|
                    0 <= j < raw.len() && same_target(out[f], #[trigger] out[j]) && out[j].ty
                        is BelongsTo implies j == f by {
                    assert(refers_to(raw[j], name));
                }
            }
        }
    }
}

/// A schema is what its entities are. Where no two have one name, it is accepted exactly if each
/// entity is, and then they come out one by one; and what is reported otherwise is what is wrong
/// with the first one that is not accepted.
pub proof fn law_schema_is_its_entities(entities: Seq<EntityDefView>, names: Set<Seq<char>>)
    requires
        forall|name: Seq<char>| #[trigger]
            names.contains(name) <==> exists|i: int|
                0 <= i < entities.len() && (#[trigger] entities[i]).name.text == name,
        forall|i: int, j: int|
            0 <= i < j < entities.len() ==> (#[trigger] entities[i]).name.text != (
            #[trigger] entities[j]).name.text,
    ensures
        schema_analysis(entities) is Ok <==> forall|i: int|
            0 <= i < entities.len() ==> entity_analysis(names, #[trigger] entities[i]) is Ok,
        schema_analysis(entities) matches Ok(out) ==> out.len() == entities.len() && forall|i: int|
            0 <= i < entities.len() ==> entity_analysis(names, entities[i]) == Ok::<
                AnalyzedEntityView,
                Seq<Message>,
            >(#[trigger] out[i]),
        forall|i: int|
            0 <= i < entities.len() && entity_analysis(names, #[trigger] entities[i]) is Err && (
            forall|j: int|
                0 <= j < i ==> entity_analysis(names, #[trigger] entities[j]) is Ok)
                ==> schema_analysis(entities) == Err::<Seq<AnalyzedEntityView>, Seq<Message>>(
                entity_analysis(names, entities[i])->Err_0,
            ),
{
    assert(names =~= entity_names(entities));
    let check = entity_check(names, entities);
    assert(names_distinct(entities)) by {
        assert forall|i: int, j: int|
            0 <= i < entities.len() && 0 <= j < entities.len() && (
            #[trigger] entities[i]).name.text == (#[trigger] entities[j]).name.text implies i
            == j by {
            if i < j {
                assert(entities[i].name.text != entities[j].name.text);
            } else if j < i {
                assert(entities[j].name.text != entities[i].name.text);
            }
        }
    }
    lemma_names(entities);
    lemma_first_some(entities.len(), check);
    assert forall|i: int| 0 <= i < entities.len() implies (#[trigger] check(i) is None
        <==> entity_analysis(names, entities[i]) is Ok) by {}
    if first_some(entities.len(), check) is None {
        assert forall|i: int| 0 <= i < entities.len() implies entity_analysis(
            names,
            #[trigger] entities[i],
        ) is Ok by {
            assert(check(i) is None);
        }
    }
    assert forall|i: int|
        0 <= i < entities.len() && entity_analysis(names, #[trigger] entities[i]) is Err && (
        forall|j: int|
            0 <= j < i ==> entity_analysis(
                names,
                #[trigger] entities[j],
            ) is Ok) implies schema_analysis(entities) == Err::<
        Seq<AnalyzedEntityView>,
        Seq<Message>,
    >(entity_analysis(names, entities[i])->Err_0) by {
        assert(check(i) is Some);
        assert forall|j: int| 0 <= j < i implies #[trigger] check(j) is None by {
            assert(entity_analysis(names, entities[j]) is Ok);
        }
    }
}

/// Where two entities have one name, the schema is rejected. What is reported is the first entity
/// that has the name of an earlier one, at its name, and nothing else.
pub proof fn law_duplicate_is_reported(entities: Seq<EntityDefView>, i: int, j: int)
    requires
        0 <= j < i < entities.len(),
        entities[j].name.text == entities[i].name.text,
        forall|a: int, b: int|
            0 <= a < b < i ==> (#[trigger] entities[a]).name.text != (
            #[trigger] entities[b]).name.text,
    ensures
        schema_analysis(entities) == Err::<Seq<AnalyzedEntityView>, Seq<Message>>(
            seq![
                (
                    entities[i].name.span,
                    "duplicate entity name '"@ + entities[i].name.text + "'"@,
                ),
            ],
        ),
{
    let check = duplicate_check(entities);
    lemma_first_some(entities.len(), check);
    assert(check(i) is Some);
    assert forall|b: int| 0 <= b < i implies #[trigger] check(b) is None by {
        if check(b) is Some {
            let a = choose|a: int|
                0 <= a < b && (#[trigger] entities[a]).name.text == entities[b].name.text;
            assert(entities[a].name.text != entities[b].name.text);
        }
    }
}

// ---- Schemas ----

/// In an accepted schema no two entities have one name, and each entity is accepted where the
/// names are those of all entities, and comes out as it does by itself.
pub proof fn law_accepted_schema(entities: Seq<EntityDefView>, names: Set<Seq<char>>)
    requires
        schema_analysis(entities) is Ok,
        forall|name: Seq<char>| #[trigger]
            names.contains(name) <==> exists|i: int|
                0 <= i < entities.len() && (#[trigger] entities[i]).name.text == name,
    ensures
        forall|i: int, j: int|
            0 <= i < j < entities.len() ==> (#[trigger] entities[i]).name.text != (
            #[trigger] entities[j]).name.text,
        schema_analysis(entities)->Ok_0.len() == entities.len(),
        forall|i: int|
            0 <= i < entities.len() ==> entity_analysis(names, entities[i]) == Ok::<
                AnalyzedEntityView,
                Seq<Message>,
            >(#[trigger] schema_analysis(entities)->Ok_0[i]),
{
    lemma_names(entities);
    assert forall|i: int, j: int| 0 <= i < j < entities.len() implies (
    #[trigger] entities[i]).name.text != (#[trigger] entities[j]).name.text by {}
    law_schema_is_its_entities(entities, names);
}

/// The fields of an accepted schema come out with the types that they are written with: a scalar
/// as that scalar, `Vec<T>` as a has_many of `T`, `T` as a belongs_to of `T`, and an `Option` of a
/// scalar or of `T` as optional.
pub open spec fn types_as_written(
    entities: Seq<EntityDefView>,
    out: Seq<AnalyzedEntityView>,
) -> bool {
    forall|e: int, f: int|
        0 <= e < entities.len() && 0 <= f < entities[e].fields.len()
            ==> match entities[e].fields[f].ty {
            RawFieldTypeView::Scalar { scalar, optional } => (#[trigger] out[e].fields[f]).ty == (
            FieldTypeView::Scalar { scalar, optional }),
            RawFieldTypeView::Vec { inner } => out[e].fields[f].ty == (FieldTypeView::HasMany {
                target: inner,
            }),
            RawFieldTypeView::Unknown { name, optional } => out[e].fields[f].ty == (
            FieldTypeView::BelongsTo { target: name, optional }),
        }
}

/// Everything else comes out as it is written: the entities in their order, each with its
/// attributes, its name, its place and its fields; and the fields in their order, each with its
/// attributes, its name and its place.
pub open spec fn kept_as_written(
    entities: Seq<EntityDefView>,
    out: Seq<AnalyzedEntityView>,
) -> bool {
    &&& out.len() == entities.len()
    &&& forall|e: int|
        0 <= e < entities.len() ==> (#[trigger] out[e]).attrs == entities[e].attrs && out[e].name
            == entities[e].name && out[e].span == entities[e].span && out[e].fields.len()
            == entities[e].fields.len()
    &&& forall|e: int, f: int|
        0 <= e < entities.len() && 0 <= f < entities[e].fields.len() ==> (
        #[trigger] out[e].fields[f]).attrs == entities[e].fields[f].attrs && out[e].fields[f].name
            == entities[e].fields[f].name && out[e].fields[f].span == entities[e].fields[f].span
}

/// A field owns `Related` exactly if it is to, as the fields of its entity are written.
pub open spec fn owners_as_written(
    entities: Seq<EntityDefView>,
    out: Seq<AnalyzedEntityView>,
) -> bool {
    forall|e: int, f: int|
        0 <= e < entities.len() && 0 <= f < entities[e].fields.len() ==> ((
        #[trigger] out[e].fields[f]).implements_related <==> is_to_own(entities[e].fields, f))
}

/// Whether an analyzed field is a relationship to the entity of the given name.
pub open spec fn relates_to(field: AnalyzedFieldView, name: Seq<char>) -> bool {
    match field.ty {
        FieldTypeView::Scalar { .. } => false,
        FieldTypeView::HasMany { target } => target.text == name,
        FieldTypeView::BelongsTo { target, .. } => target.text == name,
    }
}

/// Whether each entity that a field of `entity` relates to has one owner of `Related` among the
/// fields, and one only.
pub open spec fn one_owner_each(entity: AnalyzedEntityView) -> bool {
    let fields = entity.fields;
    &&& forall|f: int, name: Seq<char>|
        0 <= f < fields.len() && #[trigger] relates_to(fields[f], name) ==> exists|o: int|
            0 <= o < fields.len() && #[trigger] relates_to(fields[o], name)
                && fields[o].implements_related
    &&& forall|o: int, p: int, name: Seq<char>|
        0 <= o < p < fields.len() && #[trigger] relates_to(fields[o], name)
            && #[trigger] relates_to(fields[p], name) ==> !(fields[o].implements_related
            && fields[p].implements_related)
    &&& forall|f: int|
        0 <= f < fields.len() && (#[trigger] fields[f]).ty is Scalar
            ==> !fields[f].implements_related
}

/// The types of an accepted schema come out as they are written.
pub proof fn law_types_come_out_as_written(entities: Seq<EntityDefView>)
    requires
        schema_analysis(entities) is Ok,
    ensures
        types_as_written(entities, schema_analysis(entities)->Ok_0),
        kept_as_written(entities, schema_analysis(entities)->Ok_0),
{
    let names = entity_names(entities);
    let out = schema_analysis(entities)->Ok_0;
    law_accepted_schema(entities, names);
    assert forall|e: int, f: int| 0 <= e < entities.len() && 0 <= f < entities[e].fields.len() implies match entities[e].fields[f].ty {
        RawFieldTypeView::Scalar { scalar, optional } => (#[trigger] out[e].fields[f]).ty == (
        FieldTypeView::Scalar { scalar, optional }),
        RawFieldTypeView::Vec { inner } => out[e].fields[f].ty == (FieldTypeView::HasMany {
            target: inner,
        }),
        RawFieldTypeView::Unknown { name, optional } => out[e].fields[f].ty == (
        FieldTypeView::BelongsTo { target: name, optional }),
    } by {
        law_accepted_entity_comes_out(names, entities[e]);
        assert(entity_analysis(names, entities[e])->Ok_0 == out[e]);
        assert(out[e].fields[f].attrs == entities[e].fields[f].attrs);
    }
    assert forall|e: int| 0 <= e < entities.len() implies (#[trigger] out[e]).attrs
        == entities[e].attrs && out[e].name == entities[e].name && out[e].span == entities[e].span
        && out[e].fields.len() == entities[e].fields.len() by {
        law_accepted_entity_comes_out(names, entities[e]);
    }
    assert forall|e: int, f: int| 0 <= e < entities.len() && 0 <= f < entities[e].fields.len() implies (
    #[trigger] out[e].fields[f]).attrs == entities[e].fields[f].attrs && out[e].fields[f].name
        == entities[e].fields[f].name && out[e].fields[f].span == entities[e].fields[f].span by {
        law_accepted_entity_comes_out(names, entities[e]);
        assert(entity_analysis(names, entities[e])->Ok_0 == out[e]);
    }
}

/// The owners in an accepted schema are those that are written, whatever else is written about the
/// entity or the field.
pub proof fn law_owners_of_schema_are_those_written(entities: Seq<EntityDefView>)
    requires
        schema_analysis(entities) is Ok,
    ensures
        owners_as_written(entities, schema_analysis(entities)->Ok_0),
{
    let names = entity_names(entities);
    let out = schema_analysis(entities)->Ok_0;
    law_accepted_schema(entities, names);
    assert forall|e: int, f: int| 0 <= e < entities.len() && 0 <= f < entities[e].fields.len() implies ((
    #[trigger] out[e].fields[f]).implements_related <==> is_to_own(entities[e].fields, f)) by {
        assert(entity_analysis(names, entities[e])->Ok_0 == out[e]);
        law_owners_are_those_written(names, entities[e], f);
    }
}

/// In each entity of an accepted schema every entity that is referred to has exactly one field
/// that owns `Related` for it. A field that is the only one to refer to it is that field.
pub proof fn law_schema_has_one_owner_each(entities: Seq<EntityDefView>, e: int)
    requires
        schema_analysis(entities) is Ok,
        0 <= e < entities.len(),
    ensures
        one_owner_each(schema_analysis(entities)->Ok_0[e]),
        forall|f: int|
            #![trigger schema_analysis(entities)->Ok_0[e].fields[f]]
            0 <= f < entities[e].fields.len() && !(entities[e].fields[f].ty is Scalar) && (forall|
                j: int,
                name: Seq<char>,
            |
                0 <= j < entities[e].fields.len() && j != f && refers_to(entities[e].fields[f], name)
                    ==> !#[trigger] refers_to(entities[e].fields[j], name))
                ==> schema_analysis(entities)->Ok_0[e].fields[f].implements_related,
{
    let names = entity_names(entities);
    let out = schema_analysis(entities)->Ok_0[e];
    let raw = entities[e].fields;
    law_accepted_schema(entities, names);
    assert(entity_analysis(names, entities[e])->Ok_0 == out);
    law_accepted_entity_comes_out(names, entities[e]);
    assert forall|j: int, name: Seq<char>| 0 <= j < raw.len() implies (#[trigger] relates_to(
        out.fields[j],
        name,
    ) <==> points_at(out.fields[j], name)) && (relates_to(out.fields[j], name) <==> refers_to(
        raw[j],
        name,
    )) by {
        assert(out.fields[j].attrs == raw[j].attrs);
    }
    assert forall|f: int, name: Seq<char>|
        0 <= f < out.fields.len() && #[trigger] relates_to(out.fields[f], name) implies exists|
        o: int,
    |
        0 <= o < out.fields.len() && #[trigger] relates_to(out.fields[o], name)
            && out.fields[o].implements_related by {
        law_one_owner_per_target(names, entities[e], f);
        let o = choose|o: int|
            0 <= o < out.fields.len() && same_target(out.fields[f], #[trigger] out.fields[o])
                && out.fields[o].implements_related;
        assert(relates_to(out.fields[o], name));
    }
    assert forall|o: int, p: int, name: Seq<char>|
        0 <= o < p < out.fields.len() && #[trigger] relates_to(out.fields[o], name)
            && #[trigger] relates_to(out.fields[p], name) implies !(
    out.fields[o].implements_related && out.fields[p].implements_related) by {
        law_one_owner_per_target(names, entities[e], o);
        assert(same_target(out.fields[o], out.fields[o]));
        assert(same_target(out.fields[o], out.fields[p]));
    }
    assert forall|f: int| 0 <= f < out.fields.len() && (#[trigger] out.fields[f]).ty is Scalar implies !out.fields[f].implements_related by {
        law_owners_are_those_written(names, entities[e], f);
    }
    assert forall|f: int|
        #![trigger out.fields[f]]
        0 <= f < raw.len() && !(raw[f].ty is Scalar) && (forall|j: int, name: Seq<char>|
            0 <= j < raw.len() && j != f && refers_to(raw[f], name) ==> !#[trigger] refers_to(
                raw[j],
                name,
            )) implies out.fields[f].implements_related by {
        law_owners_are_those_written(names, entities[e], f);
    }
}

/// In an accepted schema a marked field is a belongs_to that owns `Related`, and no other field of
/// its entity to the same target does.
pub proof fn law_mark_excludes_others(entities: Seq<EntityDefView>, e: int, f: int, j: int)
    requires
        schema_analysis(entities) is Ok,
        0 <= e < entities.len(),
        0 <= f < entities[e].fields.len(),
        0 <= j < entities[e].fields.len(),
        entities[e].fields[f].attrs.related,
    ensures
        schema_analysis(entities)->Ok_0[e].fields[f].ty is BelongsTo,
        schema_analysis(entities)->Ok_0[e].fields[f].implements_related,
        j != f && (exists|name: Seq<char>| #[trigger]
            refers_to(entities[e].fields[f], name) && refers_to(entities[e].fields[j], name))
            ==> !schema_analysis(entities)->Ok_0[e].fields[j].implements_related,
{
    let names = entity_names(entities);
    let out = schema_analysis(entities)->Ok_0[e];
    let raw = entities[e].fields;
    law_accepted_schema(entities, names);
    assert(entity_analysis(names, entities[e])->Ok_0 == out);
    law_marked_field_owns(names, entities[e], f);
    law_schema_has_one_owner_each(entities, e);
    law_accepted_entity_comes_out(names, entities[e]);
    assert(out.fields[f].attrs == raw[f].attrs);
    assert(out.fields[j].attrs == raw[j].attrs);
    if j != f && exists|name: Seq<char>| #[trigger]
        refers_to(raw[f], name) && refers_to(raw[j], name) {
        let name = choose|name: Seq<char>| #[trigger]
            refers_to(raw[f], name) && refers_to(raw[j], name);
        assert(relates_to(out.fields[f], name));
        assert(relates_to(out.fields[j], name));
    }
}

/// A schema with a field that refers to no entity of it is rejected.
pub proof fn law_dangling_reference_is_rejected(
    entities: Seq<EntityDefView>,
    e: int,
    f: int,
    name: Seq<char>,
)
    requires
        0 <= e < entities.len(),
        0 <= f < entities[e].fields.len(),
        refers_to(entities[e].fields[f], name),
        forall|i: int| 0 <= i < entities.len() ==> (#[trigger] entities[i]).name.text != name,
    ensures
        schema_analysis(entities) is Err,
{
    if schema_analysis(entities) is Ok {
        let names = entity_names(entities);
        law_accepted_schema(entities, names);
        assert(entity_analysis(names, entities[e])->Ok_0 == schema_analysis(entities)->Ok_0[e]);
        law_entity_is_accepted_exactly(names, entities[e]);
        assert(!names.contains(name));
    }
}

} // verus!
