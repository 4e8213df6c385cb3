//! What holds of analysis as a whole.

use vstd::prelude::*;

use crate::analyzed::{AnalyzedEntityView, AnalyzedFieldView};
use crate::definitions::{EntityDefView, FieldDefView, RawFieldTypeView};
use crate::diagnostics::Message;
use crate::identifier::IdentifierView;
use crate::ownership::{
    lemma_group_exists, lemma_group_kinds, lemma_groups, lemma_kind_counts,
    lemma_nominated_is_owner, lemma_owner_iff_settled, lemma_owner_is_member,
    lemma_owner_is_nominated, lemma_owner_points, nominated, same_target, settled,
};
use crate::rules::{
    belongs_to_owner, belongs_to_test, column_check, duplicate_check, entity_analysis, entity_check,
    entity_names, group_of, group_owner, group_problems, groups, has_many_problem, key_problem,
    key_type_check, leader_test, leaders, mark_check, marked_test, member_test, members,
    other_kind_test, ownership_problems, owns_related, points_at, relation_problems, resolved_field,
    resolved_fields, resolved_type, schema_analysis, target_of, timestamp_check, type_check,
    with_owners,
};
use crate::sequences::{first_some, gathered, lemma_first_some, lemma_positions};
use crate::types::FieldTypeView;
use crate::validity::{
    choices_made, has_field, is_one_of, is_vec_of, key_valid, marks_distinct, marks_placed,
    names_distinct, no_generated_column, types_known, valid_entity, valid_schema, vecs_distinct,
};

verus! {

// ---- What is accepted ----

/// Nothing is gathered exactly if there is nothing at any position.
proof fn lemma_gathered_empty<A>(n: nat, lists: spec_fn(int) -> Seq<A>)
    ensures
        gathered(n, lists).len() == 0 <==> forall|k: int|
            0 <= k < n ==> (#[trigger] lists(k)).len() == 0,
    decreases n,
{
    if n > 0 {
        lemma_gathered_empty((n - 1) as nat, lists);
    }
}

/// There is nothing wrong with any group exactly if all are settled.
pub(crate) proof fn lemma_no_ownership_problem(entity: IdentifierView, fields: Seq<AnalyzedFieldView>)
    ensures
        ownership_problems(entity, fields).len() == 0 <==> forall|i: int|
            0 <= i < fields.len() && target_of((#[trigger] fields[i]).ty) is Some ==> settled(
                fields,
                (target_of(fields[i].ty)->Some_0).text,
            ),
{
    let problems = group_problems(entity, fields);
    lemma_gathered_empty(groups(fields).len(), problems);
    lemma_groups(fields);
    if ownership_problems(entity, fields).len() == 0 {
        assert forall|i: int|
            0 <= i < fields.len() && target_of((#[trigger] fields[i]).ty) is Some implies settled(
            fields,
            (target_of(fields[i].ty)->Some_0).text,
        ) by {
            let k = lemma_group_exists(fields, i);
            let target = groups(fields)[k].0;
            assert(problems(k).len() == 0);
            lemma_owner_is_member(entity, target, groups(fields)[k].1, fields);
            lemma_owner_iff_settled(entity, fields, target, i);
        }
    }
    if forall|i: int|
        0 <= i < fields.len() && target_of((#[trigger] fields[i]).ty) is Some ==> settled(
            fields,
            (target_of(fields[i].ty)->Some_0).text,
        ) {
        assert forall|k: int| 0 <= k < groups(fields).len() implies (#[trigger] problems(k)).len()
            == 0 by {
            let i = leaders(fields)[k];
            assert(groups(fields)[k] == group_of(fields, i));
            assert(settled(fields, (target_of(fields[i].ty)->Some_0).text));
            lemma_owner_iff_settled(entity, fields, groups(fields)[k].0, i);
        }
    }
}

/// A resolved field is of the kind that its written type shows.
pub(crate) proof fn lemma_resolved(names: Set<Seq<char>>, fields: Seq<FieldDefView>)
    requires
        types_known(names, fields),
    ensures
        resolved_fields(names, fields).len() == fields.len(),
        forall|i: int|
            0 <= i < fields.len() ==> {
                let field = #[trigger] resolved_fields(names, fields)[i];
                &&& field.attrs == fields[i].attrs
                &&& field.name == fields[i].name
                &&& field.ty is Scalar <==> fields[i].ty is Scalar
                &&& field.ty is HasMany <==> fields[i].ty is Vec
                &&& field.ty is BelongsTo <==> fields[i].ty is Unknown
            },
        forall|i: int, name: Seq<char>|
            0 <= i < fields.len() ==> (#[trigger] points_at(
                resolved_fields(names, fields)[i],
                name,
            ) <==> is_vec_of(fields[i], name) || is_one_of(fields[i], name)),
{
    assert forall|i: int| 0 <= i < fields.len() implies {
        let field = #[trigger] resolved_fields(names, fields)[i];
        &&& field.attrs == fields[i].attrs
        &&& field.name == fields[i].name
        &&& field.ty is Scalar <==> fields[i].ty is Scalar
        &&& field.ty is HasMany <==> fields[i].ty is Vec
        &&& field.ty is BelongsTo <==> fields[i].ty is Unknown
    } by {
        assert(resolved_fields(names, fields)[i] == resolved_field(names, fields[i]));
        assert(resolved_type(names, fields[i].ty) is Ok);
    }
    assert forall|i: int, name: Seq<char>| 0 <= i < fields.len() implies (#[trigger] points_at(
        resolved_fields(names, fields)[i],
        name,
    ) <==> is_vec_of(fields[i], name) || is_one_of(fields[i], name)) by {
        assert(resolved_fields(names, fields)[i] == resolved_field(names, fields[i]));
        assert(resolved_type(names, fields[i].ty) is Ok);
    }
}

/// All groups are settled exactly if nothing among the written fields leaves one open.
proof fn lemma_all_settled(names: Set<Seq<char>>, raw: Seq<FieldDefView>)
    requires
        types_known(names, raw),
    ensures
        (forall|i: int|
            0 <= i < raw.len() && target_of((#[trigger] resolved_fields(names, raw)[i]).ty) is Some
                ==> settled(
                resolved_fields(names, raw),
                (target_of(resolved_fields(names, raw)[i].ty)->Some_0).text,
            )) <==> vecs_distinct(raw) && marks_distinct(raw) && choices_made(raw),
{
    let fields = resolved_fields(names, raw);
    lemma_resolved(names, raw);
    if forall|i: int|
        0 <= i < raw.len() && target_of((#[trigger] fields[i]).ty) is Some ==> settled(
            fields,
            (target_of(fields[i].ty)->Some_0).text,
        ) {
        assert forall|i: int, name: Seq<char>|
            0 <= i < raw.len() && #[trigger] points_at(fields[i], name) implies settled(
            fields,
            name,
        ) by {
            assert(target_of(fields[i].ty) is Some);
        }
        assert(vecs_distinct(raw)) by {
            assert forall|i: int, j: int, name: Seq<char>|
                0 <= i < raw.len() && 0 <= j < raw.len() && #[trigger] is_vec_of(raw[i], name)
                    && #[trigger] is_vec_of(raw[j], name) implies i == j by {
                assert(points_at(fields[i], name) && points_at(fields[j], name));
            }
        }
        assert(marks_distinct(raw)) by {
            assert forall|i: int, j: int, name: Seq<char>|
                0 <= i < raw.len() && 0 <= j < raw.len() && #[trigger] is_one_of(raw[i], name)
                    && #[trigger] is_one_of(raw[j], name) && raw[i].attrs.related
                    && raw[j].attrs.related implies i == j by {
                assert(points_at(fields[i], name) && points_at(fields[j], name));
            }
        }
        assert(choices_made(raw)) by {
            assert forall|i: int, j: int, name: Seq<char>|
                0 <= i < raw.len() && 0 <= j < raw.len() && i != j && #[trigger] is_one_of(
                    raw[i],
                    name,
                ) && #[trigger] is_one_of(raw[j], name) implies exists|m: int|
                0 <= m < raw.len() && #[trigger] is_one_of(raw[m], name)
                    && raw[m].attrs.related by {
                assert(points_at(fields[i], name) && points_at(fields[j], name));
                let m = choose|m: int|
                    0 <= m < fields.len() && points_at(#[trigger] fields[m], name) && fields[m].ty
                        is BelongsTo && fields[m].attrs.related;
                assert(is_one_of(raw[m], name));
            }
        }
    }
    if vecs_distinct(raw) && marks_distinct(raw) && choices_made(raw) {
        assert forall|i: int|
            0 <= i < raw.len() && target_of((#[trigger] fields[i]).ty) is Some implies settled(
            fields,
            (target_of(fields[i].ty)->Some_0).text,
        ) by {
            lemma_settled_from_raw(names, raw, (target_of(fields[i].ty)->Some_0).text);
        }
    }
}

/// What is left open by no written field is left open in no group.
proof fn lemma_settled_from_raw(names: Set<Seq<char>>, raw: Seq<FieldDefView>, name: Seq<char>)
    requires
        types_known(names, raw),
        vecs_distinct(raw),
        marks_distinct(raw),
        choices_made(raw),
    ensures
        settled(resolved_fields(names, raw), name),
{
    let fields = resolved_fields(names, raw);
    lemma_resolved(names, raw);
    assert forall|i: int, j: int|
        0 <= i < fields.len() && 0 <= j < fields.len() && points_at(#[trigger] fields[i], name)
            && points_at(#[trigger] fields[j], name) && fields[i].ty is HasMany && fields[j].ty
            is HasMany implies i == j by {
        assert(is_vec_of(raw[i], name) && is_vec_of(raw[j], name));
    }
    assert forall|i: int, j: int|
        0 <= i < fields.len() && 0 <= j < fields.len() && points_at(#[trigger] fields[i], name)
            && points_at(#[trigger] fields[j], name) && fields[i].ty is BelongsTo && fields[j].ty
            is BelongsTo && fields[i].attrs.related && fields[j].attrs.related implies i == j by {
        assert(is_one_of(raw[i], name) && is_one_of(raw[j], name));
    }
    assert forall|i: int, j: int|
        0 <= i < j < fields.len() && points_at(#[trigger] fields[i], name) && points_at(
            #[trigger] fields[j],
            name,
        ) && fields[i].ty is BelongsTo && fields[j].ty is BelongsTo implies exists|m: int|
        0 <= m < fields.len() && points_at(#[trigger] fields[m], name) && fields[m].ty is BelongsTo
            && fields[m].attrs.related by {
        assert(is_one_of(raw[i], name) && is_one_of(raw[j], name));
        let m = choose|m: int|
            0 <= m < raw.len() && #[trigger] is_one_of(raw[m], name) && raw[m].attrs.related;
        assert(points_at(fields[m], name));
    }
}

/// No field has the name of a generated column exactly if none is reported for it.
pub(crate) proof fn lemma_timestamps(entity: EntityDefView)
    ensures
        first_some(entity.fields.len(), timestamp_check(entity.attrs, entity.fields)) is None
            <==> no_generated_column(entity),
{
    let check = timestamp_check(entity.attrs, entity.fields);
    lemma_first_some(entity.fields.len(), check);
    if first_some(entity.fields.len(), check) is None {
        assert forall|i: int| 0 <= i < entity.fields.len() implies {
            &&& (#[trigger] entity.fields[i]).name.text == "created_at"@
                ==> !entity.attrs.has_created_at
            &&& entity.fields[i].name.text == "updated_at"@ ==> !entity.attrs.has_updated_at
        } by {
            assert(check(i) is None);
        }
    }
}

/// All types are known exactly if none is reported.
pub(crate) proof fn lemma_types(names: Set<Seq<char>>, fields: Seq<FieldDefView>)
    ensures
        first_some(fields.len(), type_check(names, fields)) is None <==> types_known(names, fields),
{
    let check = type_check(names, fields);
    lemma_first_some(fields.len(), check);
    if first_some(fields.len(), check) is None {
        assert forall|i: int| 0 <= i < fields.len() implies match (#[trigger] fields[i]).ty {
            RawFieldTypeView::Scalar { .. } => true,
            RawFieldTypeView::Vec { inner } => names.contains(inner.text),
            RawFieldTypeView::Unknown { name, .. } => names.contains(name.text),
        } by {
            assert(check(i) is None);
        }
    }
}

/// There is nothing wrong with the relationships of an entity exactly if marks are placed right
/// and nothing is left open.
proof fn lemma_relations(names: Set<Seq<char>>, entity: EntityDefView)
    requires
        types_known(names, entity.fields),
    ensures
        relation_problems(entity.name, resolved_fields(names, entity.fields)).len() == 0 <==> {
            &&& marks_placed(entity.fields)
            &&& vecs_distinct(entity.fields)
            &&& marks_distinct(entity.fields)
            &&& choices_made(entity.fields)
        },
{
    let raw = entity.fields;
    let fields = resolved_fields(names, raw);
    let check = mark_check(fields);
    lemma_resolved(names, raw);
    lemma_first_some(fields.len(), check);
    lemma_no_ownership_problem(entity.name, fields);
    lemma_all_settled(names, raw);
    if first_some(fields.len(), check) is None {
        assert forall|i: int| 0 <= i < raw.len() && (#[trigger] raw[i]).attrs.related implies raw[i].ty
            is Unknown by {
            assert(check(i) is None);
            assert(fields[i].attrs == raw[i].attrs);
        }
    }
    if marks_placed(raw) {
        assert forall|i: int| 0 <= i < fields.len() implies #[trigger] check(i) is None by {
            assert(fields[i].attrs == raw[i].attrs);
        }
    }
}

/// There is nothing wrong with the primary key exactly if it is valid.
proof fn lemma_key(names: Set<Seq<char>>, entity: EntityDefView)
    requires
        types_known(names, entity.fields),
    ensures
        key_problem(
            entity.name,
            with_owners(entity.name, resolved_fields(names, entity.fields)),
            entity.attrs.primary_key,
        ) is None <==> key_valid(entity),
{
    let raw = entity.fields;
    let fields = with_owners(entity.name, resolved_fields(names, raw));
    lemma_resolved(names, raw);
    assert forall|i: int| 0 <= i < raw.len() implies (#[trigger] fields[i]).name == raw[i].name && (
    fields[i].ty is Scalar <==> raw[i].ty is Scalar) by {
        assert(resolved_fields(names, raw)[i].name == raw[i].name);
    }
    if let Some(columns) = entity.attrs.primary_key {
        let missing = column_check(entity.name, fields, columns);
        let relation = key_type_check(fields, columns);
        lemma_first_some(columns.len(), missing);
        lemma_first_some(fields.len(), relation);
        assert forall|c: int| 0 <= c < columns.len() implies (#[trigger] missing(c) is None
            <==> exists|i: int|
            0 <= i < raw.len() && (#[trigger] raw[i]).name.text == columns[c]) by {
            if missing(c) is None {
                let i = choose|i: int|
                    0 <= i < fields.len() && (#[trigger] fields[i]).name.text == columns[c];
                assert(raw[i].name.text == columns[c]);
            }
            if exists|i: int| 0 <= i < raw.len() && (#[trigger] raw[i]).name.text == columns[c] {
                let i = choose|i: int|
                    0 <= i < raw.len() && (#[trigger] raw[i]).name.text == columns[c];
                assert(fields[i].name.text == columns[c]);
            }
        }
        assert forall|i: int| 0 <= i < raw.len() implies (#[trigger] relation(i) is None <==> (
        columns.contains(raw[i].name.text) ==> raw[i].ty is Scalar)) by {
            assert(fields[i].name == raw[i].name);
        }
        if first_some(columns.len(), missing) is None && first_some(fields.len(), relation) is None {
            assert forall|c: int| 0 <= c < columns.len() implies has_field(
                raw,
                #[trigger] columns[c],
            ) by {
                assert(missing(c) is None);
            }
            assert forall|i: int|
                0 <= i < raw.len() && columns.contains((#[trigger] raw[i]).name.text) implies raw[i].ty
                is Scalar by {
                assert(relation(i) is None);
            }
        }
        if key_valid(entity) {
            assert forall|c: int| 0 <= c < columns.len() implies #[trigger] missing(c) is None by {
                assert(has_field(raw, columns[c]));
                let column = columns[c];
                let i = choose|i: int|
                    0 <= i < raw.len() && (#[trigger] raw[i]).name.text == column;
                assert(raw[i].name.text == columns[c]);
            }
        }
    }
}

/// An entity is accepted exactly if it is valid.
pub proof fn law_entity_accepted_iff_valid(names: Set<Seq<char>>, entity: EntityDefView)
    ensures
        entity_analysis(names, entity) is Ok <==> valid_entity(names, entity),
{
    lemma_timestamps(entity);
    lemma_types(names, entity.fields);
    if types_known(names, entity.fields) {
        lemma_relations(names, entity);
        lemma_key(names, entity);
    }
}

/// No two entities have one name exactly if none is reported.
pub(crate) proof fn lemma_names(entities: Seq<EntityDefView>)
    ensures
        first_some(entities.len(), duplicate_check(entities)) is None <==> names_distinct(entities),
{
    let check = duplicate_check(entities);
    lemma_first_some(entities.len(), check);
    if first_some(entities.len(), check) is None {
        assert forall|i: int, j: int|
            0 <= i < entities.len() && 0 <= j < entities.len() && (
            #[trigger] entities[i]).name.text == (#[trigger] entities[j]).name.text implies i
            == j by {
            assert(check(i) is None);
            assert(check(j) is None);
        }
    }
    if names_distinct(entities) {
        assert forall|i: int| 0 <= i < entities.len() implies #[trigger] check(i) is None by {
            if check(i) is Some {
                let j = choose|j: int|
                    0 <= j < i && (#[trigger] entities[j]).name.text == entities[i].name.text;
                assert(i == j);
            }
        }
    }
}

/// A schema is accepted exactly if it is valid: analysis rejects nothing else, and lets nothing
/// else through.
pub proof fn law_schema_accepted_iff_valid(entities: Seq<EntityDefView>)
    ensures
        schema_analysis(entities) is Ok <==> valid_schema(entities),
{
    let names = entity_names(entities);
    let check = entity_check(names, entities);
    lemma_names(entities);
    lemma_first_some(entities.len(), check);
    assert forall|i: int| 0 <= i < entities.len() implies (#[trigger] check(i) is None
        <==> valid_entity(names, entities[i])) by {
        law_entity_accepted_iff_valid(names, entities[i]);
    }
    if first_some(entities.len(), check) is None {
        assert forall|i: int| 0 <= i < entities.len() implies valid_entity(
            names,
            #[trigger] entities[i],
        ) by {
            assert(check(i) is None);
        }
    }
}

// ---- What comes out ----

/// A rejected entity is rejected with at least one message.
pub proof fn law_entity_errors_say_something(names: Set<Seq<char>>, entity: EntityDefView)
    ensures
        entity_analysis(names, entity) matches Err(messages) ==> messages.len() > 0,
{
}

/// A rejected schema is rejected with at least one message.
pub proof fn law_errors_say_something(entities: Seq<EntityDefView>)
    ensures
        schema_analysis(entities) matches Err(messages) ==> messages.len() > 0,
{
    let names = entity_names(entities);
    let check = entity_check(names, entities);
    lemma_first_some(entities.len(), check);
    if let Some(messages) = first_some(entities.len(), check) {
        let i = choose|i: int|
            0 <= i < entities.len() && #[trigger] check(i) == Some(messages) && forall|j: int|
                0 <= j < i ==> #[trigger] check(j) is None;
        law_entity_errors_say_something(names, entities[i]);
    }
}

/// Where an entity has the name of an earlier one, that is all that is reported, whatever else is
/// wrong: one message, at the first entity that repeats a name.
pub proof fn law_duplicate_name_comes_first(entities: Seq<EntityDefView>, i: int)
    requires
        0 <= i < entities.len(),
        duplicate_check(entities)(i) is Some,
        forall|j: int| 0 <= j < i ==> #[trigger] duplicate_check(entities)(j) is None,
    ensures
        schema_analysis(entities) == Err::<Seq<AnalyzedEntityView>, Seq<Message>>(
            seq![duplicate_check(entities)(i)->Some_0],
        ),
{
    lemma_first_some(entities.len(), duplicate_check(entities));
}

/// Where names are distinct, what is reported is what is wrong with the first entity that is
/// rejected.
pub proof fn law_first_rejected_entity_is_reported(entities: Seq<EntityDefView>, i: int)
    requires
        0 <= i < entities.len(),
        names_distinct(entities),
        entity_analysis(entity_names(entities), entities[i]) is Err,
        forall|j: int|
            0 <= j < i ==> entity_analysis(entity_names(entities), #[trigger] entities[j]) is Ok,
    ensures
        schema_analysis(entities) == Err::<Seq<AnalyzedEntityView>, Seq<Message>>(
            entity_analysis(entity_names(entities), entities[i])->Err_0,
        ),
{
    let check = entity_check(entity_names(entities), entities);
    lemma_names(entities);
    lemma_first_some(entities.len(), check);
    assert forall|j: int| 0 <= j < i implies #[trigger] check(j) is None by {
        assert(entity_analysis(entity_names(entities), entities[j]) is Ok);
    }
    assert(check(i) is Some);
}

/// An accepted schema comes out as it went in: the same entities in the same order, each with its
/// attributes, its name, its place and its fields; and each field with its attributes, its name,
/// its place and the type that it was written with, resolved.
pub proof fn law_analysis_keeps_schema(entities: Seq<EntityDefView>)
    requires
        schema_analysis(entities) is Ok,
    ensures
        schema_analysis(entities)->Ok_0.len() == entities.len(),
        forall|e: int|
            0 <= e < entities.len() ==> {
                let analyzed = #[trigger] schema_analysis(entities)->Ok_0[e];
                &&& analyzed.attrs == entities[e].attrs
                &&& analyzed.name == entities[e].name
                &&& analyzed.span == entities[e].span
                &&& analyzed.fields.len() == entities[e].fields.len()
            },
        forall|e: int, f: int|
            0 <= e < entities.len() && 0 <= f < entities[e].fields.len() ==> {
                let field = #[trigger] schema_analysis(entities)->Ok_0[e].fields[f];
                &&& field.attrs == entities[e].fields[f].attrs
                &&& field.name == entities[e].fields[f].name
                &&& field.span == entities[e].fields[f].span
                &&& resolved_type(entity_names(entities), entities[e].fields[f].ty) == Ok::<
                    FieldTypeView,
                    Message,
                >(field.ty)
            },
{
    let names = entity_names(entities);
    let check = entity_check(names, entities);
    lemma_first_some(entities.len(), check);
    assert forall|e: int| 0 <= e < entities.len() implies entity_analysis(
        names,
        #[trigger] entities[e],
    ) == Ok::<AnalyzedEntityView, Seq<Message>>(schema_analysis(entities)->Ok_0[e]) by {
        assert(check(e) is None);
    }
    assert forall|e: int, f: int| 0 <= e < entities.len() && 0 <= f < entities[e].fields.len() implies {
        let field = #[trigger] schema_analysis(entities)->Ok_0[e].fields[f];
        &&& field.attrs == entities[e].fields[f].attrs
        &&& field.name == entities[e].fields[f].name
        &&& field.span == entities[e].fields[f].span
        &&& resolved_type(names, entities[e].fields[f].ty) == Ok::<FieldTypeView, Message>(field.ty)
    } by {
        let raw = entities[e].fields;
        lemma_first_some(raw.len(), type_check(names, raw));
        assert(type_check(names, raw)(f) is None);
        assert(resolved_fields(names, raw)[f] == resolved_field(names, raw[f]));
    }
}

/// No reference dangles: every relationship of an accepted schema points at one of its entities,
/// wherever in the schema that entity is declared.
pub proof fn law_references_resolve(entities: Seq<EntityDefView>, e: int, f: int)
    requires
        schema_analysis(entities) is Ok,
        0 <= e < entities.len(),
        0 <= f < entities[e].fields.len(),
    ensures
        target_of(schema_analysis(entities)->Ok_0[e].fields[f].ty) matches Some(target)
            ==> exists|k: int|
            0 <= k < schema_analysis(entities)->Ok_0.len() && (
            #[trigger] schema_analysis(entities)->Ok_0[k]).name.text == target.text,
{
    let analyzed = schema_analysis(entities)->Ok_0;
    law_analysis_keeps_schema(entities);
    let ty = analyzed[e].fields[f].ty;
    if let Some(target) = target_of(ty) {
        assert(entity_names(entities).contains(target.text));
        let k = choose|k: int|
            0 <= k < entities.len() && (#[trigger] entities[k]).name.text == target.text;
        assert(analyzed[k].name == entities[k].name);
    }
}

/// The primary key of an accepted entity is made of its columns: each is the name of a field, and
/// every field of that name is a scalar.
pub proof fn law_primary_key_is_made_of_scalars(
    names: Set<Seq<char>>,
    entity: EntityDefView,
    column: Seq<char>,
)
    requires
        entity_analysis(names, entity) is Ok,
        entity.attrs.primary_key is Some,
        entity.attrs.primary_key->Some_0.contains(column),
    ensures
        ({
            let fields = entity_analysis(names, entity)->Ok_0.fields;
            &&& exists|i: int| 0 <= i < fields.len() && (#[trigger] fields[i]).name.text == column
            &&& forall|i: int|
                0 <= i < fields.len() && (#[trigger] fields[i]).name.text == column
                    ==> fields[i].ty is Scalar
        }),
{
    let fields = entity_analysis(names, entity)->Ok_0.fields;
    let raw = entity.fields;
    law_entity_accepted_iff_valid(names, entity);
    lemma_resolved(names, raw);
    assert forall|i: int| 0 <= i < raw.len() implies (#[trigger] fields[i]).name == raw[i].name && (
    fields[i].ty is Scalar <==> raw[i].ty is Scalar) by {
        assert(resolved_fields(names, raw)[i].name == raw[i].name);
    }
    assert(has_field(raw, column));
    let i = choose|i: int| 0 <= i < raw.len() && (#[trigger] raw[i]).name.text == column;
    assert(fields[i].name.text == column);
    assert forall|j: int| 0 <= j < fields.len() && (#[trigger] fields[j]).name.text == column implies fields[j].ty
        is Scalar by {
        assert(raw[j].name.text == column);
    }
}

// ---- Who owns `Related` ----

/// Being nominated depends on the types and marks of the fields alone.
proof fn lemma_nominated_same(
    fields: Seq<AnalyzedFieldView>,
    other: Seq<AnalyzedFieldView>,
    i: int,
)
    requires
        0 <= i < fields.len(),
        fields.len() == other.len(),
        forall|j: int|
            0 <= j < fields.len() ==> (#[trigger] fields[j]).ty == other[j].ty && fields[j].attrs
                == other[j].attrs,
    ensures
        nominated(fields, i) ==> nominated(other, i),
{
    if nominated(fields, i) {
        assert forall|j: int|
            0 <= j < other.len() && same_target(other[i], #[trigger] other[j]) implies same_target(
            fields[i],
            fields[j],
        ) && fields[j].ty == other[j].ty by {
            assert(fields[i].ty == other[i].ty);
            assert(fields[j].ty == other[j].ty);
        }
    }
}

/// In an accepted entity a field owns `Related` exactly if it is nominated: as the only field to
/// its target, as the only belongs_to there, or by its mark. Declaration order plays no part.
pub proof fn law_owner_is_the_nominated_field(names: Set<Seq<char>>, entity: EntityDefView, i: int)
    requires
        entity_analysis(names, entity) is Ok,
        0 <= i < entity.fields.len(),
    ensures
        ({
            let fields = entity_analysis(names, entity)->Ok_0.fields;
            fields[i].implements_related <==> nominated(fields, i)
        }),
{
    let before = resolved_fields(names, entity.fields);
    let after = entity_analysis(names, entity)->Ok_0.fields;
    lemma_no_ownership_problem(entity.name, before);
    lemma_nominated_same(before, after, i);
    lemma_nominated_same(after, before, i);
    if let Some(target) = target_of(before[i].ty) {
        assert(settled(before, target.text));
        lemma_owner_iff_settled(entity.name, before, target.text, i);
        lemma_owner_is_nominated(entity.name, before, target.text);
        if nominated(before, i) {
            lemma_nominated_is_owner(entity.name, before, target.text, i);
        }
    }
}

/// In an accepted entity exactly one field owns `Related` for each entity that is pointed at.
pub proof fn law_one_owner_per_target(names: Set<Seq<char>>, entity: EntityDefView, i: int)
    requires
        entity_analysis(names, entity) is Ok,
        0 <= i < entity.fields.len(),
        target_of(entity_analysis(names, entity)->Ok_0.fields[i].ty) is Some,
    ensures
        ({
            let fields = entity_analysis(names, entity)->Ok_0.fields;
            &&& exists|o: int|
                0 <= o < fields.len() && same_target(fields[i], #[trigger] fields[o])
                    && fields[o].implements_related
            &&& forall|o: int, p: int|
                0 <= o < fields.len() && 0 <= p < fields.len() && same_target(
                    fields[i],
                    #[trigger] fields[o],
                ) && same_target(fields[i], #[trigger] fields[p]) && fields[o].implements_related
                    && fields[p].implements_related ==> o == p
        }),
{
    let before = resolved_fields(names, entity.fields);
    let after = entity_analysis(names, entity)->Ok_0.fields;
    let target = (target_of(before[i].ty)->Some_0).text;
    lemma_no_ownership_problem(entity.name, before);
    assert(settled(before, target));
    lemma_owner_iff_settled(entity.name, before, target, i);
    lemma_owner_points(entity.name, before, target);
    let owner = group_owner(entity.name, target, members(before, target), before)->Ok_0;
    assert(owns_related(entity.name, before, owner));
    assert(same_target(after[i], after[owner]));
    assert forall|o: int|
        0 <= o < after.len() && same_target(after[i], #[trigger] after[o])
            && after[o].implements_related implies o == owner by {
        assert(owns_related(entity.name, before, o));
        assert(points_at(before[o], target));
    }
}

/// In an accepted entity a scalar never owns `Related`.
pub proof fn law_scalar_owns_nothing(names: Set<Seq<char>>, entity: EntityDefView, i: int)
    requires
        entity_analysis(names, entity) is Ok,
        0 <= i < entity.fields.len(),
        entity.fields[i].ty is Scalar,
    ensures
        !entity_analysis(names, entity)->Ok_0.fields[i].implements_related,
{
    assert(resolved_fields(names, entity.fields)[i] == resolved_field(names, entity.fields[i]));
}

/// In an accepted entity every field that is marked `#[related]` is a belongs_to, and owns
/// `Related`.
pub proof fn law_marked_field_owns(names: Set<Seq<char>>, entity: EntityDefView, i: int)
    requires
        entity_analysis(names, entity) is Ok,
        0 <= i < entity.fields.len(),
        entity.fields[i].attrs.related,
    ensures
        entity_analysis(names, entity)->Ok_0.fields[i].ty is BelongsTo,
        entity_analysis(names, entity)->Ok_0.fields[i].implements_related,
{
    law_entity_accepted_iff_valid(names, entity);
    lemma_resolved(names, entity.fields);
    assert(resolved_fields(names, entity.fields)[i].attrs == entity.fields[i].attrs);
    law_owner_is_the_nominated_field(names, entity, i);
}

/// A has_many owns `Related` only where it is the only field to its target: next to a belongs_to
/// the latter is the owner, and nothing has to be marked for it.
pub proof fn law_has_many_owns_alone(names: Set<Seq<char>>, entity: EntityDefView, i: int, j: int)
    requires
        entity_analysis(names, entity) is Ok,
        0 <= i < entity.fields.len(),
        0 <= j < entity.fields.len(),
        entity_analysis(names, entity)->Ok_0.fields[i].ty is HasMany,
        entity_analysis(names, entity)->Ok_0.fields[i].implements_related,
        same_target(
            entity_analysis(names, entity)->Ok_0.fields[i],
            entity_analysis(names, entity)->Ok_0.fields[j],
        ),
    ensures
        i == j,
{
    law_owner_is_the_nominated_field(names, entity, i);
}

// ---- Groups and their reports ----

/// Groups divide the relationship fields: each lies in exactly one group, together with all other
/// fields to its target and with nothing else. Members ascend, and groups stand in the order of
/// their first members.
pub proof fn law_groups_divide_relations(fields: Seq<AnalyzedFieldView>)
    ensures
        forall|i: int|
            0 <= i < fields.len() && target_of((#[trigger] fields[i]).ty) is Some ==> exists|k: int|
                0 <= k < groups(fields).len() && (#[trigger] groups(fields)[k]).1.contains(i),
        forall|k: int, l: int, i: int|
            0 <= k < groups(fields).len() && 0 <= l < groups(fields).len()
                && #[trigger] groups(fields)[k].1.contains(i)
                && #[trigger] groups(fields)[l].1.contains(i) ==> k == l,
        forall|k: int, i: int|
            0 <= k < groups(fields).len() ==> (#[trigger] groups(fields)[k].1.contains(i) <==> 0
                <= i < fields.len() && points_at(fields[i], groups(fields)[k].0)),
        forall|k: int, a: int, b: int|
            0 <= k < groups(fields).len() && 0 <= a < b < groups(fields)[k].1.len()
                ==> #[trigger] groups(fields)[k].1[a] < #[trigger] groups(fields)[k].1[b],
        forall|k: int|
            0 <= k < groups(fields).len() ==> (#[trigger] groups(fields)[k]).1.len() > 0,
        forall|k: int, l: int|
            0 <= k < l < groups(fields).len() ==> (#[trigger] groups(fields)[k]).1[0] < (
            #[trigger] groups(fields)[l]).1[0],
{
    lemma_groups(fields);
    lemma_positions(fields.len(), leader_test(fields));
    assert forall|i: int| 0 <= i < fields.len() && target_of((#[trigger] fields[i]).ty) is Some implies exists|
        k: int,
    |
        0 <= k < groups(fields).len() && (#[trigger] groups(fields)[k]).1.contains(i) by {
        let k = lemma_group_exists(fields, i);
        lemma_positions(fields.len(), member_test(fields, groups(fields)[k].0));
        assert(groups(fields)[k].1.contains(i));
    }
    assert forall|k: int, i: int| 0 <= k < groups(fields).len() implies (
    #[trigger] groups(fields)[k].1.contains(i) <==> 0 <= i < fields.len() && points_at(
        fields[i],
        groups(fields)[k].0,
    )) by {
        assert(groups(fields)[k] == group_of(fields, leaders(fields)[k]));
        lemma_positions(fields.len(), member_test(fields, groups(fields)[k].0));
    }
    assert forall|k: int, l: int, i: int|
        0 <= k < groups(fields).len() && 0 <= l < groups(fields).len()
            && #[trigger] groups(fields)[k].1.contains(i)
            && #[trigger] groups(fields)[l].1.contains(i) implies k == l by {
        assert(groups(fields)[k].0 == groups(fields)[l].0);
    }
    assert forall|k: int, a: int, b: int|
        0 <= k < groups(fields).len() && 0 <= a < b
            < groups(fields)[k].1.len() implies #[trigger] groups(fields)[k].1[a]
        < #[trigger] groups(fields)[k].1[b] by {
        assert(groups(fields)[k] == group_of(fields, leaders(fields)[k]));
        lemma_positions(fields.len(), member_test(fields, groups(fields)[k].0));
    }
    assert forall|k: int| 0 <= k < groups(fields).len() implies (#[trigger] groups(fields)[k]).1.len()
        > 0 && groups(fields)[k].1[0] == leaders(fields)[k] by {
        let i = leaders(fields)[k];
        let all = groups(fields)[k].1;
        assert(groups(fields)[k] == group_of(fields, i));
        assert(leader_test(fields)(i));
        lemma_positions(fields.len(), member_test(fields, groups(fields)[k].0));
        assert(all.contains(i));
        let m = choose|m: int| 0 <= m < all.len() && all[m] == i;
        if m > 0 {
            assert(all[0] < all[m]);
            assert(all.contains(all[0]));
            assert(points_at(fields[all[0]], groups(fields)[k].0));
        }
    }
    assert forall|k: int, l: int| 0 <= k < l < groups(fields).len() implies (
    #[trigger] groups(fields)[k]).1[0] < (#[trigger] groups(fields)[l]).1[0] by {
        assert(leaders(fields)[k] < leaders(fields)[l]);
    }
}

/// What is gathered holds the list of each position in one stretch, behind those before it.
proof fn lemma_gathered_part<A>(n: nat, lists: spec_fn(int) -> Seq<A>, k: int)
    requires
        0 <= k < n,
    ensures
        gathered(k as nat, lists).len() + lists(k).len() <= gathered(n, lists).len(),
        gathered(n, lists).subrange(
            gathered(k as nat, lists).len() as int,
            (gathered(k as nat, lists).len() + lists(k).len()) as int,
        ) == lists(k),
    decreases n,
{
    let start = gathered(k as nat, lists).len() as int;
    let end = start + lists(k).len();
    if k < n - 1 {
        lemma_gathered_part((n - 1) as nat, lists, k);
        assert(gathered(n, lists).subrange(start, end) =~= gathered(
            (n - 1) as nat,
            lists,
        ).subrange(start, end));
    } else {
        assert(gathered(n, lists).subrange(start, end) =~= lists(k));
    }
}

/// One run shows all that is wrong with the groups of an entity: where the marks are placed right,
/// the report holds what is wrong with each group, in the order of the groups.
pub proof fn law_every_group_is_reported(
    entity: IdentifierView,
    fields: Seq<AnalyzedFieldView>,
    k: int,
)
    requires
        0 <= k < groups(fields).len(),
        forall|i: int| 0 <= i < fields.len() ==> #[trigger] mark_check(fields)(i) is None,
    ensures
        ({
            let before = gathered(k as nat, group_problems(entity, fields)).len();
            let problems = match group_owner(
                entity,
                groups(fields)[k].0,
                groups(fields)[k].1,
                fields,
            ) {
                Ok(_) => seq![],
                Err(messages) => messages,
            };
            &&& before + problems.len() <= relation_problems(entity, fields).len()
            &&& relation_problems(entity, fields).subrange(
                before as int,
                (before + problems.len()) as int,
            ) == problems
        }),
{
    lemma_first_some(fields.len(), mark_check(fields));
    lemma_gathered_part(groups(fields).len(), group_problems(entity, fields), k);
}

/// Every surplus mark is reported: where several of the belongs_to fields to a target are marked,
/// there is one message for each mark after the first, at the field that bears it.
pub proof fn law_every_surplus_mark_is_reported(
    entity: IdentifierView,
    target: Seq<char>,
    belongs_to: Seq<int>,
    fields: Seq<AnalyzedFieldView>,
)
    requires
        belongs_to.filter(marked_test(fields)).len() >= 2,
    ensures
        ({
            let marked = belongs_to.filter(marked_test(fields));
            let report = belongs_to_owner(entity, target, belongs_to, fields);
            &&& report is Err
            &&& report->Err_0.len() == marked.len() - 1
            &&& forall|m: int|
                1 <= m < marked.len() ==> (#[trigger] report->Err_0[m - 1]).0
                    == fields[marked[m]].name.span
        }),
{
    belongs_to.lemma_filter_len(marked_test(fields));
    let marked = belongs_to.filter(marked_test(fields));
    let report = belongs_to_owner(entity, target, belongs_to, fields);
    assert forall|m: int| 1 <= m < marked.len() implies (#[trigger] report->Err_0[m - 1]).0
        == fields[marked[m]].name.span by {
        assert(marked.drop_first()[m - 1] == marked[m]);
    }
}

/// Where a group of several fields has no two has_many fields, there is a belongs_to to own
/// `Related`.
pub proof fn law_candidate_exists(
    entity: IdentifierView,
    fields: Seq<AnalyzedFieldView>,
    k: int,
)
    requires
        0 <= k < groups(fields).len(),
        groups(fields)[k].1.len() != 1,
        has_many_problem(
            entity,
            groups(fields)[k].0,
            groups(fields)[k].1.filter(other_kind_test(fields)),
            fields,
        ) is None,
    ensures
        groups(fields)[k].1.filter(belongs_to_test(fields)).len() > 0,
{
    law_groups_divide_relations(fields);
    lemma_groups(fields);
    assert(groups(fields)[k] == group_of(fields, leaders(fields)[k]));
    lemma_group_kinds(fields, groups(fields)[k].0);
    lemma_kind_counts(fields, groups(fields)[k].0);
}

// ---- Order of declaration ----

/// Whether `order` lists each place below `n` once.
pub open spec fn reorders(order: Seq<int>, n: nat) -> bool {
    &&& order.len() == n
    &&& forall|i: int| 0 <= i < n ==> 0 <= (#[trigger] order[i]) < n
    &&& forall|i: int, j: int|
        0 <= i < n && 0 <= j < n && (#[trigger] order[i]) == (#[trigger] order[j]) ==> i == j
    &&& forall|p: int| 0 <= p < n ==> #[trigger] order.contains(p)
}

/// The elements in the given order.
pub open spec fn reordered<A>(s: Seq<A>, order: Seq<int>) -> Seq<A> {
    order.map_values(|i: int| s[i])
}

/// The order in which entities are declared does not matter: a schema is accepted in one order
/// exactly if it is in another, and then every entity comes out the same.
pub proof fn law_entity_order_is_irrelevant(entities: Seq<EntityDefView>, order: Seq<int>)
    requires
        reorders(order, entities.len()),
    ensures
        schema_analysis(entities) is Ok <==> schema_analysis(reordered(entities, order)) is Ok,
        schema_analysis(entities) is Ok ==> schema_analysis(reordered(entities, order))->Ok_0
            == reordered(schema_analysis(entities)->Ok_0, order),
{
    let other = reordered(entities, order);
    let n = entities.len();
    assert(entity_names(entities) =~= entity_names(other)) by {
        assert forall|name: Seq<char>| entity_names(entities).contains(name) implies entity_names(
            other,
        ).contains(name) by {
            let p = choose|p: int| 0 <= p < n && (#[trigger] entities[p]).name.text == name;
            assert(order.contains(p));
            let i = choose|i: int| 0 <= i < n && order[i] == p;
            assert(other[i].name.text == name);
        }
        assert forall|name: Seq<char>| entity_names(other).contains(name) implies entity_names(
            entities,
        ).contains(name) by {
            let i = choose|i: int| 0 <= i < n && (#[trigger] other[i]).name.text == name;
            assert(entities[order[i]].name.text == name);
        }
    }
    law_schema_accepted_iff_valid(entities);
    law_schema_accepted_iff_valid(other);
    if valid_schema(entities) {
        assert forall|i: int, j: int|
            0 <= i < n && 0 <= j < n && (#[trigger] other[i]).name.text == (
            #[trigger] other[j]).name.text implies i == j by {
            assert(entities[order[i]].name.text == entities[order[j]].name.text);
            assert(order[i] == order[j]);
        }
        assert forall|i: int| 0 <= i < n implies valid_entity(
            entity_names(other),
            #[trigger] other[i],
        ) by {
            assert(valid_entity(entity_names(entities), entities[order[i]]));
        }
        assert(schema_analysis(other)->Ok_0 =~= reordered(schema_analysis(entities)->Ok_0, order));
    }
    if valid_schema(other) {
        assert forall|p: int, q: int|
            0 <= p < n && 0 <= q < n && (#[trigger] entities[p]).name.text == (
            #[trigger] entities[q]).name.text implies p == q by {
            assert(order.contains(p) && order.contains(q));
            let i = choose|i: int| 0 <= i < n && order[i] == p;
            let j = choose|j: int| 0 <= j < n && order[j] == q;
            assert(other[i].name.text == other[j].name.text);
        }
        assert forall|p: int| 0 <= p < n implies valid_entity(
            entity_names(entities),
            #[trigger] entities[p],
        ) by {
            assert(order.contains(p));
            let i = choose|i: int| 0 <= i < n && order[i] == p;
            assert(valid_entity(entity_names(other), other[i]));
        }
    }
}

/// The order that undoes another.
spec fn undone(order: Seq<int>) -> Seq<int> {
    Seq::new(order.len(), |p: int| choose|i: int| 0 <= i < order.len() && order[i] == p)
}

/// What an order does can be undone.
proof fn lemma_undone<A>(s: Seq<A>, order: Seq<int>)
    requires
        reorders(order, s.len()),
    ensures
        reorders(undone(order), s.len()),
        reordered(reordered(s, order), undone(order)) == s,
        forall|p: int| 0 <= p < s.len() ==> order[#[trigger] undone(order)[p]] == p,
{
    let n = s.len();
    let back = undone(order);
    assert forall|p: int| 0 <= p < n implies 0 <= (#[trigger] back[p]) < n && order[back[p]] == p by {
        assert(order.contains(p));
    }
    assert forall|i: int| 0 <= i < n implies #[trigger] back.contains(i) by {
        assert(order[back[order[i]]] == order[i]);
        assert(back[order[i]] == i);
    }
    assert forall|p: int, q: int|
        0 <= p < n && 0 <= q < n && (#[trigger] back[p]) == (#[trigger] back[q]) implies p == q by {
        assert(order[back[p]] == order[back[q]]);
    }
    assert(reordered(reordered(s, order), back) =~= s);
}

/// The entity with its fields in the given order.
pub open spec fn with_field_order(entity: EntityDefView, order: Seq<int>) -> EntityDefView {
    EntityDefView { fields: reordered(entity.fields, order), ..entity }
}

/// A valid entity stays valid in another order.
proof fn lemma_valid_reordered(names: Set<Seq<char>>, entity: EntityDefView, order: Seq<int>)
    requires
        reorders(order, entity.fields.len()),
        valid_entity(names, entity),
    ensures
        valid_entity(names, with_field_order(entity, order)),
{
    let other = with_field_order(entity, order);
    let raw = entity.fields;
    let n = raw.len();
    assert forall|i: int| 0 <= i < n implies #[trigger] other.fields[i] == raw[order[i]] by {}
    assert(no_generated_column(other)) by {
        assert forall|i: int| 0 <= i < n implies {
            &&& (#[trigger] other.fields[i]).name.text == "created_at"@
                ==> !other.attrs.has_created_at
            &&& other.fields[i].name.text == "updated_at"@ ==> !other.attrs.has_updated_at
        } by {
            assert(other.fields[i] == raw[order[i]]);
        }
    }
    assert(choices_made(other.fields)) by {
        assert forall|i: int, j: int, name: Seq<char>|
            0 <= i < n && 0 <= j < n && i != j && #[trigger] is_one_of(other.fields[i], name)
                && #[trigger] is_one_of(other.fields[j], name) implies exists|m: int|
            0 <= m < n && #[trigger] is_one_of(other.fields[m], name)
                && other.fields[m].attrs.related by {
            assert(is_one_of(raw[order[i]], name) && is_one_of(raw[order[j]], name));
            let p = choose|p: int|
                0 <= p < n && #[trigger] is_one_of(raw[p], name) && raw[p].attrs.related;
            assert(order.contains(p));
            let m = choose|m: int| 0 <= m < n && order[m] == p;
            assert(is_one_of(other.fields[m], name));
        }
    }
    assert(vecs_distinct(other.fields)) by {
        assert forall|i: int, j: int, name: Seq<char>|
            0 <= i < n && 0 <= j < n && #[trigger] is_vec_of(other.fields[i], name)
                && #[trigger] is_vec_of(other.fields[j], name) implies i == j by {
            assert(is_vec_of(raw[order[i]], name) && is_vec_of(raw[order[j]], name));
        }
    }
    assert(marks_distinct(other.fields)) by {
        assert forall|i: int, j: int, name: Seq<char>|
            0 <= i < n && 0 <= j < n && #[trigger] is_one_of(other.fields[i], name)
                && #[trigger] is_one_of(other.fields[j], name) && other.fields[i].attrs.related
                && other.fields[j].attrs.related implies i == j by {
            assert(is_one_of(raw[order[i]], name) && is_one_of(raw[order[j]], name));
        }
    }
    assert(key_valid(other)) by {
        if let Some(columns) = other.attrs.primary_key {
            assert forall|c: int| 0 <= c < columns.len() implies has_field(
                other.fields,
                #[trigger] columns[c],
            ) by {
                assert(has_field(raw, columns[c]));
                let column = columns[c];
                let p = choose|p: int| 0 <= p < n && (#[trigger] raw[p]).name.text == column;
                assert(order.contains(p));
                let i = choose|i: int| 0 <= i < n && order[i] == p;
                assert(other.fields[i].name.text == columns[c]);
            }
            assert forall|i: int|
                0 <= i < n && columns.contains(
                    (#[trigger] other.fields[i]).name.text,
                ) implies other.fields[i].ty is Scalar by {
                assert(other.fields[i] == raw[order[i]]);
                assert(columns.contains(raw[order[i]].name.text));
            }
        }
    }
}

/// A nominated field stays nominated in another order.
proof fn lemma_nominated_reordered(
    fields: Seq<AnalyzedFieldView>,
    other: Seq<AnalyzedFieldView>,
    order: Seq<int>,
    i: int,
)
    requires
        reorders(order, fields.len()),
        other.len() == fields.len(),
        forall|j: int|
            0 <= j < fields.len() ==> (#[trigger] other[j]).ty == fields[order[j]].ty
                && other[j].attrs == fields[order[j]].attrs,
        0 <= i < fields.len(),
        nominated(fields, order[i]),
    ensures
        nominated(other, i),
{
    assert forall|j: int|
        0 <= j < other.len() && same_target(other[i], #[trigger] other[j]) implies same_target(
        fields[order[i]],
        fields[order[j]],
    ) && other[j].ty == fields[order[j]].ty by {
        assert(other[i].ty == fields[order[i]].ty);
    }
}

/// The order in which the fields of an entity are declared does not matter: it is accepted in one
/// order exactly if it is in another, and then every field comes out the same, owners included.
pub proof fn law_field_order_is_irrelevant(
    names: Set<Seq<char>>,
    entity: EntityDefView,
    order: Seq<int>,
)
    requires
        reorders(order, entity.fields.len()),
    ensures
        entity_analysis(names, entity) is Ok <==> entity_analysis(
            names,
            with_field_order(entity, order),
        ) is Ok,
        entity_analysis(names, entity) is Ok ==> entity_analysis(
            names,
            with_field_order(entity, order),
        )->Ok_0.fields == reordered(entity_analysis(names, entity)->Ok_0.fields, order),
{
    let other = with_field_order(entity, order);
    let back = undone(order);
    lemma_undone(entity.fields, order);
    law_entity_accepted_iff_valid(names, entity);
    law_entity_accepted_iff_valid(names, other);
    if valid_entity(names, entity) {
        lemma_valid_reordered(names, entity, order);
        let fields = entity_analysis(names, entity)->Ok_0.fields;
        let moved = entity_analysis(names, other)->Ok_0.fields;
        assert forall|i: int| 0 <= i < entity.fields.len() implies (#[trigger] moved[i])
            == fields[order[i]] by {
            let p = order[i];
            assert(resolved_fields(names, other.fields)[i] == resolved_field(
                names,
                other.fields[i],
            ));
            assert(resolved_fields(names, entity.fields)[p] == resolved_field(
                names,
                entity.fields[p],
            ));
            law_owner_is_the_nominated_field(names, entity, p);
            law_owner_is_the_nominated_field(names, other, i);
            lemma_moved_types(names, entity, order);
            if nominated(fields, p) {
                lemma_nominated_reordered(fields, moved, order, i);
            }
            if nominated(moved, i) {
                assert(back[p] == i) by {
                    assert(order[back[p]] == p);
                }
                lemma_nominated_reordered(moved, fields, back, p);
            }
        }
        assert(moved =~= reordered(fields, order));
    }
    if valid_entity(names, other) {
        lemma_valid_reordered(names, other, back);
        assert(with_field_order(other, back) == entity);
    }
}

/// Fields keep their types and attributes when they are moved.
proof fn lemma_moved_types(names: Set<Seq<char>>, entity: EntityDefView, order: Seq<int>)
    requires
        reorders(order, entity.fields.len()),
        entity_analysis(names, entity) is Ok,
        entity_analysis(names, with_field_order(entity, order)) is Ok,
    ensures
        ({
            let fields = entity_analysis(names, entity)->Ok_0.fields;
            let moved = entity_analysis(names, with_field_order(entity, order))->Ok_0.fields;
            &&& fields.len() == entity.fields.len()
            &&& moved.len() == entity.fields.len()
            &&& forall|j: int|
                0 <= j < fields.len() ==> (#[trigger] moved[j]).ty == fields[order[j]].ty
                    && moved[j].attrs == fields[order[j]].attrs
            &&& forall|p: int|
                0 <= p < fields.len() ==> (#[trigger] fields[p]).ty == moved[undone(order)[p]].ty
                    && fields[p].attrs == moved[undone(order)[p]].attrs
        }),
{
    let other = with_field_order(entity, order);
    let fields = entity_analysis(names, entity)->Ok_0.fields;
    let moved = entity_analysis(names, other)->Ok_0.fields;
    lemma_undone(entity.fields, order);
    assert forall|j: int| 0 <= j < fields.len() implies (#[trigger] moved[j]).ty
        == fields[order[j]].ty && moved[j].attrs == fields[order[j]].attrs by {
        assert(resolved_fields(names, other.fields)[j] == resolved_field(names, other.fields[j]));
        assert(resolved_fields(names, entity.fields)[order[j]] == resolved_field(
            names,
            entity.fields[order[j]],
        ));
    }
    assert forall|p: int| 0 <= p < fields.len() implies (#[trigger] fields[p]).ty
        == moved[undone(order)[p]].ty && fields[p].attrs == moved[undone(order)[p]].attrs by {
        assert(order[undone(order)[p]] == p);
        assert(moved[undone(order)[p]].ty == fields[order[undone(order)[p]]].ty);
    }
}

} // verus!
