//! Semantic analysis of a schema.
//!
//! Two-pass analysis:
//! 1. Collect all entity names into a registry
//! 2. Resolve relationships and validate targets exist

use vstd::hash_set::StringHashSet;
use vstd::prelude::*;

use crate::analyzed::{
    field_views, AnalyzedEntity, AnalyzedEntityView, AnalyzedField, AnalyzedSchema,
};
use crate::definitions::{
    texts, EntityAttrs, EntityDef, EntityDefView, FieldDef, RawFieldType, Schema,
};
use crate::diagnostics::{agrees, error_messages, new_error, Message};
use crate::identifier::Identifier;
use crate::laws::{law_errors_say_something, law_schema_accepted_iff_valid};
use crate::messages;
use crate::outcomes::{
    kept_as_written, law_owners_of_schema_are_those_written, law_schema_has_one_owner_each,
    law_types_come_out_as_written, one_owner_each, owners_as_written, types_as_written,
};
use crate::relations::validate_relation_rules;
use crate::rules::{
    column_check, duplicate_check, entity_analysis, entity_check, entity_names, key_problem,
    key_type_check, resolved_field, resolved_fields, resolved_type, schema_analysis,
    timestamp_check, type_check,
};
use crate::sequences::{first_some, lemma_first_some_at};
use crate::types::FieldType;
use crate::validity::valid_schema;

verus! {

/// Entity registry for cross-reference validation.
pub struct EntityRegistry {
    names: StringHashSet,
}

impl View for EntityRegistry {
    type V = Set<Seq<char>>;

    closed spec fn view(&self) -> Set<Seq<char>> {
        self.names@
    }
}

/// What a list of declared entities stands for in contracts.
pub open spec fn entity_views(entities: Seq<EntityDef>) -> Seq<EntityDefView> {
    entities.map_values(|e: EntityDef| e@)
}

impl EntityRegistry {
    /// The registry of the names of the given entities.
    pub fn new(entities: &[EntityDef]) -> (registry: Self)
        ensures
            registry@ == entity_names(entity_views(entities@)),
            forall|name: Seq<char>| #[trigger]
                registry@.contains(name) <==> exists|i: int|
                    0 <= i < entities@.len() && (#[trigger] entities@[i]).name.text@ == name,
    {
        let ghost views = entity_views(entities@);
        let mut names: StringHashSet = StringHashSet::new();
        let mut i: usize = 0;
        assert(names@ =~= entity_names(views.take(0)));
        while i < entities.len()
            invariant
                i <= entities@.len(),
                views == entity_views(entities@),
                names@ == entity_names(views.take(i as int)),
            decreases entities@.len() - i,
        {
            names.insert(entities[i].name.text.clone());
            proof {
                lemma_names_step(views, i as int);
            }
            i = i + 1;
        }
        assert(views.take(i as int) =~= views);
        assert forall|name: Seq<char>| #[trigger] names@.contains(name) <==> exists|i: int|
            0 <= i < entities@.len() && (#[trigger] entities@[i]).name.text@ == name by {
            if names@.contains(name) {
                let k = choose|k: int|
                    0 <= k < views.len() && (#[trigger] views[k]).name.text == name;
                assert(entities@[k].name.text@ == name);
            }
            if exists|i: int| 0 <= i < entities@.len() && (#[trigger] entities@[i]).name.text@
                == name {
                let k = choose|k: int|
                    0 <= k < entities@.len() && (#[trigger] entities@[k]).name.text@ == name;
                assert(views[k].name.text == name);
            }
        }
        EntityRegistry { names }
    }

    /// Whether an entity of the given name is registered.
    pub fn contains(&self, name: &str) -> (found: bool)
        ensures
            found == self@.contains(name@),
    {
        self.names.contains(name)
    }
}

/// One more entity adds one name.
proof fn lemma_names_step(entities: Seq<EntityDefView>, i: int)
    requires
        0 <= i < entities.len(),
    ensures
        entity_names(entities.take(i + 1)) == entity_names(entities.take(i)).insert(
            entities[i].name.text,
        ),
        entity_names(entities.take(i)).contains(entities[i].name.text) <==> exists|j: int|
            0 <= j < i && (#[trigger] entities[j]).name.text == entities[i].name.text,
{
    let before = entities.take(i);
    let after = entities.take(i + 1);
    assert forall|name: Seq<char>| entity_names(after).contains(name) <==> #[trigger] entity_names(
        before,
    ).insert(entities[i].name.text).contains(name) by {
        if entity_names(before).contains(name) {
            let j = choose|j: int|
                0 <= j < before.len() && (#[trigger] before[j]).name.text == name;
            assert(after[j].name.text == name);
        }
        if name == entities[i].name.text {
            assert(after[i].name.text == name);
        }
        if entity_names(after).contains(name) && name != entities[i].name.text {
            let j = choose|j: int| 0 <= j < after.len() && (#[trigger] after[j]).name.text == name;
            assert(before[j].name.text == name);
        }
    }
    assert(entity_names(after) =~= entity_names(before).insert(entities[i].name.text));
    if entity_names(before).contains(entities[i].name.text) {
        let j = choose|j: int|
            0 <= j < before.len() && (#[trigger] before[j]).name.text == entities[i].name.text;
        assert(entities[j].name.text == entities[i].name.text);
    }
    if exists|j: int| 0 <= j < i && (#[trigger] entities[j]).name.text == entities[i].name.text {
        let j = choose|j: int|
            0 <= j < i && (#[trigger] entities[j]).name.text == entities[i].name.text;
        assert(before[j].name.text == entities[i].name.text);
    }
}

/// Resolve the type of a field.
fn analyze_field(field: FieldDef, registry: &EntityRegistry) -> (outcome: Result<
    AnalyzedField,
    syn::Error,
>)
    ensures
        match (outcome, resolved_type(registry@, field@.ty)) {
            (Ok(analyzed), Ok(_)) => analyzed@ == resolved_field(registry@, field@),
            (Err(error), Err(message)) => error_messages(error) == seq![message],
            _ => false,
        },
        outcome matches Ok(analyzed) ==> {
            &&& analyzed.attrs == field.attrs
            &&& analyzed.name == field.name
            &&& analyzed.span == field.span
            &&& !analyzed.implements_related
        },
        match field.ty {
            RawFieldType::Scalar { scalar, optional } => outcome matches Ok(analyzed)
                && analyzed.ty == (FieldType::Scalar { scalar, optional }),
            RawFieldType::Vec { inner } => if registry@.contains(inner.text@) {
                outcome matches Ok(analyzed) && analyzed.ty == (FieldType::HasMany {
                    target: inner,
                })
            } else {
                outcome is Err
            },
            RawFieldType::Unknown { name, optional } => if registry@.contains(name.text@) {
                outcome matches Ok(analyzed) && analyzed.ty == (FieldType::BelongsTo {
                    target: name,
                    optional,
                })
            } else {
                outcome is Err
            },
        },
{
    let ty: FieldType = match field.ty {
        RawFieldType::Scalar { scalar, optional } => FieldType::Scalar { scalar, optional },
        RawFieldType::Vec { inner } => {
            // Vec<T> must reference an entity (has_many)
            if !registry.contains(inner.text.as_str()) {
                return Err(
                    new_error(inner.span, messages::unknown_entity(inner.text.as_str())),
                );
            }
            FieldType::HasMany { target: inner }
        },
        RawFieldType::Unknown { name, optional } => {
            // If it's a known entity, it's a belongs_to relationship
            if !registry.contains(name.text.as_str()) {
                return Err(new_error(name.span, messages::unknown_type(name.text.as_str())));
            }
            FieldType::BelongsTo { target: name, optional }
        },
    };
    Ok(
        AnalyzedField {
            attrs: field.attrs,
            name: field.name,
            ty,
            span: field.span,
            implements_related: false,
        },
    )
}

/// Reject created_at/updated_at only when they'd collide with auto-generated timestamps.
fn validate_timestamps(attrs: &EntityAttrs, fields: &[FieldDef]) -> (outcome: Result<
    (),
    syn::Error,
>)
    ensures
        match (
            outcome,
            first_some(
                fields@.len(),
                timestamp_check(attrs@, fields@.map_values(|f: FieldDef| f@)),
            ),
        ) {
            (Ok(_), problem) => problem is None,
            (Err(error), problem) => problem matches Some(message) && error_messages(error)
                == seq![message],
        },
{
    let ghost views = fields@.map_values(|f: FieldDef| f@);
    let ghost check = timestamp_check(attrs@, views);
    let created_at: String = "created_at".to_owned();
    let updated_at: String = "updated_at".to_owned();
    let mut i: usize = 0;
    while i < fields.len()
        invariant
            i <= fields@.len(),
            views == fields@.map_values(|f: FieldDef| f@),
            check == timestamp_check(attrs@, views),
            created_at@ == "created_at"@,
            updated_at@ == "updated_at"@,
            first_some(i as nat, check) is None,
        decreases fields@.len() - i,
    {
        let field: &FieldDef = &fields[i];
        assert(views[i as int] == field@);
        if field.name.text == created_at && attrs.has_created_at {
            proof {
                lemma_first_some_at(fields@.len(), check, i as int);
            }
            return Err(new_error(field.name.span, messages::created_at()));
        }
        if field.name.text == updated_at && attrs.has_updated_at {
            proof {
                lemma_first_some_at(fields@.len(), check, i as int);
            }
            return Err(new_error(field.name.span, messages::updated_at()));
        }
        i = i + 1;
    }
    Ok(())
}

/// Whether a name is among the columns.
fn has_column(columns: &[String], name: &String) -> (found: bool)
    ensures
        found == texts(columns@).contains(name@),
{
    let mut i: usize = 0;
    while i < columns.len()
        invariant
            i <= columns@.len(),
            forall|j: int| 0 <= j < i ==> (#[trigger] texts(columns@)[j]) != name@,
        decreases columns@.len() - i,
    {
        assert(texts(columns@)[i as int] == columns@[i as int]@);
        if columns[i] == *name {
            return true;
        }
        i = i + 1;
    }
    false
}

/// Validate that the primary key columns exist in the entity, and are scalars.
fn validate_primary_key(
    entity: &Identifier,
    columns: &[String],
    fields: &[AnalyzedField],
) -> (outcome: Result<(), syn::Error>)
    ensures
        match (
            outcome,
            key_problem(entity@, field_views(fields@), Some(texts(columns@))),
        ) {
            (Ok(_), problem) => problem is None,
            (Err(error), problem) => problem matches Some(message) && error_messages(error)
                == seq![message],
        },
{
    let ghost views = field_views(fields@);
    let ghost names = texts(columns@);
    let mut field_names: StringHashSet = StringHashSet::new();
    let mut i: usize = 0;
    while i < fields.len()
        invariant
            i <= fields@.len(),
            views == field_views(fields@),
            forall|name: Seq<char>| #[trigger]
                field_names@.contains(name) <==> exists|j: int|
                    0 <= j < i && (#[trigger] views[j]).name.text == name,
        decreases fields@.len() - i,
    {
        assert(views[i as int] == fields@[i as int]@);
        field_names.insert(fields[i].name.text.clone());
        i = i + 1;
    }
    let ghost column_problem = column_check(entity@, views, names);
    let mut c: usize = 0;
    while c < columns.len()
        invariant
            c <= columns@.len(),
            views == field_views(fields@),
            names == texts(columns@),
            column_problem == column_check(entity@, views, names),
            forall|name: Seq<char>| #[trigger]
                field_names@.contains(name) <==> exists|j: int|
                    0 <= j < fields@.len() && (#[trigger] views[j]).name.text == name,
            first_some(c as nat, column_problem) is None,
        decreases columns@.len() - c,
    {
        assert(names[c as int] == columns@[c as int]@);
        if !field_names.contains(columns[c].as_str()) {
            proof {
                lemma_first_some_at(columns@.len(), column_problem, c as int);
            }
            return Err(
                new_error(
                    entity.span,
                    messages::missing_column(columns[c].as_str(), entity.text.as_str()),
                ),
            );
        }
        c = c + 1;
    }
    let ghost type_problem = key_type_check(views, names);
    let mut f: usize = 0;
    while f < fields.len()
        invariant
            f <= fields@.len(),
            views == field_views(fields@),
            names == texts(columns@),
            type_problem == key_type_check(views, names),
            first_some(columns@.len(), column_check(entity@, views, names)) is None,
            first_some(f as nat, type_problem) is None,
        decreases fields@.len() - f,
    {
        let field: &AnalyzedField = &fields[f];
        assert(views[f as int] == field@);
        if has_column(columns, &field.name.text) && !matches!(field.ty, FieldType::Scalar { .. }) {
            proof {
                lemma_first_some_at(fields@.len(), type_problem, f as int);
            }
            return Err(
                new_error(
                    field.name.span,
                    messages::relation_column(field.name.text.as_str()),
                ),
            );
        }
        f = f + 1;
    }
    Ok(())
}

/// Resolve the types of fields, in order, up to the first that can not be resolved.
fn analyze_fields(fields: Vec<FieldDef>, registry: &EntityRegistry) -> (outcome: Result<
    Vec<AnalyzedField>,
    syn::Error,
>)
    ensures
        match (
            outcome,
            first_some(
                fields@.len(),
                type_check(registry@, fields@.map_values(|f: FieldDef| f@)),
            ),
        ) {
            (Ok(analyzed), problem) => problem is None && field_views(analyzed@)
                == resolved_fields(registry@, fields@.map_values(|f: FieldDef| f@)),
            (Err(error), problem) => problem matches Some(message) && error_messages(error)
                == seq![message],
        },
{
    let ghost views = fields@.map_values(|f: FieldDef| f@);
    let ghost check = type_check(registry@, views);
    let mut analyzed: Vec<AnalyzedField> = Vec::new();
    assert(field_views(analyzed@) =~= resolved_fields(registry@, views.take(0)));
    for field in it: fields
        invariant
            views == it.seq().map_values(|f: FieldDef| f@),
            check == type_check(registry@, views),
            first_some(it.index() as nat, check) is None,
            field_views(analyzed@) == resolved_fields(registry@, views.take(it.index())),
    {
        let ghost i = it.index();
        assert(views[i] == field@);
        match analyze_field(field, registry) {
            Ok(resolved) => {
                let ghost before = field_views(analyzed@);
                analyzed.push(resolved);
                assert(field_views(analyzed@) =~= before.push(resolved@));
                assert(resolved_fields(registry@, views.take(i + 1)) =~= before.push(resolved@));
            },
            Err(error) => {
                proof {
                    lemma_first_some_at(views.len(), check, i);
                }
                return Err(error);
            },
        }
    }
    assert(views.take(views.len() as int) =~= views);
    Ok(analyzed)
}

/// Analyze an entity against the names of all entities.
fn analyze_entity(entity: EntityDef, registry: &EntityRegistry) -> (outcome: Result<
    AnalyzedEntity,
    syn::Error,
>)
    ensures
        agrees(outcome, entity_analysis(registry@, entity@)),
{
    match validate_timestamps(&entity.attrs, entity.fields.as_slice()) {
        Ok(()) => {},
        Err(error) => return Err(error),
    }
    let EntityDef { attrs, name, fields, span } = entity;
    let mut analyzed: Vec<AnalyzedField> = match analyze_fields(fields, registry) {
        Ok(analyzed) => analyzed,
        Err(error) => return Err(error),
    };
    // Which field owns `Related` depends on what the other fields of this entity point at, so this
    // comes after all of them are resolved.
    match validate_relation_rules(&name, &mut analyzed) {
        Ok(()) => {},
        Err(error) => return Err(error),
    }
    if let Some(columns) = &attrs.primary_key {
        match validate_primary_key(&name, columns.as_slice(), analyzed.as_slice()) {
            Ok(()) => {},
            Err(error) => return Err(error),
        }
    }
    Ok(AnalyzedEntity { attrs, name, fields: analyzed, span })
}

/// Reject an entity that has the name of an earlier one.
fn validate_entity_names(entities: &[EntityDef]) -> (outcome: Result<(), syn::Error>)
    ensures
        match (
            outcome,
            first_some(entities@.len(), duplicate_check(entity_views(entities@))),
        ) {
            (Ok(_), problem) => problem is None,
            (Err(error), problem) => problem matches Some(message) && error_messages(error)
                == seq![message],
        },
{
    let ghost views = entity_views(entities@);
    let ghost check = duplicate_check(views);
    let mut seen: StringHashSet = StringHashSet::new();
    let mut i: usize = 0;
    assert(seen@ =~= entity_names(views.take(0)));
    while i < entities.len()
        invariant
            i <= entities@.len(),
            views == entity_views(entities@),
            check == duplicate_check(views),
            seen@ == entity_names(views.take(i as int)),
            first_some(i as nat, check) is None,
        decreases entities@.len() - i,
    {
        let name: &Identifier = &entities[i].name;
        assert(views[i as int].name == name@);
        proof {
            lemma_names_step(views, i as int);
        }
        if !seen.insert(name.text.clone()) {
            proof {
                lemma_first_some_at(entities@.len(), check, i as int);
            }
            return Err(new_error(name.span, messages::duplicate_entity(name.text.as_str())));
        }
        i = i + 1;
    }
    Ok(())
}

/// Analyze a parsed schema, resolving relationships and validating references.
pub fn analyze_schema(schema: Schema) -> (outcome: Result<AnalyzedSchema, syn::Error>)
    ensures
        agrees(outcome, schema_analysis(schema@)),
        outcome is Ok <==> valid_schema(schema@),
        outcome matches Err(error) ==> error_messages(error).len() > 0,
        outcome matches Ok(analyzed) ==> {
            &&& schema_analysis(schema@) == Ok::<Seq<AnalyzedEntityView>, Seq<Message>>(analyzed@)
            &&& types_as_written(schema@, analyzed@)
            &&& kept_as_written(schema@, analyzed@)
            &&& owners_as_written(schema@, analyzed@)
            &&& forall|e: int|
                0 <= e < analyzed@.len() ==> one_owner_each(#[trigger] analyzed@[e])
        },
        outcome matches Err(error) ==> schema_analysis(schema@) == Err::<
            Seq<AnalyzedEntityView>,
            Seq<Message>,
        >(error_messages(error)),
{
    let ghost views = schema@;
    proof {
        law_schema_accepted_iff_valid(views);
        law_errors_say_something(views);
    }
    match validate_entity_names(schema.entities.as_slice()) {
        Ok(()) => {},
        Err(error) => return Err(error),
    }
    let registry: EntityRegistry = EntityRegistry::new(schema.entities.as_slice());
    let ghost names = registry@;
    let ghost check = entity_check(names, views);
    let mut analyzed: Vec<AnalyzedEntity> = Vec::new();
    for entity in it: schema.entities
        invariant
            views == it.seq().map_values(|e: EntityDef| e@),
            names == registry@,
            names == entity_names(views),
            check == entity_check(names, views),
            first_some(views.len(), duplicate_check(views)) is None,
            first_some(it.index() as nat, check) is None,
            analyzed@.len() == it.index(),
            forall|i: int|
                0 <= i < it.index() ==> (#[trigger] analyzed@[i])@ == entity_analysis(
                    names,
                    views[i],
                )->Ok_0,
    {
        let ghost i = it.index();
        assert(views[i] == entity@);
        match analyze_entity(entity, &registry) {
            Ok(resolved) => {
                analyzed.push(resolved);
            },
            Err(error) => {
                proof {
                    lemma_first_some_at(views.len(), check, i);
                    law_schema_accepted_iff_valid(views);
                    law_errors_say_something(views);
                }
                return Err(error);
            },
        }
    }
    let outcome: AnalyzedSchema = AnalyzedSchema { entities: analyzed };
    assert(outcome@ =~= views.map_values(
        |entity: EntityDefView| entity_analysis(names, entity)->Ok_0,
    ));
    proof {
        law_schema_accepted_iff_valid(views);
        law_types_come_out_as_written(views);
        law_owners_of_schema_are_those_written(views);
        assert forall|e: int| 0 <= e < outcome@.len() implies one_owner_each(
            #[trigger] outcome@[e],
        ) by {
            law_schema_has_one_owner_each(views, e);
        }
    }
    Ok(outcome)
}

} // verus!
