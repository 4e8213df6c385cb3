//! The texts of the problems that analysis reports.

use vstd::prelude::*;

use crate::text::{decimal, decimal_text};

verus! {

/// An entity has the name of an earlier one.
pub open spec fn duplicate_entity_text(entity: Seq<char>) -> Seq<char> {
    "duplicate entity name '"@ + entity + "'"@
}

/// A field is called `created_at` though that column is generated.
pub open spec fn created_at_text() -> Seq<char> {
    "field 'created_at' is auto-generated. Use #[timestamps(none)] or #[timestamps(updated_at)] to declare it manually"@
}

/// A field is called `updated_at` though that column is generated.
pub open spec fn updated_at_text() -> Seq<char> {
    "field 'updated_at' is auto-generated. Use #[timestamps(none)] or #[timestamps(created_at)] to declare it manually"@
}

/// A `Vec` of something that is no entity.
pub open spec fn unknown_entity_text(name: Seq<char>) -> Seq<char> {
    "unknown entity '"@ + name + "' in Vec<"@ + name + ">. Did you define this entity?"@
}

/// A type that is neither a scalar nor an entity.
pub open spec fn unknown_type_text(name: Seq<char>) -> Seq<char> {
    "unknown type '"@ + name
        + "'. Use a scalar type (String, i32, etc.) or reference a defined entity."@
}

/// `#[related]` on a has_many field.
pub open spec fn marked_has_many_text(field: Seq<char>) -> Seq<char> {
    "#[related] cannot be used on the has_many field '"@ + field
        + "'; mark the belongs_to field that owns the foreign key instead"@
}

/// `#[related]` on a scalar field.
pub open spec fn marked_scalar_text(field: Seq<char>) -> Seq<char> {
    "#[related] can only be used on a relationship field, but '"@ + field + "' is a scalar"@
}

/// Several has_many fields of an entity refer to one target.
pub open spec fn several_has_many_text(
    entity: Seq<char>,
    count: nat,
    target: Seq<char>,
    fields: Seq<char>,
) -> Seq<char> {
    "entity '"@ + entity + "' has "@ + decimal(count) + " has_many fields referencing '"@ + target
        + "' ("@ + fields
        + "); this is not supported yet — SeaORM cannot distinguish them without an explicit foreign key"@
}

/// Several belongs_to fields of an entity refer to one target, and none is marked.
pub open spec fn unmarked_text(
    entity: Seq<char>,
    count: nat,
    target: Seq<char>,
    fields: Seq<char>,
) -> Seq<char> {
    "entity '"@ + entity + "' has "@ + decimal(count) + " fields referencing '"@ + target + "' ("@
        + fields
        + "); add #[related] to exactly one of them to choose which one find_related uses"@
}

/// A field is marked though an earlier one to the same target is.
pub open spec fn surplus_mark_text(target: Seq<char>, claimed_by: Seq<char>) -> Seq<char> {
    "only one field per target may be marked #[related]; '"@ + target + "' is already claimed by '"@
        + claimed_by + "'"@
}

/// A primary key column that no field of the entity has the name of.
pub open spec fn missing_column_text(column: Seq<char>, entity: Seq<char>) -> Seq<char> {
    "primary_key column '"@ + column + "' does not exist in entity '"@ + entity + "'"@
}

/// A primary key column that is a relationship.
pub open spec fn relation_column_text(column: Seq<char>) -> Seq<char> {
    "primary_key column '"@ + column + "' must be a scalar type, not a relationship"@
}

/// One piece of text between two others.
pub fn between(before: &str, middle: &str, after: &str) -> (text: String)
    ensures
        text@ == before@ + middle@ + after@,
{
    let mut text: String = before.to_owned();
    text.append(middle);
    text.append(after);
    text
}

/// The text of [`duplicate_entity_text`].
pub fn duplicate_entity(entity: &str) -> (text: String)
    ensures
        text@ == duplicate_entity_text(entity@),
{
    between("duplicate entity name '", entity, "'")
}

/// The text of [`created_at_text`].
pub fn created_at() -> (text: String)
    ensures
        text@ == created_at_text(),
{
    "field 'created_at' is auto-generated. Use #[timestamps(none)] or #[timestamps(updated_at)] to declare it manually".to_owned()
}

/// The text of [`updated_at_text`].
pub fn updated_at() -> (text: String)
    ensures
        text@ == updated_at_text(),
{
    "field 'updated_at' is auto-generated. Use #[timestamps(none)] or #[timestamps(created_at)] to declare it manually".to_owned()
}

/// The text of [`unknown_entity_text`].
pub fn unknown_entity(name: &str) -> (text: String)
    ensures
        text@ == unknown_entity_text(name@),
{
    let mut text: String = between("unknown entity '", name, "' in Vec<");
    text.append(name);
    text.append(">. Did you define this entity?");
    text
}

/// The text of [`unknown_type_text`].
pub fn unknown_type(name: &str) -> (text: String)
    ensures
        text@ == unknown_type_text(name@),
{
    between(
        "unknown type '",
        name,
        "'. Use a scalar type (String, i32, etc.) or reference a defined entity.",
    )
}

/// The text of [`marked_has_many_text`].
pub fn marked_has_many(field: &str) -> (text: String)
    ensures
        text@ == marked_has_many_text(field@),
{
    between(
        "#[related] cannot be used on the has_many field '",
        field,
        "'; mark the belongs_to field that owns the foreign key instead",
    )
}

/// The text of [`marked_scalar_text`].
pub fn marked_scalar(field: &str) -> (text: String)
    ensures
        text@ == marked_scalar_text(field@),
{
    between(
        "#[related] can only be used on a relationship field, but '",
        field,
        "' is a scalar",
    )
}

/// The text of [`several_has_many_text`].
pub fn several_has_many(entity: &str, count: usize, target: &str, fields: &str) -> (text: String)
    ensures
        text@ == several_has_many_text(entity@, count as nat, target@, fields@),
{
    let mut text: String = between("entity '", entity, "' has ");
    text.append(decimal_text(count).as_str());
    text.append(" has_many fields referencing '");
    text.append(target);
    text.append("' (");
    text.append(fields);
    text.append(
        "); this is not supported yet — SeaORM cannot distinguish them without an explicit foreign key",
    );
    text
}

/// The text of [`unmarked_text`].
pub fn unmarked(entity: &str, count: usize, target: &str, fields: &str) -> (text: String)
    ensures
        text@ == unmarked_text(entity@, count as nat, target@, fields@),
{
    let mut text: String = between("entity '", entity, "' has ");
    text.append(decimal_text(count).as_str());
    text.append(" fields referencing '");
    text.append(target);
    text.append("' (");
    text.append(fields);
    text.append(
        "); add #[related] to exactly one of them to choose which one find_related uses",
    );
    text
}

/// The text of [`surplus_mark_text`].
pub fn surplus_mark(target: &str, claimed_by: &str) -> (text: String)
    ensures
        text@ == surplus_mark_text(target@, claimed_by@),
{
    let mut text: String = between(
        "only one field per target may be marked #[related]; '",
        target,
        "' is already claimed by '",
    );
    text.append(claimed_by);
    text.append("'");
    text
}

/// The text of [`missing_column_text`].
pub fn missing_column(column: &str, entity: &str) -> (text: String)
    ensures
        text@ == missing_column_text(column@, entity@),
{
    let mut text: String = between("primary_key column '", column, "' does not exist in entity '");
    text.append(entity);
    text.append("'");
    text
}

/// The text of [`relation_column_text`].
pub fn relation_column(column: &str) -> (text: String)
    ensures
        text@ == relation_column_text(column@),
{
    between("primary_key column '", column, "' must be a scalar type, not a relationship")
}

} // verus!
