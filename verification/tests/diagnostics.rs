//! What is reported, and where.

use rapina_schema::text::decimal_text;
use rapina_schema::{
    analyze_schema, EntityAttrs, EntityDef, FieldAttrs, FieldDef, Identifier, RawFieldType,
    ScalarType, Schema,
};

/// The identifiers of a line of source, each with its place.
fn idents(source: &str) -> Vec<Identifier> {
    let tokens: proc_macro2::TokenStream = source.parse().unwrap();
    let mut found = vec![];
    for token in tokens {
        if let proc_macro2::TokenTree::Ident(ident) = token {
            found.push(Identifier::from_token(&ident));
        }
    }
    found
}

fn columns_of(error: syn::Error) -> Vec<usize> {
    error.into_iter().map(|e| e.span().start().column).collect()
}

fn field(name: Identifier, ty: RawFieldType) -> FieldDef {
    FieldDef {
        attrs: FieldAttrs { unique: false, column_name: None, related: false },
        name,
        ty,
        span: proc_macro2::Span::call_site(),
    }
}

fn marked(name: Identifier, ty: RawFieldType) -> FieldDef {
    let mut field = field(name, ty);
    field.attrs.related = true;
    field
}

fn scalar() -> RawFieldType {
    RawFieldType::Scalar { scalar: ScalarType { name: "i32".to_string() }, optional: false }
}

fn one(name: Identifier) -> RawFieldType {
    RawFieldType::Unknown { name, optional: false }
}

fn entity(name: Identifier, fields: Vec<FieldDef>) -> EntityDef {
    EntityDef {
        attrs: EntityAttrs {
            table_name: None,
            has_created_at: true,
            has_updated_at: true,
            primary_key: None,
        },
        name,
        fields,
        span: proc_macro2::Span::call_site(),
    }
}

fn rejected(entities: Vec<EntityDef>) -> syn::Error {
    analyze_schema(Schema { entities }).unwrap_err()
}

#[test]
fn identifiers_keep_text_and_place() {
    let found = idents("User r#type");
    assert_eq!(found[0].text, "User");
    assert_eq!(found[0].span.start().column, 0);
    assert_eq!(found[1].text, "r#type");
    assert_eq!(found[1].span.start().column, 5);
}

#[test]
fn a_duplicate_is_reported_at_the_later_entity() {
    let mut names = idents("User Post User Post").into_iter();
    let mut next = || entity(names.next().unwrap(), vec![]);
    let error = rejected(vec![next(), next(), next(), next()]);
    assert_eq!(error.to_string(), "duplicate entity name 'User'");
    assert_eq!(columns_of(error), vec![10]);
}

#[test]
fn a_duplicate_comes_before_anything_else() {
    let mut names = idents("User x Missing User").into_iter();
    let mut next = || names.next().unwrap();
    let first = entity(next(), vec![field(next(), one(next()))]);
    let error = rejected(vec![first, entity(next(), vec![])]);
    assert_eq!(error.to_string(), "duplicate entity name 'User'");
    assert_eq!(columns_of(error), vec![15]);
}

#[test]
fn only_the_first_rejected_entity_is_reported() {
    let mut names = idents("Fine Bad a Missing Worse b Gone").into_iter();
    let mut next = || names.next().unwrap();
    let fine = entity(next(), vec![]);
    let bad = entity(next(), vec![field(next(), one(next()))]);
    let worse = entity(next(), vec![field(next(), one(next()))]);
    let error = rejected(vec![fine, bad, worse]);
    assert_eq!(
        error.to_string(),
        "unknown type 'Missing'. Use a scalar type (String, i32, etc.) or reference a defined entity."
    );
    assert_eq!(columns_of(error), vec![11]);
}

#[test]
fn an_unknown_entity_is_reported_at_its_name() {
    let mut names = idents("User posts Post").into_iter();
    let mut next = || names.next().unwrap();
    let user = entity(next(), vec![field(next(), RawFieldType::Vec { inner: next() })]);
    let error = rejected(vec![user]);
    assert_eq!(
        error.to_string(),
        "unknown entity 'Post' in Vec<Post>. Did you define this entity?"
    );
    assert_eq!(columns_of(error), vec![11]);
}

#[test]
fn a_generated_column_comes_before_an_unknown_type() {
    let mut names = idents("User x Missing created_at").into_iter();
    let mut next = || names.next().unwrap();
    let user = entity(next(), vec![field(next(), one(next())), field(next(), scalar())]);
    let error = rejected(vec![user]);
    assert_eq!(
        error.to_string(),
        "field 'created_at' is auto-generated. Use #[timestamps(none)] or #[timestamps(updated_at)] to declare it manually"
    );
    assert_eq!(columns_of(error), vec![15]);
}

#[test]
fn surplus_marks_are_reported_where_they_stand() {
    let mut names = idents("User Post a User b User c User").into_iter();
    let mut next = || names.next().unwrap();
    let user = entity(next(), vec![]);
    let post = entity(
        next(),
        vec![
            marked(next(), one(next())),
            marked(next(), one(next())),
            marked(next(), one(next())),
        ],
    );
    assert_eq!(columns_of(rejected(vec![user, post])), vec![17, 24]);
}

#[test]
fn ambiguity_is_reported_at_the_entity() {
    let mut names = idents("User Post a User b User").into_iter();
    let mut next = || names.next().unwrap();
    let user = entity(next(), vec![]);
    let post =
        entity(next(), vec![field(next(), one(next())), field(next(), one(next()))]);
    assert_eq!(columns_of(rejected(vec![user, post])), vec![5]);
}

#[test]
fn a_missing_key_column_is_reported_at_the_entity() {
    let mut names = idents("Role id").into_iter();
    let mut next = || names.next().unwrap();
    let mut role = entity(next(), vec![field(next(), scalar())]);
    role.attrs.primary_key =
        Some(vec!["id".to_string(), "gone".to_string(), "lost".to_string()]);
    let error = rejected(vec![role]);
    assert_eq!(
        error.to_string(),
        "primary_key column 'gone' does not exist in entity 'Role'"
    );
    assert_eq!(columns_of(error), vec![0]);
}

#[test]
fn a_relationship_in_the_key_is_reported_at_the_field() {
    let mut names = idents("User Post id author User").into_iter();
    let mut next = || names.next().unwrap();
    let user = entity(next(), vec![]);
    let mut post =
        entity(next(), vec![field(next(), scalar()), field(next(), one(next()))]);
    post.attrs.primary_key = Some(vec!["author".to_string(), "id".to_string()]);
    let error = rejected(vec![user, post]);
    assert_eq!(
        error.to_string(),
        "primary_key column 'author' must be a scalar type, not a relationship"
    );
    assert_eq!(columns_of(error), vec![13]);
}

#[test]
fn decimals_have_no_leading_zeros() {
    assert_eq!(decimal_text(0), "0");
    assert_eq!(decimal_text(9), "9");
    assert_eq!(decimal_text(10), "10");
    assert_eq!(decimal_text(4294967295), "4294967295");
}
