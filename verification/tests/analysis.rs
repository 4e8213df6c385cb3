//! Analysis of whole schemas.

use rapina_schema::{
    analyze_schema, EntityAttrs, EntityDef, EntityRegistry, FieldAttrs, FieldDef, FieldType,
    Identifier, RawFieldType, ScalarType, Schema,
};

fn ident(text: &str) -> Identifier {
    Identifier::from_token(&proc_macro2::Ident::new(text, proc_macro2::Span::call_site()))
}

fn scalar(name: &str) -> RawFieldType {
    RawFieldType::Scalar { scalar: ScalarType { name: name.to_string() }, optional: false }
}

fn vec_of(name: &str) -> RawFieldType {
    RawFieldType::Vec { inner: ident(name) }
}

fn one(name: &str) -> RawFieldType {
    RawFieldType::Unknown { name: ident(name), optional: false }
}

fn maybe(name: &str) -> RawFieldType {
    RawFieldType::Unknown { name: ident(name), optional: true }
}

fn field(name: &str, ty: RawFieldType) -> FieldDef {
    FieldDef {
        attrs: FieldAttrs { unique: false, column_name: None, related: false },
        name: ident(name),
        ty,
        span: proc_macro2::Span::call_site(),
    }
}

fn entity(name: &str, fields: Vec<FieldDef>) -> EntityDef {
    EntityDef {
        attrs: EntityAttrs {
            table_name: None,
            has_created_at: true,
            has_updated_at: true,
            primary_key: None,
        },
        name: ident(name),
        fields,
        span: proc_macro2::Span::call_site(),
    }
}

/// An entity under `#[timestamps(none)]`.
fn without_timestamps(name: &str, fields: Vec<FieldDef>) -> EntityDef {
    let mut entity = entity(name, fields);
    entity.attrs.has_created_at = false;
    entity.attrs.has_updated_at = false;
    entity
}

/// An entity under `#[primary_key(...)]` and `#[timestamps(none)]`.
fn keyed(name: &str, columns: &[&str], fields: Vec<FieldDef>) -> EntityDef {
    let mut entity = without_timestamps(name, fields);
    entity.attrs.primary_key = Some(columns.iter().map(|c| c.to_string()).collect());
    entity
}

fn schema(entities: Vec<EntityDef>) -> Schema {
    Schema { entities }
}

#[test]
fn test_analyze_simple_schema() {
    let parsed = schema(vec![entity(
        "User",
        vec![field("email", scalar("String")), field("name", scalar("String"))],
    )]);
    let analyzed = analyze_schema(parsed).unwrap();

    assert_eq!(analyzed.entities.len(), 1);
    assert_eq!(analyzed.entities[0].fields.len(), 2);
}

#[test]
fn test_analyze_has_many_relationship() {
    let parsed = schema(vec![
        entity("User", vec![field("posts", vec_of("Post"))]),
        entity("Post", vec![field("title", scalar("String"))]),
    ]);
    let analyzed = analyze_schema(parsed).unwrap();

    let user = &analyzed.entities[0];
    assert!(matches!(user.fields[0].ty, FieldType::HasMany { .. }));
}

#[test]
fn test_analyze_belongs_to_relationship() {
    let parsed = schema(vec![
        entity("User", vec![field("email", scalar("String"))]),
        entity("Post", vec![field("author", one("User"))]),
    ]);
    let analyzed = analyze_schema(parsed).unwrap();

    let post = &analyzed.entities[1];
    assert!(matches!(post.fields[0].ty, FieldType::BelongsTo { optional: false, .. }));
}

#[test]
fn test_analyze_optional_belongs_to() {
    let parsed = schema(vec![
        entity("User", vec![field("email", scalar("String"))]),
        entity("Comment", vec![field("author", maybe("User"))]),
    ]);
    let analyzed = analyze_schema(parsed).unwrap();

    let comment = &analyzed.entities[1];
    assert!(matches!(comment.fields[0].ty, FieldType::BelongsTo { optional: true, .. }));
}

#[test]
fn test_unknown_entity_in_vec_error() {
    let parsed = schema(vec![entity("User", vec![field("posts", vec_of("UnknownEntity"))])]);
    let result = analyze_schema(parsed);

    assert!(result.is_err());
    assert!(result.unwrap_err().to_string().contains("unknown entity"));
}

#[test]
fn test_unknown_type_error() {
    let parsed = schema(vec![entity("User", vec![field("foo", one("UnknownType"))])]);
    let result = analyze_schema(parsed);

    assert!(result.is_err());
    assert!(result.unwrap_err().to_string().contains("unknown type"));
}

#[test]
fn test_duplicate_entity_error() {
    let parsed = schema(vec![
        entity("User", vec![field("email", scalar("String"))]),
        entity("User", vec![field("name", scalar("String"))]),
    ]);
    let result = analyze_schema(parsed);

    assert!(result.is_err());
    assert!(result.unwrap_err().to_string().contains("duplicate entity"));
}

#[test]
fn test_analyze_preserves_entity_attrs() {
    let mut person = entity("Person", vec![field("name", scalar("String"))]);
    person.attrs.table_name = Some("people".to_string());
    let analyzed = analyze_schema(schema(vec![person])).unwrap();

    assert_eq!(analyzed.entities[0].attrs.table_name, Some("people".to_string()));
}

#[test]
fn test_created_at_allowed_with_timestamps_none() {
    let parsed = schema(vec![without_timestamps(
        "User",
        vec![field("email", scalar("String")), field("created_at", scalar("NaiveDateTime"))],
    )]);
    let result = analyze_schema(parsed);
    assert!(result.is_ok());
}

#[test]
fn test_created_at_rejected_with_default_timestamps() {
    let parsed = schema(vec![entity(
        "User",
        vec![field("email", scalar("String")), field("created_at", scalar("NaiveDateTime"))],
    )]);
    let result = analyze_schema(parsed);
    assert!(result.is_err());
    assert!(result.unwrap_err().to_string().contains("auto-generated"));
}

#[test]
fn test_analyze_preserves_field_attrs() {
    let mut email = field("email", scalar("String"));
    email.attrs.unique = true;
    email.attrs.column_name = Some("user_email".to_string());
    let analyzed = analyze_schema(schema(vec![entity("User", vec![email])])).unwrap();

    let field = &analyzed.entities[0].fields[0];
    assert!(field.attrs.unique);
    assert_eq!(field.attrs.column_name, Some("user_email".to_string()));
}

#[test]
fn test_analyze_composite_primary_key() {
    let parsed = schema(vec![keyed(
        "UsersRole",
        &["user_id", "role_id"],
        vec![field("user_id", scalar("i32")), field("role_id", scalar("i32"))],
    )]);
    let analyzed = analyze_schema(parsed).unwrap();

    let entity = &analyzed.entities[0];
    assert_eq!(
        entity.attrs.primary_key,
        Some(vec!["user_id".to_string(), "role_id".to_string()])
    );
}

#[test]
fn test_analyze_primary_key_column_not_found() {
    let parsed = schema(vec![keyed(
        "UsersRole",
        &["user_id", "nonexistent"],
        vec![field("user_id", scalar("i32")), field("role_id", scalar("i32"))],
    )]);
    let result = analyze_schema(parsed);
    assert!(result.is_err());
    assert!(result.unwrap_err().to_string().contains("does not exist"));
}

#[test]
fn test_analyze_primary_key_must_be_scalar() {
    let parsed = schema(vec![
        entity("User", vec![field("email", scalar("String"))]),
        keyed(
            "Post",
            &["author"],
            vec![field("author", one("User")), field("title", scalar("String"))],
        ),
    ]);
    let result = analyze_schema(parsed);
    assert!(result.is_err());
    assert!(result.unwrap_err().to_string().contains("scalar type"));
}

#[test]
fn test_analyze_primary_key_with_extra_fields() {
    let parsed = schema(vec![keyed(
        "UsersRole",
        &["user_id", "role_id"],
        vec![
            field("user_id", scalar("i32")),
            field("role_id", scalar("i32")),
            field("assigned_at", scalar("NaiveDateTime")),
        ],
    )]);
    let analyzed = analyze_schema(parsed).unwrap();

    let entity = &analyzed.entities[0];
    assert_eq!(entity.fields.len(), 3);
    assert_eq!(
        entity.attrs.primary_key,
        Some(vec!["user_id".to_string(), "role_id".to_string()])
    );
}

#[test]
fn empty_schema_is_accepted() {
    let analyzed = analyze_schema(schema(vec![])).unwrap();
    assert_eq!(analyzed.entities.len(), 0);
}

#[test]
fn registry_holds_the_names_of_entities() {
    let entities = vec![entity("User", vec![]), entity("Post", vec![])];
    let registry = EntityRegistry::new(&entities);
    assert!(registry.contains("User"));
    assert!(registry.contains("Post"));
    assert!(!registry.contains("user"));
    assert!(!registry.contains(""));
    assert!(!EntityRegistry::new(&[]).contains("User"));
}

#[test]
fn entities_may_refer_to_later_ones_and_to_themselves() {
    let analyzed = analyze_schema(schema(vec![
        entity("Post", vec![field("author", one("User")), field("replies", vec_of("Post"))]),
        entity("User", vec![]),
    ]))
    .unwrap();
    let fields = &analyzed.entities[0].fields;
    match &fields[0].ty {
        FieldType::BelongsTo { target, optional } => {
            assert_eq!(target.text, "User");
            assert!(!optional);
        }
        other => panic!("{:?}", other),
    }
    match &fields[1].ty {
        FieldType::HasMany { target } => assert_eq!(target.text, "Post"),
        other => panic!("{:?}", other),
    }
}

#[test]
fn order_of_entities_does_not_matter() {
    let user = || entity("User", vec![field("posts", vec_of("Post"))]);
    let post = || entity("Post", vec![field("author", maybe("User"))]);
    let forth = analyze_schema(schema(vec![user(), post()])).unwrap();
    let back = analyze_schema(schema(vec![post(), user()])).unwrap();
    assert_eq!(format!("{:?}", forth.entities[0]), format!("{:?}", back.entities[1]));
    assert_eq!(format!("{:?}", forth.entities[1]), format!("{:?}", back.entities[0]));
}

#[test]
fn scalars_are_carried_through() {
    let optional = RawFieldType::Scalar {
        scalar: ScalarType { name: "Text".to_string() },
        optional: true,
    };
    let analyzed =
        analyze_schema(schema(vec![entity("User", vec![field("bio", optional)])])).unwrap();
    assert_eq!(analyzed.entities[0].name.text, "User");
    assert_eq!(analyzed.entities[0].fields[0].name.text, "bio");
    match &analyzed.entities[0].fields[0].ty {
        FieldType::Scalar { scalar, optional } => {
            assert_eq!(scalar.name, "Text");
            assert!(optional);
        }
        other => panic!("{:?}", other),
    }
    assert!(!analyzed.entities[0].fields[0].implements_related);
}

#[test]
fn timestamp_names_are_free_where_the_other_one_is_generated() {
    let mut only_updated = entity("A", vec![field("created_at", scalar("NaiveDateTime"))]);
    only_updated.attrs.has_created_at = false;
    assert!(analyze_schema(schema(vec![only_updated])).is_ok());

    let mut only_created = entity("A", vec![field("updated_at", scalar("NaiveDateTime"))]);
    only_created.attrs.has_updated_at = false;
    assert!(analyze_schema(schema(vec![only_created])).is_ok());

    let mut clash = entity("A", vec![field("updated_at", scalar("NaiveDateTime"))]);
    clash.attrs.has_created_at = false;
    assert_eq!(
        analyze_schema(schema(vec![clash])).unwrap_err().to_string(),
        "field 'updated_at' is auto-generated. Use #[timestamps(none)] or #[timestamps(created_at)] to declare it manually"
    );
}

#[test]
fn an_empty_primary_key_is_accepted() {
    assert!(analyze_schema(schema(vec![keyed("A", &[], vec![])])).is_ok());
}
