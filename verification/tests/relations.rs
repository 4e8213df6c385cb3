//! Which field owns `Related`.

use rapina_schema::relations::{
    field_list, group_by_target, relation_target, resolve_related_owner,
};
use rapina_schema::{
    analyze_schema, AnalyzedEntity, EntityAttrs, EntityDef, FieldAttrs, FieldDef, FieldType,
    Identifier, RawFieldType, ScalarType, Schema,
};

fn ident(text: &str) -> Identifier {
    Identifier::from_token(&proc_macro2::Ident::new(text, proc_macro2::Span::call_site()))
}

fn scalar(name: &str) -> RawFieldType {
    RawFieldType::Scalar { scalar: ScalarType { name: name.to_string() }, optional: false }
}

fn vec_of(name: &str) -> RawFieldType {
    RawFieldType::Vec { inner: ident(name) }
}

fn one(name: &str) -> RawFieldType {
    RawFieldType::Unknown { name: ident(name), optional: false }
}

fn maybe(name: &str) -> RawFieldType {
    RawFieldType::Unknown { name: ident(name), optional: true }
}

fn field(name: &str, ty: RawFieldType) -> FieldDef {
    FieldDef {
        attrs: FieldAttrs { unique: false, column_name: None, related: false },
        name: ident(name),
        ty,
        span: proc_macro2::Span::call_site(),
    }
}

fn marked(name: &str, ty: RawFieldType) -> FieldDef {
    let mut field = field(name, ty);
    field.attrs.related = true;
    field
}

fn entity(name: &str, fields: Vec<FieldDef>) -> EntityDef {
    EntityDef {
        attrs: EntityAttrs {
            table_name: None,
            has_created_at: true,
            has_updated_at: true,
            primary_key: None,
        },
        name: ident(name),
        fields,
        span: proc_macro2::Span::call_site(),
    }
}

fn analyzed(entities: Vec<EntityDef>) -> Vec<AnalyzedEntity> {
    analyze_schema(Schema { entities }).unwrap().entities
}

fn messages(entities: Vec<EntityDef>) -> Vec<String> {
    let error = analyze_schema(Schema { entities }).unwrap_err();
    error.into_iter().map(|e| e.to_string()).collect()
}

/// The names of the fields that own `Related`.
fn owners(entity: &AnalyzedEntity) -> Vec<String> {
    entity
        .fields
        .iter()
        .filter(|f| f.implements_related)
        .map(|f| f.name.text.clone())
        .collect()
}

/// An entity whose fields point at `User` and `Account`, both ways.
fn transaction() -> EntityDef {
    entity(
        "Tx",
        vec![
            field("amount", scalar("i64")),
            field("seller", maybe("User")),
            field("from", maybe("Account")),
            field("buyer", maybe("User")),
            field("to", maybe("Account")),
            field("watchers", vec_of("User")),
        ],
    )
}

#[test]
fn marked_field_owns_whatever_the_order() {
    let all = analyzed(vec![
        entity("Account", vec![field("name", scalar("String"))]),
        entity(
            "RegressionTx",
            vec![
                field("amount", scalar("i64")),
                field("from", maybe("Account")),
                marked("to", maybe("Account")),
            ],
        ),
    ]);
    assert_eq!(owners(&all[1]), vec!["to"]);

    let all = analyzed(vec![
        entity("Account", vec![]),
        entity(
            "RegressionTx",
            vec![
                marked("to", maybe("Account")),
                field("amount", scalar("i64")),
                field("from", maybe("Account")),
            ],
        ),
    ]);
    assert_eq!(owners(&all[1]), vec!["to"]);
}

#[test]
fn one_of_three_fields_owns() {
    let all = analyzed(vec![
        entity("Warehouse", vec![field("name", scalar("String"))]),
        entity(
            "Shipment",
            vec![
                field("weight", scalar("i64")),
                field("origin", one("Warehouse")),
                marked("destination", one("Warehouse")),
                field("backup", maybe("Warehouse")),
            ],
        ),
    ]);
    assert_eq!(owners(&all[1]), vec!["destination"]);
}

#[test]
fn an_entity_may_point_at_itself_twice() {
    let all = analyzed(vec![entity(
        "Employee",
        vec![
            field("name", scalar("String")),
            marked("manager", maybe("Employee")),
            field("mentor", maybe("Employee")),
        ],
    )]);
    assert_eq!(owners(&all[0]), vec!["manager"]);
}

#[test]
fn belongs_to_owns_next_to_has_many() {
    let all = analyzed(vec![entity(
        "Category",
        vec![
            field("name", scalar("String")),
            field("children", vec_of("Category")),
            field("parent", maybe("Category")),
        ],
    )]);
    assert_eq!(owners(&all[0]), vec!["parent"]);
}

#[test]
fn every_target_of_a_blog_has_its_owner() {
    let all = analyzed(vec![
        entity(
            "TestUser",
            vec![
                field("email", scalar("String")),
                field("posts", vec_of("TestPost")),
                field("comments", vec_of("TestComment")),
            ],
        ),
        entity(
            "TestPost",
            vec![
                field("title", scalar("String")),
                field("author", one("TestUser")),
                field("comments", vec_of("TestComment")),
            ],
        ),
        entity(
            "TestComment",
            vec![
                field("content", scalar("Text")),
                field("post", one("TestPost")),
                field("author", maybe("TestUser")),
            ],
        ),
    ]);
    assert_eq!(owners(&all[0]), vec!["posts", "comments"]);
    assert_eq!(owners(&all[1]), vec!["author", "comments"]);
    assert_eq!(owners(&all[2]), vec!["post", "author"]);
}

#[test]
fn a_mark_on_the_only_field_is_no_harm() {
    let all = analyzed(vec![
        entity("User", vec![]),
        entity("Post", vec![marked("author", one("User"))]),
    ]);
    assert_eq!(owners(&all[1]), vec!["author"]);
}

#[test]
fn fields_are_grouped_by_target() {
    let mut marked_tx = transaction();
    marked_tx.fields[1].attrs.related = true;
    marked_tx.fields[2].attrs.related = true;
    let all = analyzed(vec![entity("User", vec![]), entity("Account", vec![]), marked_tx]);
    assert_eq!(
        group_by_target(&all[2].fields),
        vec![("User".to_string(), vec![1, 3, 5]), ("Account".to_string(), vec![2, 4])]
    );
    assert_eq!(owners(&all[2]), vec!["seller", "from"]);
    assert_eq!(field_list(&[2, 4], &all[2].fields), "'from', 'to'");
    assert_eq!(field_list(&[5], &all[2].fields), "'watchers'");
    assert_eq!(field_list(&[], &all[2].fields), "");
    assert!(relation_target(&all[2].fields[0].ty).is_none());
    assert_eq!(relation_target(&all[2].fields[5].ty).unwrap().text, "User");
    let owner = resolve_related_owner(&all[2].name, "Account", &[2, 4], &all[2].fields);
    assert_eq!(owner.unwrap(), 2);
    let owner = resolve_related_owner(&all[2].name, "Account", &[4], &all[2].fields);
    assert_eq!(owner.unwrap(), 4);
}

#[test]
fn every_ambiguous_target_is_reported_in_source_order() {
    assert_eq!(
        messages(vec![entity("Account", vec![]), entity("User", vec![]), transaction()]),
        vec![
            "entity 'Tx' has 2 fields referencing 'User' ('seller', 'buyer'); add #[related] to exactly one of them to choose which one find_related uses",
            "entity 'Tx' has 2 fields referencing 'Account' ('from', 'to'); add #[related] to exactly one of them to choose which one find_related uses",
        ]
    );
}

#[test]
fn every_surplus_mark_is_reported() {
    assert_eq!(
        messages(vec![
            entity("User", vec![]),
            entity(
                "Post",
                vec![
                    field("owner", one("User")),
                    marked("author", one("User")),
                    marked("editor", one("User")),
                    marked("proofreader", maybe("User")),
                ],
            ),
        ]),
        vec![
            "only one field per target may be marked #[related]; 'User' is already claimed by 'author'",
            "only one field per target may be marked #[related]; 'User' is already claimed by 'author'",
        ]
    );
}

#[test]
fn several_has_many_to_one_target_are_rejected() {
    assert_eq!(
        messages(vec![
            entity("Post", vec![]),
            entity(
                "User",
                vec![
                    field("drafts", vec_of("Post")),
                    field("favourite", maybe("Post")),
                    field("posts", vec_of("Post")),
                ],
            ),
        ]),
        vec![
            "entity 'User' has 2 has_many fields referencing 'Post' ('drafts', 'posts'); this is not supported yet \u{2014} SeaORM cannot distinguish them without an explicit foreign key",
        ]
    );
}

#[test]
fn numbers_above_nine_are_written_out() {
    let mut fields = vec![];
    for i in 0..12 {
        fields.push(field(&format!("f{}", i), one("User")));
    }
    let report = messages(vec![entity("User", vec![]), entity("Post", fields)]);
    assert_eq!(report.len(), 1);
    assert!(report[0].starts_with("entity 'Post' has 12 fields referencing 'User' ('f0', 'f1', "));
}

#[test]
fn marks_belong_on_belongs_to_fields() {
    assert_eq!(
        messages(vec![
            entity("Post", vec![]),
            entity("User", vec![marked("posts", vec_of("Post"))]),
        ]),
        vec![
            "#[related] cannot be used on the has_many field 'posts'; mark the belongs_to field that owns the foreign key instead",
        ]
    );
    assert_eq!(
        messages(vec![entity("User", vec![marked("email", scalar("String"))])]),
        vec!["#[related] can only be used on a relationship field, but 'email' is a scalar"]
    );
}

#[test]
fn a_misplaced_mark_comes_before_ambiguity() {
    let mut tx = transaction();
    tx.fields[0].attrs.related = true;
    assert_eq!(
        messages(vec![entity("User", vec![]), entity("Account", vec![]), tx]),
        vec!["#[related] can only be used on a relationship field, but 'amount' is a scalar"]
    );
}

#[test]
fn order_of_fields_does_not_matter() {
    let fields = |order: [usize; 3]| {
        let mut made = vec![];
        for i in order {
            made.push(match i {
                0 => field("origin", one("Warehouse")),
                1 => marked("destination", one("Warehouse")),
                _ => field("backups", vec_of("Warehouse")),
            });
        }
        made
    };
    for order in [[0, 1, 2], [2, 1, 0], [1, 2, 0], [2, 0, 1]] {
        let all = analyzed(vec![
            entity("Warehouse", vec![]),
            entity("Shipment", fields(order)),
        ]);
        assert_eq!(owners(&all[1]), vec!["destination"]);
        for f in &all[1].fields {
            assert_eq!(f.name.text == "backups", matches!(f.ty, FieldType::HasMany { .. }));
        }
    }
}
