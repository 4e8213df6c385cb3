//! A schema as it is written: entities, their fields and their attributes, with field types that
//! are not resolved yet.

use vstd::prelude::*;

use crate::identifier::{Identifier, IdentifierView};
use crate::types::ScalarType;

verus! {

/// A parsed schema: its entities, in the order in which they are declared.
#[derive(Debug)]
pub struct Schema {
    pub entities: Vec<EntityDef>,
}

/// A declared entity.
#[derive(Debug)]
pub struct EntityDef {
    pub attrs: EntityAttrs,
    pub name: Identifier,
    pub fields: Vec<FieldDef>,
    pub span: proc_macro2::Span,
}

/// What the attributes of an entity say.
#[derive(Debug)]
pub struct EntityAttrs {
    /// The name given by `#[table_name = "..."]`.
    pub table_name: Option<String>,
    /// Whether a `created_at` column is generated.
    pub has_created_at: bool,
    /// Whether an `updated_at` column is generated.
    pub has_updated_at: bool,
    /// The columns given by `#[primary_key(...)]`.
    pub primary_key: Option<Vec<String>>,
}

/// A declared field of an entity.
#[derive(Debug)]
pub struct FieldDef {
    pub attrs: FieldAttrs,
    pub name: Identifier,
    pub ty: RawFieldType,
    pub span: proc_macro2::Span,
}

/// What the attributes of a field say.
#[derive(Debug)]
pub struct FieldAttrs {
    /// Whether the field is marked `#[unique]`.
    pub unique: bool,
    /// The name given by `#[column = "..."]`.
    pub column_name: Option<String>,
    /// Whether the field is marked `#[related]`.
    pub related: bool,
}

/// The type of a field as it is written. Only a scalar is recognised by its spelling; whether any
/// other name is that of an entity is not known yet.
#[derive(Debug)]
pub enum RawFieldType {
    /// A scalar, or an `Option` of one.
    Scalar { scalar: ScalarType, optional: bool },
    /// `Vec<inner>`.
    Vec { inner: Identifier },
    /// Some other name, or an `Option` of one.
    Unknown { name: Identifier, optional: bool },
}

/// What an entity's attributes stand for in contracts.
pub struct EntityAttrsView {
    pub table_name: Option<Seq<char>>,
    pub has_created_at: bool,
    pub has_updated_at: bool,
    pub primary_key: Option<Seq<Seq<char>>>,
}

/// What a field's attributes stand for in contracts.
pub struct FieldAttrsView {
    pub unique: bool,
    pub column_name: Option<Seq<char>>,
    pub related: bool,
}

/// What a written field type stands for in contracts.
pub enum RawFieldTypeView {
    Scalar { scalar: Seq<char>, optional: bool },
    Vec { inner: IdentifierView },
    Unknown { name: IdentifierView, optional: bool },
}

/// What a declared field stands for in contracts.
pub struct FieldDefView {
    pub attrs: FieldAttrsView,
    pub name: IdentifierView,
    pub ty: RawFieldTypeView,
    pub span: proc_macro2::Span,
}

/// What a declared entity stands for in contracts.
pub struct EntityDefView {
    pub attrs: EntityAttrsView,
    pub name: IdentifierView,
    pub fields: Seq<FieldDefView>,
    pub span: proc_macro2::Span,
}

/// The text that an optional string holds.
pub open spec fn optional_text(text: Option<String>) -> Option<Seq<char>> {
    match text {
        Some(text) => Some(text@),
        None => None,
    }
}

/// The texts that a list of strings holds.
pub open spec fn texts(strings: Seq<String>) -> Seq<Seq<char>> {
    strings.map_values(|s: String| s@)
}

impl View for EntityAttrs {
    type V = EntityAttrsView;

    open spec fn view(&self) -> EntityAttrsView {
        EntityAttrsView {
            table_name: optional_text(self.table_name),
            has_created_at: self.has_created_at,
            has_updated_at: self.has_updated_at,
            primary_key: match self.primary_key {
                Some(columns) => Some(texts(columns@)),
                None => None,
            },
        }
    }
}

impl View for FieldAttrs {
    type V = FieldAttrsView;

    open spec fn view(&self) -> FieldAttrsView {
        FieldAttrsView {
            unique: self.unique,
            column_name: optional_text(self.column_name),
            related: self.related,
        }
    }
}

impl View for RawFieldType {
    type V = RawFieldTypeView;

    open spec fn view(&self) -> RawFieldTypeView {
        match self {
            RawFieldType::Scalar { scalar, optional } => RawFieldTypeView::Scalar {
                scalar: scalar@,
                optional: *optional,
            },
            RawFieldType::Vec { inner } => RawFieldTypeView::Vec { inner: inner@ },
            RawFieldType::Unknown { name, optional } => RawFieldTypeView::Unknown {
                name: name@,
                optional: *optional,
            },
        }
    }
}

impl View for FieldDef {
    type V = FieldDefView;

    open spec fn view(&self) -> FieldDefView {
        FieldDefView { attrs: self.attrs@, name: self.name@, ty: self.ty@, span: self.span }
    }
}

impl View for EntityDef {
    type V = EntityDefView;

    open spec fn view(&self) -> EntityDefView {
        EntityDefView {
            attrs: self.attrs@,
            name: self.name@,
            fields: self.fields@.map_values(|f: FieldDef| f@),
            span: self.span,
        }
    }
}

impl View for Schema {
    type V = Seq<EntityDefView>;

    open spec fn view(&self) -> Seq<EntityDefView> {
        self.entities@.map_values(|e: EntityDef| e@)
    }
}

/// Contracts speak of what is written: of every entity and every field, with their names, places,
/// attributes and types.
pub proof fn law_contracts_speak_of_what_is_written(schema: Schema, e: int, f: int)
    ensures
        schema@.len() == schema.entities@.len(),
        0 <= e < schema.entities@.len() ==> ({
            let entity = schema.entities@[e];
            let view = schema@[e];
            &&& view.name.text == entity.name.text@
            &&& view.name.span == entity.name.span
            &&& view.span == entity.span
            &&& view.attrs.has_created_at == entity.attrs.has_created_at
            &&& view.attrs.has_updated_at == entity.attrs.has_updated_at
            &&& view.attrs.table_name is Some <==> entity.attrs.table_name is Some
            &&& entity.attrs.table_name is Some ==> view.attrs.table_name->Some_0
                == entity.attrs.table_name->Some_0@
            &&& view.attrs.primary_key is Some <==> entity.attrs.primary_key is Some
            &&& entity.attrs.primary_key is Some ==> {
                let columns = entity.attrs.primary_key->Some_0@;
                let names = view.attrs.primary_key->Some_0;
                names.len() == columns.len() && forall|c: int|
                    0 <= c < columns.len() ==> #[trigger] names[c] == columns[c]@
            }
            &&& view.fields.len() == entity.fields@.len()
        }),
        0 <= e < schema.entities@.len() && 0 <= f < schema.entities@[e].fields@.len() ==> ({
            let field = schema.entities@[e].fields@[f];
            let view = schema@[e].fields[f];
            &&& view.name.text == field.name.text@
            &&& view.name.span == field.name.span
            &&& view.span == field.span
            &&& view.attrs.unique == field.attrs.unique
            &&& view.attrs.related == field.attrs.related
            &&& view.attrs.column_name is Some <==> field.attrs.column_name is Some
            &&& field.attrs.column_name is Some ==> view.attrs.column_name->Some_0
                == field.attrs.column_name->Some_0@
            &&& match field.ty {
                RawFieldType::Scalar { scalar, optional } => view.ty == (RawFieldTypeView::Scalar {
                    scalar: scalar.name@,
                    optional,
                }),
                RawFieldType::Vec { inner } => view.ty == (RawFieldTypeView::Vec {
                    inner: IdentifierView { text: inner.text@, span: inner.span },
                }),
                RawFieldType::Unknown { name, optional } => view.ty == (RawFieldTypeView::Unknown {
                    name: IdentifierView { text: name.text@, span: name.span },
                    optional,
                }),
            }
        }),
{
}

} // verus!
