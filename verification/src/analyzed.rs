//! An analyzed schema: every field type is resolved, and every relation has its owner.

use vstd::prelude::*;

use crate::definitions::{EntityAttrs, EntityAttrsView, FieldAttrs, FieldAttrsView};
use crate::identifier::{Identifier, IdentifierView};
use crate::types::{FieldType, FieldTypeView};

verus! {

/// Analyzed schema with resolved relationships.
#[derive(Debug)]
pub struct AnalyzedSchema {
    pub entities: Vec<AnalyzedEntity>,
}

/// An entity with resolved field types.
#[derive(Debug)]
pub struct AnalyzedEntity {
    pub attrs: EntityAttrs,
    pub name: Identifier,
    pub fields: Vec<AnalyzedField>,
    pub span: proc_macro2::Span,
}

/// A field with resolved type information.
#[derive(Debug)]
pub struct AnalyzedField {
    pub attrs: FieldAttrs,
    pub name: Identifier,
    pub ty: FieldType,
    pub span: proc_macro2::Span,
    /// Whether this field owns `Related<Target>`.
    ///
    /// That depends on what the other fields of the entity point at, so it is settled once all of
    /// them are resolved. Exactly one field per target owns it. The others, and every scalar, do
    /// not.
    pub implements_related: bool,
}

/// What an analyzed field stands for in contracts.
pub struct AnalyzedFieldView {
    pub attrs: FieldAttrsView,
    pub name: IdentifierView,
    pub ty: FieldTypeView,
    pub span: proc_macro2::Span,
    pub implements_related: bool,
}

/// What an analyzed entity stands for in contracts.
pub struct AnalyzedEntityView {
    pub attrs: EntityAttrsView,
    pub name: IdentifierView,
    pub fields: Seq<AnalyzedFieldView>,
    pub span: proc_macro2::Span,
}

/// What a list of analyzed fields stands for in contracts.
pub open spec fn field_views(fields: Seq<AnalyzedField>) -> Seq<AnalyzedFieldView> {
    fields.map_values(|f: AnalyzedField| f@)
}

impl View for AnalyzedField {
    type V = AnalyzedFieldView;

    open spec fn view(&self) -> AnalyzedFieldView {
        AnalyzedFieldView {
            attrs: self.attrs@,
            name: self.name@,
            ty: self.ty@,
            span: self.span,
            implements_related: self.implements_related,
        }
    }
}

impl View for AnalyzedEntity {
    type V = AnalyzedEntityView;

    open spec fn view(&self) -> AnalyzedEntityView {
        AnalyzedEntityView {
            attrs: self.attrs@,
            name: self.name@,
            fields: field_views(self.fields@),
            span: self.span,
        }
    }
}

impl View for AnalyzedSchema {
    type V = Seq<AnalyzedEntityView>;

    open spec fn view(&self) -> Seq<AnalyzedEntityView> {
        self.entities@.map_values(|e: AnalyzedEntity| e@)
    }
}

/// Contracts speak of what comes out: of every entity and every field, with their names, places,
/// attributes and types, and of who owns `Related`.
pub proof fn law_contracts_speak_of_what_comes_out(schema: AnalyzedSchema, e: int, f: int)
    ensures
        schema@.len() == schema.entities@.len(),
        0 <= e < schema.entities@.len() ==> ({
            let entity = schema.entities@[e];
            let view = schema@[e];
            &&& view.name.text == entity.name.text@
            &&& view.name.span == entity.name.span
            &&& view.span == entity.span
            &&& view.attrs == entity.attrs@
            &&& view.fields.len() == entity.fields@.len()
        }),
        0 <= e < schema.entities@.len() && 0 <= f < schema.entities@[e].fields@.len() ==> ({
            let field = schema.entities@[e].fields@[f];
            let view = schema@[e].fields[f];
            &&& view.name.text == field.name.text@
            &&& view.name.span == field.name.span
            &&& view.span == field.span
            &&& view.attrs == field.attrs@
            &&& view.implements_related == field.implements_related
            &&& match field.ty {
                FieldType::Scalar { scalar, optional } => view.ty == (FieldTypeView::Scalar {
                    scalar: scalar.name@,
                    optional,
                }),
                FieldType::HasMany { target } => view.ty == (FieldTypeView::HasMany {
                    target: IdentifierView { text: target.text@, span: target.span },
                }),
                FieldType::BelongsTo { target, optional } => view.ty == (FieldTypeView::BelongsTo {
                    target: IdentifierView { text: target.text@, span: target.span },
                    optional,
                }),
            }
        }),
{
}

} // verus!
