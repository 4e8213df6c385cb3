//! Types of fields, once names are resolved.

use vstd::prelude::*;

use crate::identifier::{Identifier, IdentifierView};

verus! {

/// A scalar column type, by the name it is written under in a schema (`String`, `i32`, ...).
/// Which names are scalars is settled when a schema is read; nothing here depends on it.
#[derive(Debug)]
pub struct ScalarType {
    pub name: String,
}

/// The resolved type of a field.
#[derive(Debug)]
pub enum FieldType {
    /// A column of its own.
    Scalar { scalar: ScalarType, optional: bool },
    /// Many rows of another entity refer to this one.
    HasMany { target: Identifier },
    /// This entity holds a foreign key to another one.
    BelongsTo { target: Identifier, optional: bool },
}

/// What a resolved field type stands for in contracts.
pub enum FieldTypeView {
    Scalar { scalar: Seq<char>, optional: bool },
    HasMany { target: IdentifierView },
    BelongsTo { target: IdentifierView, optional: bool },
}

impl View for ScalarType {
    type V = Seq<char>;

    open spec fn view(&self) -> Seq<char> {
        self.name@
    }
}

impl View for FieldType {
    type V = FieldTypeView;

    open spec fn view(&self) -> FieldTypeView {
        match self {
            FieldType::Scalar { scalar, optional } => FieldTypeView::Scalar {
                scalar: scalar@,
                optional: *optional,
            },
            FieldType::HasMany { target } => FieldTypeView::HasMany { target: target@ },
            FieldType::BelongsTo { target, optional } => FieldTypeView::BelongsTo {
                target: target@,
                optional: *optional,
            },
        }
    }
}

} // verus!
