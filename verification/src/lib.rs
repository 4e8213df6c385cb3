//! Semantic analysis of entity schemas.
//!
//! A schema declares entities and their fields. [`analyze_schema`] finds out what the type of each
//! field means, a column or a relationship to another entity, and which field owns `Related` for
//! each entity that is pointed at; or it says what is wrong.
//!
//! - [`identifier`], [`definitions`], [`types`]: a schema as it is written
//! - [`analyzed`]: a schema once analyzed
//! - [`rules`]: what analysis makes of a schema, as a mathematical function
//! - [`validity`]: which schemas are accepted
//! - [`analyze`], [`relations`]: the analysis
//! - [`messages`], [`text`], [`diagnostics`]: what is reported
//! - [`laws`], [`outcomes`], [`reports`]: what holds of analysis as a whole
//! - [`ownership`], [`sequences`]: facts that the proofs rest on

pub mod analyze;
pub mod analyzed;
pub mod definitions;
pub mod diagnostics;
pub mod identifier;
pub mod laws;
pub mod messages;
pub mod outcomes;
pub mod ownership;
pub mod relations;
pub mod reports;
pub mod rules;
pub mod sequences;
pub mod text;
pub mod types;
pub mod validity;

pub use analyze::{analyze_schema, EntityRegistry};
pub use analyzed::{AnalyzedEntity, AnalyzedField, AnalyzedSchema};
pub use definitions::{EntityAttrs, EntityDef, FieldAttrs, FieldDef, RawFieldType, Schema};
pub use identifier::Identifier;
pub use types::{FieldType, ScalarType};
