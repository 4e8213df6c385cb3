# rapina_schema

Semantic analysis of entity schemas, verified with Verus.

A schema declares entities and their fields. `analyze_schema` resolves what each field means, a
column, a `belongs_to` or a `has_many`, decides which field owns `Related` for each entity that is
pointed at, and rejects schemas that leave something open.

- `src/rules.rs` says what analysis makes of a schema, and `src/validity.rs` which schemas it
  accepts.
- `src/analyze.rs` and `src/relations.rs` hold the analysis, proved to do what the rules say.
- `src/laws.rs` states and proves what holds of analysis as a whole.
- `src/identifier.rs` and `src/diagnostics.rs` are where the crates `proc_macro2` and `syn` are
  called: tokens come in as identifiers, and problems go out as `syn::Error` values.
