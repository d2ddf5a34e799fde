# copilot_money_cli (verified core)

The library builds a best-effort GraphQL schema stub from the operation
documents that the Copilot Money client sends, and holds the client's small
domain types. It is written in Verus. Every function in `src/` carries a contract;
Verus proves them all but those of the wrappers around `graphql_parser` and
std (in `src/parse.rs` and `src/text.rs`), whose contracts are trusted and
say so in their doc comments.

- `src/schema_gen.rs`: the entry points (`render_schema_from_texts`,
  `build_schema_draft`, `render_schema_from_documents`) and the specification
  of the whole build.
- `src/collect.rs`: the walk over selections, fragments and unions.
- `src/draft.rs`, `src/render.rs`: the schema draft and its text.
- `src/document.rs`: the model of a parsed operation document.
- `src/parse.rs`: parsing with `graphql_parser` into the document model.
- `src/cycles.rs`: deciding that fragment expansion ends.
- `src/laws.rs`, `src/expansion.rs`, `src/growth.rs`, `src/walk.rs`: properties
  of the build.
- `src/name_map.rs`, `src/keys.rs`: name-ordered maps.
- `src/types.rs`, `src/budgets.rs`: identifiers, enumerations, the budgets command.
- `app/`: the `schema-gen` program (file reading, serde and clap glue).
