//! Best-effort GraphQL schema stubs built from the operations that a client
//! sends, and the small domain types of the Copilot Money command line client.
//!
//! `schema_gen` is the entry point: documents (parsed with `graphql_parser`
//! and given as the model of `document`) are walked to collect the object
//! types, fields, arguments, unions and input types they imply, and the
//! result is rendered as schema text.
pub mod budgets;
pub mod collect;
pub mod cycles;
pub mod document;
pub mod draft;
pub mod expansion;
pub mod growth;
pub mod infer;
pub mod keys;
pub mod laws;
pub mod name_map;
pub mod parse;
pub mod render;
pub mod schema_gen;
pub mod text;
pub mod type_ref;
pub mod types;
pub mod walk;
