//! db2md turns rows of string-valued table cells into hierarchically
//! headed Markdown documents, driven by a nested field schema.
//!
//! The core is pure: a schema tree is flattened into dotted field paths,
//! the paths are mapped onto column positions (by header name or by
//! position), and each row is rendered into one document whose headings
//! follow the schema hierarchy.  Reading spreadsheets and schema files,
//! and writing the rendered documents, are left to the surrounding
//! application.

pub mod field_mapper;
pub mod mapping;
pub mod md_gen;
pub mod pipeline;
pub mod schema;
pub mod state;
pub mod text;
