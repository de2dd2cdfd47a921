//! Render configuration structs as TOML annotated with their doc comments.
//!
//! A struct is described by a [`document::Document`]: its doc comment lines
//! and its fields, each with its doc comment lines and its value, written as
//! a `key = value` line, as map entries, or as a `[section]` of its own.
//! [`plan`] holds what the derive decides from a struct's declaration.

pub mod text;
pub mod value;
pub mod document;
pub mod comment;
pub mod plan;
pub mod laws;
pub mod completeness;

pub use comment::{TomlComment, TomlCommentDefault};
pub use document::{Document, Field, FieldValue, render_document, render_into};
pub use value::{TomlValue, fmt_value};
