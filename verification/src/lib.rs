//! Attribute-metadata rewriter for prefixed command-line argument names.
//!
//! Given a record type whose fields carry `arg(...)` attributes, the library
//! derives a prefix from the record's name and, for every field, synthesizes
//! the `id`, `value_name`, `long` and `env` argument entries from
//! `prefix_field`, while honouring user-supplied overrides already present on
//! the field. The syntax-tree front end (parsing a token stream into a record
//! and printing it back) is left to the caller; the library works on a plain
//! model of the record and its attributes.

pub mod casing;
pub mod entry;
pub mod record;
pub mod rewrite;

pub use crate::record::clap_prefix;
