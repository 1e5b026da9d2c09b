//! Schema-driven frontmatter extraction and serialization.
//!
//! A declarative, recursively nestable field schema describes the metadata
//! fields of a new document. The extraction engine walks the schema, drives
//! one typed prompt per leaf field through an abstract prompting capability,
//! coerces raw operator input into typed values, and serializes the collected
//! values into a delimited structured-header block.

pub mod config;
pub mod extract;
pub mod header;
pub mod numbers;
pub mod prompt;
pub mod text;
pub mod value;
