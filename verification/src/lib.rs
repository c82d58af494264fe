//! Extraction of the structured metadata block that trails a columnar
//! storage file: a footer locator finds the serialized block between the
//! magic markers, a compact-protocol decoder reconstructs structured
//! values from it, and a projector maps those values to a typed
//! `FileMetadata` (version, schema element names, row count).

pub mod decoder;
pub mod error;
pub mod footer;
pub mod laws;
pub mod project;
pub mod reader;
pub mod value;
pub mod varint;
pub mod wire;
