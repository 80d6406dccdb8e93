//! Down-conversion of OpenAPI 3.1 documents to OpenAPI 3.0.
pub mod args;
pub mod convert;
pub mod deep;
pub mod document;
pub mod laws;
pub mod rewrites;
pub mod visitor;
pub mod yaml;
