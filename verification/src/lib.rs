//! Curation engine for line-oriented training corpora: random access to
//! records, duplicate detection, validation and repair of structured records,
//! and the request handling of a JSON-RPC front end.

pub mod app;
pub mod batch;
pub mod bits;
pub mod bounds;
pub mod canonical;
pub mod commands;
pub mod data;
pub mod engine;
pub mod fixer;
pub mod format;
pub mod json;
pub mod linter;
pub mod mcp;
pub mod pattern;
pub mod settled;
pub mod streaming;
pub mod text;
pub mod tokenizer;
