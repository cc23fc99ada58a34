//! Verified core of an mdBook preprocessor that replaces `#![kind!(...)]`
//! directives in Markdown with items extracted from Rust source files.
pub mod lines;
pub mod model;
pub mod text;
pub mod extractor;
pub mod directive;
pub mod parser;
pub mod scan;
pub mod markdown;
