//! A text-processing pipeline for a TeX-like lightweight markup language.
//!
//! A source document is free-form text interleaved with backslash-prefixed
//! commands that can take parameters and nested content.  The pipeline
//! parses such a document into a syntax tree (`parser`), evaluates commands
//! into a typed document tree of blocks and spans (`engine`, `commands`,
//! `document`), and renders the result as an HTML document (`html`,
//! `output`).
//!
//! Every stage is specified against a mathematical model: each executable
//! function carries a contract stating that its result equals a spec-level
//! function of its input alone.

pub mod parser;
pub mod chars;
pub mod document;
pub mod engine;
pub mod commands;
pub mod html;
pub mod output;
