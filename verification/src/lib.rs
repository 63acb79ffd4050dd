//! Verified core of a grok-style line extraction pipeline.
//!
//! The library turns raw text lines into named fields by matching them
//! against a compiled pattern, renders the result as JSON or CSV, and
//! routes every rendered line to exactly one of two output channels while
//! keeping running parse statistics.  The regular-expression engine behind
//! the pattern matching is the `grok` crate, reached through a small set of
//! trusted wrappers; everything around it is verified.

pub mod alias;
pub mod catalog;
pub mod config;
pub mod errors;
pub mod fields;
pub mod parser;
pub mod pipeline;
pub mod render;
pub mod sink;
pub mod source;
pub mod stats;
pub mod text;
