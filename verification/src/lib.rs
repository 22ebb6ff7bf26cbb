//! Core logic of a small interactive shell front-end: a quote-aware
//! tokenizer, built-in command dispatch decisions, search-path candidate
//! construction, and the prompt context engine (working-directory label
//! simplification and version-control branch detection).
//!
//! Everything here is pure: callers supply the strings read from the
//! environment and the filesystem, and receive the strings to print or the
//! decisions to act on.

pub mod context;
pub mod dispatch;
pub mod numbers;
pub mod paths;
pub mod resolver;
pub mod strutil;
pub mod tokenizer;
