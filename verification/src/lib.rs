//! A verified keyword-in-context (KWIC) concordance library.
//!
//! The library tokenizes lines of text, filters stop words, builds cyclically
//! rotated context windows for every occurrence of each content word, stores
//! the results in a relational store backed by SQLite, and answers
//! word/document queries over that store with a case-insensitive sort of the
//! results.

pub mod laws;
pub mod query;
pub mod store;
pub mod text;
pub mod windows;
