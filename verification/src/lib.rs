//! A verified personal reading-log library.
//!
//! The library parses a flat, hand-edited text file of dated book entries
//! (author(s), title, optional rating annotation) grouped under French month
//! headers, renders records back to the same text form, and prepares the
//! queries and result handling for a best-effort catalog enrichment step.

pub mod classify;
pub mod date;
pub mod enrich;
pub mod laws;
pub mod model;
pub mod months;
pub mod parse;
pub mod render;
pub mod text;
pub mod years;
