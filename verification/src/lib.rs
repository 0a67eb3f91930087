//! Core of a terminal dashboard for account quota and rate-limit state.
//!
//! The library turns a loosely structured, optionally double-encoded JSON
//! payload into a normalized snapshot, classifies each account's lifecycle
//! status, aggregates summary counts, and renders two fixed-width text
//! tables.  The HTTP fetch, argument parsing and terminal output live
//! outside the library.

pub mod classify;
pub mod decode;
pub mod json;
pub mod model;
pub mod num;
pub mod poll;
pub mod render;
pub mod text;
pub mod timefmt;
