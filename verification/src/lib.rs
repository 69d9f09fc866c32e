//! Batch conversion of contact-card files between a legacy single-byte
//! Western-European encoding (windows-1252) and Unicode text, rewriting the
//! card's version marker on the way.
//!
//! The library is organised in three layers:
//! - [`win1252`] models the windows-1252 byte/character tables and wraps the
//!   `encoding_rs` codec behind contracts stated over those tables;
//! - [`rewrite`] implements verified replacement of all non-overlapping
//!   occurrences of a pattern in a character sequence;
//! - [`convert`] ties the two together into the whole-file transformation and
//!   states its laws: the marker rewrite is exact, idempotent, and the
//!   encoding round-trips byte-for-byte.

pub mod convert;
pub mod rewrite;
pub mod win1252;
