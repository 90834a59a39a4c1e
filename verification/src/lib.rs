//! A JSON reformatter.
//!
//! A document's structural parse events are consumed once, depth first, and
//! re-serialized with normalized formatting: every scope is rendered both
//! compact and indented while its events stream past, and the compact form
//! is kept exactly when its trimmed length stays under 80 characters. The
//! escaping of string values, the layout decision and the output path
//! derivation are all verified; the event source itself is the streaming
//! parser of an outside crate, reached through a few trusted wrappers.

pub mod escape;
pub mod events;
pub mod format;
pub mod path;
pub mod text;
