//! A small source-text formatting core.
//!
//! The library assembles ordered header fragments (visibility and safety
//! qualifiers, keywords, identifiers) into a single rendered header line,
//! and lays out ordered list items under a chosen layout tactic and width
//! budget.  Comments that sat between fragments in the original source are
//! located through byte-offset spans and reproduced verbatim, never dropped
//! or reordered.

pub mod bytes;
pub mod comment;
pub mod header;
pub mod list;
pub mod scan;
pub mod shape;
pub mod span;
pub mod source;
