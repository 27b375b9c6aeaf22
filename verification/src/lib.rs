//! Builds the search index of a docset from rendered API-documentation pages.
//!
//! The library is the computing core of a docset generator: it classifies the
//! symbols that listing pages declare, turns them into index rows, and keeps
//! those rows free of duplicates. It also fixes the layout of the bundle and
//! the text of its metadata file. Reading pages and writing the bundle to
//! disk is left to the caller.

pub mod builder;
pub mod entry;
pub mod extract;
pub mod index;
pub mod kind;
pub mod locate;
pub mod paths;
pub mod text;

pub use crate::builder::DocsetBuilder;
pub use crate::entry::Entry;
pub use crate::extract::{extract_entries, ExtractError, Page};
pub use crate::index::{IndexRow, IndexStore, InsertOutcome};
pub use crate::kind::RustType;
