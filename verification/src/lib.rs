//! A regex text search engine over what a walk of the file system came to.
//!
//! A search takes a pattern, options, and the visits of a walk: the root paths found
//! missing and the entries found, files with their bytes. It compiles the pattern once,
//! decides entry by entry what is searched, scans each file line by line or as one buffer,
//! and folds what it finds into one report.

pub mod engine;
pub mod error;
pub mod file_types;
pub mod laws;
pub mod lines;
pub mod options;
pub mod pattern;
pub mod record;
pub mod result;
pub mod scanner;
pub mod walker;

pub use crate::engine::search;
pub use crate::engine::search_file;
pub use crate::engine::Searcher;
pub use crate::engine::Visit;
pub use crate::error::SearchError;
pub use crate::file_types::get_supported_file_types;
pub use crate::options::resolve;
pub use crate::options::ResolvedOptions;
pub use crate::options::SearchOptions;
pub use crate::pattern::validate_pattern;
pub use crate::pattern::CompiledPattern;
pub use crate::record::FileOutcome;
pub use crate::record::SearchMatch;
pub use crate::result::SearchResult;
pub use crate::walker::Admission;
pub use crate::walker::EntryKind;
pub use crate::walker::IgnoreSet;
pub use crate::walker::Visited;
pub use crate::walker::WalkEntry;
