//! Incremental directory mirroring: walk a source tree, decide per file
//! whether to copy, overwrite, skip or leave it alone, and aggregate the
//! outcome counts of many concurrently dispatched copy operations.
//!
//! The crate holds the decision logic: directive parsing, skip-pattern
//! matching, path mirroring, the per-entry classification, the walk's
//! work-list, and the folding of copy outcomes into summaries.  The caller
//! performs the filesystem work (listing, stat, mkdir, the byte copies) and
//! feeds what it observed back into the engine.

pub mod copy_directions;
pub mod executor;
pub mod file_ops;
pub mod pattern;
pub mod summary;
pub mod test_utils;
