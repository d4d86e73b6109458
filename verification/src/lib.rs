//! Incremental filesystem index: exclusion filtering on path components,
//! change detection by stored modification time, metadata normalization,
//! and an upsert pipeline over an in-memory model of the index store.

pub mod file_indexer;
pub mod incremental;
pub mod skipcompare;
pub mod store;
pub mod text;
