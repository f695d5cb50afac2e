//! A verified core for a vault of markdown documents.
//!
//! The vault tracks a directory of markdown files, each optionally carrying a
//! numeric embedding vector, keeps a cache snapshot reconciled against the
//! filesystem, refreshes stale embeddings through an external provider, and
//! answers nearest-neighbour queries over the current embeddings.

pub mod config;
pub mod embedding;
pub mod error;
pub mod file;
pub mod frontmatter;
pub mod mdfile;
pub mod paths;
pub mod prompt;
pub mod similarity;
pub mod text;
pub mod vault;
