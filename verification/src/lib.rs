//! Automatic construction of fixup commits.
//!
//! The library holds the absorption engine: the hunk data model and its
//! coordinate arithmetic, the commutation rule that decides which ancestor
//! commit a staged hunk belongs to, the stack-building decisions, the blob
//! rewriting that applies a hunk to file content, and the orchestration that
//! assigns hunks to destination commits. All I/O against the version-control
//! backend lives outside the library and hands it plain values.

pub mod absorb;
pub mod announce;
pub mod commute;
pub mod config;
pub mod errors;
pub mod owned;
pub mod rewrite;
pub mod stack;
