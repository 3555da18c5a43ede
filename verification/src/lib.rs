//! Finds Cargo projects below a set of root directories, plans their cleanup
//! and accounts for the disk space that the cleanup reclaims.
//!
//! The crate holds the decisions only: which entries of a directory are
//! skipped, followed or measured, how pending directories are merged into the
//! traversal frontier, how measurements are summed, which projects are cleaned
//! and what the final report says. Reading directories and spawning processes
//! is left to the caller, who feeds the results back as plain values.
pub mod entry;
pub mod expand;
pub mod clean;
pub mod tree;
pub mod paths;
pub mod error;
pub mod dispatch;
pub mod orchestrate;
pub mod laws;
