//! A transactional engine for batched changes to file-backed references.
//!
//! The library holds the decisions: which lock each edit needs, how the
//! content found under that lock is checked against what the caller expected,
//! what gets staged, and in which order the staged changes are made visible.
//! The filesystem work that carries those decisions out lives with the caller.
mod bytes;

pub mod attributes;
pub mod commit;
pub mod laws;
pub mod store;
pub mod target;
pub mod transaction;

pub use target::{Change, RefEdit, RefLog, Target};
