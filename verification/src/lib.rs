//! A small single-user task tracker engine: an in-memory task store with
//! unique, monotonically allocated ids, priority-ordered listing, and a
//! canonical JSON snapshot format for synchronous persistence.
//!
//! The store itself never touches the file system: mutating operations
//! update memory and hand the caller a full JSON snapshot to write out,
//! and construction takes the file's contents as a string. A thin
//! unverified shell is expected to do the actual reads and writes.

pub mod clock;
pub mod input;
pub mod json;
pub mod task_manager;
