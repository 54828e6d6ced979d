//! A live, keyword-searchable full-text index over a watched directory tree.
//!
//! The library holds the rules of the live-indexing pipeline, each with a
//! contract that Verus proves:
//!
//! - [`file`]: which paths are indexed, how events of the notification
//!   service become operations, and how a failed read is retried;
//! - [`search`]: the text index over the embedded engine, how a batch of
//!   operations is applied under one commit, and the laws that hold of it;
//! - [`servers`]: what the two tools of the server return.
//!
//! Threads, channels, the file system and the protocol are the caller's: the
//! library decides, the caller waits, reads and sends.

pub mod file;
pub mod search;
pub mod servers;
pub mod text;
