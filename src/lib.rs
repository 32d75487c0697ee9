//! Storage kernel of a small relational database: a binary page codec, block
//! addressing over files, a write-ahead log and a pinned buffer pool.
//!
//! The kernel decides; the caller performs the file I/O that the decisions
//! call for (see `BlockWrite` and `Pinned`).
pub mod byte_buffer;
pub mod page;
pub mod file_manager;
pub mod log_manager;
pub mod buffer;
pub mod buffer_manager;
pub mod record;
pub mod log_iterator;
pub mod simpledb;

