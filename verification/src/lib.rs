//! An in-memory engine for "new ASCII" cpio archives, the container of an
//! Android boot ramdisk, together with the small string and buffer helpers
//! it is built on.
//!
//! The archive is an ordered mapping from normalized paths to entries. It is
//! parsed from a byte buffer, edited by path-addressed operations, listed,
//! planned for extraction, and written back as bytes. Every function states
//! what it computes over mathematical models and is proved to do so.

pub mod base;
pub mod order;
pub mod text;
pub mod cpio;
