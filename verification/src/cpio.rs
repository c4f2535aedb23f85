//! The archive engine: entries, the ordered archive, its wire format and the
//! operations on it.

pub mod archive;
pub mod commands;
pub mod device;
pub mod dump;
pub mod entry;
pub mod error;
pub mod extract;
pub mod format;
pub mod header;
pub mod items;
pub mod laws;
pub mod list;
pub mod load;
pub mod ops;
pub mod path;
