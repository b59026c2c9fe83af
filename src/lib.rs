//! Search a walked directory tree for directories with a given base name, and
//! package the matching paths as a sentinel-terminated array of NUL-terminated
//! byte strings whose ownership passes to the caller.
//!
//! The walk itself (reading the file system) is done by the caller, which feeds
//! each entry to a [`matcher::MatchSet`]; everything from there on is verified.

pub mod entry;
pub mod matcher;
pub mod cstring;
pub mod export;
pub mod laws;
