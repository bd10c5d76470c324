//! Flattens a set of files into one delimited text stream.
//!
//! The library holds the decision and rendering logic of the tool: parsing
//! and formatting human-readable sizes, deciding which directory entries to
//! keep, truncating content to a line limit, and assembling the exact text
//! block emitted for each file. File system access and command-line handling
//! live outside the library and hand it plain values.

pub mod config;
pub mod meta;
pub mod render;
pub mod filter;
pub mod size;
pub mod text;
