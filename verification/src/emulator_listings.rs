//! The emulators of a directory tree: which of its directories are sources
//! of a catalog, and what is known of each.

pub mod structs;
pub mod valid;
