//! A per-directory catalog of game records kept in a tag-delimited text
//! document: the typed field model with its validation rules, the parser and
//! the serializer of the document, and the merge of the document's records
//! with the game files found in the directory.

pub mod emulator_listings;
pub mod game_listings;
pub mod literal;
pub mod pattern;
pub mod text;
pub mod utils;
