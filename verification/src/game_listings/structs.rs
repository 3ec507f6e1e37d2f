//! The data model of a catalog: fields, records, and the catalog itself.

pub mod game;
pub mod game_list;
