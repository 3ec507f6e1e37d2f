//! What is known of an emulator, and the list of the emulators found.

pub mod emulator_list;
pub mod emulator_meta;
