//! Menu entries for an external picker: reading the configuration, merging
//! configured entries with discovered executables, tagging each menu line
//! with an invisible index, mapping the picker's output back to commands,
//! and planning their launch.

pub mod config;
pub mod imstr;
pub mod launch;
pub mod menu;
pub mod order;
pub mod resolve;
pub mod settings;
pub mod tag;
pub mod text;
