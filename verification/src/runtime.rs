//! What runs on top of a filesystem.

pub mod tui;
pub mod words;
