//! Log capture: terminal output rendered as inert HTML, kept in a bounded batcher.
pub mod inert;
pub mod render;
pub mod ansi;
