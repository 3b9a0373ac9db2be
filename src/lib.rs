//! Renders a directory tree, given as nested entries, into display lines
//! with box-drawing connectors and a closing count of directories and files.
pub mod config;
pub mod decorate;
pub mod laws;
pub mod text;
pub mod tree;

pub use config::Args;
pub use tree::{Entry, Generator};
