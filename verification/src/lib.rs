//! A synchronous, file-backed configuration store over a tree of dynamically
//! typed values.
//!
//! The crate keeps the tree in memory, answers key-based reads and writes on
//! it, and turns it into text and back. Reading and writing the file itself is
//! left to the caller, who hands the file's contents in and takes the rendered
//! text out.

pub mod conf;
pub mod json;
pub mod laws;
pub mod model;
pub mod tree;

pub use conf::Conf;
pub use json::ConfError;
pub use tree::{Entry, ValueTree};
