//! Directory trees: an owned model of a directory hierarchy, a traversal
//! state machine that builds it from directory listings, and renderers that
//! turn it into text.

pub mod decode;
pub mod encode;
pub mod lines;
pub mod listing;
pub mod render;
pub mod snapshot;
pub mod text;
pub mod tree;
pub mod walk;
pub mod yaml;
