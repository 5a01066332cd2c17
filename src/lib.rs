//! Literal-substring search over a directory tree: file names or file lines.

pub mod text;
pub mod search;
pub mod render;
pub mod lister;
pub mod args;
pub mod lemmas;
