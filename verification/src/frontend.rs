//! Positions in the program text and the syntax tree's small parts.

pub mod ast;
pub mod hierarchical_name;
pub mod position;
pub mod text;
pub mod url_resolver;
