//! From the lines of a MYPS program to its tree of blocks and items.
pub mod ast;
pub mod error;
pub mod analyze;
pub mod program;
pub mod tree;
pub mod nodes;
