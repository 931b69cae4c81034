//! Compiler core for a line-oriented dialogue script language: operator
//! resolution, expression translation, node metadata parsing, speech line
//! lexing and whole-program visit-tracking inference.

pub mod text;
pub mod ops;
pub mod metadata;
pub mod expr;
pub mod speech;
pub mod nodes;
