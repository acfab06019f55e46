//! Argument rewriting: match a command line against an ordered list of rules
//! and render the winning rule's templates.

pub mod text;
pub mod expr;
pub mod template;
pub mod config;
pub mod engine;
