//! The plugin for Rust: how Rust's targets are understood and compiled.

pub mod arguments;
pub mod compile;
pub mod link;
pub mod making;
pub mod names;
pub mod native;
pub mod rule;
