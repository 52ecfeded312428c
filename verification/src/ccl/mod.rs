//! The configuration language: scopes of names, and how a name is resolved.

pub mod answers;
pub mod apart;
pub mod example;
pub mod exec;
pub mod lookups;
pub mod meanings;
pub mod overriding;
pub mod runs;
pub mod scope;
pub mod settled;
