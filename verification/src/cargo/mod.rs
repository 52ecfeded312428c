//! Packages of the Cargo ecosystem.

pub mod cache;
pub mod cfg;
pub mod configured;
pub mod declares;
pub mod edges;
pub mod features;
pub mod lock;
pub mod locking;
pub mod manifest;
pub mod plan;
pub mod recipes;
pub mod resolver;
