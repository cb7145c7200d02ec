//! The show's mix domain: actors, groups, positions, their keyed registries,
//! and the errors its lookups report.

pub mod actor;
pub mod config;
pub mod error;
pub mod group;
pub mod position;
