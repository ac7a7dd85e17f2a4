//! A backend-agnostic schema migration engine: versioned, checksummed
//! migrations applied exactly once, in order, under an advisory lock.

pub mod migration;
pub mod plan;
pub mod history;
pub mod runner;
pub mod guarantees;
