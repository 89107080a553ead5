//! BELT: benchmarking, sanitizing and blueprint tooling for Factorio, with
//! the decision and data-format logic verified.

pub mod benchmark;
pub mod blueprint;
pub mod common;
pub mod sanitize;
