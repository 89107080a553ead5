//! Sanitizing saves: running each with the sanitizer mod and reporting what
//! would distort a benchmark.

pub mod parser;
pub mod runner;
