//! Benchmarking: the order runs are executed in, what is read out of
//! Factorio's log, and the AMD uProf reports that profiled runs produce.

pub mod parser;
pub mod runner;
pub mod uprof;
