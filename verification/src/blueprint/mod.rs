//! Blueprint benchmarking: building blueprints in a base save with the
//! sanitizer mod in blueprint mode.

pub mod runner;

use vstd::prelude::*;

verus! {

/// Where blueprints are read from and where their JSON goes.
#[derive(Debug, Clone)]
pub struct BlueprintConfig {
    /// A blueprint string given directly.
    pub string: Option<String>,
    /// A blueprint file, or a directory of them.
    pub file: String,
    /// Where the decoded blueprint is written.
    pub output: String,
    /// Whether directories are searched recursively.
    pub recursive: bool,
}

} // verus!
