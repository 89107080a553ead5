//! Configuration of the subcommands, with their default values.
//!
//! Settings come, from highest priority to lowest, from the command line,
//! from `BELT_*` environment variables (`BELT_BENCHMARK__TICKS` sets
//! `benchmark.ticks`), from the configuration file, and from the defaults
//! below.

use crate::common::utils::RunOrder;
use vstd::prelude::*;

verus! {

/// Why the configuration could not be loaded.
#[derive(Debug)]
pub enum ConfigError {
    /// Loading failed, with the reason.
    LoadError(String),
    /// The given configuration file does not exist.
    NotFound(String),
}

impl ConfigError {
    /// The message of this error.
    pub fn message(&self) -> (r: String)
        ensures
            r@ == match self {
                ConfigError::LoadError(m) => "Failed to load configuration: "@ + m@,
                ConfigError::NotFound(p) => "Configuration file not found: "@ + p@,
            },
    {
        let mut out = String::new();
        match self {
            ConfigError::LoadError(m) => {
                crate::common::text::append_str(&mut out, "Failed to load configuration: ");
                crate::common::text::append_str(&mut out, m.as_str());
            },
            ConfigError::NotFound(p) => {
                crate::common::text::append_str(&mut out, "Configuration file not found: ");
                crate::common::text::append_str(&mut out, p.as_str());
            },
        }
        out
    }
}

/// Settings shared by all subcommands.
#[derive(Debug, Clone)]
pub struct GlobalConfig {
    /// The Factorio executable.
    pub factorio_path: Option<String>,
    /// Verbose logging.
    pub verbose: bool,
}

impl Default for GlobalConfig {
    fn default() -> (r: Self)
        ensures
            r.factorio_path is None,
            !r.verbose,
    {
        GlobalConfig { factorio_path: None, verbose: false }
    }
}

/// Settings of the analysis of benchmark data.
#[derive(Debug, Clone)]
pub struct AnalyzeConfig {
    /// The directory of the benchmark data.
    pub data_dir: String,
    /// The window of the moving average; 0 for none.
    pub smooth_window: u32,
    /// The metrics to chart per tick.
    pub verbose_metrics: Vec<String>,
    /// Chart height in pixels.
    pub height: u32,
    /// Chart width in pixels.
    pub width: u32,
    /// The most data points before downsampling.
    pub max_points: Option<usize>,
}

impl Default for AnalyzeConfig {
    fn default() -> (r: Self)
        ensures
            r.data_dir@.len() == 0,
            r.smooth_window == 0,
            r.verbose_metrics@.len() == 0,
            r.height == 800,
            r.width == 1200,
            r.max_points is None,
    {
        AnalyzeConfig {
            data_dir: String::new(),
            smooth_window: 0,
            verbose_metrics: Vec::new(),
            height: 800,
            width: 1200,
            max_points: None,
        }
    }
}

/// Settings of benchmarking.
#[derive(Debug, Clone)]
pub struct BenchmarkConfig {
    /// The directory of the saves, or one save.
    pub saves_dir: String,
    /// Ticks per run.
    pub ticks: u32,
    /// Runs per save.
    pub runs: u32,
    /// The pattern that save names match.
    pub pattern: Option<String>,
    /// The output directory.
    pub output: Option<String>,
    /// The report template.
    pub template_path: Option<String>,
    /// The mod directory to run with.
    pub mods_dir: Option<String>,
    /// The order of the runs.
    pub run_order: RunOrder,
    /// The metrics to export per tick.
    pub verbose_metrics: Vec<String>,
    /// A prefix taken off save names in the output.
    pub strip_prefix: Option<String>,
    /// Whether Factorio runs headless.
    pub headless: Option<bool>,
    /// Whether CPU frequencies are recorded.
    pub record_cpu: bool,
    /// Whether results are appended to existing output.
    pub append: bool,
}

impl Default for BenchmarkConfig {
    fn default() -> (r: Self)
        ensures
            r.saves_dir@.len() == 0,
            r.ticks == 6000,
            r.runs == 5,
            r.pattern is None,
            r.output is None,
            r.template_path is None,
            r.mods_dir is None,
            r.run_order == RunOrder::Grouped,
            r.verbose_metrics@.len() == 0,
            r.strip_prefix is None,
            r.headless is None,
            r.record_cpu,
            !r.append,
    {
        BenchmarkConfig {
            saves_dir: String::new(),
            ticks: 6000,
            runs: 5,
            pattern: None,
            output: None,
            template_path: None,
            mods_dir: None,
            run_order: RunOrder::Grouped,
            verbose_metrics: Vec::new(),
            strip_prefix: None,
            headless: None,
            record_cpu: true,
            append: false,
        }
    }
}

/// Settings of save sanitization.
#[derive(Debug, Clone)]
pub struct SanitizeConfig {
    /// The directory of the saves, or one save.
    pub saves_dir: String,
    /// The pattern that save names match.
    pub pattern: Option<String>,
    /// Ticks to run each save.
    pub ticks: u32,
    /// The mod directory to run with.
    pub mods_dir: Option<String>,
    /// Where the sanitizer mod writes its data.
    pub data_dir: Option<String>,
    /// Items to watch, comma separated.
    pub items: Option<String>,
    /// Fluids to watch, comma separated.
    pub fluids: Option<String>,
    /// Whether Factorio runs headless.
    pub headless: Option<bool>,
}

impl Default for SanitizeConfig {
    fn default() -> (r: Self)
        ensures
            r.saves_dir@.len() == 0,
            r.pattern is None,
            r.ticks == 3600,
            r.mods_dir is None,
            r.data_dir is None,
            r.items is None,
            r.fluids is None,
            r.headless is None,
    {
        SanitizeConfig {
            saves_dir: String::new(),
            pattern: None,
            ticks: 3600,
            mods_dir: None,
            data_dir: None,
            items: None,
            fluids: None,
            headless: None,
        }
    }
}

/// Settings of blueprint benchmarking.
#[derive(Debug, Clone)]
pub struct BlueprintConfig {
    /// The directory of the blueprints, or one blueprint.
    pub blueprints_dir: String,
    /// The save the blueprints are built in.
    pub base_save_path: String,
    /// How many copies of each blueprint to build.
    pub count: u32,
    /// Ticks to wait before measuring.
    pub buffer_ticks: u32,
    /// The mod directory to run with.
    pub mods_dir: Option<String>,
    /// The pattern that blueprint names match.
    pub pattern: Option<String>,
    /// The output directory.
    pub output: Option<String>,
    /// A prefix of the names of the saves written.
    pub prefix: Option<String>,
    /// Whether Factorio runs headless.
    pub headless: Option<bool>,
    /// The number of construction bots.
    pub bot_count: Option<u32>,
    /// The module that replaces those in mining drills.
    pub mining_module_replacement: String,
    /// The quality of the replacing modules.
    pub mining_module_replacement_quality: String,
}

impl Default for BlueprintConfig {
    fn default() -> (r: Self)
        ensures
            r.blueprints_dir@.len() == 0,
            r.base_save_path@.len() == 0,
            r.count == 0,
            r.buffer_ticks == 0,
            r.mods_dir is None,
            r.pattern is None,
            r.output is None,
            r.prefix is None,
            r.headless is None,
            r.bot_count is None,
            r.mining_module_replacement@ == "speed-module-3"@,
            r.mining_module_replacement_quality@ == "legendary"@,
    {
        BlueprintConfig {
            blueprints_dir: String::new(),
            base_save_path: String::new(),
            count: 0,
            buffer_ticks: 0,
            mods_dir: None,
            pattern: None,
            output: None,
            prefix: None,
            headless: None,
            bot_count: None,
            mining_module_replacement: "speed-module-3".to_owned(),
            mining_module_replacement_quality: "legendary".to_owned(),
        }
    }
}

} // verus!
