//! The mod settings a blueprint run is made with, and the names of the
//! saves it writes.

use crate::common::config::BlueprintConfig;
use crate::common::error::{BenchmarkError, BenchmarkErrorKind};
use crate::common::factorio::FactorioExecutor;
use crate::common::settings::{
    lemma_scope_set_reads, scope_get, scope_set, ModSettings, ModSettingsScopeName, ModSettingsValue, ValueModel,
};
use crate::common::text::append_str;
use vstd::prelude::*;

verus! {

/// Benchmarks the blueprints of a configuration with one Factorio
/// executable.
#[derive(Debug)]
pub struct BlueprintRunner {
    pub config: BlueprintConfig,
    pub factorio: FactorioExecutor,
}

impl BlueprintRunner {
    /// A runner of `config` with `factorio`.
    pub fn new(config: BlueprintConfig, factorio: FactorioExecutor) -> (r: Self)
        ensures
            r.config == config,
            r.factorio == factorio,
    {
        BlueprintRunner { config, factorio }
    }
}

/// The startup settings of a blueprint run: the tick to stop at, blueprint
/// mode on, the blueprint string and the number of copies to build.
pub open spec fn blueprint_startup(
    s: Seq<(Seq<char>, ValueModel)>,
    buffer_ticks: u32,
    count: u32,
    blueprint: Seq<char>,
) -> Seq<(Seq<char>, ValueModel)> {
    let s1 = scope_set(s, "belt-sanitizer-target-tick"@, Some(ValueModel::Int(buffer_ticks as i64)));
    let s2 = scope_set(s1, "belt-sanitizer-blueprint-mode"@, Some(ValueModel::Bool(true)));
    let s3 = scope_set(s2, "belt-sanitizer-blueprint-string"@, Some(ValueModel::Str(blueprint)));
    scope_set(s3, "belt-sanitizer-blueprint-count"@, Some(ValueModel::Int(count as i64)))
}

/// Sets the startup settings of a blueprint run; the other scopes and the
/// version stay as they were.
pub fn apply_blueprint_settings(ms: &mut ModSettings, buffer_ticks: u32, count: u32, blueprint: String)
    ensures
        final(ms)@.0 == old(ms)@.0,
        final(ms)@.1.scope(ModSettingsScopeName::Startup) == blueprint_startup(
            old(ms)@.1.scope(ModSettingsScopeName::Startup),
            buffer_ticks,
            count,
            blueprint@,
        ),
        final(ms)@.1.scope(ModSettingsScopeName::RuntimeGlobal) == old(ms)@.1.scope(ModSettingsScopeName::RuntimeGlobal),
        final(ms)@.1.scope(ModSettingsScopeName::RuntimePerUser) == old(ms)@.1.scope(ModSettingsScopeName::RuntimePerUser),
{
    ms.set(ModSettingsScopeName::Startup, "belt-sanitizer-target-tick".to_owned(), Some(ModSettingsValue::Int(buffer_ticks as i64)));
    ms.set(ModSettingsScopeName::Startup, "belt-sanitizer-blueprint-mode".to_owned(), Some(ModSettingsValue::Bool(true)));
    ms.set(ModSettingsScopeName::Startup, "belt-sanitizer-blueprint-string".to_owned(), Some(ModSettingsValue::String(blueprint)));
    ms.set(ModSettingsScopeName::Startup, "belt-sanitizer-blueprint-count".to_owned(), Some(ModSettingsValue::Int(count as i64)));
}

/// The name of a blueprint file: with the prefix in front when one is
/// configured.
pub fn blueprint_file_name(prefix: Option<&str>, file_name: &str) -> (r: String)
    ensures
        r@ == match prefix {
            Some(p) => p@ + file_name@,
            None => file_name@,
        },
{
    let mut out = String::new();
    match prefix {
        Some(p) => append_str(&mut out, p),
        None => {},
    }
    append_str(&mut out, file_name);
    out
}

/// The error when no mod directory is configured or found.
pub fn no_mods_directory() -> (r: BenchmarkError)
    ensures
        *r.kind == BenchmarkErrorKind::NoModsDirectoryFound,
        r.hint matches Some(h) && h@ == "Please supply a --mods-dir explicitely."@,
        r.process_output is None,
{
    BenchmarkError::from(BenchmarkErrorKind::NoModsDirectoryFound).with_hint(
        Some("Please supply a --mods-dir explicitely.".to_owned()),
    )
}

/// What the startup scope reads after a blueprint run's settings are
/// applied to it, whatever it held: `belt-sanitizer-target-tick` is the
/// buffer tick count, `belt-sanitizer-blueprint-mode` is true,
/// `belt-sanitizer-blueprint-string` holds the blueprint and
/// `belt-sanitizer-blueprint-count` the number of copies, and every other
/// setting reads as before.
pub proof fn lemma_blueprint_settings_read(
    s: Seq<(Seq<char>, ValueModel)>,
    buffer_ticks: u32,
    count: u32,
    blueprint: Seq<char>,
    other: Seq<char>,
)
    ensures
        scope_get(blueprint_startup(s, buffer_ticks, count, blueprint), "belt-sanitizer-target-tick"@) == Some(
            ValueModel::Int(buffer_ticks as i64),
        ),
        scope_get(blueprint_startup(s, buffer_ticks, count, blueprint), "belt-sanitizer-blueprint-mode"@) == Some(
            ValueModel::Bool(true),
        ),
        scope_get(blueprint_startup(s, buffer_ticks, count, blueprint), "belt-sanitizer-blueprint-string"@) == Some(
            ValueModel::Str(blueprint),
        ),
        scope_get(blueprint_startup(s, buffer_ticks, count, blueprint), "belt-sanitizer-blueprint-count"@) == Some(
            ValueModel::Int(count as i64),
        ),
        other != "belt-sanitizer-target-tick"@ && other != "belt-sanitizer-blueprint-mode"@ && other
            != "belt-sanitizer-blueprint-string"@ && other != "belt-sanitizer-blueprint-count"@ ==> scope_get(
            blueprint_startup(s, buffer_ticks, count, blueprint),
            other,
        ) == scope_get(s, other),
{
    let tick = "belt-sanitizer-target-tick"@;
    let mode = "belt-sanitizer-blueprint-mode"@;
    let text = "belt-sanitizer-blueprint-string"@;
    let copies = "belt-sanitizer-blueprint-count"@;
    reveal_strlit("belt-sanitizer-target-tick");
    reveal_strlit("belt-sanitizer-blueprint-mode");
    reveal_strlit("belt-sanitizer-blueprint-string");
    reveal_strlit("belt-sanitizer-blueprint-count");
    assert(tick.len() == 26 && mode.len() == 29 && text.len() == 31 && copies.len() == 30);
    let s1 = scope_set(s, tick, Some(ValueModel::Int(buffer_ticks as i64)));
    let s2 = scope_set(s1, mode, Some(ValueModel::Bool(true)));
    let s3 = scope_set(s2, text, Some(ValueModel::Str(blueprint)));
    let r = blueprint_startup(s, buffer_ticks, count, blueprint);
    let keys = seq![tick, mode, text, copies, other];
    assert forall|q: int| 0 <= q < 5 implies {
        let k = #[trigger] keys[q];
        &&& scope_get(s1, k) == if k == tick {
            Some(ValueModel::Int(buffer_ticks as i64))
        } else {
            scope_get(s, k)
        }
        &&& scope_get(s2, k) == if k == mode {
            Some(ValueModel::Bool(true))
        } else {
            scope_get(s1, k)
        }
        &&& scope_get(s3, k) == if k == text {
            Some(ValueModel::Str(blueprint))
        } else {
            scope_get(s2, k)
        }
        &&& scope_get(r, k) == if k == copies {
            Some(ValueModel::Int(count as i64))
        } else {
            scope_get(s3, k)
        }
    } by {
        let k = keys[q];
        lemma_scope_set_reads(s, tick, ValueModel::Int(buffer_ticks as i64), k);
        lemma_scope_set_reads(s1, mode, ValueModel::Bool(true), k);
        lemma_scope_set_reads(s2, text, ValueModel::Str(blueprint), k);
        lemma_scope_set_reads(s3, copies, ValueModel::Int(count as i64), k);
    }
    assert(keys[0] == tick && keys[1] == mode && keys[2] == text && keys[3] == copies && keys[4] == other);
}

} // verus!
