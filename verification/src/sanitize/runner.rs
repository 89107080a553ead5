//! The mod settings a sanitizing run is made with.

use crate::common::config::SanitizeConfig;
use crate::common::factorio::FactorioExecutor;
use crate::common::settings::{
    lemma_scope_set_reads, opt_view, scope_get, scope_set, ModSettings, ModSettingsScopeName, ModSettingsValue,
    ValueModel,
};
use vstd::prelude::*;

verus! {

/// Sanitizes the saves of a configuration with one Factorio executable.
#[derive(Debug)]
pub struct SanitizeRunner {
    pub config: SanitizeConfig,
    pub factorio: FactorioExecutor,
}

impl SanitizeRunner {
    /// A runner of `config` with `factorio`.
    pub fn new(config: SanitizeConfig, factorio: FactorioExecutor) -> (r: Self)
        ensures
            r.config == config,
            r.factorio == factorio,
    {
        SanitizeRunner { config, factorio }
    }
}

/// The startup settings of a sanitizing run: blueprint mode off, the tick
/// to check production at, and the items and fluids to watch when given.
pub open spec fn sanitizer_startup(
    s: Seq<(Seq<char>, ValueModel)>,
    ticks: u32,
    items: Option<Seq<char>>,
    fluids: Option<Seq<char>>,
) -> Seq<(Seq<char>, ValueModel)> {
    let s1 = scope_set(s, "belt-sanitizer-blueprint-mode"@, Some(ValueModel::Bool(false)));
    let s2 = scope_set(s1, "belt-sanitizer-target-tick"@, Some(ValueModel::Int(ticks as i64)));
    let s3 = match items {
        Some(i) => scope_set(s2, "belt-sanitizer-production-items"@, Some(ValueModel::Str(i))),
        None => s2,
    };
    match fluids {
        Some(f) => scope_set(s3, "belt-sanitizer-production-fluids"@, Some(ValueModel::Str(f))),
        None => s3,
    }
}

/// Sets the startup settings of a sanitizing run; the other scopes and the
/// version stay as they were.
pub fn apply_sanitizer_settings(ms: &mut ModSettings, ticks: u32, items: Option<String>, fluids: Option<String>)
    ensures
        final(ms)@.0 == old(ms)@.0,
        final(ms)@.1.scope(ModSettingsScopeName::Startup) == sanitizer_startup(
            old(ms)@.1.scope(ModSettingsScopeName::Startup),
            ticks,
            match items {
                Some(i) => Some(i@),
                None => None,
            },
            match fluids {
                Some(f) => Some(f@),
                None => None,
            },
        ),
        final(ms)@.1.scope(ModSettingsScopeName::RuntimeGlobal) == old(ms)@.1.scope(ModSettingsScopeName::RuntimeGlobal),
        final(ms)@.1.scope(ModSettingsScopeName::RuntimePerUser) == old(ms)@.1.scope(ModSettingsScopeName::RuntimePerUser),
{
    ms.set(ModSettingsScopeName::Startup, "belt-sanitizer-blueprint-mode".to_owned(), Some(ModSettingsValue::Bool(false)));
    ms.set(ModSettingsScopeName::Startup, "belt-sanitizer-target-tick".to_owned(), Some(ModSettingsValue::Int(ticks as i64)));
    match items {
        Some(i) => {
            ms.set(ModSettingsScopeName::Startup, "belt-sanitizer-production-items".to_owned(), Some(ModSettingsValue::String(i)));
        },
        None => {},
    }
    match fluids {
        Some(f) => {
            ms.set(ModSettingsScopeName::Startup, "belt-sanitizer-production-fluids".to_owned(), Some(ModSettingsValue::String(f)));
        },
        None => {},
    }
}

/// What the startup scope reads after a sanitizing run's settings are
/// applied to it, whatever it held: `belt-sanitizer-blueprint-mode` is
/// false, `belt-sanitizer-target-tick` is the tick count,
/// `belt-sanitizer-production-items` holds the items and
/// `belt-sanitizer-production-fluids` the fluids when they are given (each
/// reads as before when not), and every other setting reads as before.
pub proof fn lemma_sanitizer_settings_read(
    s: Seq<(Seq<char>, ValueModel)>,
    ticks: u32,
    items: Option<Seq<char>>,
    fluids: Option<Seq<char>>,
    other: Seq<char>,
)
    ensures
        scope_get(sanitizer_startup(s, ticks, items, fluids), "belt-sanitizer-blueprint-mode"@) == Some(
            ValueModel::Bool(false),
        ),
        scope_get(sanitizer_startup(s, ticks, items, fluids), "belt-sanitizer-target-tick"@) == Some(
            ValueModel::Int(ticks as i64),
        ),
        scope_get(sanitizer_startup(s, ticks, items, fluids), "belt-sanitizer-production-items"@) == match items {
            Some(i) => Some(ValueModel::Str(i)),
            None => scope_get(s, "belt-sanitizer-production-items"@),
        },
        scope_get(sanitizer_startup(s, ticks, items, fluids), "belt-sanitizer-production-fluids"@) == match fluids {
            Some(f) => Some(ValueModel::Str(f)),
            None => scope_get(s, "belt-sanitizer-production-fluids"@),
        },
        other != "belt-sanitizer-blueprint-mode"@ && other != "belt-sanitizer-target-tick"@ && other
            != "belt-sanitizer-production-items"@ && other != "belt-sanitizer-production-fluids"@ ==> scope_get(
            sanitizer_startup(s, ticks, items, fluids),
            other,
        ) == scope_get(s, other),
{
    let mode = "belt-sanitizer-blueprint-mode"@;
    let tick = "belt-sanitizer-target-tick"@;
    let item = "belt-sanitizer-production-items"@;
    let fluid = "belt-sanitizer-production-fluids"@;
    reveal_strlit("belt-sanitizer-blueprint-mode");
    reveal_strlit("belt-sanitizer-target-tick");
    reveal_strlit("belt-sanitizer-production-items");
    reveal_strlit("belt-sanitizer-production-fluids");
    assert(mode.len() == 29 && tick.len() == 26 && item.len() == 31 && fluid.len() == 32);
    let s1 = scope_set(s, mode, Some(ValueModel::Bool(false)));
    let s2 = scope_set(s1, tick, Some(ValueModel::Int(ticks as i64)));
    let s3 = match items {
        Some(i) => scope_set(s2, item, Some(ValueModel::Str(i))),
        None => s2,
    };
    let r = sanitizer_startup(s, ticks, items, fluids);
    let keys = seq![mode, tick, item, fluid, other];
    assert forall|q: int| 0 <= q < 5 implies {
        let k = #[trigger] keys[q];
        &&& scope_get(s1, k) == if k == mode {
            Some(ValueModel::Bool(false))
        } else {
            scope_get(s, k)
        }
        &&& scope_get(s2, k) == if k == tick {
            Some(ValueModel::Int(ticks as i64))
        } else {
            scope_get(s1, k)
        }
        &&& scope_get(s3, k) == match items {
            Some(i) => if k == item {
                Some(ValueModel::Str(i))
            } else {
                scope_get(s2, k)
            },
            None => scope_get(s2, k),
        }
        &&& scope_get(r, k) == match fluids {
            Some(f) => if k == fluid {
                Some(ValueModel::Str(f))
            } else {
                scope_get(s3, k)
            },
            None => scope_get(s3, k),
        }
    } by {
        let k = keys[q];
        lemma_scope_set_reads(s, mode, ValueModel::Bool(false), k);
        lemma_scope_set_reads(s1, tick, ValueModel::Int(ticks as i64), k);
        if let Some(i) = items {
            lemma_scope_set_reads(s2, item, ValueModel::Str(i), k);
        }
        if let Some(f) = fluids {
            lemma_scope_set_reads(s3, fluid, ValueModel::Str(f), k);
        }
    }
    assert(keys[0] == mode && keys[1] == tick && keys[2] == item && keys[3] == fluid && keys[4] == other);
}

} // verus!
