//! What the sanitizer mod reports: settings of a save that distort a
//! benchmark.

use crate::common::error::{BenchmarkError, BenchmarkErrorKind};
use crate::common::platform::{join_path, joined_path, TargetOs};
use crate::common::text::append_str;
use vstd::prelude::*;

verus! {

/// A surface of the game as the sanitizer mod describes it.
#[derive(Debug, Clone)]
pub struct SurfaceSnapshot {
    pub name: Option<String>,
    pub enemy_units: u64,
    pub enemy_spawners: u64,
    pub enemy_worms: u64,
    pub active_cars: u64,
}

/// The state of a save as the sanitizer mod describes it. Absent values
/// read as `false` and 0.
#[derive(Debug, Clone)]
pub struct SanitizerSnapshot {
    pub pollution_enabled: bool,
    pub total_pollution: u64,
    pub enemy_expansion_enabled: bool,
    pub surfaces: Option<Vec<SurfaceSnapshot>>,
}

/// The name a surface is reported under.
pub open spec fn surface_name(s: SurfaceSnapshot) -> Seq<char> {
    match s.name {
        Some(n) => n@,
        None => "unknown"@,
    }
}

/// The warnings about one surface: enemies on it, then active cars.
pub open spec fn surface_warnings(s: SurfaceSnapshot) -> Seq<Seq<char>> {
    let enemies = if s.enemy_units + s.enemy_spawners + s.enemy_worms > 0 {
        seq!["Enemies found on surface '"@ + surface_name(s) + "'"@]
    } else {
        Seq::empty()
    };
    let cars = if s.active_cars > 0 {
        seq!["Active cars found on surface '"@ + surface_name(s) + "'"@]
    } else {
        Seq::empty()
    };
    enemies + cars
}

/// The warnings about the surfaces, in order.
pub open spec fn surfaces_warnings(s: Seq<SurfaceSnapshot>) -> Seq<Seq<char>>
    decreases s.len(),
{
    if s.len() == 0 {
        Seq::empty()
    } else {
        surfaces_warnings(s.drop_last()) + surface_warnings(s.last())
    }
}

/// The things that distort a benchmark: pollution, enemy expansion, and
/// enemies or active cars on any surface.
pub open spec fn detection_warnings_of(s: SanitizerSnapshot) -> Seq<Seq<char>> {
    let pollution = if s.pollution_enabled || s.total_pollution > 0 {
        seq!["Pollution is enabled/present"@]
    } else {
        Seq::empty()
    };
    let expansion = if s.enemy_expansion_enabled {
        seq!["Enemy expansion is enabled"@]
    } else {
        Seq::empty()
    };
    let surfaces = match s.surfaces {
        Some(v) => surfaces_warnings(v@),
        None => Seq::empty(),
    };
    pollution + expansion + surfaces
}

fn push_line(v: &mut Vec<String>, s: String)
    ensures
        final(v)@.map_values(|x: String| x@) == old(v)@.map_values(|x: String| x@).push(s@),
{
    v.push(s);
    proof {
        assert(v@.map_values(|x: String| x@) =~= old(v)@.map_values(|x: String| x@).push(s@));
    }
}

fn surface_line(prefix: &str, s: &SurfaceSnapshot) -> (r: String)
    ensures
        r@ == prefix@ + surface_name(*s) + "'"@,
{
    let mut out = String::new();
    append_str(&mut out, prefix);
    match &s.name {
        Some(n) => append_str(&mut out, n.as_str()),
        None => append_str(&mut out, "unknown"),
    }
    append_str(&mut out, "'");
    out
}

/// The warnings about a save, in the order pollution, enemy expansion,
/// then each surface.
pub fn detection_warnings(snapshot: &SanitizerSnapshot) -> (r: Vec<String>)
    requires
        snapshot.surfaces matches Some(v) ==> forall|i: int| 0 <= i < v@.len() ==> (#[trigger] v@[i]).enemy_units
            + v@[i].enemy_spawners + v@[i].enemy_worms <= u64::MAX,
    ensures
        r@.map_values(|x: String| x@) == detection_warnings_of(*snapshot),
{
    let mut warnings: Vec<String> = Vec::new();
    if snapshot.pollution_enabled || snapshot.total_pollution > 0 {
        push_line(&mut warnings, "Pollution is enabled/present".to_owned());
    }
    if snapshot.enemy_expansion_enabled {
        push_line(&mut warnings, "Enemy expansion is enabled".to_owned());
    }
    let ghost head = warnings@.map_values(|x: String| x@);
    proof {
        assert(head =~= (if snapshot.pollution_enabled || snapshot.total_pollution > 0 {
            seq!["Pollution is enabled/present"@]
        } else {
            Seq::empty()
        }) + (if snapshot.enemy_expansion_enabled {
            seq!["Enemy expansion is enabled"@]
        } else {
            Seq::empty()
        }));
    }
    match &snapshot.surfaces {
        Some(surfaces) => {
            let mut i: usize = 0;
            proof {
                assert(surfaces@.take(0) =~= Seq::<SurfaceSnapshot>::empty());
                assert(head + surfaces_warnings(surfaces@.take(0)) =~= head);
            }
            while i < surfaces.len()
                invariant
                    i <= surfaces@.len(),
                    forall|q: int| 0 <= q < surfaces@.len() ==> (#[trigger] surfaces@[q]).enemy_units
                        + surfaces@[q].enemy_spawners + surfaces@[q].enemy_worms <= u64::MAX,
                    warnings@.map_values(|x: String| x@) == head + surfaces_warnings(surfaces@.take(i as int)),
                decreases surfaces@.len() - i,
            {
                let s = &surfaces[i];
                let ghost before = warnings@.map_values(|x: String| x@);
                assert(s.enemy_units + s.enemy_spawners + s.enemy_worms <= u64::MAX);
                if s.enemy_units + s.enemy_spawners + s.enemy_worms > 0 {
                    push_line(&mut warnings, surface_line("Enemies found on surface '", s));
                }
                if s.active_cars > 0 {
                    push_line(&mut warnings, surface_line("Active cars found on surface '", s));
                }
                proof {
                    assert(surfaces@.take(i + 1).drop_last() =~= surfaces@.take(i as int));
                    assert(warnings@.map_values(|x: String| x@) =~= before + surface_warnings(*s));
                }
                i += 1;
            }
            proof {
                assert(surfaces@.take(i as int) =~= surfaces@);
            }
        },
        None => {
            assert(head + Seq::<Seq<char>>::empty() =~= head);
        },
    }
    warnings
}

/// Whether a sanitizer report's production statistics are complete: given
/// whether the report has them and, when it has, whether they hold the
/// input and the output statistics. The first missing part is the error.
pub fn check_production_stats(stats: Option<(bool, bool)>) -> (r: Result<(), BenchmarkError>)
    ensures
        stats is None ==> (r matches Err(e) && *e.kind == BenchmarkErrorKind::NoProductionStatistics),
        stats matches Some((i, _)) && !i ==> (r matches Err(e) && *e.kind == BenchmarkErrorKind::NoInputStatistics),
        stats matches Some((i, o)) && i && !o ==> (r matches Err(e) && *e.kind == BenchmarkErrorKind::NoOutputStatistics),
        stats matches Some((i, o)) && i && o ==> r is Ok,
        r matches Err(e) ==> e.hint is None && e.process_output is None,
{
    match stats {
        None => Err(BenchmarkError::from(BenchmarkErrorKind::NoProductionStatistics)),
        Some((has_input, has_output)) => if !has_input {
            Err(BenchmarkError::from(BenchmarkErrorKind::NoInputStatistics))
        } else if !has_output {
            Err(BenchmarkError::from(BenchmarkErrorKind::NoOutputStatistics))
        } else {
            Ok(())
        },
    }
}

/// The directory of the sanitizer's data: `script-output/belt` under the
/// configured user data directory, else the one found, else the error that
/// there is none.
pub fn sanitizer_dir(os: TargetOs, data_dir: Option<String>, found: Option<String>) -> (r: Result<
    String,
    BenchmarkError,
>)
    ensures
        data_dir matches Some(d) ==> (r matches Ok(p) && p@ == joined_path(os, d@, "script-output/belt"@)),
        data_dir is None && found is Some ==> r == Ok::<String, BenchmarkError>(found.unwrap()),
        data_dir is None && found is None ==> (r matches Err(e) && *e.kind == BenchmarkErrorKind::SanitizerNotFound),
{
    match data_dir {
        Some(d) => Ok(join_path(os, d.as_str(), "script-output/belt")),
        None => match found {
            Some(f) => Ok(f),
            None => Err(BenchmarkError::from(BenchmarkErrorKind::SanitizerNotFound)),
        },
    }
}

} // verus!
