//! Utility functions.

use crate::common::error::{BenchmarkError, BenchmarkErrorKind};
use crate::common::factorio::Candidate;
use crate::common::platform::{join_path, joined_path, TargetOs};
use crate::common::text::{append_str, decimal, u64_text};
use core::time::Duration;
use vstd::prelude::*;

verus! {

/// The Factorio flow-statistics window that a tick count falls into.
pub open spec fn precision_window(ticks: u32) -> int {
    if ticks >= 54000000 {
        54000000
    } else if ticks >= 10800000 {
        10800000
    } else if ticks >= 2160000 {
        2160000
    } else if ticks >= 216000 {
        216000
    } else if ticks >= 36000 {
        36000
    } else if ticks >= 3600 {
        3600
    } else {
        300
    }
}

/// Rounds `ticks` up to the next multiple of its precision window.
pub fn round_to_precision_window(ticks: u32) -> (r: u32)
    requires
        ((ticks + precision_window(ticks) - 1) / precision_window(ticks)) * precision_window(ticks) <= u32::MAX,
    ensures
        r == ((ticks + precision_window(ticks) - 1) / precision_window(ticks)) * precision_window(ticks),
{
    let window: u32 = if ticks >= 54000000 {
        54000000
    } else if ticks >= 10800000 {
        10800000
    } else if ticks >= 2160000 {
        2160000
    } else if ticks >= 216000 {
        216000
    } else if ticks >= 36000 {
        36000
    } else if ticks >= 3600 {
        3600
    } else {
        300
    };
    let q: u32 = ticks / window + if ticks % window == 0 { 0 } else { 1 };
    assert(q as int == (ticks as int + window as int - 1) / (window as int)) by (nonlinear_arith)
        requires
            window > 0,
            q as int == ticks as int / window as int + if ticks as int % window as int == 0 { 0int } else { 1int },
    ;
    q * window
}

/// The order benchmark runs are executed in.
#[derive(Debug, Clone, Copy, PartialEq, Eq, Structural)]
pub enum RunOrder {
    /// Alternating between saves: A, B, A, B.
    Sequential,
    /// In random order.
    Random,
    /// All runs of a save together: A, A, B, B.
    Grouped,
}

impl Default for RunOrder {
    fn default() -> (r: Self)
        ensures
            r == RunOrder::Grouped,
    {
        RunOrder::Grouped
    }
}

/// `str::to_lowercase`, Unicode lower case of each character.
pub uninterp spec fn lowercase(s: Seq<char>) -> Seq<char>;

/// `str::to_lowercase`.
#[verifier::external_body]
fn to_lowercase(s: &str) -> (r: String)
    ensures
        r@ == lowercase(s@),
{
    s.to_lowercase()
}

/// The run order a name stands for, in any letter case.
pub open spec fn run_order_named(s: Seq<char>) -> Option<RunOrder> {
    let l = lowercase(s);
    if l == "sequential"@ {
        Some(RunOrder::Sequential)
    } else if l == "random"@ {
        Some(RunOrder::Random)
    } else if l == "grouped"@ {
        Some(RunOrder::Grouped)
    } else {
        None
    }
}

impl RunOrder {
    /// The run order named by `s`, in any letter case, or the message of an
    /// invalid run order.
    pub fn parse(s: &str) -> (r: Result<RunOrder, String>)
        ensures
            match r {
                Ok(o) => run_order_named(s@) == Some(o),
                Err(m) => run_order_named(s@) is None && m@ == "Invalid run order: "@ + s@
                    + ". Valid options: sequential, random, grouped"@,
            },
    {
        let l = to_lowercase(s);
        if l == "sequential".to_owned() {
            Ok(RunOrder::Sequential)
        } else if l == "random".to_owned() {
            Ok(RunOrder::Random)
        } else if l == "grouped".to_owned() {
            Ok(RunOrder::Grouped)
        } else {
            Err(BenchmarkErrorKind::InvalidRunOrder { input: s.to_owned() }.message())
        }
    }
}

impl std::str::FromStr for RunOrder {
    type Err = String;

    fn from_str(s: &str) -> (r: Result<RunOrder, String>)
        ensures
            match r {
                Ok(o) => run_order_named(s@) == Some(o),
                Err(m) => run_order_named(s@) is None && m@ == "Invalid run order: "@ + s@
                    + ". Valid options: sequential, random, grouped"@,
            },
    {
        RunOrder::parse(s)
    }
}

/// A duration of whole seconds as the progress display shows it: seconds
/// below a minute, minutes and seconds below an hour, else hours and
/// minutes.
pub open spec fn duration_text(secs: nat) -> Seq<char> {
    if secs < 60 {
        decimal(secs) + "s"@
    } else if secs < 3600 {
        decimal(secs / 60) + "m"@ + decimal(secs % 60) + "s"@
    } else {
        decimal(secs / 3600) + "h"@ + decimal((secs % 3600) / 60) + "m"@
    }
}

/// A number of whole seconds, formatted as [`duration_text`] says.
pub fn format_secs(total_secs: u64) -> (r: String)
    ensures
        r@ == duration_text(total_secs as nat),
{
    let mut out = String::new();
    if total_secs < 60 {
        let t = u64_text(total_secs);
        append_str(&mut out, t.as_str());
        append_str(&mut out, "s");
    } else if total_secs < 3600 {
        let m = u64_text(total_secs / 60);
        let sec = u64_text(total_secs % 60);
        append_str(&mut out, m.as_str());
        append_str(&mut out, "m");
        append_str(&mut out, sec.as_str());
        append_str(&mut out, "s");
    } else {
        let h = u64_text(total_secs / 3600);
        let m = u64_text((total_secs % 3600) / 60);
        append_str(&mut out, h.as_str());
        append_str(&mut out, "h");
        append_str(&mut out, m.as_str());
        append_str(&mut out, "m");
    }
    out
}

/// The whole seconds of a duration, as `Duration::as_secs` gives them.
pub uninterp spec fn duration_whole_secs(duration: Duration) -> u64;

/// `Duration::as_secs`: the number of whole seconds in the duration, which
/// depends on the duration alone; the contract names that number and says
/// nothing more of it.
#[verifier::external_body]
fn whole_secs(duration: Duration) -> (secs: u64)
    ensures
        secs == duration_whole_secs(duration),
{
    duration.as_secs()
}

/// A duration formatted as [`duration_text`] says, from its whole seconds.
pub fn format_duration(duration: Duration) -> (r: String)
    ensures
        r@ == duration_text(duration_whole_secs(duration) as nat),
{
    let secs = whole_secs(duration);
    format_secs(secs)
}

// ---------------------------------------------------------------------------
// Save and blueprint files
// ---------------------------------------------------------------------------
/// The index of the first file that does not exist, or their number.
pub open spec fn first_missing(files: Seq<Candidate>) -> int
    decreases files.len(),
{
    if files.len() == 0 {
        0
    } else if !files[0].exists {
        0
    } else {
        1 + first_missing(files.drop_first())
    }
}

proof fn lemma_first_missing(files: Seq<Candidate>)
    ensures
        0 <= first_missing(files) <= files.len(),
        forall|i: int| 0 <= i < first_missing(files) ==> (#[trigger] files[i]).exists,
        first_missing(files) < files.len() ==> !files[first_missing(files)].exists,
    decreases files.len(),
{
    if files.len() > 0 {
        lemma_first_missing(files.drop_first());
        assert forall|i: int| 0 <= i < first_missing(files) implies (#[trigger] files[i]).exists by {
            if i > 0 {
                assert(files[i] == files.drop_first()[i - 1]);
            }
        }
    }
}

/// Checks that every save file exists; the first that does not is an
/// invalid save file.
pub fn validate_save_files(save_files: &[Candidate]) -> (r: Result<(), BenchmarkError>)
    ensures
        match r {
            Ok(()) => first_missing(save_files@) == save_files@.len(),
            Err(e) => first_missing(save_files@) < save_files@.len() && e.hint is None && (*e.kind matches BenchmarkErrorKind::InvalidSaveFile {
                path,
                reason,
            } && path@ == save_files@[first_missing(save_files@)].path@ && reason@ == "File does not exist"@),
        },
{
    proof {
        lemma_first_missing(save_files@);
    }
    let mut i: usize = 0;
    while i < save_files.len()
        invariant
            i <= save_files@.len(),
            i <= first_missing(save_files@),
            0 <= first_missing(save_files@) <= save_files@.len(),
            forall|j: int| 0 <= j < first_missing(save_files@) ==> (#[trigger] save_files@[j]).exists,
            first_missing(save_files@) < save_files@.len() ==> !save_files@[first_missing(save_files@)].exists,
        decreases save_files@.len() - i,
    {
        if !save_files[i].exists {
            return Err(BenchmarkError::from(BenchmarkErrorKind::InvalidSaveFile {
                path: save_files[i].path.clone(),
                reason: "File does not exist".to_owned(),
            }));
        }
        i += 1;
    }
    Ok(())
}

/// What the file system says of the path files are looked for at.
#[derive(Debug, Clone)]
pub struct PathStatus {
    pub path: String,
    pub exists: bool,
    pub is_file: bool,
    /// The path's extension is `zip`.
    pub zip_extension: bool,
}

/// Where to find files: one file, or the files a glob pattern matches.
#[derive(Debug)]
pub enum FileSearch {
    File(String),
    Pattern(String),
}

/// The pattern names are matched with, `*` when none is given.
pub open spec fn pattern_or_all(pattern: Option<Seq<char>>) -> Seq<char> {
    match pattern {
        Some(p) => p,
        None => "*"@,
    }
}

/// The view of an optional string slice.
pub open spec fn opt_str(o: Option<&str>) -> Option<Seq<char>> {
    match o {
        Some(s) => Some(s@),
        None => None,
    }
}

fn pattern_text(pattern: Option<&str>) -> (r: String)
    ensures
        r@ == pattern_or_all(opt_str(pattern)),
{
    match pattern {
        Some(p) => p.to_owned(),
        None => "*".to_owned(),
    }
}

/// Where to look for saves: the path itself when it is a `.zip` file, else
/// the `.zip` files in it that match the pattern.
pub fn save_search(os: TargetOs, saves_dir: &PathStatus, pattern: Option<&str>) -> (r: Result<FileSearch, BenchmarkError>)
    ensures
        !saves_dir.exists ==> (r matches Err(e) && (*e.kind matches BenchmarkErrorKind::SaveDirectoryNotFound { path }
            && path@ == saves_dir.path@)),
        saves_dir.exists && saves_dir.is_file && saves_dir.zip_extension ==> (r matches Ok(FileSearch::File(p)) && p@
            == saves_dir.path@),
        saves_dir.exists && saves_dir.is_file && !saves_dir.zip_extension ==> (r matches Err(e) && (
        *e.kind matches BenchmarkErrorKind::InvalidSaveFile { path, reason } && path@ == saves_dir.path@ && reason@
            == "Save file is not a .zip"@)),
        saves_dir.exists && !saves_dir.is_file ==> (r matches Ok(FileSearch::Pattern(p)) && p@ == joined_path(
            os,
            saves_dir.path@,
            pattern_or_all(opt_str(pattern)) + ".zip"@,
        )),
{
    if !saves_dir.exists {
        return Err(BenchmarkError::from(BenchmarkErrorKind::SaveDirectoryNotFound { path: saves_dir.path.clone() }));
    }
    if saves_dir.is_file {
        if saves_dir.zip_extension {
            return Ok(FileSearch::File(saves_dir.path.clone()));
        } else {
            return Err(BenchmarkError::from(BenchmarkErrorKind::InvalidSaveFile {
                path: saves_dir.path.clone(),
                reason: "Save file is not a .zip".to_owned(),
            }));
        }
    }
    let mut name = pattern_text(pattern);
    crate::common::text::append_str(&mut name, ".zip");
    Ok(FileSearch::Pattern(join_path(os, saves_dir.path.as_str(), name.as_str())))
}

/// The saves a pattern found, or the error that none were.
pub fn found_save_files(saves_dir: &str, pattern: Option<&str>, found: Vec<String>) -> (r: Result<Vec<String>, BenchmarkError>)
    ensures
        found@.len() > 0 ==> r == Ok::<Vec<String>, BenchmarkError>(found),
        found@.len() == 0 ==> (r matches Err(e) && (*e.kind matches BenchmarkErrorKind::NoSaveFilesFound {
            pattern: p,
            directory,
        } && p@ == pattern_or_all(opt_str(pattern)) && directory@ == saves_dir@)),
{
    if found.len() == 0 {
        return Err(BenchmarkError::from(BenchmarkErrorKind::NoSaveFilesFound {
            pattern: pattern_text(pattern),
            directory: saves_dir.to_owned(),
        }));
    }
    Ok(found)
}

/// Where to look for blueprints: the path itself when it is a file, else
/// the files in it that match the pattern.
pub fn blueprint_search(os: TargetOs, blueprint_dir: &PathStatus, pattern: Option<&str>) -> (r: Result<FileSearch, BenchmarkError>)
    ensures
        !blueprint_dir.exists ==> (r matches Err(e) && (*e.kind matches BenchmarkErrorKind::BlueprintDirectoryNotFound {
            path,
        } && path@ == blueprint_dir.path@)),
        blueprint_dir.exists && blueprint_dir.is_file ==> (r matches Ok(FileSearch::File(p)) && p@ == blueprint_dir.path@),
        blueprint_dir.exists && !blueprint_dir.is_file ==> (r matches Ok(FileSearch::Pattern(p)) && p@ == joined_path(
            os,
            blueprint_dir.path@,
            pattern_or_all(opt_str(pattern)),
        )),
{
    if !blueprint_dir.exists {
        return Err(BenchmarkError::from(BenchmarkErrorKind::BlueprintDirectoryNotFound { path: blueprint_dir.path.clone() }));
    }
    if blueprint_dir.is_file {
        return Ok(FileSearch::File(blueprint_dir.path.clone()));
    }
    let name = pattern_text(pattern);
    Ok(FileSearch::Pattern(join_path(os, blueprint_dir.path.as_str(), name.as_str())))
}

/// The blueprints a pattern found, or the error that none were.
pub fn found_blueprint_files(blueprint_dir: &str, pattern: Option<&str>, found: Vec<String>) -> (r: Result<Vec<String>, BenchmarkError>)
    ensures
        found@.len() > 0 ==> r == Ok::<Vec<String>, BenchmarkError>(found),
        found@.len() == 0 ==> (r matches Err(e) && (*e.kind matches BenchmarkErrorKind::NoBlueprintFilesFound {
            pattern: p,
            directory,
        } && p@ == pattern_or_all(opt_str(pattern)) && directory@ == blueprint_dir@)),
{
    if found.len() == 0 {
        return Err(BenchmarkError::from(BenchmarkErrorKind::NoBlueprintFilesFound {
            pattern: pattern_text(pattern),
            directory: blueprint_dir.to_owned(),
        }));
    }
    Ok(found)
}

/// Checks that a saves directory was given, on the command line or in the
/// `section` of the configuration.
pub fn require_saves_dir(saves_dir: &str, section: &str) -> (r: Result<(), BenchmarkError>)
    ensures
        saves_dir@.len() > 0 <==> r is Ok,
        r matches Err(e) ==> (*e.kind matches BenchmarkErrorKind::ConfigLoadError(m) && m@ == "SAVES_DIR is required unless "@
            + section@ + ".saves_dir is set in config"@),
{
    if saves_dir.is_empty() {
        let mut m = String::new();
        crate::common::text::append_str(&mut m, "SAVES_DIR is required unless ");
        crate::common::text::append_str(&mut m, section);
        crate::common::text::append_str(&mut m, ".saves_dir is set in config");
        return Err(BenchmarkError::from(BenchmarkErrorKind::ConfigLoadError(m)));
    }
    Ok(())
}

} // verus!
