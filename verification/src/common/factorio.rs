//! The Factorio executable: where it is found, the arguments it is run
//! with, and how its output is read.

use crate::common::error::{error_text, join_from, joined, lines, lines_of, BenchmarkError, BenchmarkErrorKind};
use crate::common::text::{
    append_str, chars_of, contains_str, decimal, find_str, has_substring, occurs_at, starts_with,
    starts_with_str, string_of_range, u64_text,
};
use vstd::prelude::*;

verus! {

/// The Factorio executable that runs are made with.
#[derive(Debug, Clone)]
pub struct FactorioExecutor {
    executable_path: String,
}

impl View for FactorioExecutor {
    type V = Seq<char>;

    closed spec fn view(&self) -> Seq<char> {
        self.executable_path@
    }
}

/// A path given on the command line, with what the file system says of it.
#[derive(Debug, Clone)]
pub struct ExplicitPath {
    pub path: String,
    /// The path exists and is a file.
    pub is_file: bool,
    /// The path is an executable file.
    pub is_executable: bool,
}

/// A place Factorio is often installed at, and whether something exists
/// there.
#[derive(Debug, Clone)]
pub struct Candidate {
    pub path: String,
    pub exists: bool,
}

/// The index of the first candidate that exists, or their number.
pub open spec fn first_existing(c: Seq<Candidate>) -> int
    decreases c.len(),
{
    if c.len() == 0 {
        0
    } else if c[0].exists {
        0
    } else {
        1 + first_existing(c.drop_first())
    }
}

pub proof fn lemma_first_existing(c: Seq<Candidate>)
    ensures
        0 <= first_existing(c) <= c.len(),
        forall|i: int| 0 <= i < first_existing(c) ==> !(#[trigger] c[i]).exists,
        first_existing(c) < c.len() ==> c[first_existing(c)].exists,
    decreases c.len(),
{
    if c.len() > 0 {
        lemma_first_existing(c.drop_first());
        assert forall|i: int| 0 <= i < first_existing(c) implies !(#[trigger] c[i]).exists by {
            if i > 0 {
                assert(c[i] == c.drop_first()[i - 1]);
            }
        }
    }
}

/// The hint given when an explicit path is not an executable file.
pub open spec fn not_executable_hint() -> Seq<char> {
    "Make sure this is the path to the executable itself."@
}

impl FactorioExecutor {
    /// An executor for the executable at `executable_path`.
    pub fn new(executable_path: String) -> (r: Self)
        ensures
            r@ == executable_path@,
    {
        FactorioExecutor { executable_path }
    }

    /// The path of the executable.
    pub fn executable_path(&self) -> (r: &str)
        ensures
            r@ == self@,
    {
        self.executable_path.as_str()
    }

    /// The executable to run: the explicit path when it is a file, else
    /// the first candidate that exists.
    pub fn find_executable(explicit_path: Option<ExplicitPath>, candidates: &[Candidate]) -> (r: Result<String, BenchmarkError>)
        ensures
            match explicit_path {
                Some(e) => if e.is_file {
                    r matches Ok(p) && p@ == e.path@
                } else {
                    r matches Err(err) && *err.kind == (BenchmarkErrorKind::FactorioNotFoundAtPath { path: e.path })
                        && err.process_output is None
                        && (!e.is_executable ==> (err.hint matches Some(h) && h@ == not_executable_hint()))
                        && (e.is_executable ==> err.hint is None)
                },
                None => {
                    let i = first_existing(candidates@);
                    if i < candidates@.len() {
                        r matches Ok(p) && p@ == candidates@[i].path@
                    } else {
                        r matches Err(err) && *err.kind == BenchmarkErrorKind::FactorioNotFound
                            && err.hint is None && err.process_output is None
                    }
                },
            },
    {
        if let Some(e) = explicit_path {
            if e.is_file {
                return Ok(e.path);
            }
            let hint = if !e.is_executable {
                Some("Make sure this is the path to the executable itself.".to_owned())
            } else {
                None
            };
            return Err(BenchmarkError::from(BenchmarkErrorKind::FactorioNotFoundAtPath { path: e.path }).with_hint(hint));
        }
        proof {
            lemma_first_existing(candidates@);
        }
        let mut i: usize = 0;
        while i < candidates.len()
            invariant
                explicit_path is None,
                i <= candidates@.len(),
                i <= first_existing(candidates@),
                0 <= first_existing(candidates@) <= candidates@.len(),
                forall|j: int| 0 <= j < first_existing(candidates@) ==> !(#[trigger] candidates@[j]).exists,
                first_existing(candidates@) < candidates@.len() ==> candidates@[first_existing(candidates@)].exists,
            decreases candidates@.len() - i,
        {
            if candidates[i].exists {
                return Ok(candidates[i].path.clone());
            }
            i += 1;
        }
        Err(BenchmarkError::from(BenchmarkErrorKind::FactorioNotFound))
    }

    /// An executor for the executable [`FactorioExecutor::find_executable`]
    /// finds.
    pub fn discover(explicit_path: Option<ExplicitPath>, candidates: &[Candidate]) -> (r: Result<Self, BenchmarkError>)
        ensures
            match explicit_path {
                Some(e) => if e.is_file {
                    r matches Ok(x) && x@ == e.path@
                } else {
                    r matches Err(err) && *err.kind == (BenchmarkErrorKind::FactorioNotFoundAtPath { path: e.path })
                },
                None => {
                    let i = first_existing(candidates@);
                    if i < candidates@.len() {
                        r matches Ok(x) && x@ == candidates@[i].path@
                    } else {
                        r matches Err(err) && *err.kind == BenchmarkErrorKind::FactorioNotFound
                    }
                },
            },
    {
        match Self::find_executable(explicit_path, candidates) {
            Ok(p) => Ok(Self::new(p)),
            Err(e) => Err(e),
        }
    }
}

// ---------------------------------------------------------------------------
// Running Factorio
// ---------------------------------------------------------------------------
/// A benchmark run of a save for a number of ticks.
#[derive(Debug, Clone)]
pub struct FactorioTickRunSpec {
    pub save_file: String,
    pub ticks: u32,
    pub mods_dir: Option<String>,
    pub verbose_all_metrics: bool,
    pub headless: Option<bool>,
}

/// A run that loads a save until the game writes a new one.
#[derive(Debug, Clone)]
pub struct FactorioSaveRunSpec {
    pub base_save_file: String,
    pub new_save_name: String,
    pub mods_dir: Option<String>,
    pub headless: Option<bool>,
}

/// `--disable-audio` unless the run is headless.
pub open spec fn audio_args(headless: Option<bool>) -> Seq<Seq<char>> {
    if headless == Some(true) {
        Seq::empty()
    } else {
        seq!["--disable-audio"@]
    }
}

/// `--mod-directory` and the directory, when one is given.
pub open spec fn mod_args(mods_dir: Option<String>) -> Seq<Seq<char>> {
    match mods_dir {
        Some(d) => seq!["--mod-directory"@, d@],
        None => Seq::empty(),
    }
}

/// The arguments of a benchmark run: one run of the save for the ticks,
/// audio off unless headless, every verbose metric when asked, and the mod
/// directory when given.
pub open spec fn tick_run_args_of(spec: FactorioTickRunSpec) -> Seq<Seq<char>> {
    seq!["--benchmark"@, spec.save_file@, "--benchmark-ticks"@, decimal(spec.ticks as nat), "--benchmark-runs"@, "1"@]
        + audio_args(spec.headless) + (if spec.verbose_all_metrics {
        seq!["--benchmark-verbose"@, "all"@]
    } else {
        Seq::empty()
    }) + mod_args(spec.mods_dir)
}

/// The arguments of a run that loads a save.
pub open spec fn save_run_args_of(spec: FactorioSaveRunSpec) -> Seq<Seq<char>> {
    seq!["--load-game"@, spec.base_save_file@, "--disable-migration-window"@] + audio_args(spec.headless)
        + mod_args(spec.mods_dir)
}

proof fn lemma_flags_differ()
    ensures
        "--mod-directory"@ != "--disable-audio"@,
        "--mod-directory"@ != "--load-game"@,
        "--mod-directory"@ != "--disable-migration-window"@,
        "--mod-directory"@ != "--benchmark"@,
        "--mod-directory"@ != "--benchmark-ticks"@,
        "--mod-directory"@ != "--benchmark-runs"@,
        "--mod-directory"@ != "1"@,
        "--mod-directory"@ != "--benchmark-verbose"@,
        "--mod-directory"@ != "all"@,
{
    reveal_strlit("--mod-directory");
    reveal_strlit("--disable-audio");
    reveal_strlit("--load-game");
    reveal_strlit("--disable-migration-window");
    reveal_strlit("--benchmark");
    reveal_strlit("--benchmark-ticks");
    reveal_strlit("--benchmark-runs");
    reveal_strlit("1");
    reveal_strlit("--benchmark-verbose");
    reveal_strlit("all");
    assert("--mod-directory"@[2] != "--disable-audio"@[2]);
    assert("--mod-directory"@.len() != "--load-game"@.len());
    assert("--mod-directory"@.len() != "--disable-migration-window"@.len());
    assert("--mod-directory"@.len() != "--benchmark"@.len());
    assert("--mod-directory"@.len() != "--benchmark-ticks"@.len());
    assert("--mod-directory"@.len() != "--benchmark-runs"@.len());
    assert("--mod-directory"@.len() != "1"@.len());
    assert("--mod-directory"@.len() != "--benchmark-verbose"@.len());
    assert("--mod-directory"@.len() != "all"@.len());
}

/// The command line of a run that loads a save: `--load-game` and the base
/// save, the migration window off, `--disable-audio` unless the run is
/// headless, and, exactly when a mod directory is given, `--mod-directory`
/// followed by that directory at the end.
pub proof fn lemma_save_run_args(spec: FactorioSaveRunSpec)
    ensures
        save_run_args_of(spec).len() == 3 + (if spec.headless == Some(true) {
            0int
        } else {
            1int
        }) + (if spec.mods_dir is Some {
            2int
        } else {
            0int
        }),
        save_run_args_of(spec)[0] == "--load-game"@,
        save_run_args_of(spec)[1] == spec.base_save_file@,
        save_run_args_of(spec)[2] == "--disable-migration-window"@,
        spec.headless != Some(true) ==> save_run_args_of(spec)[3] == "--disable-audio"@,
        spec.mods_dir matches Some(d) ==> {
            let a = save_run_args_of(spec);
            &&& a[a.len() - 2] == "--mod-directory"@
            &&& a[a.len() - 1] == d@
        },
        spec.mods_dir is None ==> forall|i: int|
            0 <= i < save_run_args_of(spec).len() && i != 1 ==> #[trigger] save_run_args_of(spec)[i]
                != "--mod-directory"@,
{
    lemma_flags_differ();
}

/// The command line of a benchmark run: `--benchmark` and the save, the
/// tick count, one run, `--disable-audio` unless headless, every verbose
/// metric when asked, and, exactly when a mod directory is given,
/// `--mod-directory` followed by that directory at the end.
pub proof fn lemma_tick_run_args(spec: FactorioTickRunSpec)
    ensures
        tick_run_args_of(spec).len() == 6 + (if spec.headless == Some(true) {
            0int
        } else {
            1int
        }) + (if spec.verbose_all_metrics {
            2int
        } else {
            0int
        }) + (if spec.mods_dir is Some {
            2int
        } else {
            0int
        }),
        tick_run_args_of(spec)[0] == "--benchmark"@,
        tick_run_args_of(spec)[1] == spec.save_file@,
        tick_run_args_of(spec)[2] == "--benchmark-ticks"@,
        tick_run_args_of(spec)[3] == decimal(spec.ticks as nat),
        tick_run_args_of(spec)[4] == "--benchmark-runs"@,
        tick_run_args_of(spec)[5] == "1"@,
        spec.headless != Some(true) ==> tick_run_args_of(spec)[6] == "--disable-audio"@,
        spec.verbose_all_metrics ==> {
            let k = if spec.headless == Some(true) {
                6int
            } else {
                7int
            };
            &&& tick_run_args_of(spec)[k] == "--benchmark-verbose"@
            &&& tick_run_args_of(spec)[k + 1] == "all"@
        },
        spec.mods_dir matches Some(d) ==> {
            let a = tick_run_args_of(spec);
            &&& a[a.len() - 2] == "--mod-directory"@
            &&& a[a.len() - 1] == d@
        },
        spec.mods_dir is None ==> forall|i: int|
            0 <= i < tick_run_args_of(spec).len() && i != 1 && i != 3 ==> #[trigger] tick_run_args_of(spec)[i]
                != "--mod-directory"@,
{
    lemma_flags_differ();
}

/// The views of a list of strings.
pub open spec fn texts(v: Seq<String>) -> Seq<Seq<char>> {
    v.map_values(|s: String| s@)
}

fn push_text(v: &mut Vec<String>, s: String)
    ensures
        texts(final(v)@) == texts(old(v)@).push(s@),
{
    v.push(s);
    proof {
        assert(texts(v@) =~= texts(old(v)@).push(s@));
    }
}

fn push_audio_and_mods(args: &mut Vec<String>, headless: Option<bool>, mods_dir: &Option<String>)
    ensures
        texts(final(args)@) == texts(old(args)@) + audio_args(headless),
{
    if headless == Some(true) {
        assert(texts(args@) =~= texts(args@) + audio_args(headless));
    } else {
        push_text(args, "--disable-audio".to_owned());
    }
}

fn push_mods(args: &mut Vec<String>, mods_dir: &Option<String>)
    ensures
        texts(final(args)@) == texts(old(args)@) + mod_args(*mods_dir),
{
    match mods_dir {
        Some(d) => {
            push_text(args, "--mod-directory".to_owned());
            push_text(args, d.clone());
            assert(texts(args@) =~= texts(old(args)@) + mod_args(*mods_dir));
        },
        None => {
            assert(texts(args@) =~= texts(old(args)@) + mod_args(*mods_dir));
        },
    }
}

/// The arguments of a benchmark run.
pub fn tick_run_args(spec: &FactorioTickRunSpec) -> (r: Vec<String>)
    ensures
        texts(r@) == tick_run_args_of(*spec),
{
    let mut args: Vec<String> = Vec::new();
    push_text(&mut args, "--benchmark".to_owned());
    push_text(&mut args, spec.save_file.clone());
    push_text(&mut args, "--benchmark-ticks".to_owned());
    push_text(&mut args, u64_text(spec.ticks as u64));
    push_text(&mut args, "--benchmark-runs".to_owned());
    push_text(&mut args, "1".to_owned());
    let ghost head = texts(args@);
    push_audio_and_mods(&mut args, spec.headless, &spec.mods_dir);
    let ghost with_audio = texts(args@);
    if spec.verbose_all_metrics {
        push_text(&mut args, "--benchmark-verbose".to_owned());
        push_text(&mut args, "all".to_owned());
    }
    let ghost with_verbose = texts(args@);
    push_mods(&mut args, &spec.mods_dir);
    proof {
        assert(head =~= seq!["--benchmark"@, spec.save_file@, "--benchmark-ticks"@, decimal(spec.ticks as nat), "--benchmark-runs"@, "1"@]);
        assert(with_verbose =~= with_audio + (if spec.verbose_all_metrics {
            seq!["--benchmark-verbose"@, "all"@]
        } else {
            Seq::empty()
        }));
        assert(texts(args@) =~= tick_run_args_of(*spec));
    }
    args
}

/// The arguments of a run that loads a save.
pub fn save_run_args(spec: &FactorioSaveRunSpec) -> (r: Vec<String>)
    ensures
        texts(r@) == save_run_args_of(*spec),
{
    let mut args: Vec<String> = Vec::new();
    push_text(&mut args, "--load-game".to_owned());
    push_text(&mut args, spec.base_save_file.clone());
    push_text(&mut args, "--disable-migration-window".to_owned());
    let ghost head = texts(args@);
    push_audio_and_mods(&mut args, spec.headless, &spec.mods_dir);
    push_mods(&mut args, &spec.mods_dir);
    proof {
        assert(head =~= seq!["--load-game"@, spec.base_save_file@, "--disable-migration-window"@]);
        assert(texts(args@) =~= save_run_args_of(*spec));
    }
    args
}

/// The hint given when Factorio says it is already running.
pub open spec fn already_running_hint() -> Seq<char> {
    "Factorio might already be running. Please close any open Factorio instances."@
}

/// The hint for a failed Factorio process: given when either stream says
/// Factorio is already running.
pub fn failure_hint(stdout: &str, stderr: &str) -> (r: Option<String>)
    ensures
        (has_substring(stdout@, "already running"@) || has_substring(stderr@, "already running"@))
            ==> (r matches Some(h) && h@ == already_running_hint()),
        !(has_substring(stdout@, "already running"@) || has_substring(stderr@, "already running"@))
            ==> r is None,
{
    if contains_str(stdout, "already running") || contains_str(stderr, "already running") {
        Some("Factorio might already be running. Please close any open Factorio instances.".to_owned())
    } else {
        None
    }
}

/// The error of a Factorio process that failed: its exit code, or -1 when
/// it has none, with the hint of [`failure_hint`].
pub fn process_failed(code: Option<i32>, stdout: &str, stderr: &str) -> (r: BenchmarkError)
    ensures
        *r.kind == (BenchmarkErrorKind::FactorioProcessFailed {
            code: match code {
                Some(c) => c,
                None => -1i32,
            },
        }),
        r.process_output is None,
        (has_substring(stdout@, "already running"@) || has_substring(stderr@, "already running"@))
            ==> (r.hint matches Some(h) && h@ == already_running_hint()),
        !(has_substring(stdout@, "already running"@) || has_substring(stderr@, "already running"@))
            ==> r.hint is None,
{
    let c = match code {
        Some(c) => c,
        None => -1,
    };
    BenchmarkError::from(BenchmarkErrorKind::FactorioProcessFailed { code: c }).with_hint(failure_hint(stdout, stderr))
}

/// The output of a benchmark run: its summary, and the per-tick CSV when
/// verbose metrics were asked for.
#[derive(Debug)]
pub struct FactorioOutput {
    pub summary: String,
    pub verbose_data: Option<String>,
}

/// The first line of Factorio's per-tick CSV.
pub open spec fn verbose_header() -> Seq<char> {
    "tick,timestamp,wholeUpdate"@
}

/// A line of the per-tick CSV: the header, or a row of a tick `t<n>`.
pub open spec fn is_tick_line(l: Seq<char>) -> bool {
    starts_with(l, "tick,"@) || (l.len() > 0 && l[0] == 't')
}

/// The lines that are lines of the per-tick CSV, in order.
pub open spec fn tick_lines(ls: Seq<Seq<char>>) -> Seq<Seq<char>>
    decreases ls.len(),
{
    if ls.len() == 0 {
        Seq::empty()
    } else if is_tick_line(ls.last()) {
        tick_lines(ls.drop_last()).push(ls.last())
    } else {
        tick_lines(ls.drop_last())
    }
}

/// The output of a run, split where the per-tick CSV starts: the text
/// before is the summary, the CSV lines after it are the verbose data.
pub open spec fn run_output_of(text: Seq<char>) -> (Seq<char>, Option<Seq<char>>) {
    if has_substring(text, verbose_header()) {
        let i = choose|i: int| occurs_at(text, verbose_header(), i) && forall|j: int| 0 <= j < i ==> !occurs_at(text, verbose_header(), j);
        (text.take(i), Some(joined(tick_lines(lines_of(text.skip(i))), "\n"@)))
    } else {
        (text, None)
    }
}

/// Reads the output of a benchmark run from its standard error followed by
/// its standard output.
pub fn read_run_output(stdout: &str, stderr: &str) -> (r: FactorioOutput)
    ensures
        (r.summary@, match r.verbose_data {
            Some(v) => Some(v@),
            None => None,
        }) == run_output_of(stderr@ + stdout@),
{
    let mut text = String::new();
    append_str(&mut text, stderr);
    append_str(&mut text, stdout);
    let ghost t = text@;
    match find_str(text.as_str(), "tick,timestamp,wholeUpdate") {
        None => FactorioOutput { summary: text, verbose_data: None },
        Some(i) => {
            proof {
                let k = choose|k: int| occurs_at(t, verbose_header(), k) && forall|j: int| 0 <= j < k ==> !occurs_at(t, verbose_header(), j);
                if k < i {
                } else if i < k {
                }
                assert(k == i);
            }
            let cs = chars_of(text.as_str());
            let summary = string_of_range(&cs, 0, i);
            let verbose_part = string_of_range(&cs, i, cs.len());
            let all = lines(verbose_part.as_str());
            let mut kept: Vec<String> = Vec::new();
            let mut j: usize = 0;
            while j < all.len()
                invariant
                    j <= all@.len(),
                    texts(kept@) == tick_lines(texts(all@).take(j as int)),
                decreases all@.len() - j,
            {
                let l = all[j].as_str();
                proof {
                    assert(texts(all@).take(j + 1).drop_last() =~= texts(all@).take(j as int));
                    assert(texts(all@).take(j + 1).last() == all@[j as int]@);
                }
                if starts_with_str(l, "tick,") || starts_with_str(l, "t") {
                    proof {
                        reveal_strlit("t");
                        if starts_with(l@, "t"@) {
                            assert(l@[0] == l@.take(1)[0]);
                        }
                    }
                    push_text(&mut kept, all[j].clone());
                } else {
                    proof {
                        reveal_strlit("t");
                        if l@.len() > 0 && l@[0] == 't' {
                            assert(l@.take(1) =~= "t"@);
                        }
                    }
                }
                j += 1;
            }
            proof {
                assert(texts(all@).take(j as int) =~= texts(all@));
                assert(summary@ =~= t.take(i as int));
                assert(verbose_part@ =~= t.skip(i as int));
            }
            let data = join_from(&kept, 0, "\n");
            proof {
                assert(texts(kept@).skip(0) =~= texts(kept@));
            }
            FactorioOutput { summary, verbose_data: Some(data) }
        },
    }
}

/// The arguments that make Factorio fetch the mods of a save.
pub fn sync_mods_args(save_file: &str) -> (r: Vec<String>)
    ensures
        texts(r@) == seq!["--sync-mods"@, save_file@],
{
    let mut args: Vec<String> = Vec::new();
    push_text(&mut args, "--sync-mods".to_owned());
    push_text(&mut args, save_file.to_owned());
    proof {
        assert(texts(args@) =~= seq!["--sync-mods"@, save_file@]);
    }
    args
}

/// What to do while a run that writes a save is going on.
#[derive(Debug, Clone, Copy, PartialEq, Eq, Structural)]
pub enum PollAction {
    /// The game has exited.
    Finished,
    /// Stop the game: its save was written, or a stop was asked for.
    Kill,
    /// Check again later.
    Wait,
}

/// The next step of a run that writes a save: done once the game exits,
/// stopped once the autosave exists or a stop is asked for, else waiting.
pub fn poll_action(exited: bool, autosave_found: bool, running: bool) -> (r: PollAction)
    ensures
        exited ==> r == PollAction::Finished,
        !exited && (autosave_found || !running) ==> r == PollAction::Kill,
        !exited && !autosave_found && running ==> r == PollAction::Wait,
{
    if exited {
        PollAction::Finished
    } else if autosave_found {
        PollAction::Kill
    } else if !running {
        PollAction::Kill
    } else {
        PollAction::Wait
    }
}

/// The name of the autosave a run that writes `new_save_name` produces.
pub fn autosave_name(new_save_name: &str) -> (r: String)
    ensures
        r@ == "_autosave-"@ + new_save_name@,
{
    let mut out = String::new();
    append_str(&mut out, "_autosave-");
    append_str(&mut out, new_save_name);
    out
}

/// The error of a run that writes a save: only a failure with an exit code
/// is one; a game that was stopped has none.
pub fn save_run_error(success: bool, code: Option<i32>, stdout: &str, stderr: &str) -> (r: Option<BenchmarkError>)
    ensures
        (success || code is None) ==> r is None,
        (!success && code is Some) ==> (r matches Some(e) && *e.kind == BenchmarkErrorKind::FactorioProcessFailed {
            code: code.unwrap(),
        }),
{
    if !success && code.is_some() {
        Some(process_failed(code, stdout, stderr))
    } else {
        None
    }
}

} // verus!
