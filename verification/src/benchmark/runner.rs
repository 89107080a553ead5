//! The order benchmark runs are executed in, and what is shown and kept of
//! each run.

use crate::common::config::BenchmarkConfig;
use crate::common::factorio::FactorioExecutor;
use crate::common::text::{append_str, decimal, starts_with, strip_prefix_or_self, u64_text};
use crate::common::utils::RunOrder;
use vstd::prelude::*;

verus! {

/// One benchmark run to execute: a save and the index of the run.
#[derive(Debug, Clone)]
pub struct ExecutionJob {
    pub save_file: String,
    pub run_index: usize,
}

impl View for ExecutionJob {
    type V = (Seq<char>, nat);

    open spec fn view(&self) -> (Seq<char>, nat) {
        (self.save_file@, self.run_index as nat)
    }
}

/// The views of a list of jobs.
pub open spec fn jobs_view(v: Seq<ExecutionJob>) -> Seq<(Seq<char>, nat)> {
    v.map_values(|j: ExecutionJob| j@)
}

/// The runs `0..runs` of one save, in order.
pub open spec fn run_block(save: Seq<char>, runs: nat) -> Seq<(Seq<char>, nat)> {
    Seq::new(runs, |j: int| (save, j as nat))
}

/// Run `run` of every save, in the order of the saves.
pub open spec fn run_column(saves: Seq<Seq<char>>, run: nat) -> Seq<(Seq<char>, nat)> {
    Seq::new(saves.len(), |i: int| (saves[i], run))
}

/// All runs of the first save, then all runs of the next: A, A, B, B.
pub open spec fn grouped_schedule(saves: Seq<Seq<char>>, runs: nat) -> Seq<(Seq<char>, nat)>
    decreases saves.len(),
{
    if saves.len() == 0 {
        Seq::empty()
    } else {
        grouped_schedule(saves.drop_last(), runs) + run_block(saves.last(), runs)
    }
}

/// The first run of every save, then the second run of every save: A, B,
/// A, B.
pub open spec fn sequential_schedule(saves: Seq<Seq<char>>, runs: nat) -> Seq<(Seq<char>, nat)>
    decreases runs,
{
    if runs == 0 {
        Seq::empty()
    } else {
        sequential_schedule(saves, (runs - 1) as nat) + run_column(saves, (runs - 1) as nat)
    }
}

/// The views of a list of strings.
pub open spec fn paths_view(v: Seq<String>) -> Seq<Seq<char>> {
    v.map_values(|s: String| s@)
}

/// `rand`'s `SliceRandom::shuffle` with the thread's generator: the jobs in
/// a random order, each job kept exactly as often as before.
#[verifier::external_body]
fn shuffle_jobs(jobs: &mut Vec<ExecutionJob>)
    ensures
        jobs_view(final(jobs)@).to_multiset() == jobs_view(old(jobs)@).to_multiset(),
{
    let mut rng = rand::rng();
    rand::seq::SliceRandom::shuffle(jobs.as_mut_slice(), &mut rng);
}

fn push_job(v: &mut Vec<ExecutionJob>, save_file: String, run_index: usize)
    ensures
        jobs_view(final(v)@) == jobs_view(old(v)@).push((save_file@, run_index as nat)),
{
    let job = ExecutionJob { save_file, run_index };
    let ghost jv = job@;
    v.push(job);
    proof {
        assert(jobs_view(v@) =~= jobs_view(old(v)@).push(jv));
    }
}

fn grouped_jobs(save_files: &[String], runs: u32) -> (r: Vec<ExecutionJob>)
    ensures
        jobs_view(r@) == grouped_schedule(paths_view(save_files@), runs as nat),
{
    let ghost saves = paths_view(save_files@);
    let mut schedule: Vec<ExecutionJob> = Vec::new();
    let mut i: usize = 0;
    proof {
        assert(saves.take(0) =~= Seq::<Seq<char>>::empty());
    }
    while i < save_files.len()
        invariant
            i <= save_files@.len(),
            saves == paths_view(save_files@),
            jobs_view(schedule@) == grouped_schedule(saves.take(i as int), runs as nat),
        decreases save_files@.len() - i,
    {
        let ghost before = jobs_view(schedule@);
        let mut j: u32 = 0;
        while j < runs
            invariant
                i < save_files@.len(),
                j <= runs,
                jobs_view(schedule@) == before + run_block(save_files@[i as int]@, j as nat),
            decreases runs - j,
        {
            push_job(&mut schedule, save_files[i].clone(), j as usize);
            proof {
                assert(before + run_block(save_files@[i as int]@, j as nat).push((save_files@[i as int]@, j as nat))
                    =~= before + run_block(save_files@[i as int]@, (j + 1) as nat));
            }
            j += 1;
        }
        proof {
            assert(saves.take(i + 1).drop_last() =~= saves.take(i as int));
            assert(saves.take(i + 1).last() == save_files@[i as int]@);
        }
        i += 1;
    }
    proof {
        assert(saves.take(i as int) =~= saves);
    }
    schedule
}

fn sequential_jobs(save_files: &[String], runs: u32) -> (r: Vec<ExecutionJob>)
    ensures
        jobs_view(r@) == sequential_schedule(paths_view(save_files@), runs as nat),
{
    let ghost saves = paths_view(save_files@);
    let mut schedule: Vec<ExecutionJob> = Vec::new();
    let mut j: u32 = 0;
    while j < runs
        invariant
            j <= runs,
            saves == paths_view(save_files@),
            jobs_view(schedule@) == sequential_schedule(saves, j as nat),
        decreases runs - j,
    {
        let ghost before = jobs_view(schedule@);
        let mut i: usize = 0;
        while i < save_files.len()
            invariant
                i <= save_files@.len(),
                saves == paths_view(save_files@),
                jobs_view(schedule@) == before + run_column(saves, j as nat).take(i as int),
            decreases save_files@.len() - i,
        {
            push_job(&mut schedule, save_files[i].clone(), j as usize);
            proof {
                assert(before + run_column(saves, j as nat).take(i as int).push((save_files@[i as int]@, j as nat))
                    =~= before + run_column(saves, j as nat).take(i + 1));
            }
            i += 1;
        }
        proof {
            assert(run_column(saves, j as nat).take(i as int) =~= run_column(saves, j as nat));
        }
        j += 1;
    }
    schedule
}

/// The jobs of a benchmark: every run of every save, in the configured
/// order. A random order holds the same jobs as the grouped one.
pub fn create_execution_schedule(run_order: RunOrder, runs: u32, save_files: &[String]) -> (r: Vec<ExecutionJob>)
    ensures
        run_order == RunOrder::Grouped ==> jobs_view(r@) == grouped_schedule(paths_view(save_files@), runs as nat),
        run_order == RunOrder::Sequential ==> jobs_view(r@) == sequential_schedule(paths_view(save_files@), runs as nat),
        run_order == RunOrder::Random ==> jobs_view(r@).to_multiset() == grouped_schedule(paths_view(save_files@), runs as nat).to_multiset(),
{
    match run_order {
        RunOrder::Grouped => grouped_jobs(save_files, runs),
        RunOrder::Sequential => sequential_jobs(save_files, runs),
        RunOrder::Random => {
            let mut schedule = grouped_jobs(save_files, runs);
            shuffle_jobs(&mut schedule);
            schedule
        },
    }
}

proof fn lemma_grouped_next_run(saves: Seq<Seq<char>>, runs: nat)
    ensures
        grouped_schedule(saves, runs + 1).to_multiset() == grouped_schedule(saves, runs).to_multiset().add(
            run_column(saves, runs).to_multiset(),
        ),
    decreases saves.len(),
{
    broadcast use vstd::seq_lib::group_to_multiset_ensures, vstd::multiset::group_multiset_axioms;

    if saves.len() == 0 {
        assert(run_column(saves, runs) =~= Seq::<(Seq<char>, nat)>::empty());
        assert(grouped_schedule(saves, runs).to_multiset() =~= vstd::multiset::Multiset::<(Seq<char>, nat)>::empty());
        assert(grouped_schedule(saves, runs + 1).to_multiset() =~= vstd::multiset::Multiset::<(Seq<char>, nat)>::empty());
    } else {
        let rest = saves.drop_last();
        let s = saves.last();
        lemma_grouped_next_run(rest, runs);
        assert(run_block(s, runs + 1) =~= run_block(s, runs).push((s, runs)));
        assert(run_column(saves, runs) =~= run_column(rest, runs).push((s, runs)));
        vstd::seq_lib::lemma_multiset_commutative(grouped_schedule(rest, runs + 1), run_block(s, runs + 1));
        vstd::seq_lib::lemma_multiset_commutative(grouped_schedule(rest, runs), run_block(s, runs));
        vstd::seq_lib::to_multiset_build(run_block(s, runs), (s, runs));
        vstd::seq_lib::to_multiset_build(run_column(rest, runs), (s, runs));
        assert(grouped_schedule(saves, runs + 1).to_multiset() =~= grouped_schedule(saves, runs).to_multiset().add(
            run_column(saves, runs).to_multiset(),
        ));
    }
}

/// Every run order schedules the same runs: each run of each save, as often
/// as the save is listed; only their order differs.
pub proof fn lemma_schedules_agree(saves: Seq<Seq<char>>, runs: nat)
    ensures
        sequential_schedule(saves, runs).to_multiset() == grouped_schedule(saves, runs).to_multiset(),
    decreases runs,
{
    broadcast use vstd::seq_lib::group_to_multiset_ensures, vstd::multiset::group_multiset_axioms;

    if runs == 0 {
        lemma_grouped_zero_runs(saves);
        assert(sequential_schedule(saves, 0) =~= Seq::<(Seq<char>, nat)>::empty());
    } else {
        let r = (runs - 1) as nat;
        lemma_schedules_agree(saves, r);
        lemma_grouped_next_run(saves, r);
        vstd::seq_lib::lemma_multiset_commutative(sequential_schedule(saves, r), run_column(saves, r));
    }
}

proof fn lemma_grouped_zero_runs(saves: Seq<Seq<char>>)
    ensures
        grouped_schedule(saves, 0) =~= Seq::<(Seq<char>, nat)>::empty(),
    decreases saves.len(),
{
    if saves.len() > 0 {
        lemma_grouped_zero_runs(saves.drop_last());
        assert(run_block(saves.last(), 0) =~= Seq::<(Seq<char>, nat)>::empty());
    }
}

/// The per-tick CSV of one run of a save.
#[derive(Debug, Clone)]
pub struct VerboseData {
    pub save_name: String,
    pub run_index: usize,
    pub csv_data: String,
}

/// A CPU frequency sample taken during a run.
#[derive(Debug, Clone, Copy)]
pub struct CpuFrequencyData {
    pub frequency: u64,
    pub timestamp: u64,
    pub core_index: u64,
}

/// Runs the benchmarks of a configuration with one Factorio executable.
#[derive(Debug)]
pub struct BenchmarkRunner {
    pub config: BenchmarkConfig,
    pub factorio: FactorioExecutor,
}

impl BenchmarkRunner {
    /// A runner of `config` with `factorio`.
    pub fn new(config: BenchmarkConfig, factorio: FactorioExecutor) -> (r: Self)
        ensures
            r.config == config,
            r.factorio == factorio,
    {
        BenchmarkRunner { config, factorio }
    }
}

/// The name a save is shown under: its file stem without the prefix, when
/// it starts with it.
pub open spec fn display_name(stem: Seq<char>, prefix: Option<Seq<char>>) -> Seq<char> {
    match prefix {
        Some(p) => if starts_with(stem, p) {
            stem.skip(p.len() as int)
        } else {
            stem
        },
        None => stem,
    }
}

/// The name a save is shown under.
pub fn save_display_name(stem: &str, strip_prefix: Option<&str>) -> (r: String)
    ensures
        r@ == display_name(stem@, match strip_prefix {
            Some(p) => Some(p@),
            None => None,
        }),
{
    match strip_prefix {
        Some(p) => strip_prefix_or_self(stem, p),
        None => stem.to_owned(),
    }
}

/// The progress message of a job: the save, the run counted from one, and
/// the estimated time left once there is one.
pub open spec fn progress_text(save: Seq<char>, run_index: nat, eta: Option<Seq<char>>) -> Seq<char> {
    let head = save + " (run "@ + decimal(run_index + 1) + ")"@;
    match eta {
        Some(e) => head + " [ETA: "@ + e + "]"@,
        None => head,
    }
}

/// The progress message of a job.
pub fn progress_message(save_name: &str, run_index: usize, eta: Option<&str>) -> (r: String)
    requires
        run_index < usize::MAX,
    ensures
        r@ == progress_text(save_name@, run_index as nat, match eta {
            Some(e) => Some(e@),
            None => None,
        }),
{
    let mut out = String::new();
    append_str(&mut out, save_name);
    append_str(&mut out, " (run ");
    let n = u64_text((run_index + 1) as u64);
    append_str(&mut out, n.as_str());
    append_str(&mut out, ")");
    match eta {
        Some(e) => {
            append_str(&mut out, " [ETA: ");
            append_str(&mut out, e);
            append_str(&mut out, "]");
        },
        None => {},
    }
    out
}

} // verus!
