use belt::common::factorio::{
    failure_hint, process_failed, read_run_output, save_run_args, tick_run_args, Candidate,
    ExplicitPath, FactorioExecutor, FactorioSaveRunSpec, FactorioTickRunSpec,
};

#[test]
fn explicit_paths_win_and_candidates_are_tried_in_order() {
    let candidates = vec![
        Candidate { path: "/a".into(), exists: false },
        Candidate { path: "/b".into(), exists: true },
        Candidate { path: "/c".into(), exists: true },
    ];
    assert_eq!(FactorioExecutor::find_executable(None, &candidates).unwrap(), "/b");
    let explicit = ExplicitPath { path: "/x".into(), is_file: true, is_executable: true };
    assert_eq!(FactorioExecutor::find_executable(Some(explicit), &candidates).unwrap(), "/x");
    let dir = ExplicitPath { path: "/dir".into(), is_file: false, is_executable: false };
    assert_eq!(
        FactorioExecutor::find_executable(Some(dir), &candidates).unwrap_err().to_string(),
        "Factorio executable not fund at provided path: /dir (Make sure this is the path to the executable itself.)"
    );
    assert_eq!(
        FactorioExecutor::find_executable(None, &candidates[..1]).unwrap_err().to_string(),
        "Factorio executable not found. Please provide it explicitly with --factorio-path"
    );
    let exe = FactorioExecutor::discover(None, &candidates).unwrap();
    assert_eq!(exe.executable_path(), "/b");
}

#[test]
fn run_arguments() {
    let spec = FactorioTickRunSpec {
        save_file: "s.zip".into(),
        ticks: 6000,
        mods_dir: Some("/mods".into()),
        verbose_all_metrics: true,
        headless: None,
    };
    assert_eq!(
        tick_run_args(&spec),
        vec!["--benchmark", "s.zip", "--benchmark-ticks", "6000", "--benchmark-runs", "1", "--disable-audio",
             "--benchmark-verbose", "all", "--mod-directory", "/mods"]
    );
    let headless = FactorioTickRunSpec { headless: Some(true), verbose_all_metrics: false, mods_dir: None, ..spec };
    assert_eq!(tick_run_args(&headless), vec!["--benchmark", "s.zip", "--benchmark-ticks", "6000", "--benchmark-runs", "1"]);
    let save = FactorioSaveRunSpec { base_save_file: "b.zip".into(), new_save_name: "n".into(), mods_dir: None, headless: Some(false) };
    assert_eq!(save_run_args(&save), vec!["--load-game", "b.zip", "--disable-migration-window", "--disable-audio"]);
}

#[test]
fn output_splits_at_the_verbose_header() {
    let out = read_run_output("x\ntick,timestamp,wholeUpdate\nt0,1,2\nnoise\nt1,3,4\n", "log\n");
    assert_eq!(out.summary, "log\nx\n");
    assert_eq!(out.verbose_data.as_deref(), Some("tick,timestamp,wholeUpdate\nt0,1,2\nt1,3,4"));
    let plain = read_run_output("done", "");
    assert_eq!(plain.summary, "done");
    assert!(plain.verbose_data.is_none());
}

#[test]
fn failures_hint_at_running_instances() {
    assert!(failure_hint("Factorio is already running", "").is_some());
    assert!(failure_hint("", "fine").is_none());
    let e = process_failed(None, "", "already running");
    assert_eq!(
        e.to_string(),
        "Factorio process failed with exit code -1. (Factorio might already be running. Please close any open Factorio instances.)"
    );
}
