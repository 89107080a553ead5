use belt::common::factorio::Candidate;
use belt::common::platform::TargetOs;
use belt::common::utils::{
    blueprint_search, format_duration, format_secs, found_save_files, require_saves_dir,
    round_to_precision_window, save_search, validate_save_files, FileSearch, PathStatus, RunOrder,
};
use std::str::FromStr;
use std::time::Duration;

#[test]
fn test_format_duration() {
    assert_eq!(format_duration(Duration::from_secs(59)), "59s");
    assert_eq!(format_duration(Duration::from_secs(61)), "1m1s");
    assert_eq!(format_duration(Duration::from_secs(3661)), "1h1m");
}

#[test]
fn durations_at_the_boundaries() {
    assert_eq!(format_secs(0), "0s");
    assert_eq!(format_secs(60), "1m0s");
    assert_eq!(format_secs(3599), "59m59s");
    assert_eq!(format_secs(3600), "1h0m");
    assert_eq!(format_duration(Duration::from_millis(1999)), "1s");
}

#[test]
fn ticks_round_up_to_their_window() {
    assert_eq!(round_to_precision_window(0), 0);
    assert_eq!(round_to_precision_window(1), 300);
    assert_eq!(round_to_precision_window(300), 300);
    assert_eq!(round_to_precision_window(3599), 3600);
    assert_eq!(round_to_precision_window(3601), 7200);
    assert_eq!(round_to_precision_window(36001), 72000);
    assert_eq!(round_to_precision_window(216001), 432000);
    assert_eq!(round_to_precision_window(54000001), 108000000);
}

#[test]
fn run_orders_parse_in_any_case() {
    assert_eq!(RunOrder::from_str("sequential"), Ok(RunOrder::Sequential));
    assert_eq!(RunOrder::from_str("RANDOM"), Ok(RunOrder::Random));
    assert_eq!(RunOrder::from_str("Grouped"), Ok(RunOrder::Grouped));
    assert_eq!(
        RunOrder::from_str("fast"),
        Err("Invalid run order: fast. Valid options: sequential, random, grouped".to_string())
    );
    assert_eq!(RunOrder::default(), RunOrder::Grouped);
}

#[test]
fn save_files_must_exist() {
    let files = vec![
        Candidate { path: "a.zip".to_string(), exists: true },
        Candidate { path: "b.zip".to_string(), exists: false },
        Candidate { path: "c.zip".to_string(), exists: false },
    ];
    let err = validate_save_files(&files).unwrap_err();
    assert_eq!(err.to_string(), "Invalid save file: b.zip - File does not exist");
    assert!(validate_save_files(&files[..1]).is_ok());
}

#[test]
fn saves_are_searched_by_pattern() {
    let dir = PathStatus { path: "/saves".to_string(), exists: true, is_file: false, zip_extension: false };
    match save_search(TargetOs::Linux, &dir, Some("bench_*")).unwrap() {
        FileSearch::Pattern(p) => assert_eq!(p, "/saves/bench_*.zip"),
        FileSearch::File(_) => panic!("expected a pattern"),
    }
    match save_search(TargetOs::Linux, &dir, None).unwrap() {
        FileSearch::Pattern(p) => assert_eq!(p, "/saves/*.zip"),
        FileSearch::File(_) => panic!("expected a pattern"),
    }
    let file = PathStatus { path: "/saves/a.zip".to_string(), exists: true, is_file: true, zip_extension: true };
    assert!(matches!(save_search(TargetOs::Linux, &file, None).unwrap(), FileSearch::File(p) if p == "/saves/a.zip"));
    let txt = PathStatus { path: "/saves/a.txt".to_string(), exists: true, is_file: true, zip_extension: false };
    assert_eq!(
        save_search(TargetOs::Linux, &txt, None).unwrap_err().to_string(),
        "Invalid save file: /saves/a.txt - Save file is not a .zip"
    );
    let missing = PathStatus { path: "/nope".to_string(), exists: false, is_file: false, zip_extension: false };
    assert_eq!(
        save_search(TargetOs::Linux, &missing, None).unwrap_err().to_string(),
        "Save directory does not exist: /nope"
    );
    assert_eq!(
        found_save_files("/saves", None, Vec::new()).unwrap_err().to_string(),
        "No save files found matching pattern '*' in /saves"
    );
    assert_eq!(found_save_files("/saves", None, vec!["x.zip".to_string()]).unwrap(), vec!["x.zip".to_string()]);
}

#[test]
fn blueprints_are_searched_by_pattern() {
    let dir = PathStatus { path: "C:\\bp".to_string(), exists: true, is_file: false, zip_extension: false };
    match blueprint_search(TargetOs::Windows, &dir, Some("*.txt")).unwrap() {
        FileSearch::Pattern(p) => assert_eq!(p, "C:\\bp\\*.txt"),
        FileSearch::File(_) => panic!("expected a pattern"),
    }
}

#[test]
fn saves_dir_is_required() {
    assert!(require_saves_dir("saves", "benchmark").is_ok());
    assert_eq!(
        require_saves_dir("", "sanitize").unwrap_err().to_string(),
        "Failed to load configuration: SAVES_DIR is required unless sanitize.saves_dir is set in config"
    );
}
