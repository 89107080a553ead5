use belt::benchmark::runner::{create_execution_schedule, progress_message, save_display_name};
use belt::common::utils::RunOrder;

fn saves() -> Vec<String> {
    vec!["A.zip".to_string(), "B.zip".to_string()]
}

fn pairs(order: RunOrder) -> Vec<(String, usize)> {
    create_execution_schedule(order, 3, &saves())
        .into_iter()
        .map(|j| (j.save_file, j.run_index))
        .collect()
}

#[test]
fn grouped_runs_each_save_in_turn() {
    let expected: Vec<(String, usize)> = vec![
        ("A.zip".into(), 0), ("A.zip".into(), 1), ("A.zip".into(), 2),
        ("B.zip".into(), 0), ("B.zip".into(), 1), ("B.zip".into(), 2),
    ];
    assert_eq!(pairs(RunOrder::Grouped), expected);
}

#[test]
fn sequential_alternates_saves() {
    let expected: Vec<(String, usize)> = vec![
        ("A.zip".into(), 0), ("B.zip".into(), 0),
        ("A.zip".into(), 1), ("B.zip".into(), 1),
        ("A.zip".into(), 2), ("B.zip".into(), 2),
    ];
    assert_eq!(pairs(RunOrder::Sequential), expected);
}

#[test]
fn random_holds_the_same_runs() {
    let mut random = pairs(RunOrder::Random);
    let mut grouped = pairs(RunOrder::Grouped);
    random.sort();
    grouped.sort();
    assert_eq!(random, grouped);
}

#[test]
fn no_runs_no_jobs() {
    assert!(create_execution_schedule(RunOrder::Sequential, 0, &saves()).is_empty());
    assert!(create_execution_schedule(RunOrder::Grouped, 4, &[]).is_empty());
}

#[test]
fn save_names_and_progress() {
    assert_eq!(save_display_name("bench_alpha", Some("bench_")), "alpha");
    assert_eq!(save_display_name("alpha", Some("bench_")), "alpha");
    assert_eq!(save_display_name("alpha", None), "alpha");
    assert_eq!(progress_message("alpha", 0, None), "alpha (run 1)");
    assert_eq!(progress_message("alpha", 2, Some("1m5s")), "alpha (run 3) [ETA: 1m5s]");
}
