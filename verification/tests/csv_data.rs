use belt::benchmark::runner::VerboseData;
use belt::common::output::csv_data::{
    benchmark_header, cpu_freq_header, next_benchmark_run_indexes, next_verbose_run_index,
    offset_run_index, parse_u32, run_indexes, validate_csv_header, verbose_export, IntError,
};

fn strings(v: &[&str]) -> Vec<String> {
    v.iter().map(|s| s.to_string()).collect()
}

#[test]
fn cells_parse_as_u32_does() {
    for text in ["0", "+7", "42", "4294967295", "4294967296", "", "+", "-1", "1x", "99999999999x", "00012"] {
        let ours = parse_u32(text);
        let std_result = text.parse::<u32>();
        match (ours, std_result) {
            (Ok(a), Ok(b)) => assert_eq!(a, b, "{text:?}"),
            (Err(IntError::Empty), Err(e)) => assert_eq!(e.to_string(), "cannot parse integer from empty string"),
            (Err(IntError::InvalidDigit), Err(e)) => assert_eq!(e.to_string(), "invalid digit found in string", "{text:?}"),
            (Err(IntError::PosOverflow), Err(e)) => assert_eq!(e.to_string(), "number too large to fit in target type", "{text:?}"),
            (a, b) => panic!("{text:?}: {a:?} vs {b:?}"),
        }
    }
}

#[test]
fn run_indexes_default_to_zero_and_stop_at_bad_cells() {
    let rows = vec![strings(&["a", "3"]), strings(&["b"])];
    assert_eq!(run_indexes(&rows).unwrap(), vec![3, 0]);
    let bad = vec![strings(&["a", "x"])];
    assert_eq!(run_indexes(&bad).unwrap_err().to_string(), "Couldn't parse into int: invalid digit found in string");
}

#[test]
fn next_indexes_continue_each_save() {
    let saves = strings(&["alpha", "beta", "alpha", "alpha"]);
    let indexes = vec![0, 4, 2, 1];
    let mut next = next_benchmark_run_indexes(&saves, &indexes);
    next.sort();
    assert_eq!(next, vec![("alpha".to_string(), 3), ("beta".to_string(), 5)]);
    assert_eq!(offset_run_index(1, "alpha", &next), 4);
    assert_eq!(offset_run_index(1, "gamma", &next), 1);
}

#[test]
fn verbose_runs_continue_after_the_largest() {
    assert_eq!(next_verbose_run_index(&vec![]), 0);
    assert_eq!(next_verbose_run_index(&vec![0, 3, 1]), 4);
}

#[test]
fn headers_must_match_to_append() {
    let header = benchmark_header();
    assert_eq!(header.len(), 11);
    assert_eq!(header[7], "percentage_improvement");
    assert!(validate_csv_header("results.csv", &header, &benchmark_header()).is_ok());
    let err = validate_csv_header("cpu.csv", &strings(&["a"]), &cpu_freq_header()).unwrap_err();
    assert_eq!(
        err.to_string(),
        "IO error: Cannot append to cpu.csv: header mismatch. Expected [\"save_name\", \"run_index\", \"core_index\", \"cpu_frequency\", \"timestamp\"], found [\"a\"]"
    );
}

#[test]
fn verbose_rows_hold_the_asked_metrics() {
    let data = vec![
        VerboseData { save_name: "s".into(), run_index: 0, csv_data: "tick,timestamp,wholeUpdate,gameUpdate\nt0,5,10,20\nt1,6,11,21".into() },
        VerboseData { save_name: "s".into(), run_index: 1, csv_data: "tick,timestamp,wholeUpdate,gameUpdate\nt0,7,12,22".into() },
    ];
    let export = verbose_export(&data, &strings(&["gameUpdate", "missing"]), 0).expect("export");
    assert_eq!(export.header, strings(&["tick", "run", "gameUpdate", "missing"]));
    assert_eq!(export.rows, vec![
        strings(&["0", "0", "20", "N/A"]),
        strings(&["1", "0", "21", "N/A"]),
        strings(&["0", "1", "22", "N/A"]),
    ]);
    let all = verbose_export(&data, &strings(&["all"]), 5).expect("export all");
    assert_eq!(all.header, strings(&["tick", "run", "wholeUpdate", "gameUpdate"]));
    assert_eq!(all.rows[2], strings(&["0", "6", "12", "22"]));
}

#[test]
fn ragged_verbose_csv_is_an_error() {
    let data = vec![VerboseData { save_name: "s".into(), run_index: 0, csv_data: "tick,a\nt0,1,2,3".into() }];
    assert!(verbose_export(&data, &strings(&["a"]), 0).is_err());
}
