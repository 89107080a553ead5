use belt::benchmark::uprof::{
    parse_report_csv, parse_report_rows, record_copy, record_parse, sanitize_path_component,
    AmdUprofReportArtifact, CopyOutcome, MAX_CELLS_PER_ROW, MAX_ROWS_PER_TABLE, MAX_TABLES_PER_REPORT,
};

fn rows(lines: &[&[&str]]) -> Vec<Vec<String>> {
    lines.iter().map(|r| r.iter().map(|c| c.to_string()).collect()).collect()
}

#[test]
fn test_parse_hotspots_report_csv() {
    let csv = r#"AMD uProf (Version:5.3.518.0)
PERFORMANCE ANALYSIS REPORT

EXECUTION
Target Path:,/home/blousy/.local/bin/factorio
Command Line Arguments:,--benchmark save.zip
Environment Variables:
CPU Details:,Family(0x1a)

PROFILE DETAILS
Profile Session Type:,Hotspots
Profile Duration:,4.389 sec
Selected View:,hotspots

APPLICATION PERFORMANCE SNAPSHOT
Thread Count,24

10 HOTTEST FUNCTIONS (Sort Event - CPU_TIME)
FUNCTION,CPU_TIME,Module
foo,1.230,libfoo.so
bar,0.120,factorio
"#;

    let parsed = parse_report_csv(csv).expect("parse report");

    assert_eq!(
        parsed.metadata_value("Profile Session Type"),
        Some("Hotspots")
    );
    assert_eq!(parsed.metadata_value("CPU Details"), Some("Family(0x1a)"));
    assert_eq!(parsed.metadata_value("Thread Count"), Some("24"));
    assert_eq!(parsed.tables.len(), 1);
    assert_eq!(
        parsed.tables[0].title,
        "10 HOTTEST FUNCTIONS (Sort Event - CPU_TIME)"
    );
    assert_eq!(parsed.tables[0].headers, ["FUNCTION", "CPU_TIME", "Module"]);
    assert_eq!(parsed.tables[0].rows[0], ["foo", "1.230", "libfoo.so"]);
}

#[test]
fn metadata_lookup_ignores_ascii_case_and_takes_the_first_match() {
    let parsed = parse_report_rows(&rows(&[
        &["thread count", "8"],
        &["THREAD COUNT", "9"],
    ]));
    assert_eq!(parsed.metadata_value("Thread Count"), Some("8"));
    assert_eq!(parsed.metadata_value("Missing"), None);
}

#[test]
fn metadata_keys_lose_trailing_colons_and_empty_values_are_skipped() {
    let parsed = parse_report_rows(&rows(&[&[" Key:: ", " value "], &["Other", "   ", "x"]]));
    assert_eq!(parsed.metadata.len(), 1);
    assert_eq!(parsed.metadata[0].key, "Key");
    assert_eq!(parsed.metadata[0].value, "value");
}

#[test]
fn metadata_section_skips_titles_ending_in_colon() {
    let parsed = parse_report_rows(&rows(&[
        &["EXECUTION"],
        &["Environment Variables:"],
        &["Target Path:", "/bin/factorio"],
        &[""],
        &["Loose", "value"],
    ]));
    assert_eq!(parsed.metadata_value("Target Path"), Some("/bin/factorio"));
    assert_eq!(parsed.metadata_value("Loose"), Some("value"));
    assert!(parsed.tables.is_empty());
}

#[test]
fn title_without_following_rows_ends_the_report() {
    let parsed = parse_report_rows(&rows(&[&["a", "b"], &["TITLE"], &["", ""]]));
    assert_eq!(parsed.metadata.len(), 1);
    assert!(parsed.tables.is_empty());
}

#[test]
fn tables_keep_at_most_the_row_limit_and_mark_truncation() {
    let mut lines: Vec<Vec<String>> = vec![vec!["T".to_string()], vec!["A".to_string(), "B".to_string()]];
    for i in 0..(MAX_ROWS_PER_TABLE + 5) {
        lines.push(vec![format!("r{i}"), "1".to_string()]);
    }
    let parsed = parse_report_rows(&lines);
    assert_eq!(parsed.tables.len(), 1);
    assert_eq!(parsed.tables[0].rows.len(), MAX_ROWS_PER_TABLE);
    assert!(parsed.tables[0].truncated);
    assert!(parsed.truncated);
}

#[test]
fn cells_past_the_limit_are_cut() {
    let wide: Vec<String> = (0..(MAX_CELLS_PER_ROW + 3)).map(|i| format!("c{i}")).collect();
    let lines = vec![vec!["T".to_string()], wide.clone(), wide];
    let parsed = parse_report_rows(&lines);
    assert_eq!(parsed.tables[0].headers.len(), MAX_CELLS_PER_ROW);
    assert_eq!(parsed.tables[0].rows[0].len(), MAX_CELLS_PER_ROW);
    assert!(parsed.tables[0].truncated);
}

#[test]
fn tables_past_the_limit_are_dropped() {
    let mut lines: Vec<Vec<String>> = Vec::new();
    for i in 0..(MAX_TABLES_PER_REPORT + 2) {
        lines.push(vec![format!("T{i}")]);
        lines.push(vec!["A".to_string(), "B".to_string()]);
        lines.push(vec!["1".to_string(), "2".to_string()]);
        lines.push(vec![String::new()]);
    }
    let parsed = parse_report_rows(&lines);
    assert_eq!(parsed.tables.len(), MAX_TABLES_PER_REPORT);
    assert!(parsed.truncated);
}

#[test]
fn quoted_cells_are_read_whole_and_trimmed() {
    let parsed = parse_report_csv("\"Key, with comma:\",\"  spaced value  \"\n").expect("parse");
    assert_eq!(parsed.metadata_value("Key, with comma"), Some("spaced value"));
}

#[test]
fn path_components_lose_separators() {
    assert_eq!(sanitize_path_component("a/b\\c:d"), "a_b_c_d");
    assert_eq!(sanitize_path_component("plain"), "plain");
}

#[test]
fn copying_records_the_path_to_read() {
    let mut report = AmdUprofReportArtifact::new("/tmp/orig.csv".to_string());
    let path = record_copy(&mut report, CopyOutcome::Copied("/out/report_0.csv".to_string()));
    assert_eq!(path, "/out/report_0.csv");
    assert_eq!(report.copied_path.as_deref(), Some("/out/report_0.csv"));

    let mut missing = AmdUprofReportArtifact::new("/tmp/orig.csv".to_string());
    let path = record_copy(&mut missing, CopyOutcome::Missing);
    assert_eq!(path, "/tmp/orig.csv");
    assert_eq!(missing.copy_error.as_deref(), Some("report file does not exist"));

    let mut failed = AmdUprofReportArtifact::new("/tmp/orig.csv".to_string());
    let path = record_copy(&mut failed, CopyOutcome::Failed("denied".to_string()));
    assert_eq!(path, "/tmp/orig.csv");
    assert_eq!(failed.copy_error.as_deref(), Some("denied"));
}

#[test]
fn parsing_records_the_report_or_the_error() {
    let mut report = AmdUprofReportArtifact::new("r.csv".to_string());
    record_parse(&mut report, Ok("Thread Count,4\n".to_string()));
    assert_eq!(report.parsed.as_ref().unwrap().metadata_value("thread count"), Some("4"));
    assert!(report.parse_error.is_none());

    let mut unreadable = AmdUprofReportArtifact::new("r.csv".to_string());
    record_parse(&mut unreadable, Err("no such file".to_string()));
    assert!(unreadable.parsed.is_none());
    assert_eq!(unreadable.parse_error.as_deref(), Some("no such file"));
}
