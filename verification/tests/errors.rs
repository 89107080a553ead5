use belt::common::error::{format_process_output, lines, tail_lines, BenchmarkError, BenchmarkErrorKind};

#[test]
fn process_output_is_bounded() {
    let stderr = (0..45)
        .map(|i| format!("err {i}"))
        .collect::<Vec<_>>()
        .join("\n");

    let error = BenchmarkError::from(BenchmarkErrorKind::FactorioProcessFailed { code: 1 })
        .with_process_output("", &stderr)
        .to_string();

    assert!(error.contains("Factorio stderr:"));
    assert!(error.contains("omitted 5 earlier line(s)"));
    assert!(!error.contains("err 4\n"));
    assert!(error.contains("err 44"));
}

#[test]
fn lines_split_like_str_lines() {
    for text in ["", "a", "a\n", "a\r\nb", "a\n\nb\r", "\n", "x\ry\n"] {
        let ours = lines(text);
        let std_lines: Vec<String> = text.lines().map(|l| l.to_string()).collect();
        assert_eq!(ours, std_lines, "text {text:?}");
    }
}

#[test]
fn short_output_is_kept_whole() {
    assert_eq!(tail_lines("a\nb", 40), "a\nb");
    assert_eq!(tail_lines("a\nb\nc", 2), "... omitted 1 earlier line(s)\nb\nc");
    assert_eq!(tail_lines("", 3), "");
}

#[test]
fn both_streams_are_shown_stderr_first() {
    assert_eq!(
        format_process_output("out", "err"),
        "Factorio stderr:\nerr\n\nFactorio stdout:\nout"
    );
    assert_eq!(format_process_output("  \n", "\t"), "");
    assert_eq!(format_process_output("out", ""), "Factorio stdout:\nout");
}

#[test]
fn messages_carry_hint_and_output() {
    let e = BenchmarkError::from(BenchmarkErrorKind::FactorioProcessFailed { code: -3 })
        .with_hint(Some("close it".to_string()));
    assert_eq!(e.to_string(), "Factorio process failed with exit code -3. (close it)");
    let kept = e.with_hint(None);
    assert_eq!(kept.hint.as_deref(), Some("close it"));
    let with_output = BenchmarkError::from(BenchmarkErrorKind::SanitizerNotFound).with_process_output("done", "");
    assert_eq!(with_output.to_string(), "Belt-Sanitizer directory not found\n\nFactorio stdout:\ndone");
    let blank = BenchmarkError::from(BenchmarkErrorKind::InvalidWriteData).with_process_output(" ", " ");
    assert!(blank.process_output.is_none());
}

#[test]
fn kind_messages() {
    assert_eq!(
        BenchmarkErrorKind::NoSaveFilesFound { pattern: "*".to_string(), directory: "/s".to_string() }.message(),
        "No save files found matching pattern '*' in /s"
    );
    assert_eq!(
        BenchmarkErrorKind::MalformedBenchmarkOutput { field: "ticks".to_string(), string: "x".to_string() }.message(),
        "Malformed benchmark output: ticks x"
    );
    assert_eq!(
        BenchmarkErrorKind::InvalidUtf8Output("bad byte".to_string()).message(),
        "Invalid UTF-8 in Factorio output"
    );
    assert_eq!(BenchmarkErrorKind::ConfigNotFound("/c.toml".to_string()).message(), "Configuration file not found: /c.toml");
}
