use belt::benchmark::parser::{benchmark_log_fields, factorio_version, split_whitespace, thread_churn};
use belt::benchmark::runner::save_display_name;
use belt::common::config::{AnalyzeConfig, BenchmarkConfig, BlueprintConfig, GlobalConfig, SanitizeConfig};
use belt::common::platform::TargetOs;
use belt::common::utils::RunOrder;
use belt::common::error::BenchmarkErrorKind;
use belt::sanitize::parser::{
    check_production_stats, detection_warnings, sanitizer_dir, SanitizerSnapshot, SurfaceSnapshot,
};

#[test]
fn version_is_the_fifth_word_of_the_build_line() {
    let log = "0.000 2025-07-09 17:16:57; Factorio 2.0.55 (build 83138, linux64, full, space-age)\n   Performed 1000 updates in 2138.223 ms\n";
    assert_eq!(factorio_version(log), "2.0.55");
    assert_eq!(factorio_version("no version here"), "unknown");
    assert_eq!(factorio_version("Factorio (build"), "unknown");
}

#[test]
fn words_split_like_split_whitespace() {
    for text in ["", "  a  b ", "a\u{3000}b\tc", "one"] {
        let std_words: Vec<String> = text.split_whitespace().map(|w| w.to_string()).collect();
        assert_eq!(split_whitespace(text), std_words);
    }
}

#[test]
fn configuration_defaults() {
    let b = BenchmarkConfig::default();
    assert_eq!((b.ticks, b.runs, b.run_order), (6000, 5, RunOrder::Grouped));
    assert!(b.record_cpu && !b.append && b.pattern.is_none() && b.headless.is_none());
    assert_eq!(SanitizeConfig::default().ticks, 3600);
    let a = AnalyzeConfig::default();
    assert_eq!((a.height, a.width, a.smooth_window), (800, 1200, 0));
    let bp = BlueprintConfig::default();
    assert_eq!((bp.count, bp.buffer_ticks), (0, 0));
    assert_eq!(bp.mining_module_replacement, "speed-module-3");
    assert_eq!(bp.mining_module_replacement_quality, "legendary");
    let g = GlobalConfig::default();
    assert!(g.factorio_path.is_none() && !g.verbose);
}

#[test]
fn sanitizer_warnings() {
    let snapshot = SanitizerSnapshot {
        pollution_enabled: false,
        total_pollution: 3,
        enemy_expansion_enabled: true,
        surfaces: Some(vec![
            SurfaceSnapshot { name: Some("nauvis".into()), enemy_units: 0, enemy_spawners: 1, enemy_worms: 0, active_cars: 2 },
            SurfaceSnapshot { name: None, enemy_units: 0, enemy_spawners: 0, enemy_worms: 0, active_cars: 0 },
        ]),
    };
    assert_eq!(
        detection_warnings(&snapshot),
        vec![
            "Pollution is enabled/present",
            "Enemy expansion is enabled",
            "Enemies found on surface 'nauvis'",
            "Active cars found on surface 'nauvis'",
        ]
    );
    let clean = SanitizerSnapshot { pollution_enabled: false, total_pollution: 0, enemy_expansion_enabled: false, surfaces: None };
    assert!(detection_warnings(&clean).is_empty());
    assert_eq!(sanitizer_dir(TargetOs::Linux, Some("/d".into()), Some("/f".into())).unwrap(), "/d/script-output/belt");
    assert_eq!(sanitizer_dir(TargetOs::Linux, Some("/d/".into()), None).unwrap(), "/d/script-output/belt");
    assert_eq!(sanitizer_dir(TargetOs::Windows, Some("C:\\d".into()), None).unwrap(), "C:\\d\\script-output/belt");
    assert_eq!(sanitizer_dir(TargetOs::Linux, None, Some("/f".into())).unwrap(), "/f");
    assert_eq!(sanitizer_dir(TargetOs::Linux, None, None).unwrap_err().to_string(), "Belt-Sanitizer directory not found");
}

#[test]
fn production_statistics_must_hold_input_and_output() {
    assert!(matches!(*check_production_stats(None).unwrap_err().kind, BenchmarkErrorKind::NoProductionStatistics));
    assert!(matches!(*check_production_stats(Some((false, true))).unwrap_err().kind, BenchmarkErrorKind::NoInputStatistics));
    assert!(matches!(*check_production_stats(Some((false, false))).unwrap_err().kind, BenchmarkErrorKind::NoInputStatistics));
    assert!(matches!(*check_production_stats(Some((true, false))).unwrap_err().kind, BenchmarkErrorKind::NoOutputStatistics));
    assert!(check_production_stats(Some((true, true))).is_ok());
}

#[test]
fn test_parse_benchmark_log() {
    const FACTORIO_OUTPUT: &str = r#"0.000 2025-07-09 17:16:57; Factorio 2.0.55 (build 83138, linux64, full, space-age)
   Performed 1000 updates in 2138.223 ms
   avg: 2.138 ms, min: 1.367 ms, max: 11.710 ms
   checksum: 2846200395
   7.737 Goodbye"#;

    let fields = benchmark_log_fields(FACTORIO_OUTPUT).unwrap();
    assert_eq!(save_display_name("test_save", None), "test_save");
    assert_eq!(fields.version, "2.0.55");

    let (ticks, execution_time) = fields.performed.clone().unwrap();
    let execution_time_ms: f64 = execution_time.parse().unwrap();
    let (avg, min, max) = fields.timings.clone().unwrap();
    assert_eq!(ticks, 1000);
    assert_eq!(execution_time_ms, 2138.223);
    assert_eq!(avg.parse::<f64>().unwrap(), 2.138);
    assert_eq!(min.parse::<f64>().unwrap(), 1.367);
    assert_eq!(max.parse::<f64>().unwrap(), 11.710);

    let effective_ups = 1000.0 * ticks as f64 / execution_time_ms;
    let expected_ups = 1000.0 * 1000.0 / 2138.223;
    let difference = (effective_ups - expected_ups).abs();
    assert!(difference < 0.001, "Effective UPS calculation is incorrect");
    assert!(fields.heap.is_none());
}

#[test]
fn the_last_timing_lines_count() {
    let log = "Performed 10 updates in 5 ms\navg: 1 ms, min: 1 ms, max: 2 ms\n  Performed 20 updates in 7.5 ms\r\n";
    let fields = benchmark_log_fields(log).unwrap();
    assert_eq!(fields.performed, Some((20, "7.5".to_string())));
    assert_eq!(fields.timings, Some(("1".to_string(), "1".to_string(), "2".to_string())));
    assert_eq!(fields.version, "unknown");
}

#[test]
fn a_tick_count_beyond_u32_is_malformed() {
    let err = benchmark_log_fields("Performed 99999999999 updates in 5 ms").unwrap_err();
    assert!(matches!(&*err.kind, BenchmarkErrorKind::MalformedBenchmarkOutput { field, string } if field == "ticks" && string == "99999999999"));
}

const HEAP_STATS: &str = "heap stats:     peak       total     current       block      total#
  reserved:     1.1 GiB     1.2 GiB     1.0 GiB
 committed:   800.5 MiB   900.0 MiB   700.2 MiB
     reset:       0
    purged:       0
   touched:   600.0 MiB   650.0 MiB   500.0 MiB                                   ok
     pages:     1.5 Ki      1.6 Ki      1.2 Ki                                    not all freed
-abandoned:       12          13           3                                      not all freed
     other
     other
     other
     other
     other
     other
     other
     other
     mmaps: 42 commits: 100 resets: 0 purges: 3
     other
   threads:       9        14         2        not all freed
     other
     other
     other
 process: user: 1.0 s, system: 0.1 s, faults: 0, peak rss: 750.0 MiB, peak commit: 800.5 MiB
";

#[test]
fn heap_stats_are_read_from_the_last_block() {
    let last = HEAP_STATS.replace("threads:       9", "threads:       8");
    let log = format!("{HEAP_STATS}\n{last}");
    let fields = benchmark_log_fields(&log).unwrap();
    let heap = fields.heap.unwrap();
    assert_eq!(heap.texts.len(), 15);
    assert_eq!(heap.texts[0], "800.5 MiB");
    assert_eq!(heap.texts[1], "750.0 MiB");
    assert_eq!(heap.texts[2], "1.1 GiB");
    assert_eq!(heap.texts[12], "42");
    assert_eq!(heap.texts[13], "3");
    assert_eq!(heap.texts[14], "0");
    assert_eq!(heap.threads_peak, 8);
    assert_eq!(heap.threads_total, 14);
    assert_eq!(heap.thread_churn, 6);
}

#[test]
fn thread_churn_is_peak_above_current() {
    assert_eq!(thread_churn(9, 2), 7);
    assert_eq!(thread_churn(2, 9), 0);
    assert_eq!(thread_churn(5, 5), 0);
}
