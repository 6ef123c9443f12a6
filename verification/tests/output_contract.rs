use std::time::Duration;

use profile_json_refs::perf::timer::PerfLog;
use profile_json_refs::{ProfileReport, SourceSummary};

fn report(quiet: bool, elapsed_millis: u64) -> ProfileReport {
    ProfileReport {
        out_path: "out/profile.sqlite".to_string(),
        summary: SourceSummary {
            total_document_count: 1,
            total_object_count: 1,
            total_array_count: 0,
            total_scalar_count: 2,
            total_canonical_path_count: 1,
            total_site_path_count: 1,
            total_shape_count: 1,
            total_field_profile_count: 2,
            total_stored_value_count: 2,
        },
        elapsed_millis,
        warnings: Vec::new(),
        perf_buckets: Vec::new(),
        perf_enabled: false,
        perf_log_file: None,
        quiet,
    }
}

#[test]
fn stdout_summary_lists_output_path_counts_and_elapsed_only() {
    let text = report(false, 1234).to_stdout_summary();
    assert_eq!(
        text,
        "profile-json-refs: wrote out/profile.sqlite\n\n\
         documents: 1\n\
         objects: 1\n\
         arrays: 0\n\
         scalars: 2\n\
         canonical_paths: 1\n\
         site_paths: 1\n\
         shapes: 1\n\
         field_profiles: 2\n\
         stored_values: 2\n\
         elapsed: 1.234s\n"
    );
    assert!(!text.contains("WARNING"));
    assert!(!text.contains("[perf]"));
}

#[test]
fn elapsed_time_keeps_three_decimals() {
    assert!(report(false, 5).to_stdout_summary().ends_with("elapsed: 0.005s\n"));
    assert!(report(false, 60_000).to_stdout_summary().ends_with("elapsed: 60.000s\n"));
}

#[test]
fn quiet_report_says_so() {
    assert!(report(true, 0).summary_quiet());
    assert!(!report(false, 0).summary_quiet());
}

#[test]
fn perf_log_keeps_buckets_only_when_enabled() {
    let mut enabled = PerfLog::new(true);
    assert!(enabled.enabled());
    enabled.record("scan", Duration::from_millis(3));
    enabled.record("sqlite.flush", Duration::from_millis(5));
    let buckets = enabled.into_buckets();
    let names: Vec<&str> = buckets.iter().map(|bucket| bucket.name).collect();
    assert_eq!(names, vec!["scan", "sqlite.flush"]);
    assert_eq!(buckets[1].duration, Duration::from_millis(5));

    let mut disabled = PerfLog::new(false);
    disabled.record("scan", Duration::from_millis(3));
    assert!(disabled.into_buckets().is_empty());
}

#[test]
fn perf_log_times_steps_on_success_and_on_failure() {
    let mut log = PerfLog::new(true);
    assert_eq!(log.time("scan", Duration::from_millis(2), 7), 7);
    let ok: Result<u8, String> = log.time_result("refs.open", Duration::from_millis(4), Ok(1));
    assert_eq!(ok, Ok(1));
    let failed: Result<u8, String> = log.time_result("refs.load", Duration::from_millis(6), Err("bad".to_string()));
    assert_eq!(failed, Err("bad".to_string()));
    let buckets = log.into_buckets();
    let names: Vec<&str> = buckets.iter().map(|bucket| bucket.name).collect();
    assert_eq!(names, vec!["scan", "refs.open", "refs.load"]);
    assert_eq!(buckets[2].duration, Duration::from_millis(6));

    let mut disabled = PerfLog::new(false);
    assert_eq!(disabled.time("scan", Duration::from_millis(2), "x"), "x");
    assert!(disabled.into_buckets().is_empty());
}

#[test]
fn elapsed_time_rounds_to_the_nearest_millisecond() {
    assert_eq!(profile_json_refs::rounded_millis(1_999_600_000), 2000);
    assert_eq!(profile_json_refs::rounded_millis(1_999_400_000), 1999);
    assert_eq!(profile_json_refs::rounded_millis(1_000_500_000), 1001);
    assert_eq!(profile_json_refs::rounded_millis(0), 0);
    assert!(report(false, 2000).to_stdout_summary().contains("elapsed: 2.000s"));
}
