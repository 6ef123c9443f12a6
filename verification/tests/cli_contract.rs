use profile_json_refs::cli::CliArgs;
use profile_json_refs::config::{
    FileConfig, InputConfig, InputFormat, ObjectSamplingFileConfig, OutputConfig, PerfConfig,
    PrioritySampleFileConfig, ProfileConfig, RefsConfig, SamplingFileConfig, StdoutConfig,
    ValueProfileFileConfig, ValueSamplingFileConfig, parse_input_format,
};
use profile_json_refs::error::ProfileError;

fn args(input_file: &str) -> CliArgs {
    CliArgs {
        input_file: input_file.to_string(),
        refs: None,
        out: None,
        jsonl: false,
        config: None,
        shape_sample_limit: None,
        value_sample_limit: None,
        heavy_hitter_limit: None,
        hll_precision: None,
        value_text_limit: None,
        perf_log: false,
        perf_log_file: None,
        perf_log_dbstat: false,
        quiet: false,
    }
}

fn empty_file() -> FileConfig {
    FileConfig {
        input: None,
        refs: None,
        output: None,
        stdout: None,
        perf: None,
        sampling: None,
        value_profile: None,
        flush: None,
    }
}

fn value_profile_file() -> ValueProfileFileConfig {
    ValueProfileFileConfig {
        value_text_limit_bytes: None,
        exact_distinct_threshold: None,
        exact_value_bytes_per_field_profile: None,
        global_exact_value_bytes_budget: None,
        hll_precision: None,
        heavy_hitter_limit: None,
    }
}

fn parse_config(args: CliArgs) -> ProfileConfig {
    ProfileConfig::from_cli(args, None).expect("config should load")
}

#[test]
fn defaults_use_contract_paths_and_auto_format() {
    let config = parse_config(args("data.json"));

    assert_eq!(config.input_file, "data.json");
    assert_eq!(config.refs_sqlite, "refs/schemas.sqlite");
    assert_eq!(config.out_sqlite, "profile.sqlite");
    assert_eq!(config.input_format, InputFormat::Auto);
    assert!(!config.quiet);
    assert!(!config.perf_log);
}

#[test]
fn jsonl_flag_forces_jsonl_format() {
    let mut cli = args("data.jsonl");
    cli.jsonl = true;
    let config = parse_config(cli);

    assert_eq!(config.input_format, InputFormat::Jsonl);
}

#[test]
fn dash_input_is_rejected_by_validation() {
    let config = parse_config(args("-"));

    let err = config
        .validate(false, false)
        .expect_err("dash input should be rejected");
    assert!(matches!(err, ProfileError::StdinUnsupported));
}

#[test]
fn yaml_overrides_defaults_when_cli_option_is_absent() {
    let file = FileConfig {
        input: Some(InputConfig { file: None, format: Some("json".to_string()) }),
        refs: Some(RefsConfig { sqlite: Some("dir/refs.sqlite".to_string()) }),
        output: Some(OutputConfig { sqlite: Some("dir/profile-from-yaml.sqlite".to_string()) }),
        stdout: Some(StdoutConfig { quiet: Some(true) }),
        perf: Some(PerfConfig { log: Some(true), file: None, dbstat: None }),
        value_profile: Some(ValueProfileFileConfig {
            hll_precision: Some(12),
            heavy_hitter_limit: Some(64),
            ..value_profile_file()
        }),
        ..empty_file()
    };
    let mut cli = args("data.json");
    cli.config = Some("dir/profile.yaml".to_string());

    let config = ProfileConfig::from_cli(cli, Some(file)).expect("config should load");

    assert_eq!(config.refs_sqlite, "dir/refs.sqlite");
    assert_eq!(config.out_sqlite, "dir/profile-from-yaml.sqlite");
    assert_eq!(config.input_format, InputFormat::Json);
    assert!(config.quiet);
    assert!(config.perf_log);
    assert_eq!(config.value_profile.hll_precision, 12);
    assert_eq!(config.value_profile.heavy_hitter_limit, 64);
}

#[test]
fn cli_options_override_yaml_config() {
    let file = FileConfig {
        input: Some(InputConfig { file: None, format: Some("json".to_string()) }),
        refs: Some(RefsConfig { sqlite: Some("dir/yaml-refs.sqlite".to_string()) }),
        output: Some(OutputConfig { sqlite: Some("dir/yaml-profile.sqlite".to_string()) }),
        sampling: Some(SamplingFileConfig {
            object: Some(ObjectSamplingFileConfig {
                sample_json_limit_bytes: None,
                chunk_flush_rows: None,
                canonical_path: None,
                site_path: None,
                field_set: None,
                type_set: Some(PrioritySampleFileConfig {
                    first_seen: None,
                    first_non_empty: None,
                    priority_sample_limit: Some(2),
                }),
            }),
            value: Some(ValueSamplingFileConfig {
                value_json_limit_bytes: None,
                parent_object_json_limit_bytes: None,
                chunk_flush_rows: None,
                first_seen: None,
                first_non_empty: None,
                priority_sample_limit_per_field_profile: Some(3),
                heavy_hitter_context_sample_limit: None,
            }),
        }),
        value_profile: Some(ValueProfileFileConfig {
            value_text_limit_bytes: Some(256),
            hll_precision: Some(10),
            heavy_hitter_limit: Some(32),
            ..value_profile_file()
        }),
        ..empty_file()
    };
    let cli = CliArgs {
        refs: Some("dir/cli-refs.sqlite".to_string()),
        out: Some("dir/cli-profile.sqlite".to_string()),
        jsonl: true,
        config: Some("dir/profile.yaml".to_string()),
        shape_sample_limit: Some(6),
        value_sample_limit: Some(9),
        heavy_hitter_limit: Some(128),
        hll_precision: Some(15),
        value_text_limit: Some(2048),
        quiet: true,
        perf_log: true,
        ..args("data.jsonl")
    };

    let config = ProfileConfig::from_cli(cli, Some(file)).expect("config should load");

    assert_eq!(config.refs_sqlite, "dir/cli-refs.sqlite");
    assert_eq!(config.out_sqlite, "dir/cli-profile.sqlite");
    assert_eq!(config.input_format, InputFormat::Jsonl);
    assert_eq!(config.sampling.type_set_priority_limit, 6);
    assert_eq!(config.sampling.value_priority_limit_per_field_profile, 9);
    assert_eq!(config.value_profile.heavy_hitter_limit, 128);
    assert_eq!(config.value_profile.hll_precision, 15);
    assert_eq!(config.value_profile.value_text_limit_bytes, 2048);
    assert!(config.quiet);
    assert!(config.perf_log);
}

#[test]
fn invalid_hll_precision_fails_validation() {
    let mut cli = args("dir/data.json");
    cli.refs = Some("dir/refs.sqlite".to_string());
    cli.hll_precision = Some(3);
    let config = parse_config(cli);

    let err = config
        .validate(true, true)
        .expect_err("invalid hll precision should fail");
    assert!(
        matches!(err, ProfileError::InvalidConfig(message) if message.contains("hll_precision"))
    );
}

#[test]
fn heavy_hitter_limit_zero_fails_validation() {
    let mut cli = args("dir/data.json");
    cli.refs = Some("dir/refs.sqlite".to_string());
    cli.heavy_hitter_limit = Some(0);
    let config = parse_config(cli);

    let err = config
        .validate(true, true)
        .expect_err("zero heavy hitter limit should fail");
    assert!(
        matches!(err, ProfileError::InvalidConfig(message) if message.contains("heavy_hitter_limit"))
    );
}

#[test]
fn shape_sample_limit_zero_fails_validation() {
    let mut cli = args("dir/data.json");
    cli.refs = Some("dir/refs.sqlite".to_string());
    cli.shape_sample_limit = Some(0);
    let config = parse_config(cli);

    let err = config
        .validate(true, true)
        .expect_err("zero shape sample limit should fail");
    assert!(matches!(err, ProfileError::InvalidConfig(message) if message.contains("type_set")));
}

#[test]
fn default_config_validates_when_paths_are_files() {
    let config = parse_config(args("data.json"));
    assert!(config.validate(true, true).is_ok());
    assert!(matches!(config.validate(false, true), Err(ProfileError::InputNotFile(path)) if path == "data.json"));
    assert!(matches!(
        config.validate(true, false),
        Err(ProfileError::RefsNotFile(path)) if path == "refs/schemas.sqlite"
    ));
}

#[test]
fn distinct_threshold_must_exceed_heavy_hitter_limit() {
    let mut cli = args("data.json");
    cli.heavy_hitter_limit = Some(100_000);
    let config = parse_config(cli);
    let err = config.validate(true, true).expect_err("threshold below limit should fail");
    assert_eq!(
        err.message(),
        "invalid config: exact_distinct_threshold should be greater than heavy_hitter_limit"
    );
}

#[test]
fn unsupported_format_in_file_is_refused() {
    let file = FileConfig {
        input: Some(InputConfig { file: None, format: Some("xml".to_string()) }),
        ..empty_file()
    };
    let err = ProfileConfig::from_cli(args("data.json"), Some(file)).expect_err("xml is not a format");
    assert!(matches!(err, ProfileError::InvalidConfig(_)));
}

#[test]
fn input_format_names_ignore_ascii_case() {
    assert_eq!(parse_input_format("JSONL").unwrap(), InputFormat::Jsonl);
    assert_eq!(parse_input_format("Json").unwrap(), InputFormat::Json);
    assert_eq!(parse_input_format("auto").unwrap(), InputFormat::Auto);
    assert!(parse_input_format("yaml").is_err());
}

#[test]
fn perf_log_file_turns_on_the_perf_log() {
    let mut cli = args("data.json");
    cli.perf_log_file = Some("perf.log".to_string());
    let config = parse_config(cli);
    assert!(config.perf_log);
    assert_eq!(config.perf_log_file.as_deref(), Some("perf.log"));
}

#[test]
fn error_messages_name_their_cause() {
    let cases = vec![
        (
            ProfileError::StdinUnsupported,
            "stdin is not supported in v0.1.0; pass a JSON or JSONL file path",
        ),
        (ProfileError::InputNotFile("a.json".to_string()), "input path is not a file: a.json"),
        (ProfileError::RefsNotFile("r.sqlite".to_string()), "refs sqlite path is not a file: r.sqlite"),
        (ProfileError::InvalidConfig("x".to_string()), "invalid config: x"),
        (
            ProfileError::ConfigRead { path: "c.yaml".to_string(), source: "gone".to_string() },
            "failed to read config c.yaml: gone",
        ),
        (
            ProfileError::ConfigParse { path: "c.yaml".to_string(), source: "bad".to_string() },
            "failed to parse config c.yaml: bad",
        ),
        (ProfileError::Sqlite("locked".to_string()), "sqlite error: locked"),
        (ProfileError::Json("eof".to_string()), "json parse error: eof"),
        (ProfileError::Io("denied".to_string()), "io error: denied"),
    ];
    for (error, message) in cases {
        assert_eq!(error.message(), message);
    }
}
