use onejudge::oneharness::plain::{judge_side_args, parse_report, respond_args};
use onejudge::oneharness::provider::{
    is_session_unsupported, spawn_failed, Execution, DEFAULT_JUDGE_CONFIG,
};
use onejudge::{latest_or_inline, Error, Message, OneharnessProvider, ProviderErrorKind};

#[test]
fn oneharness_builders_configure_bin_and_judge_config() {
    let provider = OneharnessProvider::default()
        .with_bin("my-oneharness")
        .with_judge_config("custom.judge.toml");
    assert!(matches!(provider.execution(), Execution::Process(bin) if bin == "my-oneharness"));
    assert_eq!(provider.judge_config(), Some("custom.judge.toml"));
    // The judge/user side passes the configured file via --config.
    let args = judge_side_args(provider.judge_config(), Some("s"));
    assert!(args
        .windows(2)
        .any(|w| w == ["--config", "custom.judge.toml"]));
    assert!(args.windows(2).any(|w| w == ["--session", "s"]));
}

#[test]
fn oneharness_default_judge_config_is_the_judge_toml() {
    let provider = OneharnessProvider::new();
    assert_eq!(provider.judge_config(), Some(DEFAULT_JUDGE_CONFIG));
    assert_eq!(DEFAULT_JUDGE_CONFIG, "oneharness.judge.toml");
}

#[test]
fn respond_args_thread_session_and_carry_no_harness_or_model() {
    let args = respond_args("do x", Some("run-1-skill"));
    assert!(args.windows(2).any(|w| w == ["--session", "run-1-skill"]));
    assert!(args.iter().any(|a| a == "--events"));
    // Harness/model selection is oneharness's config's job.
    assert!(!args.iter().any(|a| a == "--harness"));
    assert!(!args.iter().any(|a| a == "--model"));
    // `oneharness run` has no `--format` flag; passing it is a live-path bug.
    assert!(!args.iter().any(|a| a == "--format"));

    // No session supplied: no `--session`.
    let none = respond_args("do x", None);
    assert!(!none.iter().any(|a| a == "--session"));
}

#[test]
fn judge_side_args_use_config_not_harness_or_model() {
    let args = judge_side_args(Some("oneharness.judge.toml"), None);
    assert!(!args.iter().any(|a| a == "--system"));
    assert!(!args.iter().any(|a| a == "--events"));
    assert!(!args.iter().any(|a| a == "--harness"));
    assert!(!args.iter().any(|a| a == "--model"));
    assert!(args
        .windows(2)
        .any(|w| w == ["--config", "oneharness.judge.toml"]));
    // With no judge config, no `--config` is passed (oneharness discovers its own
    // default).
    let no_config = judge_side_args(None, None);
    assert!(!no_config.iter().any(|a| a == "--config"));
}

#[test]
fn oneharness_is_session_unsupported_matches_oneharness_error() {
    let unsupported = Error::provider_classified(
        "respond",
        "oneharness exited with exit status: 1: harness `goose` does not support --session: \
         it exposes no session id headlessly",
        ProviderErrorKind::Protocol,
    );
    assert!(is_session_unsupported(&unsupported));
    let other = Error::provider_classified(
        "respond",
        "some other failure",
        ProviderErrorKind::Protocol,
    );
    assert!(!is_session_unsupported(&other));
}

#[test]
fn parse_report_reads_text_usage_events() {
    let json = r#"{"results":[{"status":"ok","text":"hi","usage":{"input_tokens":3,"output_tokens":1,"cache_read_tokens":9,"cache_write_tokens":4},"events":[{"kind":"tool_call","name":"bash","input":{"command":"ls"},"index":0}]}]}"#;
    let result = parse_report("respond", json).unwrap();
    assert_eq!(result.reply(), "hi");
    let usage = result.usage().unwrap();
    assert_eq!(usage.input_tokens, Some(3));
    // The prompt-cache reads/writes oneharness reports flow straight through.
    assert_eq!(usage.cache_read_tokens, Some(9));
    assert_eq!(usage.cache_write_tokens, Some(4));
    assert_eq!(result.events.len(), 1);
}

#[test]
fn parse_report_falls_back_to_stdout_when_text_null() {
    let json = r#"{"results":[{"status":"ok","text":null,"stdout":"raw reply"}]}"#;
    assert_eq!(parse_report("respond", json).unwrap().reply(), "raw reply");
}

#[test]
fn parse_report_classifies_failure_kind() {
    let json = r#"{"results":[{"status":"error","failure_kind":"auth","error":"no key"}]}"#;
    let err = parse_report("respond", json).unwrap_err();
    assert_eq!(err.kind(), Some(ProviderErrorKind::Auth));
    assert!(err.render().contains("no key"));
}

#[test]
fn parse_report_rejects_bad_json_and_empty_results() {
    assert_eq!(
        parse_report("respond", "not json").unwrap_err().kind(),
        Some(ProviderErrorKind::Protocol)
    );
    assert_eq!(
        parse_report("respond", r#"{"results":[]}"#)
            .unwrap_err()
            .kind(),
        Some(ProviderErrorKind::Protocol)
    );
}

#[test]
fn oneharness_respond_prompt_switches_on_continuing() {
    let mut messages = vec![Message::user("first")];
    messages.push(Message::assistant("reply"));
    messages.push(Message::user("second"));
    assert_eq!(latest_or_inline(&messages, true), "second");
    assert!(latest_or_inline(&messages, false).contains("first"));
}

#[test]
fn oneharness_spawn_failure_is_classified() {
    let err = spawn_failed(
        "judge",
        "definitely-not-oneharness-xyz",
        "No such file or directory (os error 2)",
    );
    assert_eq!(err.kind(), Some(ProviderErrorKind::Spawn));
    assert!(err.render().contains("definitely-not-oneharness-xyz"));
}

#[test]
fn a_plain_report_is_an_object_of_results() {
    for stdout in [
        "7",
        "null",
        r#"{"results":null}"#,
        r#"{"results":{}}"#,
        r#"{"results":[7]}"#,
        r#"{"results":[],"results":[]}"#,
        r#"{"results":[{"text":"a","text":"b"}]}"#,
        r#"{"results":[{"text":"a","usage":null}]}"#,
        r#"{"results":[{"text":"a"},{"text":7}]}"#,
    ] {
        let err = parse_report("respond", stdout).unwrap_err();
        assert_eq!(err.kind(), Some(ProviderErrorKind::Protocol), "{stdout}");
        assert!(err.render().contains("was not valid JSON"), "{stdout}");
    }
    for stdout in ["{}", "[]", "[[]]"] {
        let err = parse_report("respond", stdout).unwrap_err();
        assert!(err.render().contains("carried no results"), "{stdout}");
    }
    let listed = parse_report("respond", r#"[[["hi", [1, 2]], {"text":"no"}]]"#).unwrap();
    assert_eq!(listed.reply(), "hi");
    assert_eq!(listed.usage.output_tokens, Some(2));
}
