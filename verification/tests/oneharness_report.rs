use oneharness_core::domain::events::ActionEvent;
use oneharness_core::domain::history::{HistoryId, HistoryLabels, HistoryRecord};
use oneharness_core::domain::mode::PermissionMode;
use oneharness_core::domain::report::{
    ExecutionTelemetry, FallThrough, FallbackReport, OutputFormat, RunReport, RunResult, Status,
};
use oneharness_core::domain::signals::{FailureKind, Usage};
use onejudge::oneharness::attribution::invocation_telemetry;
use onejudge::oneharness::history::{take_matching_tail, HistoryEntry};
use onejudge::oneharness::report::{
    classify, control_socket, measured, millis, parse_report, parse_report_value, read_report,
    reason_kind, status_token, Invocation, Measured, TurnReport,
};
use onejudge::{Error, ProviderErrorKind, TelemetryRole};
use serde_json::Value;

/// The id of the first registered harness.
fn harness_id() -> &'static str {
    oneharness_core::domain::harness::all()[0].id
}

/// The text a JSON string holds.
fn wire(value: &Value) -> String {
    value.as_str().expect("a JSON string").to_string()
}

fn command_input(command: &str) -> Value {
    let mut input = serde_json::Map::new();
    input.insert("command".into(), Value::from(command));
    Value::Object(input)
}

/// One result for `harness`, successful and carrying `text`.
fn fixture_result(harness_id: &str, text: &str) -> RunResult {
    let (harness, variant) = match harness_id.split_once(':') {
        Some((base, variant)) => (base.to_string(), Some(variant.to_string())),
        None => (harness_id.to_string(), None),
    };
    RunResult {
        harness,
        variant,
        harness_id: harness_id.into(),
        bin: harness_id.into(),
        available: true,
        status: Status::Ok,
        prompt: None,
        model: None,
        observed_model: None,
        exit_code: Some(0),
        duration_ms: Some(30),
        telemetry: None,
        command: vec![harness_id.into()],
        output_format: OutputFormat::Json,
        text: Some(text.into()),
        text_source: Some("json:result".into()),
        usage: Usage::default(),
        usage_source: None,
        session_id: None,
        events: None,
        events_source: None,
        structured: None,
        schema_valid: None,
        schema_attempts: None,
        schema_error: None,
        failure_kind: None,
        work: None,
        failure_kind_source: None,
        stdout: String::new(),
        stderr: String::new(),
        error: None,
    }
}

/// One result that failed with oneharness's classified `kind`.
fn fixture_failed(harness_id: &str, status: Status, kind: Option<FailureKind>) -> RunResult {
    let mut result = fixture_result(harness_id, "");
    result.text = None;
    result.status = status;
    result.exit_code = Some(1);
    result.failure_kind = kind;
    result.failure_kind_source = kind.map(|_| "stderr".into());
    result.error = Some(format!("fixture failure for `{harness_id}`"));
    result
}

/// The token/cost accounting a harness reports.
fn fixture_usage(input: u64) -> Usage {
    Usage {
        input_tokens: Some(input),
        output_tokens: Some(1),
        cache_read_tokens: Some(9),
        cache_write_tokens: Some(4),
        cost_usd: None,
    }
}

/// One normalized tool call.
fn fixture_event(index: usize, name: &str, command: &str) -> ActionEvent {
    ActionEvent {
        kind: "tool_call".into(),
        name: Some(name.into()),
        input: Some(command_input(command)),
        output: None,
        index,
        tool_call_id: None,
        started_at: None,
        finished_at: None,
        duration_ms: None,
        status: None,
        timing_source: None,
    }
}

/// A `oneharness run` report carrying `results`.
fn fixture_report(results: Vec<RunResult>) -> RunReport {
    RunReport {
        schema_version: oneharness_core::domain::report::SCHEMA_VERSION.into(),
        oneharness_version: "0.6.8".into(),
        prompt: "p".into(),
        model: None,
        models: None,
        resume: None,
        fork: false,
        session: None,
        permission_mode: PermissionMode::Default,
        bypass_permissions: false,
        dry_run: false,
        schema: None,
        schema_max_retries: None,
        batch: None,
        fallback: None,
        mock_rules: None,
        spy_file: None,
        history_file: None,
        config_files: Vec::new(),
        control: None,
        results,
    }
}

/// A complete provider-measured trace, as oneharness puts it on a result since
/// report schema `0.5`.
fn fixture_telemetry() -> ExecutionTelemetry {
    ExecutionTelemetry::ProviderMeasured {
        started_at: "2026-01-01T00:00:00.000Z".parse().expect("a run instant"),
        finished_at: Some("2026-01-01T00:00:00.030Z".parse().expect("a run instant")),
        model_ms: Some(11),
        tool_ms: Some(4),
        time_to_first_token_ms: Some(3),
    }
}

/// The fallback block for a chain that settled on `ran` (or nowhere).
fn fixture_fallback(ran: Option<&str>, fell_through: &[(&str, &str)]) -> FallbackReport {
    FallbackReport {
        ran: ran.map(str::to_string),
        fell_through: fell_through
            .iter()
            .map(|(harness, reason)| FallThrough {
                harness: (*harness).into(),
                reason: serde_json::from_value(serde_json::Value::from(*reason))
                    .expect("a reason oneharness knows"),
                detail: None,
            })
            .collect(),
        stopped_without_work: false,
    }
}

/// One history record for `harness_id`, with a complete provider-measured trace.
fn fixture_record(harness_id: &str) -> HistoryRecord {
    let (harness, variant) = match harness_id.split_once(':') {
        Some((base, variant)) => (base.to_string(), Some(variant.to_string())),
        None => (harness_id.to_string(), None),
    };
    HistoryRecord {
        schema_version: oneharness_core::domain::history::SCHEMA_VERSION.into(),
        history_id: HistoryId::legacy(harness_id.as_bytes()),
        session: "s".into(),
        name: "s".into(),
        labels: HistoryLabels::default(),
        project: "/tmp".into(),
        timestamp: "2026-01-01T00:00:00Z".into(),
        harness,
        variant,
        harness_id: harness_id.into(),
        model: None,
        observed_model: None,
        prompt: "p".into(),
        permission_mode: PermissionMode::Default,
        status: Status::Ok,
        exit_code: Some(0),
        duration_ms: Some(30),
        started_at: Some("2026-01-01T00:00:00Z".into()),
        finished_at: Some("2026-01-01T00:00:00.030Z".into()),
        model_ms: Some(10),
        tool_ms: Some(3),
        time_to_first_token_ms: Some(2),
        observed_tool_ms: None,
        text: Some("hi".into()),
        text_source: Some("json:result".into()),
        usage: Usage::default(),
        session_id: None,
        events: None,
        failure_kind: None,
        work: None,
        error: None,
    }
}

/// `report` as the single-line JSON document `oneharness run --compact` writes.
fn fixture_json(report: &RunReport) -> String {
    serde_json::to_string(report).expect("a oneharness report serializes")
}

/// Parse a serialized oneharness report and surface the failure, exactly as the
/// provider does once it has recorded the invocation's telemetry.
fn parse(report: &RunReport) -> Result<Invocation, Error> {
    parse_report("respond", &fixture_json(report)).and_then(Invocation::into_ok)
}

#[test]
fn parses_text_usage_and_events_through_the_typed_contract() {
    let mut result = fixture_result(harness_id(), "hi");
    result.usage = fixture_usage(3);
    result.events = Some(vec![fixture_event(0, "bash", "ls")]);
    let invocation = parse(&fixture_report(vec![result])).unwrap();

    assert_eq!(invocation.reply(), "hi");
    let usage = invocation.usage().unwrap();
    assert_eq!(usage.input_tokens, Some(3));
    // The prompt-cache reads/writes oneharness reports flow straight through.
    assert_eq!(usage.cache_read_tokens, Some(9));
    assert_eq!(usage.cache_write_tokens, Some(4));
    let lifted = invocation.events();
    assert_eq!(lifted.len(), 1);
    assert_eq!(lifted[0].name.as_deref(), Some("bash"));
    let input: Value = serde_json::from_str(lifted[0].input.as_ref().unwrap()).unwrap();
    assert_eq!(input["command"], "ls");
}

#[test]
fn measurements_are_read_off_the_results_own_telemetry() {
    // Report schema `0.5` puts the measured trace on the result, so these come
    // off the run onejudge just made — no second read of the history file.
    let mut result = fixture_result(harness_id(), "hi");
    result.telemetry = Some(fixture_telemetry());
    let invocation = parse(&fixture_report(vec![result])).unwrap();
    assert_eq!(
        measured(invocation.result().unwrap()),
        Measured {
            started_at: Some("2026-01-01T00:00:00.000Z".into()),
            finished_at: Some("2026-01-01T00:00:00.030Z".into()),
            model_ms: Some(11),
            tool_ms: Some(4),
            time_to_first_token_ms: Some(3),
        }
    );
}

#[test]
fn each_telemetry_variant_reports_only_what_it_measured() {
    let measure = |telemetry| {
        let mut result = fixture_result("codex", "hi");
        result.telemetry = telemetry;
        measured(&read_report(fixture_report(vec![result])).results[0])
    };

    // A trace that stopped mid-turn knows when the run began and nothing else:
    // a model/tool split read out of it would be a guess, not a measurement.
    assert_eq!(
        measure(Some(ExecutionTelemetry::PartialInvocation {
            started_at: "2026-01-01T00:00:00Z".parse().expect("a utc instant"),
        })),
        Measured {
            started_at: Some("2026-01-01T00:00:00Z".into()),
            ..Measured::default()
        }
    );

    // Tool intervals seen at the stdout pipe are a different quantity from the
    // provider-measured split this contract reports — upstream keeps them in
    // separate fields — so they are not reported as `tool_ms`.
    assert_eq!(
        measure(Some(ExecutionTelemetry::StdoutObserved { tool_ms: 77 })),
        Measured::default()
    );

    // No telemetry at all is unknown, never zero.
    assert_eq!(measure(None), Measured::default());
}

#[test]
fn implausible_durations_are_reported_as_unknown_not_wrapped() {
    assert_eq!(millis(Some(42)), Some(42));
    assert_eq!(millis(None), None);
    assert_eq!(millis(Some(u128::from(u64::MAX) + 1)), None);
}

#[test]
fn falls_back_to_stdout_when_text_is_null() {
    let mut result = fixture_result("codex", "");
    result.text = None;
    result.stdout = "raw reply".into();
    let invocation = parse(&fixture_report(vec![result])).unwrap();
    assert_eq!(invocation.reply(), "raw reply");
    assert_eq!(invocation.usage(), None);
}

#[test]
fn a_classified_failure_kind_is_the_error() {
    let mut result = fixture_failed("codex", Status::Nonzero, Some(FailureKind::Auth));
    result.error = Some("no key".into());
    let err = parse(&fixture_report(vec![result])).unwrap_err();
    assert_eq!(err.kind(), Some(ProviderErrorKind::Auth));
    assert!(err.render().contains("no key"));
}

#[test]
fn a_status_with_no_failure_kind_is_still_loud() {
    // A timeout, an unspawnable binary, and a candidate that never ran all
    // carry a null `failure_kind`. Reading only that field would turn each into
    // an empty assistant turn the judge then scores.
    for (status, expected) in [
        (Status::Timeout, ProviderErrorKind::Timeout),
        // A run oneharness tore down on cancellation reports every cut-short
        // candidate this way, and it is not a timeout: the deadline never
        // expired, the caller stopped waiting.
        (Status::Cancelled, ProviderErrorKind::Cancelled),
        (Status::SpawnError, ProviderErrorKind::Spawn),
        (Status::Skipped, ProviderErrorKind::Spawn),
        (Status::Planned, ProviderErrorKind::Protocol),
    ] {
        let mut result = fixture_failed("goose", status, None);
        result.error = Some("killed after 120s".into());
        let err = parse(&fixture_report(vec![result])).unwrap_err();
        let token = wire(&serde_json::to_value(status).unwrap());
        assert_eq!(err.kind(), Some(expected), "{token}");
        assert!(err.render().contains("goose"), "{token}");
        assert!(err.render().contains("killed after 120s"), "{token}");
    }
}

#[test]
fn a_status_ok_or_nonzero_run_is_still_a_turn() {
    // oneharness signals a non-zero harness exit through its own exit code; the
    // text a harness produced on the way out is still the turn.
    for status in [Status::Ok, Status::Nonzero] {
        let mut result = fixture_result("codex", "partial answer");
        result.status = status;
        let invocation = parse(&fixture_report(vec![result])).unwrap();
        assert_eq!(invocation.reply(), "partial answer");
    }
}

#[test]
fn a_fallback_run_reads_the_candidate_that_ran_not_the_first_attempt() {
    // oneharness returns the fallen-through candidates first, then the one that
    // ran. Reading `results[0]` reports the refusal that the chain deliberately
    // routed around as if it were the turn's outcome.
    let fell = fixture_failed("codex", Status::Nonzero, Some(FailureKind::Quota));
    let mut report = fixture_report(vec![fell, fixture_result(harness_id(), "done")]);
    report.fallback = Some(fixture_fallback(
        Some(harness_id()),
        &[("codex", "quota")],
    ));

    let invocation = parse(&report).unwrap();
    assert_eq!(invocation.reply(), "done");
    assert_eq!(invocation.result().unwrap().harness, harness_id());
    assert_eq!(invocation.ran, Some(1));
}

#[test]
fn a_fallback_chain_over_variants_of_one_harness_picks_the_right_identity() {
    // A chain can list several identities of the SAME harness (an account per
    // variant), so the composed id — not the base harness — selects the turn.
    let fell = fixture_failed("codex:personal", Status::Nonzero, Some(FailureKind::Quota));
    let mut report = fixture_report(vec![fell, fixture_result("codex:work", "done")]);
    report.fallback = Some(fixture_fallback(Some("codex:work"), &[("codex", "quota")]));

    let invocation = parse(&report).unwrap();
    assert_eq!(invocation.result().unwrap().harness_id, "codex:work");
    assert_eq!(
        invocation.result().unwrap().variant.as_deref(),
        Some("work")
    );
}

#[test]
fn a_fallback_run_that_stopped_on_a_task_failure_still_reports_that_failure() {
    // The chain does NOT fall through a real task failure, so the candidate that
    // ran is the one that failed — and its failure must reach the caller.
    let ran = fixture_failed(
        harness_id(),
        Status::Nonzero,
        Some(FailureKind::ModelNotFound),
    );
    let mut report = fixture_report(vec![ran]);
    report.fallback = Some(fixture_fallback(Some(harness_id()), &[]));

    let err = parse(&report).unwrap_err();
    assert_eq!(err.kind(), Some(ProviderErrorKind::ModelNotFound));
    assert!(err.render().contains(harness_id()));
}

#[test]
fn an_exhausted_fallback_chain_names_every_candidate_and_its_reason() {
    let a = fixture_failed("codex", Status::Skipped, None);
    let b = fixture_failed(harness_id(), Status::Nonzero, Some(FailureKind::Auth));
    let mut report = fixture_report(vec![a, b]);
    report.fallback = Some(fixture_fallback(
        None,
        &[("codex", "not-installed"), (harness_id(), "auth")],
    ));

    let err = parse(&report).unwrap_err();
    // Classified by the last candidate tried — what a caller would retry against.
    assert_eq!(err.kind(), Some(ProviderErrorKind::Auth));
    let message = err.render();
    assert!(message.contains("codex [not-installed]"), "{message}");
    assert!(message.contains(&format!("{} [auth]", harness_id())), "{message}");
}

#[test]
fn an_exhausted_chain_still_carries_every_attempted_candidate() {
    // The failure is exactly the case a consumer needs attribution for, so the
    // parse still yields an invocation to read identities off.
    let mut report = fixture_report(vec![
        fixture_failed("codex", Status::Skipped, None),
        fixture_failed(harness_id(), Status::Nonzero, Some(FailureKind::Auth)),
    ]);
    report.fallback = Some(fixture_fallback(
        None,
        &[("codex", "not-installed"), (harness_id(), "auth")],
    ));

    let invocation = parse_report("respond", &fixture_json(&report)).unwrap();
    assert_eq!(invocation.ran, None);
    assert_eq!(invocation.report.results.len(), 2);
    assert!(invocation.into_ok().is_err());
}

#[test]
fn reason_tokens_map_to_the_kinds_a_caller_branches_on() {
    assert_eq!(reason_kind("not-installed"), ProviderErrorKind::Spawn);
    assert_eq!(reason_kind("spawn-error"), ProviderErrorKind::Spawn);
    assert_eq!(reason_kind("auth"), ProviderErrorKind::Auth);
    assert_eq!(reason_kind("quota"), ProviderErrorKind::Quota);
    assert_eq!(
        reason_kind("model-not-found"),
        ProviderErrorKind::ModelNotFound
    );
    assert_eq!(reason_kind("rate-limit"), ProviderErrorKind::RateLimit);
    assert_eq!(reason_kind("something-new"), ProviderErrorKind::Other);
}

#[test]
fn every_oneharness_failure_kind_has_a_onejudge_classification() {
    for (kind, expected) in [
        (FailureKind::Auth, ProviderErrorKind::Auth),
        (FailureKind::RateLimit, ProviderErrorKind::RateLimit),
        (FailureKind::ModelNotFound, ProviderErrorKind::ModelNotFound),
        (FailureKind::Quota, ProviderErrorKind::Quota),
        (FailureKind::ToolDeferred, ProviderErrorKind::Other),
    ] {
        // The token onejudge surfaces is oneharness's own wire spelling.
        let token = wire(&serde_json::to_value(kind).unwrap());
        assert_eq!(classify(&token), expected);
        let mut result = fixture_result("codex", "");
        result.failure_kind = Some(kind);
        let report = read_report(fixture_report(vec![result]));
        assert_eq!(report.results[0].failure_kind, Some(token));
    }
}

#[test]
fn every_status_token_matches_oneharness_wire_spelling() {
    for status in [
        Status::Ok,
        Status::Nonzero,
        Status::Timeout,
        Status::SpawnError,
        Status::Skipped,
        Status::Planned,
    ] {
        let mut result = fixture_result("codex", "");
        result.status = status;
        let report = read_report(fixture_report(vec![result]));
        assert_eq!(
            wire(&serde_json::to_value(status).unwrap()),
            status_token(report.results[0].status)
        );
    }
}

#[test]
fn an_unreadable_report_is_a_named_protocol_error() {
    let empty = fixture_json(&fixture_report(vec![]));
    for (json, needle) in [
        ("not json".to_string(), "was not valid JSON"),
        (r#"{"results":[]}"#.to_string(), "unreadable shape"),
        (empty, "carried no results"),
    ] {
        let err = parse_report("respond", &json)
            .and_then(Invocation::into_ok)
            .unwrap_err();
        assert_eq!(err.kind(), Some(ProviderErrorKind::Protocol), "{json}");
        assert!(err.render().contains(needle), "{json}: {err:?}");
    }
}

#[test]
fn supplemental_signals_are_read_off_the_selected_result() {
    // oneharness keeps these on its history record, but a producer standing in
    // for it may inline them — and they must then describe the candidate that
    // RAN, not the one the chain routed around.
    let fell = fixture_failed("codex", Status::Nonzero, Some(FailureKind::Quota));
    let mut report = fixture_report(vec![fell, fixture_result(harness_id(), "done")]);
    report.fallback = Some(fixture_fallback(
        Some(harness_id()),
        &[("codex", "quota")],
    ));
    let mut value: Value = serde_json::from_str(&fixture_json(&report)).unwrap();
    value["results"][0]["model_ms"] = Value::from(999);
    value["results"][0]["history_id"] = Value::from("wrong-one");
    value["results"][1]["model_ms"] = Value::from(10);
    value["results"][1]["history_id"] = Value::from("right-one");

    let invocation = parse_report_value("respond", value)
        .and_then(Invocation::into_ok)
        .unwrap();
    assert_eq!(invocation.supplemental.model_ms, Some(10));
    assert_eq!(
        invocation.supplemental.history_id.as_deref(),
        Some("right-one")
    );
}

fn with_history(results: Vec<RunResult>) -> TurnReport {
    let mut report = fixture_report(results);
    report.history_file = Some("s.jsonl".into());
    read_report(report)
}

fn entry(record: HistoryRecord) -> HistoryEntry {
    HistoryEntry {
        harness_id: record.harness_id.clone(),
        history_id: wire(&serde_json::to_value(&record.history_id).unwrap()),
    }
}

#[test]
fn the_tail_is_taken_only_when_every_identity_lines_up() {
    // A session file accumulates across turns, so the records for THIS run are
    // its tail — one per attempted candidate, in result order.
    let records = vec![
        entry(fixture_record("codex")),
        entry(fixture_record("codex")),
        entry(fixture_record(harness_id())),
    ];
    let report = with_history(vec![
        fixture_result("codex", "a"),
        fixture_result(harness_id(), "b"),
    ]);
    let taken = take_matching_tail(&report, records.clone());
    assert_eq!(taken.len(), 2);
    assert_eq!(taken[0].harness_id, "codex");
    assert_eq!(taken[1].harness_id, harness_id());
    assert_eq!(taken[1], entry(fixture_record(harness_id())));

    // A tail that describes different candidates is not this run's: attributing
    // it would pin a measurement to the wrong identity.
    let mismatched = with_history(vec![
        fixture_result("codex", "a"),
        fixture_result("goose", "b"),
    ]);
    assert!(take_matching_tail(&mismatched, records.clone()).is_empty());

    // Fewer records than results: the run's own records have not all landed.
    let short = with_history(vec![
        fixture_result("a", ""),
        fixture_result("b", ""),
        fixture_result("c", ""),
        fixture_result("d", ""),
    ]);
    assert!(take_matching_tail(&short, records).is_empty());
}


#[test]
fn a_record_names_every_candidate_and_what_each_came_to() {
    let fell = fixture_failed("codex:work", Status::Nonzero, Some(FailureKind::Quota));
    let mut ran = fixture_result(harness_id(), "done");
    ran.telemetry = Some(fixture_telemetry());
    ran.usage = fixture_usage(3);
    ran.session_id = Some("native-1".into());
    let mut report = fixture_report(vec![fell, ran]);
    report.fallback = Some(fixture_fallback(Some(harness_id()), &[("codex", "quota")]));
    let invocation = parse(&report).unwrap();
    let attempts = vec![
        entry(fixture_record("codex:work")),
        entry(fixture_record(harness_id())),
    ];
    let record = invocation_telemetry(TelemetryRole::Agent, &invocation, &attempts);
    assert_eq!(record.role, Some(TelemetryRole::Agent));
    assert_eq!(record.ran.as_deref(), Some(harness_id()));
    assert_eq!(record.model_ms, Some(11));
    assert_eq!(record.tool_ms, Some(4));
    assert_eq!(record.session_id.as_deref(), Some("native-1"));
    assert_eq!(record.history_id.as_ref(), Some(&attempts[1].history_id));
    assert_eq!(record.usage.input_tokens, Some(3));
    assert_eq!(record.fell_through.len(), 1);
    assert_eq!(record.fell_through[0].reason, "quota");
    assert_eq!(record.candidates.len(), 2);
    assert_eq!(record.candidates[0].variant.as_deref(), Some("work"));
    assert_eq!(record.candidates[0].failure_kind.as_deref(), Some("quota"));
    assert!(!record.candidates[0].ran);
    assert!(record.candidates[1].ran);
    assert_eq!(record.candidates[1].status, "ok");
}

#[test]
fn a_report_without_a_socket_addresses_no_turn() {
    let report = read_report(fixture_report(vec![fixture_result("codex", "a")]));
    assert!(control_socket(&report).is_none());
    let open = TurnReport {
        session: Some("run-42-skill".into()),
        socket: Some("/state/sessions/control/run-42-skill.sock".into()),
        ..report
    };
    let socket = control_socket(&open).unwrap();
    assert_eq!(socket.session, "run-42-skill");
    assert_eq!(socket.session_dir, "/state/sessions");
}

#[test]
fn an_event_keeps_its_output_and_its_place() {
    let mut result = fixture_result("codex", "hi");
    let mut first = fixture_event(4, "bash", "ls \"quoted\"");
    first.output = Some("a\nb".into());
    first.tool_call_id = Some("t1".into());
    result.events = Some(vec![first]);
    let lifted = parse(&fixture_report(vec![result])).unwrap().events();
    assert_eq!(lifted[0].index, 4);
    assert_eq!(lifted[0].tool_call_id.as_deref(), Some("t1"));
    let input: Value = serde_json::from_str(lifted[0].input.as_ref().unwrap()).unwrap();
    assert_eq!(input["command"], "ls \"quoted\"");
    assert_eq!(lifted[0].output.as_deref(), Some("a\nb"));
}

#[test]
fn the_store_of_a_socket_is_read_as_paths_are() {
    for (path, store) in [
        ("/x//control/s.sock", Some("/x")),
        ("/x/./control//s.sock", Some("/x")),
        ("/x/control/s.sock/", Some("/x")),
        ("/control/s.sock", Some("/")),
        ("control/s.sock", Some("")),
        ("./control/s.sock", Some(".")),
        ("../x/s.sock", Some("..")),
        ("/s.sock", None),
        ("s.sock", None),
        ("/", None),
        ("", None),
    ] {
        let report = read_report(fixture_report(vec![fixture_result("codex", "a")]));
        let open = TurnReport {
            session: Some("s".into()),
            socket: Some(path.into()),
            ..report
        };
        let found = control_socket(&open).map(|socket| socket.session_dir);
        assert_eq!(found.as_deref(), store, "{path}");
        let expected = std::path::Path::new(path)
            .parent()
            .and_then(std::path::Path::parent)
            .map(|dir| dir.to_str().unwrap());
        assert_eq!(found.as_deref(), expected, "{path}");
    }
}
