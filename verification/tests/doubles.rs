use onejudge::doubles::control::{answer, exchange, mechanism, validate, Mechanism, Refusal};
use onejudge::doubles::echo::{self, answer_line};
use onejudge::doubles::flags::{parse_flags, read_init};
use onejudge::doubles::lint::{count_runs, outcome, play, CLEAN_REPORT, FAILING_REPORT};
use onejudge::doubles::marker::{marker, markers};
use onejudge::doubles::scale::scale;
use onejudge::doubles::turn::{
    inline_history_id, is_measured, judge_text, party, perform, stops, stream_plan,
    supervisor_text, Asked, Party, StreamStep, RAW_PROCESS_OUTPUT,
};
use onejudge::doubles::harness;
use onejudge::json::parse;
use onejudge::oneharness::report::Status;
use onejudge::{
    build_assessment_prompt, build_judge_prompt, build_supervisor_prompt, build_user_prompt,
    JudgeKind, JudgeQuery, Message, Number, SupervisorQuery, TurnOutcome,
};

fn strings(items: &[&str]) -> Vec<String> {
    items.iter().map(|item| item.to_string()).collect()
}

fn number(x: f64) -> Number {
    Number::new(x.to_bits(), &x.to_string(), &format!("{x:?}"))
}

fn asked<'a>(system: &'a str, prompt: &'a str) -> Asked<'a> {
    Asked {
        harness: "codex",
        system,
        session: None,
        mock: None,
        prompt,
        low: "0",
        high: "10",
    }
}

// --- Markers ----------------------------------------------------------------
#[test]
fn a_marker_is_the_first_closed_directive_of_its_name() {
    assert_eq!(marker("x [[reply:hi there]] y", "reply"), Some("hi there"));
    assert_eq!(marker("[[reply:a]][[reply:b]]", "reply"), Some("a"));
    assert_eq!(marker("[[reply:open", "reply"), None);
    assert_eq!(marker("[[other:a]]", "reply"), None);
    assert_eq!(marker("[[reply:]]", "reply"), Some(""));
    assert_eq!(marker("é[[reply:ü]]", "reply"), Some("ü"));
    assert_eq!(
        markers("[[event:ls]] and [[event:pwd]] [[event:cut", "event"),
        ["ls", "pwd"]
    );
    assert!(markers("none", "event").is_empty());
}

// --- The command line -------------------------------------------------------
#[test]
fn flags_are_held_to_what_a_run_takes() {
    let flags = parse_flags(&strings(&[
        "run",
        "--compact",
        "--mock-harness",
        "codex",
        "--system",
        "be terse",
        "--mock-harness",
        "goose",
    ]))
    .unwrap();
    assert!(flags.has("--compact"));
    assert!(!flags.has("--stream"));
    assert_eq!(flags.value("--system").as_deref(), Some("be terse"));
    assert_eq!(flags.value("--mock-harness").as_deref(), Some("codex,goose"));
    assert_eq!(flags.value("--cwd"), None);
    assert_eq!(
        parse_flags(&strings(&["run", "--format", "json"])).unwrap_err(),
        "unrecognized flag `--format` (the fake mirrors `oneharness run`)"
    );
    assert_eq!(
        parse_flags(&strings(&["run", "--system"])).unwrap_err(),
        "--system needs a value"
    );
    assert!(parse_flags(&[]).unwrap().given.is_empty());
}

#[test]
fn init_writes_where_it_is_told() {
    assert_eq!(
        read_init(&strings(&["--force", "a.toml", "b.toml"])),
        (true, "a.toml".to_string())
    );
    assert_eq!(read_init(&[]), (false, "oneharness.toml".to_string()));
}

// --- Whose turn it is -------------------------------------------------------
#[test]
fn the_prompts_the_library_builds_are_told_apart() {
    let messages = [Message::user("go"), Message::assistant("done")];
    let query = JudgeQuery {
        kind: JudgeKind::Boolean,
        criterion: "it is done",
        scale: None,
    };
    assert_eq!(party(&build_judge_prompt(&query, &messages)), Party::Judge);
    assert_eq!(
        party(&build_user_prompt("a shopper", &messages)),
        Party::User
    );
    assert_eq!(
        party(&build_assessment_prompt("follow-ups", &messages)),
        Party::Assessor
    );
    let supervision = SupervisorQuery {
        task: "t",
        persona: "p",
        done_when: Some("done"),
        worktree: "/w",
        history_name: "h",
        notes: &[],
        turn: TurnOutcome::Taken,
    };
    assert_eq!(
        party(&build_supervisor_prompt(&supervision, &messages)),
        Party::Supervisor
    );
    assert_eq!(party("do the thing"), Party::Agent);
}

#[test]
fn a_judge_rules_on_the_transcript_of_the_prompt_it_is_given() {
    let messages = [Message::user("go"), Message::assistant("All TESTS pass.")];
    let ask = |criterion: &str| {
        let query = JudgeQuery {
            kind: JudgeKind::Boolean,
            criterion,
            scale: None,
        };
        judge_text(&build_judge_prompt(&query, &messages), "0", "10")
    };
    assert_eq!(
        ask("tests pass"),
        "{\"value\": true, \"reason\": \"fake boolean\"}"
    );
    assert_eq!(
        ask("merged"),
        "{\"value\": false, \"reason\": \"fake boolean\"}"
    );
    let query = JudgeQuery {
        kind: JudgeKind::Numeric,
        criterion: "tests pass",
        scale: Some((number(1.0), number(5.5))),
    };
    let prompt = build_judge_prompt(&query, &messages);
    assert_eq!(scale(&prompt), Some(("1", "5.5")));
    assert_eq!(
        judge_text(&prompt, "1", "5.5"),
        "{\"value\": 5.5, \"reason\": \"fake numeric\"}"
    );
}

#[test]
fn a_supervisor_rules_on_the_transcript_of_the_prompt_it_is_given() {
    let messages = [Message::user("go"), Message::assistant("All TESTS pass.")];
    let ask = |persona: &str, done_when: Option<&str>| {
        supervisor_text(&build_supervisor_prompt(
            &SupervisorQuery {
                task: "t",
                persona,
                done_when,
                worktree: "/w",
                history_name: "h",
                notes: &[],
                turn: TurnOutcome::Taken,
            },
            &messages,
        ))
    };
    assert_eq!(
        ask("p", Some("tests pass")),
        "{\"completion\":true,\"reason\":\"fake supervisor found criterion\"}"
    );
    assert!(ask("p", Some("merged")).contains("Understood — please continue."));
    assert!(!ask("[[supervisor-silent]]", Some("tests pass")).contains("message"));
    assert!(!ask("[[supervisor-silent-once]]", None).contains("message"));
}

#[test]
fn a_scale_is_read_as_it_is_written() {
    assert_eq!(
        scale("on a scale from 0 to 10 (inclusive)."),
        Some(("0", "10"))
    );
    assert_eq!(scale("a scale from -1.5  to\n2., then"), Some(("-1.5", "2")));
    assert_eq!(scale("no scale"), None);
    assert_eq!(scale("scale from 1"), None);
}

// --- A run ------------------------------------------------------------------
#[test]
fn an_agents_turn_is_steered_by_its_system_text() {
    let echoed = perform(&asked("", "  a prompt that is echoed\n")).unwrap();
    assert_eq!(
        echoed.results[0].text.as_deref(),
        Some("echo: a prompt that is echoed")
    );
    assert_eq!(
        echoed.results[0].session_id.as_deref(),
        Some("native-agent")
    );
    assert_eq!(echoed.results[0].usage.input_tokens, Some(26));
    assert!(echoed.results[0].telemetry.is_some());
    assert!(is_measured(&echoed.results[0]));
    assert!(echoed.ran && !echoed.failed && echoed.fallback.is_none());

    let told = perform(&asked("[[reply:hello]] [[event:ls]]", "p")).unwrap();
    assert_eq!(told.results[0].text.as_deref(), Some("hello"));
    let events = told.results[0].events.as_ref().unwrap();
    assert_eq!(events[0].input.as_deref(), Some(r#"{"command":"ls"}"#));

    let failed = perform(&asked("[[fail:auth]]", "p")).unwrap();
    assert_eq!(failed.results[0].failure_kind.as_deref(), Some("auth"));
    assert_eq!(failed.results[0].status, Status::Nonzero);
    assert!(failed.failed && failed.results[0].telemetry.is_none());

    let timed_out = perform(&asked("[[status:timeout]]", "p")).unwrap();
    assert_eq!(timed_out.results[0].status, Status::Timeout);
    assert_eq!(timed_out.results[0].exit_code, None);
    assert!(timed_out.failed);

    assert!(perform(&asked("[[fail:weather]]", "p"))
        .unwrap_err()
        .contains("`weather` is not a oneharness failure_kind"));
    assert!(perform(&asked("[[status:asleep]]", "p"))
        .unwrap_err()
        .contains("`asleep` is not a oneharness run status"));

    let session = perform(&Asked {
        session: Some("run-1"),
        ..asked("[[echo-session]]", "p")
    })
    .unwrap();
    assert_eq!(session.results[0].text.as_deref(), Some("run-1"));
    assert_eq!(
        session.results[0].session_id.as_deref(),
        Some("native-run-1")
    );
    let mocked = perform(&asked("[[echo-mock-harness]]", "p")).unwrap();
    assert_eq!(mocked.results[0].text.as_deref(), Some("none"));

    let silent = perform(&asked("[[no-text]]", "p")).unwrap();
    assert_eq!(silent.results[0].text, None);
    assert_eq!(silent.results[0].stdout, RAW_PROCESS_OUTPUT);
}

#[test]
fn a_fallback_chain_reports_each_attempted_candidate() {
    let chained = perform(&asked("[[fallback:codex:work|quota,,goose]]", "p")).unwrap();
    assert_eq!(chained.results.len(), 3);
    assert_eq!(chained.results[0].harness, "codex");
    assert_eq!(chained.results[0].variant.as_deref(), Some("work"));
    assert_eq!(chained.results[0].failure_kind.as_deref(), Some("quota"));
    assert_eq!(chained.results[1].failure_kind.as_deref(), Some("auth"));
    assert!(chained.ran && !chained.failed);
    let fallback = chained.fallback.unwrap();
    assert_eq!(fallback.ran.as_deref(), Some("codex"));
    assert_eq!(fallback.fell_through[0].harness, "codex");
    assert_eq!(fallback.fell_through[1].reason, "auth");

    let exhausted = perform(&asked(
        "[[fallback-exhausted:goose|not-installed,codex|spawn-error,crush|rate-limit]]",
        "p",
    ))
    .unwrap();
    assert_eq!(exhausted.results.len(), 3);
    assert!(!exhausted.results[0].available);
    assert_eq!(exhausted.results[1].status, Status::SpawnError);
    assert_eq!(
        exhausted.results[2].failure_kind.as_deref(),
        Some("rate_limit")
    );
    assert!(!exhausted.ran && exhausted.failed);
    assert_eq!(exhausted.fallback.unwrap().ran, None);
}

#[test]
fn a_run_is_stopped_before_anything_is_asked() {
    assert_eq!(stops("codex", "", true), None);
    assert_eq!(stops("codex", "[[reject-session]]", false), None);
    let (words, code) = stops("codex", "[[reject-session]]", true).unwrap();
    assert!(words.contains("does not support --session"));
    assert!(words.ends_with("supported: codex"));
    assert_eq!(code, 1);
    assert_eq!(stops("codex", "[[proc-exit]]", false).unwrap().1, 2);
    assert_eq!(inline_history_id("four"), "history-agent-4");
    assert_eq!(
        inline_history_id("Assessment request:"),
        "history-judge-19"
    );
}

#[test]
fn a_stream_is_published_step_by_step() {
    assert_eq!(stream_plan("[[stream-bare]]", 2), [StreamStep::Bare]);
    assert_eq!(stream_plan("[[stream-garbage]]", 2), [StreamStep::Garbage]);
    assert_eq!(
        stream_plan("", 2),
        [StreamStep::Event(0), StreamStep::Event(1), StreamStep::Result]
    );
    assert_eq!(
        stream_plan("[[stream-unknown]]", 1),
        [StreamStep::Event(0), StreamStep::Progress(50)]
    );
    assert_eq!(stream_plan("[[stream-truncate]]", 1), [StreamStep::Event(0)]);
    assert_eq!(
        stream_plan("[[stream-descendant:/h]]", 0),
        [StreamStep::Descendant("/h".into())]
    );
    assert_eq!(
        stream_plan("[[stream-silent-descendant:/h]]", 0),
        [StreamStep::SilentDescendant("/h".into())]
    );
    assert_eq!(
        stream_plan(
            "[[stream-wait:/p]] [[stream-trailing:event]] [[stream-then-fail]]",
            0
        ),
        [
            StreamStep::Wait("/p".into()),
            StreamStep::Result,
            StreamStep::LateEvent,
            StreamStep::Fail
        ]
    );
}

// --- Turn control -----------------------------------------------------------
#[test]
fn an_interrupt_aborts_and_a_redirection_rides_it() {
    let claude = oneharness_core::domain::harness::all()[0].id;
    let mechanism = mechanism(claude).unwrap();
    assert_eq!(mechanism, Mechanism::ClaudeControlRequest);
    let served = exchange("{\"v\":2,\"verb\":\"interrupt\"}\n", mechanism);
    assert_eq!(served.frames.len(), 1);
    assert!(served.frames[0].contains("\"subtype\":\"interrupt\""));
    assert!(served.frames[0].contains("\"request_id\":\"1\""));
    let token = oneharness_core::domain::harness::all()[0]
        .control
        .unwrap()
        .as_str();
    assert_eq!(
        served.response,
        format!("{{\"v\":2,\"ok\":true,\"mechanism\":\"{token}\"}}\n")
    );

    let redirected = answer(Ok(Some("stop and test".into())), mechanism);
    assert_eq!(redirected.frames.len(), 2);
    assert_eq!(redirected.frames[0], served.frames[0]);
    assert!(redirected.frames[1].contains("stop and test"));
    assert_eq!(
        redirected.response,
        format!("{{\"v\":2,\"ok\":true,\"mechanism\":\"{token}\",\"redirected\":true}}\n")
    );

    // A mechanism that does not ride the run's stdin has no frame to write.
    let elsewhere = answer(Ok(None), Mechanism::AcpCancel);
    assert!(elsewhere.frames.is_empty());
    for (other, token) in [
        (Mechanism::AcpCancel, "acp-cancel"),
        (Mechanism::CodexAppServer, "codex-app-server"),
        (Mechanism::OpencodeHttp, "opencode-http"),
        (Mechanism::CrushHttp, "crush-http"),
    ] {
        assert_eq!(
            answer(Ok(None), other).response,
            format!("{{\"v\":2,\"ok\":true,\"mechanism\":\"{token}\"}}\n")
        );
    }
}

#[test]
fn a_line_that_is_no_request_is_refused_and_reaches_no_turn() {
    for line in ["", "  \n", "not json", "{\"v\":99,\"verb\":\"interrupt\"}"] {
        let refused = exchange(line, Mechanism::ClaudeControlRequest);
        assert!(refused.frames.is_empty(), "{line}");
        assert!(refused.response.contains("\"ok\":false"), "{line}");
        assert!(refused.response.contains("unsupported"), "{line}");
    }
    assert_eq!(
        exchange("\n", Mechanism::ClaudeControlRequest).response,
        "{\"v\":2,\"ok\":false,\"error\":\"empty control request\",\"reason\":\"unsupported\"}\n"
    );
    assert_eq!(
        answer(Err("a \"b\"\n".into()), Mechanism::CrushHttp).response,
        "{\"v\":2,\"ok\":false,\"error\":\"a \\\"b\\\"\\n\",\"reason\":\"unsupported\"}\n"
    );
    assert!(mechanism("no-such-harness").is_err());
}

#[test]
fn a_controlled_run_is_validated_before_it_is_paid_for() {
    let store = "[[control-store:/s]]";
    assert_eq!(validate(Some("s"), store, true), Ok(()));
    assert_eq!(validate(None, store, true), Err(Refusal::NeedsSession));
    assert_eq!(validate(Some("s"), "", true), Err(Refusal::NeedsStore));
    assert_eq!(
        validate(Some("s"), "[[control-store:/s]][[control-unsupported:goose]]", true),
        Err(Refusal::Unsupported("goose".into()))
    );
    assert_eq!(validate(Some("s"), store, false), Err(Refusal::Platform));
}

// --- The harness ------------------------------------------------------------
#[test]
fn a_harness_says_what_its_prompt_tells_it_to() {
    let args = strings(&["-p", "[[reply:a \"b\" \\ c]]", "--output-format", "stream-json"]);
    assert!(harness::streams(&args));
    assert!(!harness::streams(&args[..3]));
    assert!(!harness::reads_stdin(&args));
    let told = harness::steering(&args, "[[event:unread]]");
    assert!(harness::events(&told, true).is_empty());
    assert_eq!(
        harness::result_line(&told),
        "{\"type\":\"result\",\"subtype\":\"success\",\"is_error\":false,\"result\":\"a \\\"b\\\" \\\\ c\",\"session_id\":\"fake-harness-session\"}"
    );
    let read = strings(&["--input-format", "text"]);
    let told = harness::steering(&read, "[[event:ls]][[event:pwd]]");
    let lines = harness::events(&told, true);
    assert_eq!(lines.len(), 2);
    assert!(lines[1].contains("\"id\":\"t1\""));
    assert!(lines[1].contains("\"command\":\"pwd\""));
    let value: serde_json::Value = serde_json::from_str(&lines[0]).unwrap();
    assert_eq!(value["type"], "assistant");
    assert!(harness::events(&told, false).is_empty());
    assert!(harness::result_line("").contains("\"result\":\"ok\""));
}

// --- llmlint ----------------------------------------------------------------
#[test]
fn a_script_gives_its_outcomes_in_order_and_repeats_the_last() {
    assert_eq!(outcome(None, 0), "0");
    assert_eq!(outcome(Some(""), 3), "0");
    assert_eq!(outcome(Some("1, 0"), 0), "1");
    assert_eq!(outcome(Some("1, 0"), 1), "0");
    assert_eq!(outcome(Some("1, 0"), 7), "0");
    assert_eq!(count_runs(""), 0);
    assert_eq!(
        count_runs("[\"--version\"]\n[\"lint\",\"--cwd\"]\n[\"lint\"]\n"),
        2
    );
}

#[test]
fn an_outcome_is_played_with_its_report() {
    let clean = play("0", "goose", None, None);
    assert_eq!(clean.stdout, CLEAN_REPORT);
    assert_eq!(clean.stderr, "");
    assert_eq!(clean.code, Some(0));
    let failing = play("1", "goose", None, Some("warn"));
    assert_eq!(failing.stdout, FAILING_REPORT);
    assert_eq!(failing.stderr, "warn");
    let killed = play("signal", "goose", None, None);
    assert_eq!(killed.code, None);
    assert!(killed.stderr.contains("`goose`"));
    assert_eq!(play("what", "goose", Some("none"), None).code, Some(2));
    assert_eq!(play("-3", "goose", Some("none"), None).code, Some(-3));
    assert_eq!(play("0", "goose", Some("none"), None).stdout, "");
    assert_eq!(play("0", "goose", Some("text"), None).stdout, "text");
}

// --- The echo provider ------------------------------------------------------
#[test]
fn an_echo_refuses_what_it_does_not_know() {
    assert_eq!(
        answer_line("{\"op\":\"dance\"}").unwrap_err(),
        "unknown op `dance`"
    );
    assert!(answer_line("not json")
        .unwrap_err()
        .starts_with("request was not valid JSON: "));
    assert_eq!(answer_line("[[emit-empty]]"), Ok(None));
    assert!(answer_line("[[emit-exit]]").is_err());
}

#[test]
fn an_echo_takes_the_latest_of_what_the_user_said() {
    let request = parse(
        r#"{"op":"respond","skill":{"instructions":"x"},"messages":[{"role":"user","content":"one"},{"role":"user","content":"two"},{"role":"assistant","content":"three"}]}"#,
    )
    .unwrap();
    assert_eq!(echo::latest_user(&request), "two");
    assert_eq!(echo::scope_of(&request), "x\ntwo");
    assert_eq!(
        echo::respond(&request).write(),
        r#"{"message":"echo: two","usage":{"input_tokens":3,"output_tokens":1,"cache_read_tokens":3,"cache_write_tokens":1}}"#
    );
    assert_eq!(
        echo::render(&request),
        "user: one\nuser: two\nassistant: three\n"
    );
}

#[test]
fn an_echo_scores_at_the_ends_of_the_scale() {
    let ask = |criterion: &str, scale: &str| {
        let request = parse(&format!(
            r#"{{"op":"judge","kind":"numeric","criterion":"{criterion}"{scale},"messages":[{{"role":"user","content":"yes"}}]}}"#
        ))
        .unwrap();
        let json = echo::judge(&request).write();
        let value: serde_json::Value = serde_json::from_str(&json).unwrap();
        value["value"].to_string()
    };
    assert_eq!(ask("YES", ""), "10.0");
    assert_eq!(ask("no", ""), "0.0");
    assert_eq!(ask("yes", ",\"min\":1,\"max\":5"), "5.0");
    assert_eq!(ask("no", ",\"min\":-2.5,\"max\":5"), "-2.5");
    for high in ["12345678901234567890", "123456789012345678"] {
        let binary64 = serde_json::Value::from(high.parse::<f64>().unwrap()).to_string();
        assert_eq!(ask("yes", &format!(",\"max\":{high}")), binary64);
        assert_ne!(binary64, high);
    }
}

#[test]
fn an_echo_supervisor_is_steered_by_its_persona() {
    let ask = |persona: &str, more: &str| {
        let request = parse(&format!(
            r#"{{"op":"supervisor","persona":"{persona}"{more},"messages":[]}}"#
        ))
        .unwrap();
        echo::supervisor(&request).write()
    };
    assert!(ask("[[complete-on-note]]", "").contains("no note yet"));
    assert!(ask("[[complete-on-note]]", ",\"notes\":[\"n\"]").contains("\"completion\":true"));
    assert_eq!(ask("[[malformed-supervisor]]", ""), "{\"completion\":false}");
    assert!(ask("[[supervisor-noop]]", "").contains("keep this dispatch released"));
    assert!(ask("[[stop]]", "").contains("\"completion\":true"));
}
