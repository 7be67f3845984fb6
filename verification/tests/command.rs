use onejudge::command::{
    assess_request, judge_request, respond_request, supervisor_request, user_request, Ended,
};
use onejudge::doubles::echo;
use onejudge::{
    CommandProvider, Error, EvidenceContext, JudgeKind, JudgeQuery, JudgeValue, Message, Number,
    ProviderErrorKind, SkillRef, SupervisorOutcome, SupervisorQuery, ToolEvent, TurnOutcome,
};

fn number(x: f64) -> Number {
    Number::new(x.to_bits(), &x.to_string(), &format!("{x:?}"))
}

fn provider() -> CommandProvider {
    CommandProvider::new(vec!["definitely-not-a-real-binary-xyz".into()])
        .ok()
        .unwrap()
}

fn boolean(criterion: &str) -> JudgeQuery<'_> {
    JudgeQuery {
        kind: JudgeKind::Boolean,
        criterion,
        scale: None,
    }
}

fn skill<'a>(instructions: &'a str) -> SkillRef<'a> {
    SkillRef {
        name: "s",
        dir: "/s",
        instructions,
    }
}

fn supervision<'a>(persona: &'a str, done_when: Option<&'a str>) -> SupervisorQuery<'a> {
    SupervisorQuery {
        task: "t",
        persona,
        done_when,
        worktree: "/w",
        history_name: "h",
        notes: &[],
        turn: TurnOutcome::Taken,
    }
}

/// What the echo stand-in leaves behind for a request line.
fn echoed(line: &str) -> Ended {
    match echo::answer_line(line) {
        Ok(Some(json)) => ended(&format!("{}\n", json.write())),
        Ok(None) => ended(""),
        Err(why) => Ended {
            success: false,
            status: "exit status: 1".into(),
            stdout: String::new(),
            stderr: format!("echo-provider: {why}\n"),
        },
    }
}

fn ended(stdout: &str) -> Ended {
    Ended {
        success: true,
        status: "exit status: 0".into(),
        stdout: stdout.into(),
        stderr: String::new(),
    }
}

#[test]
fn empty_argv_is_rejected() {
    let err = CommandProvider::new(vec![]).err().unwrap();
    assert!(matches!(err, Error::Invalid(_)));
}

#[test]
fn request_serializes_with_op_tag_and_no_platform_or_model() {
    let query = JudgeQuery {
        kind: JudgeKind::Numeric,
        criterion: "polite",
        scale: Some((number(0.0), number(10.0))),
    };
    let json = judge_request(&query, &[], None).unwrap().write();
    // Byte for byte what the protocol writes: the op, then the kind, then the
    // members in declaration order.
    assert_eq!(
        json,
        r#"{"op":"judge","kind":"numeric","criterion":"polite","min":0.0,"max":10.0,"messages":[]}"#
    );
    // No harness/model selection on the wire.
    assert!(!json.contains("platform"));
    assert!(!json.contains("model"));
}

#[test]
fn protocol_v6_judge_evidence_is_additive_and_omitted_without_context() {
    let histories = vec!["/state/history/agent.jsonl".to_string()];
    let evidence = EvidenceContext {
        worktree: Some("/repo"),
        history_files: &histories,
        artifacts: &[],
    };
    let json = judge_request(&boolean("done"), &[], Some(&evidence))
        .unwrap()
        .write();
    assert!(json.contains("\"evidence\":{\"worktree\":\"/repo\",\"history_files\":[\"/state/history/agent.jsonl\"]}"));
    let without = judge_request(&boolean("done"), &[], None).unwrap();
    assert_eq!(
        without.write(),
        r#"{"op":"judge","kind":"boolean","criterion":"done","messages":[]}"#
    );
}

#[test]
fn protocol_v7_judge_evidence_carries_resolved_artifacts_only_when_named() {
    let named = vec!["/abs/design.md".to_string(), ".plans".to_string()];
    let context = EvidenceContext {
        worktree: Some("/repo"),
        history_files: &[],
        artifacts: &named,
    };
    let with = judge_request(&boolean("done"), &[], Some(&context)).unwrap();
    let resolved = std::path::Path::new("/repo")
        .join(".plans")
        .display()
        .to_string();
    let value: serde_json::Value = serde_json::from_str(&with.write()).unwrap();
    assert_eq!(
        value["evidence"]["artifacts"],
        serde_json::Value::from(vec!["/abs/design.md".to_string(), resolved])
    );
    let mut members: Vec<&String> = value["evidence"].as_object().unwrap().keys().collect();
    members.sort();
    assert_eq!(members, ["artifacts", "history_files", "worktree"]);
}

#[test]
fn respond_request_omits_absent_session() {
    let json = respond_request(&skill("do x"), &[], None).write();
    assert!(!json.contains("session"));
    assert!(!json.contains("platform"));
    assert!(!json.contains("model"));
    let named = respond_request(&skill("do x"), &[], Some("run-1")).write();
    assert!(named.contains("\"session\":\"run-1\""));
}

#[test]
fn a_numeric_query_without_a_scale_is_refused_before_anything_is_spawned() {
    let query = JudgeQuery {
        kind: JudgeKind::Numeric,
        criterion: "quality",
        scale: None,
    };
    let err = judge_request(&query, &[], None).unwrap_err();
    assert!(matches!(&err, Error::Invalid(why) if why.contains("`min` and `max`")));
}

#[test]
fn command_spawn_failure_is_classified() {
    let err = provider().spawn_failed("judge", "No such file or directory (os error 2)");
    assert_eq!(err.kind(), Some(ProviderErrorKind::Spawn));
    assert!(err.render().contains("definitely-not-a-real-binary-xyz"));
}

#[test]
fn a_turn_round_trips_through_the_echo_stand_in() {
    let p = provider();
    let messages = [Message::user("ping [[event:ls -l]]")];
    let request = respond_request(&skill("be terse [[done]]"), &messages, None);
    let turn = p.respond_answer(&echoed(&p.request_line(&request))).unwrap();
    assert_eq!(turn.message, "echo: ping [[event:ls -l]]");
    assert!(turn.done);
    assert_eq!(turn.usage.unwrap().cache_read_tokens, Some(3));
    assert_eq!(
        turn.events,
        vec![ToolEvent {
            kind: "tool_call".into(),
            name: Some("bash".into()),
            input: Some(r#"{"command":"ls -l"}"#.into()),
            output: None,
            index: 0,
            tool_call_id: None,
        }]
    );
}

#[test]
fn a_simulated_user_round_trips_through_the_echo_stand_in() {
    let p = provider();
    let request = user_request("curious [[stop]]", &[], None);
    let turn = p.user_answer(&echoed(&p.request_line(&request))).unwrap();
    assert_eq!(turn.message, "Thanks — and what about the next step?");
    assert!(turn.stop);
}

#[test]
fn a_decision_round_trips_through_the_echo_stand_in() {
    let p = provider();
    let messages = [Message::user("go"), Message::assistant("All GREEN now.")];
    let done = supervisor_request(&supervision("p", Some("all green")), &messages, None);
    let turn = p.supervisor_answer(&echoed(&p.request_line(&done))).unwrap();
    assert_eq!(
        turn.outcome,
        SupervisorOutcome::Completed {
            reason: "completion criterion found in transcript".into()
        }
    );
    let on = supervisor_request(&supervision("p", Some("merged")), &messages, None);
    let turn = p.supervisor_answer(&echoed(&p.request_line(&on))).unwrap();
    assert_eq!(
        turn.outcome,
        SupervisorOutcome::Continue {
            message: "Thanks — and what about the next step?".into(),
            reason: "completion criterion not yet met".into(),
        }
    );
    let silent = supervisor_request(&supervision("[[malformed-supervisor]]", None), &messages, None);
    let turn = p.supervisor_answer(&echoed(&p.request_line(&silent)));
    assert!(!matches!(
        turn.map(|t| t.outcome),
        Ok(SupervisorOutcome::Completed { .. }) | Ok(SupervisorOutcome::Continue { .. })
    ));
}

#[test]
fn a_verdict_round_trips_through_the_echo_stand_in() {
    let p = provider();
    let events = vec![ToolEvent {
        kind: "tool_call".into(),
        name: Some("bash".into()),
        input: Some(r#"{"command":"cargo test"}"#.into()),
        output: None,
        index: 0,
        tool_call_id: None,
    }];
    let messages = [Message::assistant("done").with_events(events)];
    let yes = judge_request(&boolean("CARGO test"), &messages, None).unwrap();
    let verdict = p
        .judge_answer(JudgeKind::Boolean, false, &echoed(&p.request_line(&yes)))
        .unwrap();
    assert_eq!(verdict.value, JudgeValue::Bool(true));
    let score = JudgeQuery {
        kind: JudgeKind::Numeric,
        criterion: "nowhere",
        scale: Some((number(1.5), number(5.0))),
    };
    let low = judge_request(&score, &messages, None).unwrap();
    let verdict = p
        .judge_answer(JudgeKind::Numeric, false, &echoed(&p.request_line(&low)))
        .unwrap();
    assert!(matches!(&verdict.value, JudgeValue::Number(n) if n.bits == 1.5f64.to_bits()));
    // An answer of the other type is none.
    let wrong = judge_request(&boolean("[[wrong-type]]"), &messages, None).unwrap();
    let err = p
        .judge_answer(JudgeKind::Boolean, false, &echoed(&p.request_line(&wrong)))
        .unwrap_err();
    assert_eq!(err.kind(), Some(ProviderErrorKind::Protocol));
}

#[test]
fn an_assessment_round_trips_through_the_echo_stand_in() {
    let p = provider();
    let request = assess_request("follow-ups", &[Message::user("hi")]);
    let assessment = p.assess_answer(&echoed(&p.request_line(&request))).unwrap();
    assert_eq!(assessment.text, "Assessment for `follow-ups`.");
    let empty = assess_request("[[assess-empty]]", &[]);
    assert!(p.assess_answer(&echoed(&p.request_line(&empty))).is_err());
}

#[test]
fn a_command_that_says_nothing_or_fails_answers_nothing() {
    let p = provider();
    let nothing = p.user_answer(&ended("")).unwrap_err();
    assert_eq!(nothing.kind(), Some(ProviderErrorKind::Protocol));
    let garbage = p.user_answer(&ended("not json\n")).unwrap_err();
    assert_eq!(garbage.kind(), Some(ProviderErrorKind::Protocol));
    let failed = p
        .user_answer(&Ended {
            success: false,
            status: "exit status: 3".into(),
            stdout: "{\"message\":\"m\"}".into(),
            stderr: "boom".into(),
        })
        .unwrap_err();
    assert!(failed.render().contains("boom"));
    let misshapen = p.user_answer(&ended("{\"stop\":true}\n")).unwrap_err();
    assert_eq!(misshapen.kind(), Some(ProviderErrorKind::Protocol));
    assert!(misshapen.render().contains("message"));
}

#[test]
fn an_event_goes_over_the_wire_and_back() {
    let event = ToolEvent {
        kind: "tool_result".into(),
        name: None,
        input: None,
        output: Some("two\nlines \"quoted\"".into()),
        index: 3,
        tool_call_id: Some("t1".into()),
    };
    let messages = [Message::assistant("done").with_events(vec![event.clone()])];
    let request = assess_request("p", &messages).write();
    let value: serde_json::Value = serde_json::from_str(&request).unwrap();
    let wire = value["messages"][0]["events"][0].to_string();
    let json = onejudge::json::parse(&wire).unwrap();
    assert_eq!(onejudge::command::read_event(&json).unwrap(), event);
    let mistyped = onejudge::json::parse(r#"{"kind":"k","index":0,"output":7}"#).unwrap();
    assert!(onejudge::command::read_event(&mistyped).is_err());
}

#[test]
fn a_request_takes_one_line() {
    let p = provider();
    let messages = [Message::user("two\nlines\r\n"), Message::assistant("\u{1}\t\"q\"")];
    let line = p.request_line(&user_request("a\nb", &messages, None));
    assert!(line.ends_with('\n'));
    assert_eq!(line.matches('\n').count(), 1);
    let value: serde_json::Value = serde_json::from_str(&line).unwrap();
    assert_eq!(value["persona"], "a\nb");
    assert_eq!(value["messages"][1]["content"], "\u{1}\t\"q\"");
}

#[test]
fn a_member_that_stands_twice_is_refused() {
    let p = provider();
    for line in [
        r#"{"message":"a","message":"b"}"#,
        r#"{"message":"a","stop":true, "stop" : true}"#,
        r#"{"message":"a","\u006dessage":"b"}"#,
        r#"{"usage":null,"message":"a","usage":null}"#,
        r#"{"message":"a","usage":{"input_tokens":1, "input_tokens":2}}"#,
        r#"["a", false, {"cost_usd":1, "x":{}, "cost_usd":2}]"#,
    ] {
        let err = p.user_answer(&ended(line)).unwrap_err();
        assert_eq!(err.kind(), Some(ProviderErrorKind::Protocol), "{line}");
        assert!(err.render().contains(line), "{line}");
    }
    for line in [
        r#"{"message":"a","other":1,"other":2}"#,
        r#"{"message":"a \", \"message\": ","x":{"message":1,"message":2}}"#,
        r#"{"x":["message","message"],"message":"a"}"#,
    ] {
        assert!(p.user_answer(&ended(line)).is_ok(), "{line}");
    }
}

#[test]
fn a_list_stands_for_the_members_in_their_order() {
    let p = provider();
    let turn = p.user_answer(&ended(r#"["hi", true]"#)).unwrap();
    assert_eq!(turn.message, "hi");
    assert!(turn.stop);
    assert!(turn.usage.is_none());
    let turn = p.user_answer(&ended(r#"{"message":"hi","usage":[3, null, 5]}"#)).unwrap();
    let usage = turn.usage.unwrap();
    assert_eq!(usage.input_tokens, Some(3));
    assert_eq!(usage.output_tokens, None);
    assert_eq!(usage.cache_read_tokens, Some(5));
    let turn = p.supervisor_answer(&ended(r#"[false, "go on", "not yet", null]"#)).unwrap();
    assert_eq!(
        turn.outcome,
        SupervisorOutcome::Continue {
            message: "go on".into(),
            reason: "not yet".into(),
        }
    );
    for line in ["[]", r#"["hi", true, null, null]"#, r#"[true, "hi"]"#, "7"] {
        let err = p.user_answer(&ended(line)).unwrap_err();
        assert_eq!(err.kind(), Some(ProviderErrorKind::Protocol), "{line}");
    }
}

#[test]
fn an_unusable_decision_is_asked_for_once_more_by_the_same_request() {
    let p = provider();
    let asked = std::cell::RefCell::new(Vec::new());
    let decide = |answers: [&str; 2]| {
        asked.borrow_mut().clear();
        p.supervise(&supervision("p", None), &[], None, |request: &onejudge::json::Json| {
            let n = asked.borrow().len();
            asked.borrow_mut().push(request.write());
            Ok(ended(answers[n]))
        })
    };
    let unusable = r#"{"completion":false,"reason":"no"}"#;
    let turn = decide([unusable, r#"{"completion":false,"message":"go on","reason":"r"}"#]).unwrap();
    assert!(matches!(turn.outcome, SupervisorOutcome::Continue { message, .. } if message == "go on"));
    assert_eq!(asked.borrow().len(), 2);
    assert_eq!(asked.borrow()[0], asked.borrow()[1]);
    let turn = decide([r#"{"completion":true,"reason":"done"}"#, "never read"]).unwrap();
    assert!(matches!(turn.outcome, SupervisorOutcome::Completed { .. }));
    assert_eq!(asked.borrow().len(), 1);
    assert!(decide(["not json", unusable]).is_err());
    assert_eq!(asked.borrow().len(), 1);
}

#[test]
fn a_score_is_written_as_a_binary64() {
    let p = provider();
    let answer = ended(r#"{"value":7}"#);
    let verdict = p.judge_answer(JudgeKind::Numeric, false, &answer).unwrap();
    assert!(matches!(&verdict.value, JudgeValue::Number(n) if n.json == "7.0" && n.text == "7"));
}

#[test]
fn a_tool_event_names_no_member_twice() {
    let p = provider();
    let once = r#"{"message":"a","events":[{"kind":"k","index":0,"input":{"a":1,"a":2}}]}"#;
    let turn = p.respond_answer(&ended(once)).unwrap();
    assert_eq!(turn.events[0].input.as_deref(), Some(r#"{"a":2}"#));
    let twice = r#"{"message":"a","events":[{"kind":"k","index":0},{"kind":"k","index":0,"kind":"l"}]}"#;
    let err = p.respond_answer(&ended(twice)).unwrap_err();
    assert!(err.render().contains("duplicate field `kind`"));
}
