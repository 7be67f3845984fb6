use onejudge::prompts::{
    decide, needs_reask, reask_prompt, settle, supervise_with_reask, SUPERVISOR_REASK_NOTE,
};
use onejudge::{
    build_assessment_prompt, build_judge_prompt, build_supervisor_prompt, build_user_prompt,
    latest_or_inline, latest_user_message, parse_supervisor, parse_verdict,
    render_transcript, JudgeKind, JudgeQuery, JudgeValue, Message, Number, ProviderErrorKind,
    SupervisorOutcome, SupervisorQuery, SupervisorTurn, ToolEvent, TurnOutcome, Usage,
};
use std::cell::Cell;

fn call(command: &str) -> ToolEvent {
    ToolEvent {
        kind: "tool_call".into(),
        name: Some("bash".into()),
        input: Some(format!("{{\"command\":\"{command}\"}}")),
        output: None,
        index: 0,
        tool_call_id: None,
    }
}

#[test]
fn a_transcript_is_shown_with_what_was_done() {
    let messages = [
        Message::user("go"),
        Message::assistant("done").with_events(vec![call("ls")]),
    ];
    assert_eq!(
        render_transcript(&messages, true),
        "user: go\nassistant: done\n  [tool] bash {\"command\":\"ls\"}"
    );
    assert_eq!(render_transcript(&messages, false), "user: go\nassistant: done");
    assert_eq!(render_transcript(&[], true), "");
}

#[test]
fn a_continuing_turn_is_asked_with_what_the_user_said_last() {
    let messages = [
        Message::user("first"),
        Message::assistant("reply"),
        Message::user("second"),
        Message::assistant("again"),
    ];
    assert_eq!(latest_user_message(&messages), "second");
    assert_eq!(latest_user_message(&[]), "");
    assert_eq!(latest_or_inline(&messages, true), "second");
    assert_eq!(
        latest_or_inline(&messages, false),
        "user: first\nassistant: reply\nuser: second\nassistant: again"
    );
}

#[test]
fn a_judge_is_asked_by_its_kind() {
    let scale = |x: f64| Number::new(x.to_bits(), &x.to_string(), &format!("{x:?}"));
    let numeric = build_judge_prompt(
        &JudgeQuery {
            kind: JudgeKind::Numeric,
            criterion: "warmth",
            scale: Some((scale(1.0), scale(5.0))),
        },
        &[],
    );
    assert!(numeric.contains("scale from 1 to 5"));
    assert!(numeric.contains("Criterion: warmth"));
    let boolean = build_judge_prompt(
        &JudgeQuery {
            kind: JudgeKind::Boolean,
            criterion: "warm",
            scale: None,
        },
        &[],
    );
    assert!(!boolean.contains("scale from"));
}

#[test]
fn a_verdict_is_read_out_of_what_stands_around_it() {
    let verdict = parse_verdict(
        JudgeKind::Boolean,
        "judge",
        "Sure: {\"value\": true, \"reason\": \"kind\"} — there.",
    )
    .unwrap();
    assert_eq!(verdict.value, JudgeValue::Bool(true));
    assert_eq!(verdict.reason, "kind");
    for answer in ["no object", "{\"value\": 1}", "{\"reason\": \"x\"}", "{broken}"] {
        let err = parse_verdict(JudgeKind::Boolean, "judge", answer).unwrap_err();
        assert_eq!(err.kind(), Some(ProviderErrorKind::Protocol), "{answer}");
    }
}

#[test]
fn a_decision_is_one_of_its_four_outcomes() {
    assert_eq!(
        parse_supervisor("s", "{\"completion\": true, \"reason\": \"all green\"}").unwrap(),
        SupervisorOutcome::Completed {
            reason: "all green".into()
        }
    );
    assert_eq!(
        parse_supervisor(
            "s",
            "{\"completion\": false, \"message\": \"Fix it.\", \"reason\": \"red\"}"
        )
        .unwrap(),
        SupervisorOutcome::Continue {
            message: "Fix it.".into(),
            reason: "red".into()
        }
    );
    let silent = parse_supervisor("s", "{\"completion\": false, \"reason\": \"red\"}").unwrap();
    assert_eq!(
        silent,
        SupervisorOutcome::NoInstruction {
            reason: "red".into()
        }
    );
    assert!(needs_reask(&silent));
    let prose = parse_supervisor("s", "I think it is fine.").unwrap();
    assert!(matches!(&prose, SupervisorOutcome::Unparseable { answer, .. } if answer == "I think it is fine."));
    assert!(needs_reask(&prose));
    assert!(!needs_reask(&SupervisorOutcome::Completed {
        reason: String::new()
    }));
    assert!(decide("s", true, None, String::new()).is_err());
}

#[test]
fn a_second_asking_says_what_was_wrong_and_sums_the_usage() {
    assert_eq!(reask_prompt("base", 0), "base");
    assert_eq!(
        reask_prompt("base", 1),
        format!("base{SUPERVISOR_REASK_NOTE}")
    );
    let turn = |outcome: SupervisorOutcome, tokens: u64| SupervisorTurn {
        outcome,
        usage: Some(Usage {
            input_tokens: Some(tokens),
            ..Usage::none()
        }),
    };
    let settled = settle(
        turn(
            SupervisorOutcome::NoInstruction {
                reason: "r".into(),
            },
            3,
        ),
        turn(
            SupervisorOutcome::Completed {
                reason: "done".into(),
            },
            4,
        ),
    );
    assert_eq!(
        settled.outcome,
        SupervisorOutcome::Completed {
            reason: "done".into()
        }
    );
    assert_eq!(settled.usage.unwrap().input_tokens, Some(7));
}

#[test]
fn a_supervisor_is_asked_once_more_where_its_answer_was_unusable() {
    let answer = |outcome: SupervisorOutcome| {
        Ok(SupervisorTurn {
            outcome,
            usage: None,
        })
    };
    let silent = || SupervisorOutcome::NoInstruction {
        reason: "red".into(),
    };
    let done = || SupervisorOutcome::Completed {
        reason: "green".into(),
    };
    let asked = Cell::new(0);
    let turn = supervise_with_reask(|attempt| {
        asked.set(asked.get() + 1);
        answer(if attempt == 0 { silent() } else { done() })
    })
    .unwrap();
    assert_eq!(turn.outcome, done());
    assert_eq!(asked.get(), 2);

    // A usable first answer stands, and an unusable second one is what there is.
    asked.set(0);
    let turn = supervise_with_reask(|_| {
        asked.set(asked.get() + 1);
        answer(done())
    })
    .unwrap();
    assert_eq!(turn.outcome, done());
    assert_eq!(asked.get(), 1);
    let turn = supervise_with_reask(|_| answer(silent())).unwrap();
    assert_eq!(turn.outcome, silent());
}

#[test]
fn whoever_judges_sees_what_was_said_and_done() {
    let messages = [
        Message::user("commit it"),
        Message::assistant("done").with_events(vec![call("git commit"), call("git push")]),
        Message::user("thanks"),
    ];
    let query = JudgeQuery {
        kind: JudgeKind::Boolean,
        criterion: "the change was committed",
        scale: None,
    };
    let supervision = SupervisorQuery {
        task: "t",
        persona: "p",
        done_when: None,
        worktree: "/w",
        history_name: "h",
        notes: &[],
        turn: TurnOutcome::Taken,
    };
    for prompt in [
        build_judge_prompt(&query, &messages),
        build_supervisor_prompt(&supervision, &messages),
        build_assessment_prompt("follow-ups", &messages),
        build_user_prompt("p", &messages),
    ] {
        for seen in ["commit it", "done", "thanks", "git commit", "git push"] {
            assert!(prompt.contains(seen), "{seen}: {prompt}");
        }
    }
}
