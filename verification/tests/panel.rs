use onejudge::{
    is_valid_label, Assessment, AssistantTurn, ControlOutcome, Decision, Error, EventSink,
    EvidenceContext, JudgeAbilities, JudgeEntry, JudgeKind, JudgePanel, JudgeQuery, JudgeValue,
    JudgeVerdict, Message, Number, Provider, ProviderErrorKind, SkillRef, SplitProvider, StreamEvent,
    SupervisorOutcome, SupervisorQuery, SupervisorTurn, TurnOutcome, Usage, UserTurn,
};
use std::cell::RefCell;
use std::ops::ControlFlow;

/// An in-memory judge scripted with one supervisor answer, recording the
/// session it was handed. `RefCell` state, like the real backends: `Send`,
/// not `Sync`, which is exactly what the per-judge lock exists for.
struct Canned {
    answer: Option<SupervisorOutcome>,
    verdict: JudgeVerdict,
    sessions: RefCell<Vec<Option<String>>>,
    /// Fail `judge` and `assess` too, not only `supervise`.
    broken: bool,
}

impl Canned {
    fn deciding(answer: SupervisorOutcome) -> Self {
        Self {
            answer: Some(answer),
            verdict: JudgeVerdict {
                value: JudgeValue::Bool(true),
                reason: "fine".into(),
                usage: None,
            },
            sessions: RefCell::new(Vec::new()),
            broken: false,
        }
    }

    fn failing() -> Self {
        Self {
            answer: None,
            verdict: JudgeVerdict {
                value: JudgeValue::Bool(true),
                reason: "fine".into(),
                usage: None,
            },
            sessions: RefCell::new(Vec::new()),
            broken: false,
        }
    }

    fn broken() -> Self {
        Self {
            broken: true,
            ..Self::failing()
        }
    }

    fn scoring(value: JudgeValue, reason: &str) -> Self {
        Self {
            answer: Some(SupervisorOutcome::Completed {
                reason: "done".into(),
            }),
            verdict: JudgeVerdict {
                value,
                reason: reason.into(),
                usage: Some(Usage {
                    input_tokens: Some(1),
                    ..Usage::none()
                }),
            },
            sessions: RefCell::new(Vec::new()),
            broken: false,
        }
    }
}

impl Provider for Canned {
    fn respond(
        &self,
        _: &SkillRef<'_>,
        _: &[Message],
        _: Option<&str>,
    ) -> Result<AssistantTurn, Error> {
        unreachable!("a judge never responds")
    }

    fn simulate_user(&self, _: &str, _: &[Message], session: Option<&str>) -> Result<UserTurn, Error> {
        self.sessions.borrow_mut().push(session.map(String::from));
        Ok(UserTurn {
            message: "next".into(),
            ..UserTurn::default()
        })
    }

    fn supervise(
        &self,
        _: &SupervisorQuery<'_>,
        _: &[Message],
        session: Option<&str>,
    ) -> Result<SupervisorTurn, Error> {
        self.sessions.borrow_mut().push(session.map(String::from));
        match &self.answer {
            Some(outcome) => Ok(SupervisorTurn {
                outcome: outcome.clone(),
                usage: Some(Usage {
                    input_tokens: Some(2),
                    ..Usage::none()
                }),
            }),
            None => Err(Error::provider_classified(
                "supervisor",
                "provider exited with 1",
                ProviderErrorKind::Protocol,
            )),
        }
    }

    fn judge(&self, _: &JudgeQuery<'_>, _: &[Message]) -> Result<JudgeVerdict, Error> {
        if self.broken {
            return Err(Error::provider_classified(
                "judge",
                "no output",
                ProviderErrorKind::Spawn,
            ));
        }
        Ok(self.verdict.clone())
    }

    fn assess(&self, prompt: &str, _: &[Message]) -> Result<Assessment, Error> {
        if self.broken {
            return Err(Error::provider("assess", "no output"));
        }
        Ok(Assessment {
            text: format!("about {prompt}"),
            usage: None,
        })
    }
}

fn sessions(panel: &JudgePanel<Canned>, i: usize) -> Vec<Option<String>> {
    panel.judges()[i].provider().sessions.borrow().clone()
}

struct Watch;

impl EventSink for Watch {
    fn on_event(&mut self, _: &StreamEvent<'_>) -> ControlFlow<()> {
        ControlFlow::Continue(())
    }
}

fn number(x: f64) -> Number {
    Number::new(x.to_bits(), &x.to_string(), &format!("{x:?}"))
}

fn query() -> SupervisorQuery<'static> {
    SupervisorQuery {
        task: "t",
        persona: "p",
        done_when: None,
        worktree: "/w",
        history_name: "h",
        notes: &[],
        turn: TurnOutcome::Taken,
    }
}

fn done(reason: &str) -> SupervisorOutcome {
    SupervisorOutcome::Completed {
        reason: reason.into(),
    }
}

fn go_on(message: &str, reason: &str) -> SupervisorOutcome {
    SupervisorOutcome::Continue {
        message: message.into(),
        reason: reason.into(),
    }
}

#[test]
fn a_panel_refuses_no_judges_and_bad_or_duplicate_labels() {
    assert!(matches!(
        JudgePanel::<Canned>::new(vec![]).err().unwrap(),
        Error::Invalid(m) if m.contains("at least one")
    ));
    let bad = JudgePanel::new(vec![JudgeEntry::new(
        "not ok",
        "command",
        Canned::failing(),
    )]);
    assert!(matches!(bad.err().unwrap(), Error::Invalid(m) if m.contains("`not ok`")));
    let twice = JudgePanel::new(vec![
        JudgeEntry::new("a", "command", Canned::failing()),
        JudgeEntry::new("a", "command", Canned::failing()),
    ]);
    assert!(matches!(twice.err().unwrap(), Error::Invalid(m) if m.contains("more than one")));
    assert!(is_valid_label("A-z_09"));
    assert!(!is_valid_label(""));
    assert!(!is_valid_label("a.b"));
}

#[test]
fn every_judge_done_completes_with_each_reason_attributed() {
    let mut panel = panel_of(vec![
        ("a", Canned::deciding(done("tests pass"))),
        ("b", Canned::deciding(done("lint clean"))),
    ]);
    let turn = panel.supervise(&query(), &[], Some("run-user")).unwrap();
    assert_eq!(
        turn.outcome,
        SupervisorOutcome::Completed {
            reason: "[a] tests pass; [b] lint clean".into()
        }
    );
    // Usage is summed across judges.
    assert_eq!(turn.usage.unwrap().input_tokens, Some(4));
    // Every judge is recorded, in list order, and the record drains once.
    let decisions = panel.take_judge_decisions();
    assert_eq!(decisions.len(), 2);
    assert_eq!(decisions[0].judge, "a");
    assert_eq!(decisions[0].kind, "command");
    assert_eq!(decisions[0].decision, Decision::Done);
    assert_eq!(decisions[1].reason, "lint clean");
    assert!(panel.take_judge_decisions().is_empty());
}

#[test]
fn one_judge_continuing_puts_only_its_block_in_the_message() {
    let mut panel = panel_of(vec![
        ("a", Canned::deciding(done("tests pass"))),
        (
            "b",
            Canned::deciding(go_on("Add a test for the empty case.", "no test")),
        ),
    ]);
    let turn = panel.supervise(&query(), &[], None).unwrap();
    assert_eq!(
        turn.outcome,
        SupervisorOutcome::Continue {
            message: "## Judge `b` (command)\n\nAdd a test for the empty case.".into(),
            reason: "[a] tests pass; [b] no test".into(),
        }
    );
}

#[test]
fn several_judges_continuing_give_their_blocks_in_list_order() {
    let mut panel = panel_of(vec![
        ("first", Canned::deciding(go_on("Do one.", "r1"))),
        ("done", Canned::deciding(done("ok"))),
        ("second", Canned::deciding(go_on("Do two.", "r2"))),
    ]);
    let turn = panel.supervise(&query(), &[], None).unwrap();
    assert_eq!(
        turn.outcome,
        SupervisorOutcome::Continue {
            message: "## Judge `first` (command)\n\nDo one.\n\n\
                      ## Judge `second` (command)\n\nDo two."
                .into(),
            reason: "[first] r1; [done] ok; [second] r2".into(),
        }
    );
}

#[test]
fn a_judge_with_no_usable_instruction_contributes_one_line_beside_a_continuing_one() {
    let mut panel = panel_of(vec![
        (
            "silent",
            Canned::deciding(SupervisorOutcome::NoInstruction {
                reason: "not done".into(),
            }),
        ),
        (
            "prose",
            Canned::deciding(SupervisorOutcome::Unparseable {
                problem: "not a JSON object".into(),
                answer: "a paragraph".into(),
            }),
        ),
        ("go", Canned::deciding(go_on("Fix it.", "broken"))),
    ]);
    let turn = panel.supervise(&query(), &[], None).unwrap();
    let SupervisorOutcome::Continue { message, reason } = turn.outcome else {
        panic!("a continuing judge continues the run");
    };
    assert_eq!(
        message,
        "## Judge `silent` (command)\n\n\
         This judge judged the work incomplete but gave no usable instruction (not done).\n\n\
         ## Judge `prose` (command)\n\n\
         This judge judged the work incomplete but gave no usable instruction \
         (its answer did not parse: not a JSON object).\n\n\
         ## Judge `go` (command)\n\nFix it."
    );
    assert_eq!(
        reason,
        "[silent] not done; [prose] not a JSON object; [go] broken"
    );
}

#[test]
fn no_instruction_wins_over_unparseable_and_both_are_attributed() {
    let mut panel = panel_of(vec![
        ("a", Canned::deciding(done("ok"))),
        (
            "b",
            Canned::deciding(SupervisorOutcome::NoInstruction {
                reason: String::new(),
            }),
        ),
        (
            "c",
            Canned::deciding(SupervisorOutcome::Unparseable {
                problem: "prose".into(),
                answer: "words".into(),
            }),
        ),
    ]);
    let turn = panel.supervise(&query(), &[], None).unwrap();
    assert_eq!(
        turn.outcome,
        SupervisorOutcome::NoInstruction {
            // An empty reason keeps its prefix and nothing dangling after it.
            reason: "[a] ok; [b]; [c] prose".into()
        }
    );

    let mut panel = panel_of(vec![
        ("a", Canned::deciding(done("ok"))),
        (
            "b",
            Canned::deciding(SupervisorOutcome::Unparseable {
                problem: "needs boolean `completion`".into(),
                answer: "{}".into(),
            }),
        ),
        (
            "c",
            Canned::deciding(SupervisorOutcome::Unparseable {
                problem: "not a JSON object".into(),
                answer: "words".into(),
            }),
        ),
    ]);
    let turn = panel.supervise(&query(), &[], None).unwrap();
    assert_eq!(
        turn.outcome,
        SupervisorOutcome::Unparseable {
            problem: "[b] needs boolean `completion`; [c] not a JSON object".into(),
            answer: "[b] {}; [c] words".into(),
        }
    );
}

#[test]
fn a_failed_judge_fails_the_call_naming_it_after_every_judge_returned() {
    let mut panel = panel_of(vec![
        ("a", Canned::deciding(go_on("Fix.", "broken"))),
        ("b", Canned::failing()),
    ]);
    let error = panel.supervise(&query(), &[], None).unwrap_err();
    let Error::Provider {
        context,
        message,
        kind,
    } = error
    else {
        panic!("a classified provider error");
    };
    assert_eq!(context, "supervise[b]");
    assert_eq!(kind, Some(ProviderErrorKind::Protocol));
    assert_eq!(
        message,
        "[a] continue: broken; [b] failed: provider error (supervisor): provider exited with 1"
    );
    // The failed call is on the record beside the one that decided.
    let decisions = panel.take_judge_decisions();
    assert_eq!(decisions[0].decision, Decision::Continue);
    assert_eq!(decisions[1].decision, Decision::Error);
    assert_eq!(
        decisions[1].reason,
        "provider error (supervisor): provider exited with 1"
    );
}

#[test]
fn a_panel_of_one_passes_everything_through_untouched() {
    let mut panel = panel_of(vec![("only", Canned::deciding(go_on("Next.", "because")))]);
    let turn = panel.supervise(&query(), &[], Some("run-user")).unwrap();
    assert_eq!(turn.outcome, go_on("Next.", "because"));
    // …including the bare session name.
    assert_eq!(
        panel.judges()[0].provider().sessions.borrow().clone(),
        vec![Some("run-user".to_string())]
    );
    // A decision is still recorded — a panel of one is still a panel.
    assert_eq!(panel.take_judge_decisions().len(), 1);

    let mut failing = panel_of(vec![("only", Canned::failing())]);
    let error = failing.supervise(&query(), &[], None).unwrap_err();
    assert!(
        matches!(&error, Error::Provider { context, kind: Some(ProviderErrorKind::Protocol), .. } if context == "supervisor"),
        "{error:?}"
    );
    let verdict = failing.judge(
        &JudgeQuery {
            kind: JudgeKind::Boolean,
            criterion: "c",
            scale: None,
        },
        &[],
    );
    assert_eq!(verdict.unwrap().reason, "fine");
}

#[test]
fn more_than_one_judge_suffixes_the_session_with_each_label() {
    let mut panel = panel_of(vec![
        ("a", Canned::deciding(done("x"))),
        ("b", Canned::deciding(done("y"))),
    ]);
    panel.supervise(&query(), &[], Some("run-user")).unwrap();
    panel.simulate_user("p", &[], Some("run-user")).unwrap();
    assert_eq!(
        sessions(&panel, 0),
        vec![
            Some("run-user-a".to_string()),
            Some("run-user-a".to_string())
        ]
    );
    assert_eq!(sessions(&panel, 1), vec![Some("run-user-b".to_string())]);
    // And no session stays no session.
    panel.supervise(&query(), &[], None).unwrap();
    assert_eq!(sessions(&panel, 1).last().unwrap(), &None);
}

#[test]
fn boolean_verdicts_conjoin_and_numeric_scores_take_the_minimum() {
    let panel = panel_of(vec![
        ("a", Canned::scoring(JudgeValue::Bool(true), "yes")),
        ("b", Canned::scoring(JudgeValue::Bool(false), "no")),
    ]);
    let verdict = panel
        .judge(
            &JudgeQuery {
                kind: JudgeKind::Boolean,
                criterion: "c",
                scale: None,
            },
            &[],
        )
        .unwrap();
    assert_eq!(verdict.value, JudgeValue::Bool(false));
    assert_eq!(verdict.reason, "[a] yes; [b] no");
    assert_eq!(verdict.usage.unwrap().input_tokens, Some(2));

    let panel = JudgePanel::new(vec![
        entry("a", Canned::scoring(JudgeValue::Number(number(4.0)), "good")),
        entry("b", Canned::scoring(JudgeValue::Number(number(2.5)), "meh")),
        lint("c", Canned::scoring(JudgeValue::Number(number(9.0)), "never asked")),
    ])
    .unwrap();
    let verdict = panel
        .judge_with_evidence(
            &JudgeQuery {
                kind: JudgeKind::Numeric,
                criterion: "c",
                scale: Some((number(0.0), number(10.0))),
            },
            &[],
            &EvidenceContext { worktree: None, history_files: &[], artifacts: &[] },
        )
        .unwrap();
    assert_eq!(verdict.value, JudgeValue::Number(number(2.5)));
    // The judge that cannot score a number is left out entirely.
    assert_eq!(verdict.reason, "[a] good; [b] meh");

    let wrong = panel_of(vec![
        ("a", Canned::scoring(JudgeValue::Bool(true), "yes")),
        ("b", Canned::scoring(JudgeValue::Number(number(1.0)), "one")),
    ]);
    let error = wrong
        .judge(
            &JudgeQuery {
                kind: JudgeKind::Boolean,
                criterion: "c",
                scale: None,
            },
            &[],
        )
        .unwrap_err();
    assert!(matches!(&error, Error::Provider { context, .. } if context == "judge[b]"));
}

fn entry(label: &str, judge: Canned) -> JudgeEntry<Canned> {
    JudgeEntry::new(label, "command", judge)
}

/// A judge that can neither score a number, write prose nor play a user —
/// the shape a lint judge takes.
fn lint(label: &str, judge: Canned) -> JudgeEntry<Canned> {
    entry(label, judge).with_abilities(JudgeAbilities {
        numeric: false,
        prose: false,
        user: false,
    })
}

fn panel_of(judges: Vec<(&str, Canned)>) -> JudgePanel<Canned> {
    JudgePanel::new(
        judges
            .into_iter()
            .map(|(label, judge)| entry(label, judge))
            .collect(),
    )
    .unwrap()
}

#[test]
fn assessments_stack_under_headers_and_skip_a_judge_that_cannot_write() {
    let panel = JudgePanel::new(vec![
        entry("a", Canned::scoring(JudgeValue::Bool(true), "x")),
        lint("lint", Canned::scoring(JudgeValue::Bool(true), "x")),
        entry("b", Canned::scoring(JudgeValue::Bool(true), "x")),
    ])
    .unwrap();
    let assessment = panel.assess("follow-ups", &[]).unwrap();
    assert_eq!(
        assessment.text,
        "## Judge `a` (command)\n\nabout follow-ups\n\n## Judge `b` (command)\n\nabout follow-ups"
    );
    // The legacy user op goes to the first judge that can play one.
    let user = panel.simulate_user("p", &[], Some("s")).unwrap();
    assert_eq!(user.message, "next");
    assert_eq!(
        panel.judges()[0].provider().sessions.borrow().clone(),
        vec![Some("s-a".to_string())]
    );

    let none = JudgePanel::new(vec![lint(
        "lint",
        Canned::scoring(JudgeValue::Bool(true), "x"),
    )])
    .unwrap();
    assert!(matches!(
        none.assess("p", &[]).unwrap_err(),
        Error::Invalid(m) if m.contains("assessment")
    ));
    assert!(matches!(
        none.simulate_user("p", &[], None).unwrap_err(),
        Error::Invalid(m) if m.contains("play the user")
    ));
    assert!(matches!(
        none.judge(&JudgeQuery { kind: JudgeKind::Numeric, criterion: "c", scale: None }, &[])
            .unwrap_err(),
        Error::Invalid(m) if m.contains("score a number")
    ));
}

#[test]
fn a_judge_that_fails_a_verdict_or_an_assessment_fails_the_call_naming_it() {
    let mut panel = panel_of(vec![
        ("a", Canned::scoring(JudgeValue::Bool(true), "yes")),
        ("b", Canned::broken()),
    ]);
    let query = JudgeQuery {
        kind: JudgeKind::Boolean,
        criterion: "c",
        scale: None,
    };
    let error = panel.judge(&query, &[]).unwrap_err();
    let Error::Provider {
        context,
        message,
        kind,
    } = error
    else {
        panic!("a classified provider error")
    };
    assert_eq!(context, "judge[b]");
    // The failing judge's own classification is preserved.
    assert_eq!(kind, Some(ProviderErrorKind::Spawn));
    assert_eq!(
        message,
        "[a] true: yes; [b] failed: provider error (judge): no output"
    );

    let error = panel.assess("p", &[]).unwrap_err();
    assert!(
        matches!(&error, Error::Provider { context, kind: None, message }
            if context == "assess[b]"
                && message == "[a] wrote an assessment; [b] failed: provider error (assess): no output"),
        "{error:?}"
    );
    // Verdict and assessment calls record no decision: only the per-turn
    // supervisor decision is a judge's decision on the work.
    assert!(panel.take_judge_decisions().is_empty());
}

#[test]
fn a_panel_runs_no_agent_turn_and_stamps_telemetry_only_when_it_has_more_than_one_judge() {
    let mut panel = panel_of(vec![("only", Canned::deciding(done("x")))]);
    let skill = SkillRef {
        name: "s",
        dir: "/s",
        instructions: "i",
    };
    assert!(matches!(
        panel.respond(&skill, &[], None).unwrap_err(),
        Error::Invalid(m) if m.contains("no agent turn")
    ));
    assert!(matches!(
        panel
            .respond_streaming(&skill, &[], None, &mut Watch)
            .unwrap_err(),
        Error::Invalid(_)
    ));
    assert!(panel.invocation_telemetry().is_empty());
    assert!(panel.spawned_processes().is_empty());
    assert_eq!(
        panel.supervisor_control(),
        ControlOutcome::NotRequested
    );
    assert_eq!(panel.control(), ControlOutcome::NotRequested);
    panel.reset_telemetry();
    // A rebuilt panel keeps its judges in order.
    let rebuilt = panel.map_judges(|j| j);
    assert_eq!(rebuilt.judges()[0].label(), "only");
    assert_eq!(rebuilt.judges()[0].kind(), "command");
    assert!(rebuilt.judges()[0].abilities().numeric);
}

#[test]
fn answers_gathered_elsewhere_combine_as_the_panels_own_do() {
    let mut panel = panel_of(vec![
        ("a", Canned::deciding(done("x"))),
        ("b", Canned::deciding(go_on("Go.", "y"))),
    ]);
    let asked = panel.supervise(&query(), &[], None).unwrap();
    let answers = vec![
        (
            0,
            Ok(SupervisorTurn {
                outcome: done("x"),
                usage: None,
            }),
        ),
        (
            1,
            Ok(SupervisorTurn {
                outcome: go_on("Go.", "y"),
                usage: None,
            }),
        ),
    ];
    let combined = panel.combine_supervision(answers).unwrap();
    assert_eq!(combined.outcome, asked.outcome);
    assert_eq!(combined.usage, None);
    assert_eq!(panel.take_judge_decisions().len(), 4);
}

#[test]
fn a_panel_decides_on_lost_turns_only_where_every_judge_does() {
    struct Keen(bool);
    impl Provider for Keen {
        fn respond(
            &self,
            _: &SkillRef<'_>,
            _: &[Message],
            _: Option<&str>,
        ) -> Result<AssistantTurn, Error> {
            unreachable!("a judge never responds")
        }
        fn simulate_user(
            &self,
            _: &str,
            _: &[Message],
            _: Option<&str>,
        ) -> Result<UserTurn, Error> {
            unreachable!("nobody plays the user")
        }
        fn supervise(
            &self,
            _: &SupervisorQuery<'_>,
            _: &[Message],
            _: Option<&str>,
        ) -> Result<SupervisorTurn, Error> {
            unreachable!("nobody supervises")
        }
        fn judge(&self, _: &JudgeQuery<'_>, _: &[Message]) -> Result<JudgeVerdict, Error> {
            unreachable!("nobody judges")
        }
        fn assess(&self, _: &str, _: &[Message]) -> Result<Assessment, Error> {
            unreachable!("nobody assesses")
        }
        fn supervises_lost_turns(&self) -> bool {
            self.0
        }
    }
    let panel = |answers: Vec<bool>| {
        let entries = answers
            .into_iter()
            .enumerate()
            .map(|(i, keen)| JudgeEntry::new(&format!("j{i}"), "command", Keen(keen)))
            .collect();
        JudgePanel::new(entries).ok().unwrap()
    };
    assert!(panel(vec![true, true]).supervises_lost_turns());
    assert!(!panel(vec![true, false]).supervises_lost_turns());
    assert!(!panel(vec![false]).supervises_lost_turns());
}

/// A skill runner that says what it was asked.
struct Runs;

impl Provider for Runs {
    fn respond(
        &self,
        skill: &SkillRef<'_>,
        messages: &[Message],
        _: Option<&str>,
    ) -> Result<AssistantTurn, Error> {
        Ok(AssistantTurn {
            message: format!("{}: {}", skill.name, messages.len()),
            ..AssistantTurn::default()
        })
    }

    fn simulate_user(&self, _: &str, _: &[Message], _: Option<&str>) -> Result<UserTurn, Error> {
        unreachable!("a runner plays no user")
    }

    fn supervise(
        &self,
        _: &SupervisorQuery<'_>,
        _: &[Message],
        _: Option<&str>,
    ) -> Result<SupervisorTurn, Error> {
        unreachable!("a runner decides nothing")
    }

    fn judge(&self, _: &JudgeQuery<'_>, _: &[Message]) -> Result<JudgeVerdict, Error> {
        unreachable!("a runner judges nothing")
    }

    fn assess(&self, _: &str, _: &[Message]) -> Result<Assessment, Error> {
        unreachable!("a runner writes nothing")
    }

    fn control(&self) -> ControlOutcome {
        ControlOutcome::Unavailable("the runner has none".into())
    }
}

#[test]
fn a_split_asks_each_side_for_what_is_its_own() {
    let panel = panel_of(vec![
        ("a", Canned::deciding(done("tests pass"))),
        ("b", Canned::deciding(done("lint clean"))),
    ]);
    let mut split = SplitProvider::new(Runs, panel);
    let skill = SkillRef {
        name: "greeter",
        dir: "/s",
        instructions: "",
    };
    let turn = split.respond(&skill, &[Message::user("hi")], None).unwrap();
    assert_eq!(turn.message, "greeter: 1");
    assert!(matches!(
        split.control(),
        ControlOutcome::Unavailable(reason) if reason == "the runner has none"
    ));
    assert!(matches!(
        split.supervisor_control(),
        ControlOutcome::NotRequested
    ));
    assert_eq!(split.simulate_user("p", &[], None).unwrap().message, "next");
    assert_eq!(
        split.supervise(&query(), &[], None).unwrap().outcome,
        done("[a] tests pass; [b] lint clean")
    );
    let boolean = JudgeQuery {
        kind: JudgeKind::Boolean,
        criterion: "c",
        scale: None,
    };
    let verdict = split.judge(&boolean, &[]).unwrap();
    assert_eq!(verdict.value, JudgeValue::Bool(true));
    assert!(split.assess("it", &[]).unwrap().text.contains("about it"));
    assert!(!split.supervises_lost_turns());
    assert!(split.invocation_telemetry().is_empty());
    assert!(split.spawned_processes().is_empty());
    assert_eq!(split.take_judge_decisions().len(), 2);
    split.supervise(&query(), &[], None).unwrap();
    split.reset_telemetry();
    assert!(split.take_judge_decisions().is_empty());
    assert_eq!(split.judges().judges().len(), 2);
    assert!(split.skill().invocation_telemetry().is_empty());
}
