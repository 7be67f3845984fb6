use onejudge::engine::{Bounds, Next, Progress};
use onejudge::{
    Assessment, Assessor, AssistantTurn, Conversation, Engine, Error, EventSink, JudgeKind,
    JudgeQuery, JudgeValue, JudgeVerdict, Message, NamedVerdict, Number, PlatformProvider, Role,
    Settings, SimulatedUser, Skill, SkillRef, StreamEvent, StreamingProvider, ToolEvent,
    Transcript, Usage, UserTurn,
};
use std::cell::RefCell;
use std::ops::ControlFlow;

/// An in-memory provider scripted with canned turns, so the loop's orchestration is
/// testable without a subprocess.
struct Scripted {
    assistant: Vec<AssistantTurn>,
    user: Vec<UserTurn>,
    judge: Vec<JudgeVerdict>,
    capable: bool,
    seen: RefCell<Seen>,
}

#[derive(Default)]
struct Seen {
    assistant: usize,
    user: usize,
    judge: usize,
    skill_sessions: Vec<Option<String>>,
    user_sessions: Vec<Option<String>>,
}

impl PlatformProvider for Scripted {
    fn respond(
        &self,
        _platform: &str,
        _model: &str,
        _skill: &SkillRef<'_>,
        _messages: &[Message],
        session: Option<&str>,
    ) -> Result<AssistantTurn, Error> {
        let mut seen = self.seen.borrow_mut();
        seen.skill_sessions.push(session.map(String::from));
        let i = seen.assistant.min(self.assistant.len() - 1);
        seen.assistant += 1;
        Ok(self.assistant[i].clone())
    }

    fn simulate_user(
        &self,
        _model: &str,
        _persona: &str,
        _messages: &[Message],
        session: Option<&str>,
    ) -> Result<UserTurn, Error> {
        let mut seen = self.seen.borrow_mut();
        seen.user_sessions.push(session.map(String::from));
        let i = seen.user.min(self.user.len() - 1);
        seen.user += 1;
        Ok(self.user[i].clone())
    }

    fn judge(
        &self,
        _model: &str,
        _query: &JudgeQuery<'_>,
        _messages: &[Message],
    ) -> Result<JudgeVerdict, Error> {
        let mut seen = self.seen.borrow_mut();
        let i = seen.judge.min(self.judge.len().saturating_sub(1));
        seen.judge += 1;
        Ok(self.judge[i].clone())
    }

    fn session_capable(&self, _platform: &str) -> bool {
        self.capable
    }
}

impl<S: EventSink> StreamingProvider<S> for Scripted {}

impl Assessor for Scripted {
    fn assess(&self, prompt: &str, messages: &[Message]) -> Result<Assessment, Error> {
        Ok(Assessment {
            text: format!("{prompt}: {}", messages.len()),
            usage: None,
        })
    }
}

fn scripted(assistant: Vec<AssistantTurn>, user: Vec<UserTurn>, judge: Vec<JudgeVerdict>) -> Scripted {
    Scripted {
        assistant,
        user,
        judge,
        capable: false,
        seen: RefCell::default(),
    }
}

fn assistant(msg: &str, done: bool) -> AssistantTurn {
    AssistantTurn {
        message: msg.into(),
        done,
        ..AssistantTurn::default()
    }
}

fn says(message: &str, stop: bool) -> UserTurn {
    UserTurn {
        message: message.into(),
        stop,
        usage: None,
    }
}

fn rules(value: bool) -> JudgeVerdict {
    JudgeVerdict {
        value: JudgeValue::Bool(value),
        reason: String::new(),
        usage: None,
    }
}

/// The id of the first registered harness.
fn harness_id() -> &'static str {
    oneharness_core::domain::harness::all()[0].id
}

fn number(x: f64) -> Number {
    let json = if x == x.trunc() { format!("{x}.0") } else { format!("{x}") };
    Number::new(x.to_bits(), &x.to_string(), &json)
}

fn skill() -> Skill {
    Skill::new("greeter", "/skills/greeter", "Greet the user.")
}

fn settings() -> Settings {
    Settings::new(harness_id(), "sonnet", "opus")
}

fn tool_call() -> ToolEvent {
    ToolEvent {
        kind: "tool_call".into(),
        name: Some("bash".into()),
        input: None,
        output: None,
        index: 0,
        tool_call_id: None,
    }
}

/// Breaks at the first event, and counts.
struct Breaks {
    seen: usize,
}

impl EventSink for Breaks {
    fn on_event(&mut self, _event: &StreamEvent<'_>) -> ControlFlow<()> {
        self.seen += 1;
        ControlFlow::Break(())
    }
}

/// Looks at everything, and keeps what it was told.
#[derive(Default)]
struct Watches {
    turns: Vec<(String, String, usize)>,
}

impl EventSink for Watches {
    fn on_event(&mut self, event: &StreamEvent<'_>) -> ControlFlow<()> {
        self.turns
            .push((event.platform.into(), event.model.into(), event.turn));
        ControlFlow::Continue(())
    }
}

#[test]
fn single_turn_stops_after_one_reply() {
    let provider = scripted(vec![assistant("hi there", false)], vec![], vec![]);
    let engine = Engine::new(&provider, settings());
    let outcome = engine
        .run(&Conversation::single_turn(skill(), "hello"))
        .unwrap();
    assert_eq!(outcome.transcript.assistant_turns(), 1);
    assert!(!outcome.stopped_early);
    assert_eq!(provider.seen.borrow().assistant, 1);
}

#[test]
fn multi_turn_runs_to_max_turns_without_done_when() {
    let provider = scripted(vec![assistant("a", false)], vec![says("more", false)], vec![]);
    let engine = Engine::new(&provider, settings());
    let user = SimulatedUser::new("keep going").max_turns(3);
    let outcome = engine
        .run(&Conversation::multi_turn(skill(), "start", user))
        .unwrap();
    assert_eq!(outcome.transcript.assistant_turns(), 3);
}

#[test]
fn done_when_ends_the_loop_early() {
    // First done_when check is false, second is true -> stop after turn 2.
    let provider = scripted(
        vec![assistant("working", false)],
        vec![says("ok", false)],
        vec![rules(false), rules(true)],
    );
    let engine = Engine::new(&provider, settings());
    let user = SimulatedUser::new("shopper")
        .done_when("the booking is confirmed")
        .max_turns(8);
    let outcome = engine
        .run(&Conversation::multi_turn(skill(), "book me", user))
        .unwrap();
    assert_eq!(outcome.transcript.assistant_turns(), 2);
    assert_eq!(provider.seen.borrow().judge, 2);
}

#[test]
fn skill_done_and_user_stop_both_end_the_loop() {
    // skill declares done on turn 1.
    let done_provider = scripted(vec![assistant("all set", true)], vec![], vec![]);
    let engine = Engine::new(&done_provider, settings());
    let user = SimulatedUser::new("x").max_turns(5);
    let outcome = engine
        .run(&Conversation::multi_turn(skill(), "go", user))
        .unwrap();
    assert_eq!(outcome.transcript.assistant_turns(), 1);

    // user stops after turn 1.
    let stop_provider = scripted(vec![assistant("hi", false)], vec![says("bye", true)], vec![]);
    let engine = Engine::new(&stop_provider, settings());
    let outcome = engine
        .run(&Conversation::multi_turn(
            skill(),
            "go",
            SimulatedUser::new("x").max_turns(5),
        ))
        .unwrap();
    assert_eq!(outcome.transcript.assistant_turns(), 1);
    assert_eq!(stop_provider.seen.borrow().user, 1);
}

#[test]
fn session_name_threads_only_when_capable() {
    let mut provider = scripted(vec![assistant("a", false)], vec![says("again", false)], vec![]);
    provider.capable = true;
    let engine = Engine::new(&provider, settings().with_session_name("run-42"));
    engine
        .run(&Conversation::multi_turn(
            skill(),
            "go",
            SimulatedUser::new("x").max_turns(2),
        ))
        .unwrap();
    let seen = provider.seen.borrow();
    assert!(seen
        .skill_sessions
        .iter()
        .all(|s| s.as_deref() == Some("run-42-skill")));
    assert!(seen
        .user_sessions
        .iter()
        .all(|s| s.as_deref() == Some("run-42-user")));
    assert_eq!(seen.skill_sessions.len(), 2);
    assert_eq!(seen.user_sessions.len(), 1);
}

#[test]
fn session_name_absent_when_not_capable() {
    let provider = scripted(vec![assistant("a", true)], vec![], vec![]);
    let engine = Engine::new(&provider, settings());
    engine
        .run(&Conversation::single_turn(skill(), "go"))
        .unwrap();
    assert_eq!(provider.seen.borrow().skill_sessions, vec![None]);
}

#[test]
fn usage_is_aggregated_across_calls() {
    let provider = scripted(
        vec![AssistantTurn {
            message: "a".into(),
            done: true,
            usage: Some(Usage {
                input_tokens: Some(5),
                output_tokens: Some(2),
                cache_read_tokens: None,
                cache_write_tokens: None,
                costs: vec![],
            }),
            events: vec![],
        }],
        vec![],
        vec![],
    );
    let engine = Engine::new(&provider, settings());
    let outcome = engine
        .run(&Conversation::single_turn(skill(), "go"))
        .unwrap();
    let usage = outcome.usage.unwrap();
    assert_eq!(usage.input_tokens, Some(5));
    assert_eq!(usage.output_tokens, Some(2));
}

#[test]
fn streaming_break_short_circuits() {
    let provider = scripted(
        vec![AssistantTurn {
            message: "working".into(),
            done: false,
            usage: None,
            events: vec![tool_call()],
        }],
        vec![],
        vec![],
    );
    let engine = Engine::new(&provider, settings());
    let (outcome, sink) = engine.run_streaming(
        &Conversation::multi_turn(skill(), "go", SimulatedUser::new("x").max_turns(9)),
        Breaks { seen: 0 },
    );
    let outcome = outcome.unwrap();
    assert!(outcome.stopped_early);
    assert_eq!(sink.seen, 1);
    // The run stopped on turn 1; the simulated user never spoke.
    assert_eq!(provider.seen.borrow().user, 0);
}

#[test]
fn judge_numeric_rejects_inverted_scale() {
    let provider = scripted(vec![], vec![], vec![]);
    let engine = Engine::new(&provider, settings());
    let err = engine
        .judge_numeric("x", number(10.0), number(1.0), &Transcript::default())
        .unwrap_err();
    assert!(matches!(err, Error::Invalid(_)));
}

#[test]
fn only_an_inverted_scale_is_rejected_before_the_judge_is_asked() {
    let verdict = JudgeVerdict {
        value: JudgeValue::Number(number(1.0)),
        reason: String::new(),
        usage: None,
    };
    let provider = scripted(vec![], vec![], vec![verdict]);
    let engine = Engine::new(&provider, settings());
    for (low, high) in [(-1.0, -2.0), (1.0, -1.0), (0.5, 0.25)] {
        let err = engine
            .judge_numeric("x", number(low), number(high), &Transcript::default())
            .unwrap_err();
        assert!(matches!(err, Error::Invalid(_)), "{low} {high}");
    }
    assert_eq!(provider.seen.borrow().judge, 0);
    // No bound is greater than an equal one, or than what is no number.
    for (low, high) in [(1.0, 1.0), (f64::NAN, 1.0), (1.0, f64::NAN), (0.0, -0.0)] {
        assert!(engine
            .judge_numeric("x", number(low), number(high), &Transcript::default())
            .is_ok());
    }
}

#[test]
fn a_score_is_the_number_the_judge_gave() {
    let verdict = JudgeVerdict {
        value: JudgeValue::Number(number(7.5)),
        reason: "solid".into(),
        usage: None,
    };
    let provider = scripted(vec![], vec![], vec![verdict.clone()]);
    let engine = Engine::new(&provider, settings());
    let given = engine
        .judge_numeric("x", number(-1.0), number(10.0), &Transcript::default())
        .unwrap();
    assert_eq!(given, verdict);
}

#[test]
fn the_cap_of_the_settings_holds_where_the_user_sets_none() {
    let provider = scripted(vec![assistant("a", false)], vec![says("more", false)], vec![]);
    let engine = Engine::new(&provider, settings());
    let outcome = engine
        .run(&Conversation::multi_turn(
            skill(),
            "start",
            SimulatedUser::new("keep going"),
        ))
        .unwrap();
    assert_eq!(outcome.transcript.assistant_turns(), 8);
    let engine = Engine::new(&provider, settings().with_max_turns(2));
    let outcome = engine
        .run(&Conversation::multi_turn(
            skill(),
            "start",
            SimulatedUser::new("keep going"),
        ))
        .unwrap();
    assert_eq!(outcome.transcript.assistant_turns(), 2);
    // No cap leaves room for less than one turn.
    let outcome = engine
        .run(&Conversation::multi_turn(
            skill(),
            "start",
            SimulatedUser::new("keep going").max_turns(0),
        ))
        .unwrap();
    assert_eq!(outcome.transcript.assistant_turns(), 1);
}

#[test]
fn a_stream_is_tagged_with_its_turn() {
    let provider = scripted(
        vec![AssistantTurn {
            message: "working".into(),
            done: false,
            usage: None,
            events: vec![tool_call()],
        }],
        vec![says("on", false)],
        vec![],
    );
    let engine = Engine::new(&provider, settings());
    let (outcome, sink) = engine.run_streaming(
        &Conversation::multi_turn(skill(), "go", SimulatedUser::new("x").max_turns(2)),
        Watches::default(),
    );
    let outcome = outcome.unwrap();
    assert!(!outcome.stopped_early);
    let tags: Vec<usize> = sink.turns.iter().map(|t| t.2).collect();
    assert_eq!(tags, vec![1, 2]);
    assert!(sink.turns.iter().all(|t| t.0 == harness_id() && t.1 == "sonnet"));
    assert_eq!(outcome.transcript.messages[1].events.len(), 1);
}

#[test]
fn a_run_becomes_a_report_of_what_was_said() {
    let provider = scripted(vec![assistant("hi there", false)], vec![], vec![]);
    let engine = Engine::new(&provider, settings());
    let outcome = engine
        .run(&Conversation::single_turn(skill(), "hello"))
        .unwrap();
    assert_eq!(outcome.transcript.messages.len(), 2);
    assert!(matches!(outcome.transcript.messages[0].role, Role::User));
    assert_eq!(outcome.transcript.messages[0].content, "hello");
    assert_eq!(outcome.transcript.messages[1].content, "hi there");
    let assessment = engine.assess("sum up", &outcome.transcript).unwrap();
    assert_eq!(assessment.text, "sum up: 2");
    let verdict = NamedVerdict::new("c", JudgeKind::Boolean, rules(true));
    let report = outcome.into_report(vec![verdict]);
    assert_eq!(report.schema_version, onejudge::SCHEMA_VERSION);
    assert_eq!(report.verdicts.len(), 1);
    assert_eq!(report.transcript.messages.len(), 2);
    assert_eq!(report.usage, None);
}

#[test]
fn the_steps_of_a_run_follow_from_its_bounds() {
    let conversation = Conversation::multi_turn(
        skill(),
        "go",
        SimulatedUser::new("x").done_when("it holds").max_turns(2),
    );
    let bounds = Bounds::of(&conversation, &settings());
    let mut progress = Progress::new("go");
    assert_eq!(
        progress.after_reply(assistant("a", false), false, &bounds),
        Next::Judge
    );
    assert_eq!(progress.after_verdict(&rules(false)), Next::AskUser);
    assert_eq!(progress.after_user(says("b", false)), Next::Respond);
    let done = progress.after_reply(assistant("c", true), false, &bounds);
    assert!(matches!(done, Next::Finish { stopped_early: false }));
}

#[test]
fn a_break_leaves_the_rest_of_the_events_unseen() {
    let provider = scripted(
        vec![AssistantTurn {
            message: "working".into(),
            done: false,
            usage: None,
            events: vec![tool_call(), tool_call(), tool_call()],
        }],
        vec![],
        vec![],
    );
    let engine = Engine::new(&provider, settings());
    let (outcome, sink) = engine.run_streaming(
        &Conversation::multi_turn(skill(), "go", SimulatedUser::new("x").max_turns(9)),
        Breaks { seen: 0 },
    );
    let outcome = outcome.unwrap();
    assert_eq!(sink.seen, 1);
    assert!(outcome.stopped_early);
    assert_eq!(outcome.transcript.messages[1].events.len(), 3);
}

#[test]
fn a_sink_that_only_watches_changes_nothing() {
    let turn = AssistantTurn {
        message: "working".into(),
        done: false,
        usage: Some(Usage {
            input_tokens: Some(3),
            ..Usage::none()
        }),
        events: vec![tool_call()],
    };
    let conversation =
        || Conversation::multi_turn(skill(), "go", SimulatedUser::new("x").max_turns(3));
    let plain = scripted(vec![turn.clone()], vec![says("on", false)], vec![]);
    let buffered = Engine::new(&plain, settings()).run(&conversation()).unwrap();
    let watched = scripted(vec![turn], vec![says("on", false)], vec![]);
    let (streamed, sink) =
        Engine::new(&watched, settings()).run_streaming(&conversation(), Watches::default());
    let streamed = streamed.unwrap();
    assert_eq!(sink.turns.len(), 3);
    assert_eq!(streamed.transcript, buffered.transcript);
    assert_eq!(streamed.usage, buffered.usage);
    assert_eq!(streamed.usage.unwrap().input_tokens, Some(9));
    assert!(!streamed.stopped_early && !buffered.stopped_early);
}
