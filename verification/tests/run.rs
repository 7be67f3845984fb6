use onejudge::cli::config::{Config, EvalConfig, Plan, UserConfig};
use onejudge::cli::config::CliError;
use onejudge::cli::run::{
    execute, exit_code, recorded, render_human, EvalOutcome, RunSummary,
};
use onejudge::engine::Discard;
use onejudge::{
    Assessment, Assessor, AssistantTurn, Engine, Error, EventSink, JudgeKind, JudgeQuery,
    InvocationTelemetry, JudgeValue, JudgeVerdict, Message, Number, PlatformProvider,
    ProviderErrorKind, Report, SkillRef, SpawnedProcess, StreamingProvider, TelemetryRole,
    Transcript, UserTurn,
};

fn number(x: f64) -> Number {
    Number::new(x.to_bits(), &x.to_string(), &format!("{x:?}"))
}

/// Answers every boolean with `holds`, every score with 4.5.
struct Canned {
    holds: bool,
    broken: bool,
}

impl PlatformProvider for Canned {
    fn respond(
        &self,
        _: &str,
        _: &str,
        _: &SkillRef<'_>,
        _: &[Message],
        _: Option<&str>,
    ) -> Result<AssistantTurn, Error> {
        Ok(AssistantTurn {
            message: "working".into(),
            ..AssistantTurn::default()
        })
    }

    fn simulate_user(
        &self,
        _: &str,
        _: &str,
        _: &[Message],
        _: Option<&str>,
    ) -> Result<UserTurn, Error> {
        Ok(UserTurn {
            message: "go on".into(),
            ..UserTurn::default()
        })
    }

    fn judge(
        &self,
        _: &str,
        query: &JudgeQuery<'_>,
        _: &[Message],
    ) -> Result<JudgeVerdict, Error> {
        if self.broken {
            return Err(Error::provider_classified(
                "judge",
                "down",
                ProviderErrorKind::Overloaded,
            ));
        }
        Ok(JudgeVerdict {
            value: match query.kind {
                JudgeKind::Boolean => JudgeValue::Bool(self.holds),
                JudgeKind::Numeric => JudgeValue::Number(number(4.5)),
            },
            reason: "because".into(),
            usage: None,
        })
    }
}

impl<S: EventSink> StreamingProvider<S> for Canned {}

impl Assessor for Canned {
    fn assess(&self, prompt: &str, _: &[Message]) -> Result<Assessment, Error> {
        Ok(Assessment {
            text: format!("about {prompt}"),
            usage: None,
        })
    }
}

fn plan(done_when: Option<&str>, evals: Vec<EvalConfig>) -> Plan {
    Config {
        task: Some("do it".into()),
        user: Some(UserConfig {
            persona: "p".into(),
            done_when: done_when.map(String::from),
            max_turns: Some(2),
            ..UserConfig::default()
        }),
        evals,
        assessment: Some("follow-ups".into()),
        ..Config::default()
    }
    .into_plan(None)
    .unwrap()
}

fn eval(kind: JudgeKind) -> EvalConfig {
    EvalConfig {
        criterion: "it works".into(),
        kind,
        scale: None,
    }
}

fn run(provider: &Canned, plan: &Plan) -> Result<RunSummary, onejudge::cli::config::CliError> {
    let settings = onejudge::Settings::new("", "", "").with_max_turns(plan.settings.max_turns);
    execute(&Engine::new(provider, settings), plan, None::<Discard>)
}

#[test]
fn a_run_is_judged_scored_and_assessed() {
    let provider = Canned {
        holds: true,
        broken: false,
    };
    let plan = plan(
        Some("done"),
        vec![eval(JudgeKind::Boolean), eval(JudgeKind::Numeric)],
    );
    let summary = run(&provider, &plan).unwrap();
    assert!(summary.completed);
    assert!(!summary.hit_max_turns);
    assert_eq!(summary.report.transcript.assistant_turns(), 1);
    assert!(summary.done_when.as_ref().unwrap().satisfied);
    assert_eq!(summary.eval_results[0].outcome, EvalOutcome::Boolean(true));
    assert_eq!(
        summary.eval_results[1].outcome,
        EvalOutcome::Numeric(number(4.5))
    );
    assert_eq!(
        summary.report.assessment.as_deref(),
        Some("about follow-ups")
    );
    assert_eq!(exit_code(&summary), 0);
    assert!(render_human(&summary, None).contains("[4.5] it works"));
}

#[test]
fn a_run_that_never_satisfies_its_condition_hits_the_cap() {
    let provider = Canned {
        holds: false,
        broken: false,
    };
    let plan = plan(Some("done"), vec![]);
    let summary = run(&provider, &plan).unwrap();
    assert!(!summary.completed);
    assert!(summary.hit_max_turns);
    assert_eq!(summary.max_turns, 2);
    assert_eq!(summary.report.transcript.assistant_turns(), 2);
    assert_eq!(exit_code(&summary), 1);
}

#[test]
fn a_failing_judge_fails_the_run() {
    let provider = Canned {
        holds: true,
        broken: true,
    };
    let plan = plan(None, vec![eval(JudgeKind::Boolean)]);
    assert!(matches!(
        run(&provider, &plan),
        Err(onejudge::cli::config::CliError::Engine(err))
            if err.kind() == Some(ProviderErrorKind::Overloaded)
    ));
}

#[test]
fn a_failed_run_carries_the_records_that_a_successful_one_does() {
    let telemetry = || {
        vec![InvocationTelemetry {
            tool_ms: Some(7),
            ..InvocationTelemetry::default()
        }]
    };
    let processes = || {
        vec![SpawnedProcess {
            pid: 42,
            role: TelemetryRole::Agent,
            op: "respond".into(),
            program: "p".into(),
            judge: None,
        }]
    };
    let summary = || RunSummary {
        report: Report::new(Transcript::from_input("hi"), vec![], None, false),
        completed: true,
        hit_max_turns: false,
        max_turns: 8,
        done_when: None,
        eval_results: vec![],
    };
    let done = recorded(Ok(summary()), telemetry(), processes()).ok().unwrap();
    assert_eq!(done.report.telemetry, telemetry());
    assert_eq!(done.report.processes, processes());
    assert_eq!(done.report.transcript, summary().report.transcript);
    assert!(done.completed);
    let error = CliError::Engine(Error::provider("respond", "no output"));
    let failed = recorded(Err(error), telemetry(), processes()).err().unwrap();
    assert!(matches!(failed.error, CliError::Engine(err) if err.render().contains("no output")));
    assert_eq!(failed.telemetry, Some(telemetry()));
    assert_eq!(failed.processes, processes());
}
