use onejudge::cli::args::{
    rebase_skill, resolve_config_path, stdin_task, Format, InitArgs, RunArgs, MIN_ONEHARNESS,
};
use onejudge::cli::config::{CliError, Config, JudgeSpec, ProviderSpec};
use onejudge::cli::provider::AnyProvider;
use onejudge::cli::run::{
    exit_code, render_eval, render_human, render_usage, DoneWhen, EvalOutcome, EvalResult,
    FailureReport, RunFailure, RunSummary,
};
use onejudge::llmlint::LintRun;
use onejudge::{Error, Number, ProviderErrorKind, Report, Transcript, Usage};

fn number(x: f64) -> Number {
    Number::new(x.to_bits(), &x.to_string(), &format!("{x:?}"))
}

/// No executable answers here.
fn probe(_bin: &str) -> LintRun {
    LintRun::NotStarted("No such file or directory (os error 2)".into())
}

/// A `major.minor.patch` string as comparable numbers.
fn version_parts(version: &str) -> (u32, u32, u32) {
    let mut parts = version.split('.').map(|p| p.parse::<u32>().unwrap_or(0));
    (
        parts.next().unwrap_or(0),
        parts.next().unwrap_or(0),
        parts.next().unwrap_or(0),
    )
}

#[test]
fn the_advertised_oneharness_minimum_tracks_the_pin_and_the_prose() {
    // The version an operator is told to install is the first whose `run --control`
    // opens a turn-control socket, and everything an operator reads repeats it.
    assert_eq!(version_parts(MIN_ONEHARNESS), (0, 6, 14));
    let args = InitArgs {
        path: "onejudge.yaml".into(),
        force: false,
        oneharness_bin: "oneharness".into(),
    };
    let told = args.scaffold_unstarted("oneharness.toml", "not found").render();
    assert!(
        told.contains(MIN_ONEHARNESS),
        "the scaffold's refusal does not mention the advertised oneharness minimum {MIN_ONEHARNESS}"
    );
}

fn summary(completed: bool, hit_max: bool, evals: Vec<EvalResult>) -> RunSummary {
    RunSummary {
        report: Report::new(Transcript::from_input("hi"), vec![], None, false),
        completed,
        hit_max_turns: hit_max,
        max_turns: 8,
        done_when: None,
        eval_results: evals,
    }
}

fn bool_eval(passed: bool) -> EvalResult {
    EvalResult {
        criterion: "it works".into(),
        outcome: EvalOutcome::Boolean(passed),
        reason: "because".into(),
    }
}

#[test]
fn exit_zero_only_when_completed_and_evals_pass() {
    assert_eq!(exit_code(&summary(true, false, vec![])), 0);
    assert_eq!(exit_code(&summary(false, true, vec![])), 1);
    assert_eq!(exit_code(&summary(true, false, vec![bool_eval(true)])), 0);
    assert_eq!(exit_code(&summary(true, false, vec![bool_eval(false)])), 1);
}

#[test]
fn numeric_eval_never_fails_the_run() {
    let numeric = EvalResult {
        criterion: "quality".into(),
        outcome: EvalOutcome::Numeric(number(2.0)),
        reason: String::new(),
    };
    assert_eq!(exit_code(&summary(true, false, vec![numeric])), 0);
}

#[test]
fn human_render_shows_status_and_evals() {
    let s = summary(false, true, vec![bool_eval(false)]);
    let out = render_human(&s, None);
    assert!(out.contains("=== Conversation ==="));
    assert!(out.contains("hit the turn cap (8)"));
    assert!(out.contains("[FAIL] it works"));
}

#[test]
fn human_render_shows_completion_line() {
    let mut s = summary(true, false, vec![]);
    s.done_when = Some(DoneWhen {
        criterion: "tests pass".into(),
        satisfied: true,
    });
    let out = render_human(&s, None);
    assert!(out.contains("Completion: \"tests pass\" — satisfied"));
    assert!(out.contains("Status: completed"));
}

#[test]
fn render_eval_marks_each_kind() {
    assert!(render_eval(&bool_eval(true)).starts_with("[PASS]"));
    assert!(render_eval(&bool_eval(false)).starts_with("[FAIL]"));
    let numeric = EvalResult {
        criterion: "q".into(),
        outcome: EvalOutcome::Numeric(number(4.5)),
        reason: String::new(),
    };
    assert!(render_eval(&numeric).starts_with("[4.5]"));
}

#[test]
fn builds_oneharness_and_command_backends() {
    let oh = AnyProvider::build(
        &ProviderSpec::Oneharness {
        bin: Some("oneharness".into()),
        judge_config: Some("oneharness.judge.toml".into()),
        stream: false,
        control: false,
        mock_harness: Vec::new(),
        },
        &probe,
    )
    .ok()
    .unwrap();
    assert!(matches!(oh, AnyProvider::Oneharness(_)));

    let cmd = AnyProvider::build(
        &ProviderSpec::Command {
            command: vec!["prov".into()],
        },
        &probe,
    )
    .ok()
    .unwrap();
    assert!(matches!(cmd, AnyProvider::Command(_)));
}

#[test]
fn empty_command_argv_is_rejected() {
    let result = AnyProvider::build(&ProviderSpec::Command { command: vec![] }, &probe);
    assert!(matches!(result, Err(CliError::Config(_))));
}

#[test]
fn build_split_composes_children() {
    let spec = ProviderSpec::Split {
        skill: Box::new(ProviderSpec::Oneharness {
            bin: Some("oneharness".into()),
            judge_config: None,
            stream: true,
            control: false,
            mock_harness: Vec::new(),
        }),
        judges: vec![
            JudgeSpec {
                label: "command".into(),
                provider: ProviderSpec::Command {
                    command: vec!["judge".into()],
                },
            },
            JudgeSpec {
                label: "auditor".into(),
                provider: ProviderSpec::Oneharness {
                    bin: None,
                    judge_config: None,
                    stream: false,
                    control: false,
                    mock_harness: Vec::new(),
                },
            },
        ],
    };
    let provider = AnyProvider::build(&spec, &probe).ok().unwrap();
    let AnyProvider::Split { judges, .. } = &provider else {
        panic!("a split");
    };
    // The panel carries each judge's label and kind, in list order.
    let named: Vec<(&str, &str)> = judges
        .judges()
        .iter()
        .map(|j| (j.label(), j.kind()))
        .collect();
    assert_eq!(named, [("command", "command"), ("auditor", "oneharness")]);
    // A judge whose backend cannot be built fails the whole build.
    let broken = ProviderSpec::Split {
        skill: Box::new(ProviderSpec::Command {
            command: vec!["s".into()],
        }),
        judges: vec![JudgeSpec {
            label: "j".into(),
            provider: ProviderSpec::Command { command: vec![] },
        }],
    };
    assert!(matches!(
        AnyProvider::build(&broken, &probe),
        Err(CliError::Config(_))
    ));
}

#[test]
fn usage_render_summarizes_or_reports_none() {
    assert_eq!(render_usage(None, None), "none reported");
    let u = Usage {
        input_tokens: Some(10),
        output_tokens: Some(3),
        cache_read_tokens: Some(21),
        cache_write_tokens: Some(4),
        costs: vec![0.0123f64.to_bits()],
    };
    let cost = format!("{:.4}", f64::from_bits(u.costs[0]));
    let rendered = render_usage(Some(&u), Some(&cost));
    assert!(rendered.contains("input=10"));
    assert!(rendered.contains("output=3"));
    assert!(rendered.contains("cache_read=21"));
    assert!(rendered.contains("cache_write=4"));
    assert!(rendered.contains("cost=$0.0123"));
}

#[test]
fn rebase_skill_resolves_relative_against_the_config_dir() {
    let mut cfg = Config {
        task: Some("x".into()),
        skill: Some("skills/greeter".into()),
        ..Config::default()
    };
    rebase_skill(&mut cfg, "/proj/cases");
    assert_eq!(cfg.skill.unwrap(), "/proj/cases/skills/greeter");
}

#[test]
fn rebase_skill_leaves_absolute_paths_and_no_skill_alone() {
    let mut cfg = Config {
        task: Some("x".into()),
        skill: Some("/tmp/greeter-abs".into()),
        ..Config::default()
    };
    rebase_skill(&mut cfg, "/proj");
    assert_eq!(cfg.skill.unwrap(), "/tmp/greeter-abs");

    let mut none = Config {
        task: Some("x".into()),
        ..Config::default()
    };
    rebase_skill(&mut none, "/proj");
    assert!(none.skill.is_none());
}

fn run_args() -> RunArgs {
    RunArgs {
        config: None,
        judge_config: None,
        skill: None,
        system_prompt: None,
        task: None,
        persona: None,
        done_when: None,
        max_turns: None,
        artifact: vec![],
        session: None,
        provider: None,
        format: Format::Human,
        output: None,
        stream: false,
    }
}

#[test]
fn a_stream_has_no_place_for_another_output() {
    assert!(run_args().check_output().is_ok());
    let human = RunArgs {
        stream: true,
        ..run_args()
    };
    assert!(matches!(
        human.check_output(),
        Err(CliError::Config(m)) if m.contains("--format json")
    ));
    let filed = RunArgs {
        stream: true,
        format: Format::Json,
        output: Some("out.json".into()),
        ..run_args()
    };
    assert!(matches!(
        filed.check_output(),
        Err(CliError::Config(m)) if m.contains("--output")
    ));
    let streamed = RunArgs {
        stream: true,
        format: Format::Json,
        ..run_args()
    };
    assert!(streamed.check_output().is_ok());
}

#[test]
fn the_config_file_is_the_one_named_or_the_default_that_is_there() {
    assert_eq!(resolve_config_path(Some("a.yaml"), true).as_deref(), Some("a.yaml"));
    assert_eq!(resolve_config_path(None, true).as_deref(), Some("onejudge.yaml"));
    assert_eq!(resolve_config_path(None, false), None);
    assert_eq!(stdin_task("  do it\n"), "do it");
}

#[test]
fn a_starter_config_is_not_overwritten_unless_forced() {
    let args = |force: bool| InitArgs {
        path: "onejudge.yaml".into(),
        force,
        oneharness_bin: "oneharness".into(),
    };
    assert!(args(false).check_target(false).is_ok());
    assert!(args(true).check_target(true).is_ok());
    assert!(matches!(
        args(false).check_target(true),
        Err(CliError::Config(m)) if m == "onejudge.yaml already exists (use --force to overwrite)"
    ));
    assert_eq!(args(true).scaffold_args("x.toml"), ["init", "x.toml", "--force"]);
    assert!(args(false)
        .scaffold_failed("x.toml", " boom\n")
        .render()
        .ends_with("failed: boom"));
}

#[test]
fn a_failure_report_carries_the_classification() {
    let failure = RunFailure::unstarted(CliError::Engine(Error::provider_classified(
        "respond",
        "no key",
        ProviderErrorKind::Auth,
    )));
    let report = FailureReport::new(failure);
    assert_eq!(report.schema_version, onejudge::SCHEMA_VERSION);
    assert_eq!(report.error.kind, Some(ProviderErrorKind::Auth));
    assert!(report.error.message.starts_with("run failed: "));
    assert!(report.telemetry.is_none());
    let config = FailureReport::new(RunFailure::unstarted(CliError::Config("bad".into())));
    assert_eq!(config.error.message, "config error: bad");
    assert_eq!(config.error.kind, None);
}

#[test]
fn an_absent_llmlint_fails_the_build() {
    let spec = ProviderSpec::Split {
        skill: Box::new(ProviderSpec::Command {
            command: vec!["s".into()],
        }),
        judges: vec![JudgeSpec {
            label: "lint".into(),
            provider: ProviderSpec::Llmlint {
                bin: "llmlint".into(),
                config: None,
                diff_base: None,
                args: vec![],
            },
        }],
    };
    assert!(matches!(
        AnyProvider::build(&spec, &probe),
        Err(CliError::Config(m)) if m.contains("llmlint")
    ));
}

#[test]
fn a_split_sends_each_side_where_it_belongs() {
    let spec = ProviderSpec::Split {
        skill: Box::new(ProviderSpec::Command {
            command: vec!["s".into()],
        }),
        judges: vec![JudgeSpec {
            label: "j".into(),
            provider: ProviderSpec::Oneharness {
                bin: None,
                judge_config: None,
                stream: false,
                control: false,
                mock_harness: vec![],
            },
        }],
    };
    let split = AnyProvider::build(&spec, &probe).ok().unwrap();
    assert!(!split.supervises_lost_turns());
    let AnyProvider::Split { skill, judges } = split else {
        panic!("a split is built as one");
    };
    assert!(matches!(*skill, AnyProvider::Command(_)));
    assert_eq!(judges.judges()[0].label(), "j");
    let alone = AnyProvider::build(
        &ProviderSpec::Command {
            command: vec!["s".into()],
        },
        &probe,
    )
    .ok()
    .unwrap();
    assert!(alone.supervises_lost_turns());
}
