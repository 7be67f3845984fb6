use onejudge::doubles::lint;
use onejudge::llmlint::{bounded, describe, summary_line, LintEnded, LintRun, OUTPUT_BOUND};
use onejudge::{
    Error, EvidenceContext, JudgeKind, JudgeValue, LlmlintProvider, ProviderErrorKind,
    SupervisorOutcome,
};

fn probed() -> LintRun {
    LintRun::Ended(LintEnded {
        code: Some(0),
        status: "exit status: 0".into(),
        stdout: "llmlint 0.4.1\n".into(),
        stderr: String::new(),
    })
}

fn provider() -> LlmlintProvider {
    LlmlintProvider::new("llmlint", &probed()).ok().unwrap()
}

/// What the stand-in's run comes to, for an outcome.
fn run(outcome: &str, stdout: Option<&str>) -> LintRun {
    let played = lint::play(outcome, "goose", stdout, None);
    LintRun::Ended(LintEnded {
        code: played.code,
        status: "signal: 6 (SIGABRT)".into(),
        stdout: played.stdout,
        stderr: played.stderr,
    })
}

#[test]
fn a_blank_bin_is_invalid() {
    let err = LlmlintProvider::new("  ", &probed()).err().unwrap();
    assert!(matches!(err, Error::Invalid(_)), "{err:?}");
}

#[test]
fn an_absent_executable_is_a_classified_spawn_error_naming_the_bin() {
    let absent = LintRun::NotStarted("No such file or directory (os error 2)".into());
    let err = LlmlintProvider::new("definitely-not-llmlint-xyz", &absent)
        .err()
        .unwrap();
    assert_eq!(err.kind(), Some(ProviderErrorKind::Spawn));
    let text = err.render();
    assert!(text.contains("definitely-not-llmlint-xyz"), "{text}");
    assert!(text.contains("`bin`"), "{text}");
}

#[test]
fn the_summary_line_is_the_last_non_empty_line() {
    assert_eq!(
        summary_line("FAIL x\n  at a:1\n\n1 failed, 2 passed\n\n").as_deref(),
        Some("1 failed, 2 passed")
    );
    assert_eq!(summary_line("\n  \n"), None);
    assert_eq!(summary_line(""), None);
}

#[test]
fn an_error_message_carries_stderr_then_stdout_within_the_bound() {
    assert_eq!(bounded("boom\n", "partial report"), "boom\npartial report");
    assert_eq!(bounded("", ""), "(no output)");
    let long = "x".repeat(OUTPUT_BOUND + 100);
    let cut = bounded(&long, "");
    assert_eq!(cut.chars().count(), OUTPUT_BOUND + " […]".chars().count());
    assert!(cut.ends_with(" […]"));
}

#[test]
fn an_exit_code_and_a_signal_are_described_differently() {
    let exited = |code: Option<i32>| LintEnded {
        code,
        status: "signal: 9 (SIGKILL)".into(),
        stdout: String::new(),
        stderr: String::new(),
    };
    assert_eq!(describe(&exited(Some(2))), "exit 2");
    let killed = describe(&exited(None));
    assert!(killed.contains("signal"), "{killed}");
}

#[test]
fn an_executable_that_is_not_llmlint_is_refused() {
    let probe = LintRun::Ended(LintEnded {
        code: Some(3),
        status: "exit status: 3".into(),
        stdout: String::new(),
        stderr: "usage".into(),
    });
    let err = LlmlintProvider::new("cat", &probe).err().unwrap();
    assert!(err.render().contains("cat"));
}

#[test]
fn the_arguments_of_a_run_follow_the_setup() {
    let plain = provider();
    assert_eq!(
        plain.lint_argv("/w"),
        vec![
            "lint", "--cwd", "/w", "--format", "human", "--color", "never", "--progress", "never"
        ]
    );
    let full = provider()
        .with_config("rules.yml")
        .with_diff_base("origin/main")
        .with_args(vec!["--jobs".into(), "2".into()]);
    assert_eq!(full.bin(), "llmlint");
    assert_eq!(full.config(), Some("rules.yml"));
    assert_eq!(full.diff_base(), Some("origin/main"));
    assert_eq!(full.args().len(), 2);
    let argv = full.lint_argv("/w");
    let base = argv.iter().position(|a| a == "--diff-base").unwrap();
    assert_eq!(argv[base - 1], "--diff");
    assert_eq!(argv[base + 1], "origin/main");
    let config = argv.iter().position(|a| a == "-c").unwrap();
    assert_eq!(argv[config + 1], "rules.yml");
    assert_eq!(argv[argv.len() - 2..], ["--jobs", "2"]);
}

#[test]
fn a_run_decides_by_its_exit_code() {
    let p = provider();
    let clean = p.supervise(&run("0", None)).unwrap();
    assert_eq!(
        clean.outcome,
        SupervisorOutcome::Completed {
            reason: "0 failed, 4 passed, 0 skipped, 0 not relevant".into()
        }
    );
    let failing = p.supervise(&run("1", None)).unwrap();
    assert!(matches!(
        &failing.outcome,
        SupervisorOutcome::Continue { message, reason }
            if message.starts_with("FAIL  scripts_are_quiet_on_success")
                && reason == "1 failed, 3 passed, 0 skipped, 0 not relevant"
    ));
    for outcome in ["2", "signal", "77"] {
        let err = p.supervise(&run(outcome, None)).unwrap_err();
        assert_eq!(err.kind(), Some(ProviderErrorKind::Other), "{outcome}");
        assert!(err.render().contains("could not resolve harness `goose`"));
    }
    for outcome in ["0", "1"] {
        let err = p.supervise(&run(outcome, Some("none"))).unwrap_err();
        assert_eq!(err.kind(), Some(ProviderErrorKind::Protocol), "{outcome}");
    }
    let lost = p
        .supervise(&LintRun::Incomplete("broken pipe".into()))
        .unwrap_err();
    assert!(lost.render().contains("broken pipe"));
}

#[test]
fn a_run_judges_by_its_exit_code() {
    let p = provider();
    assert_eq!(
        p.judge(&run("0", None)).unwrap().value,
        JudgeValue::Bool(true)
    );
    let failing = p.judge(&run("1", None)).unwrap();
    assert_eq!(failing.value, JudgeValue::Bool(false));
    assert_eq!(failing.reason, "1 failed, 3 passed, 0 skipped, 0 not relevant");
}

#[test]
fn only_a_boolean_judgement_over_a_worktree_is_taken() {
    let p = provider();
    let tree = EvidenceContext {
        worktree: Some("/w"),
        history_files: &[],
        artifacts: &[],
    };
    let none = EvidenceContext {
        worktree: None,
        history_files: &[],
        artifacts: &[],
    };
    assert_eq!(p.judged_worktree(JudgeKind::Boolean, &tree).unwrap(), "/w");
    assert!(p.judged_worktree(JudgeKind::Numeric, &tree).is_err());
    assert!(p.judged_worktree(JudgeKind::Boolean, &none).is_err());
    assert!(p.respond().is_err());
    assert!(p.simulate_user().is_err());
    assert!(p.assess().is_err());
}

#[test]
fn a_failing_report_reaches_the_worker_verbatim() {
    let report = "  FAIL  a_rule\n    at src/lib.rs:1\n\n1 failed, 2 passed  \n\n";
    let turn = provider()
        .supervise(&LintRun::Ended(LintEnded {
            code: Some(1),
            status: String::new(),
            stdout: report.into(),
            stderr: String::new(),
        }))
        .unwrap();
    assert_eq!(
        turn.outcome,
        SupervisorOutcome::Continue {
            message: report.into(),
            reason: "1 failed, 2 passed".into(),
        }
    );
}
