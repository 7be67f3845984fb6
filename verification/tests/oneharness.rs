use oneharness_core::errors::OneharnessError;
use onejudge::oneharness::provider::{
    control_platform_reason, exit_error, is_control_refused, is_session_unsupported, run_failed,
    spawn_failed, Execution, Rung, DEFAULT_JUDGE_CONFIG, SESSION_UNSUPPORTED_MARKER,
};
use onejudge::oneharness::turn::{argv, judge_side_spec, respond_spec, TurnSpec};
use onejudge::spawn::AnySpawnHook;
use onejudge::{
    latest_or_inline, ControlOutcome, Error, Message, OneharnessProvider, ProviderErrorKind,
    SharedSpawnHook, SpawnHook,
};

/// The id of the first registered harness.
fn harness_id() -> &'static str {
    oneharness_core::domain::harness::all()[0].id
}

/// The argv a spec renders on the spawning seam, for the assertions below that
/// are about flags rather than about the spec.
fn argv_of(spec: &TurnSpec) -> Vec<String> {
    argv(spec)
}

#[test]
fn mod_builders_configure_bin_and_judge_config() {
    let provider = OneharnessProvider::default()
        .with_bin("my-oneharness")
        .with_judge_config("custom.judge.toml");
    // Naming a binary is the opt-in to the spawning seam.
    assert!(matches!(provider.execution(), Execution::Process(bin) if bin == "my-oneharness"));
    assert_eq!(
        provider.judge_config(),
        Some("custom.judge.toml")
    );
    // The judge/user side passes the configured file via --config.
    let args = argv_of(&judge_side_spec(
        provider.judge_config(),
        Some("s"),
        None,
        "p",
    ));
    assert!(args
        .windows(2)
        .any(|w| w == ["--config", "custom.judge.toml"]));
    assert!(args.windows(2).any(|w| w == ["--session", "s"]));
}

#[test]
fn a_default_provider_runs_the_turn_in_process() {
    assert!(matches!(
        OneharnessProvider::new().execution(),
        Execution::Library
    ));
}

#[test]
fn installing_a_spawn_hook_selects_the_seam_that_has_a_process_to_offer_it() {
    // A hook offers a *process*; the in-process seam has none, so installing
    // one must not leave the embedder believing it owns an empty group.
    let hooked = OneharnessProvider::new().with_spawn_hook(hook());
    assert!(matches!(hooked.execution(), Execution::Process(bin) if bin == "oneharness"));
    // An explicitly named binary is not clobbered by installing a hook.
    let pinned = OneharnessProvider::new()
        .with_bin("/opt/oneharness")
        .with_spawn_hook(hook());
    assert!(matches!(pinned.execution(), Execution::Process(bin) if bin == "/opt/oneharness"));
}

#[test]
fn a_mock_harness_rides_both_sides_of_the_turn_and_selects_the_spawning_seam() {
    let provider = OneharnessProvider::new().with_mock_harness(harness_id());
    // oneharness delivers the responder by re-executing its own binary, which an
    // in-process run does not have — so naming one selects the spawning seam
    // rather than silently running against a paid model.
    assert!(matches!(provider.execution(), Execution::Process(bin) if bin == "oneharness"));
    // An explicitly named binary is kept.
    let pinned = OneharnessProvider::new()
        .with_bin("/opt/oneharness")
        .with_mock_harness("codex");
    assert!(matches!(pinned.execution(), Execution::Process(bin) if bin == "/opt/oneharness"));

    // Both parties are mocked: either one alone still bills a model.
    let agent = argv_of(&provider.mocked(respond_spec(
        "do x",
        "/work",
        Some("s"),
        Some("s"),
        false,
        false,
        "p",
    )));
    assert!(agent
        .windows(2)
        .any(|w| w == ["--mock-harness", harness_id()]));
    let judge = argv_of(&provider.mocked(judge_side_spec(
        provider.judge_config(),
        Some("s"),
        None,
        "p",
    )));
    assert!(judge
        .windows(2)
        .any(|w| w == ["--mock-harness", harness_id()]));

    // And an ordinary provider asks for no responder at all.
    let plain = OneharnessProvider::new();
    assert!(
        !argv_of(&plain.mocked(judge_side_spec(None, None, None, "p")))
            .iter()
            .any(|arg| arg == "--mock-harness")
    );
}

/// A hook that records nothing and refuses nothing — this is about which seam
/// installing one selects, not about what a hook does.
struct Inert;

impl SpawnHook for Inert {}

fn hook() -> SharedSpawnHook {
    SharedSpawnHook {
        shared: std::sync::Arc::new(AnySpawnHook {
            hook: Box::new(Inert),
        }),
    }
}

#[test]
fn mod_default_judge_config_is_the_judge_toml() {
    let provider = OneharnessProvider::new();
    assert_eq!(
        provider.judge_config(),
        Some(DEFAULT_JUDGE_CONFIG)
    );
}

#[test]
fn a_respond_spec_threads_the_session_and_selects_no_harness_or_model() {
    let args = argv_of(&respond_spec(
        "do x",
        "/work",
        Some("run-1-skill"),
        Some("run-1-skill"),
        false,
        false,
        "p",
    ));
    assert!(args.windows(2).any(|w| w == ["--session", "run-1-skill"]));
    assert!(args.iter().any(|a| a == "--events"));
    // Harness/model selection is oneharness's config's job now.
    assert!(!args.iter().any(|a| a == "--harness"));
    assert!(!args.iter().any(|a| a == "--model"));
    // `oneharness run` has no `--format` flag; passing it is a live-path bug.
    assert!(!args.iter().any(|a| a == "--format"));
    // A buffered provider never asks for the stream.
    assert!(!args.iter().any(|a| a == "--stream"));

    // No session supplied: no `--session`.
    let none = argv_of(&respond_spec(
        "do x", "/work", None, None, false, false, "p",
    ));
    assert!(!none.iter().any(|a| a == "--session"));
}

#[test]
fn control_needs_a_session_to_be_addressed_by() {
    // Asked for without one, the spec drops it rather than asking for a socket
    // nothing can address.
    let spec = respond_spec("do x", "/work", None, None, false, true, "p");
    assert!(!spec.control);
    let spec = respond_spec("do x", "/work", Some("s"), Some("s"), false, true, "p");
    assert!(spec.control);
}

#[test]
fn streaming_is_asked_for_on_the_agent_side_only() {
    let provider = OneharnessProvider::new().with_streaming(true);
    assert!(provider.streams());
    let agent = respond_spec(
        "do x",
        "/work",
        Some("s"),
        Some("s"),
        provider.streams(),
        false,
        "p",
    );
    assert!(agent.stream);
    assert!(argv_of(&agent).iter().any(|a| a == "--stream"));
    // The judge / simulated-user side stays buffered: streaming is about the
    // long agent turn, not the short judgement calls.
    let judge = judge_side_spec(None, Some("s"), None, "p");
    assert!(!judge.stream);
    assert!(!argv_of(&judge).iter().any(|a| a == "--stream"));
}

#[test]
fn a_judge_side_spec_selects_by_config_not_by_harness_or_model() {
    let args = argv_of(&judge_side_spec(
        Some("oneharness.judge.toml"),
        None,
        None,
        "p",
    ));
    assert!(!args.iter().any(|a| a == "--system"));
    assert!(!args.iter().any(|a| a == "--events"));
    assert!(!args.iter().any(|a| a == "--harness"));
    assert!(!args.iter().any(|a| a == "--model"));
    assert!(args
        .windows(2)
        .any(|w| w == ["--config", "oneharness.judge.toml"]));
    // With no judge config, no `--config` is passed (oneharness discovers its
    // own default).
    let no_config = argv_of(&judge_side_spec(None, None, None, "p"));
    assert!(!no_config.iter().any(|a| a == "--config"));
}

#[test]
fn mod_is_session_unsupported_matches_oneharness_error() {
    let unsupported = Error::provider_classified(
        "respond",
        "oneharness exited with exit status: 1: harness `goose` does not support --session: \
         it exposes no session id headlessly",
        ProviderErrorKind::Protocol,
    );
    assert!(is_session_unsupported(&unsupported));
    let other = Error::provider_classified(
        "respond",
        "some other failure",
        ProviderErrorKind::Protocol,
    );
    assert!(!is_session_unsupported(&other));
}

#[test]
fn session_unsupported_marker_tracks_oneharness() {
    // oneharness refuses `--session` before it can emit a report, so this one
    // recovery is driven off stderr text. Pin the substring against the error
    // oneharness itself renders: an upstream rewording then fails here instead
    // of silently turning the graceful retry into a failed run.
    let upstream = OneharnessError::SessionUnsupported {
        id: "goose".into(),
        supported: harness_id().into(),
    }
    .to_string();
    assert!(
        upstream.contains(SESSION_UNSUPPORTED_MARKER),
        "oneharness now says: {upstream}"
    );
}

#[test]
fn control_refusal_markers_track_oneharness() {
    // Every way `oneharness run --control` can refuse the ask, in oneharness's
    // own rendering. Each is a usage error before a report exists, so the
    // degradation is driven off stderr text — and an upstream rewording has to
    // fail here rather than turn a degraded run into a failed one.
    let refusals = [
        OneharnessError::ControlNeedsSession,
        OneharnessError::ControlUnsupported {
            id: "qwen".into(),
            supported: format!("{}, codex", harness_id()),
        },
        OneharnessError::ControlSingleHarness {
            selected: format!("{}, codex", harness_id()),
        },
        OneharnessError::ControlBatch,
        OneharnessError::ControlPlatform,
        OneharnessError::ControlStreamUnsupported {
            id: "opencode".into(),
        },
        OneharnessError::ControlSchema,
        OneharnessError::ControlModeUnsupported {
            id: "opencode".into(),
            mode: "edit",
        },
        OneharnessError::ControlOutputFormat {
            id: harness_id().into(),
            required: "stream-json".into(),
            selected: "text".into(),
        },
        OneharnessError::ControlSocket {
            path: "/state/control/x.sock".into(),
            source: std::io::Error::other("in use"),
        },
        OneharnessError::MultiModelConflict {
            with: "--control",
            why: "control drives one live turn",
        },
        // A named handle whose stored conversation cannot be reopened over
        // the mechanism that would serve this turn (oneharness 0.12). It
        // belongs on this ladder rather than failing the run because
        // oneharness's own remedy is onejudge's next rung: drop `--control`
        // and the handle continues on the harness's ordinary headless run.
        // Degrading the other way — keeping the flag and taking a fresh
        // conversation — is the very failure the refusal exists to stop.
        OneharnessError::SessionControlNoResume {
            name: "run-42-skill".into(),
            id: "opencode".into(),
            mechanism: "opencode-http",
            supported: format!("{}, codex", harness_id()),
        },
        // The socket address the run would open is past this platform's
        // `sun_path` budget (oneharness 0.12). The channel cannot exist, so
        // it is the ask that is refused, not the turn.
        OneharnessError::ControlSocketAddress {
            source: oneharness_core::domain::control::socket_path(
                std::path::Path::new(&"/x".repeat(200)),
                "run-42-skill",
            )
            .expect_err("an address that long cannot be bound anywhere"),
        },
    ];
    for refusal in refusals {
        let err = stderr_error(&format!("oneharness: error: {refusal}"));
        assert!(
            is_control_refused(&err),
            "onejudge would fail the run instead of degrading; oneharness now says: {refusal}"
        );
    }
    // And it must not swallow an ordinary turn failure as a control refusal.
    let unrelated = stderr_error("oneharness: error: harness `codex` is not installed");
    assert!(!is_control_refused(&unrelated));
}

#[test]
fn a_platform_without_unix_sockets_degrades_with_a_stated_reason() {
    // The Windows answer, asserted on every platform: the ask is dropped
    // with a reason rather than sent to a oneharness that would refuse the run.
    let reason = control_platform_reason(false).expect("a non-unix host has no socket");
    assert!(reason.contains("unix domain socket"));
    assert!(control_platform_reason(true).is_none());
}

#[test]
fn control_rides_the_agent_argv_only_alongside_a_session() {
    let with = argv_of(&respond_spec(
        "do x",
        "/work",
        Some("s"),
        Some("s"),
        false,
        true,
        "p",
    ));
    assert!(with.iter().any(|a| a == "--control"));
    // Off by default: the argv is byte-identical to a run that never asked.
    let without = argv_of(&respond_spec(
        "do x",
        "/work",
        Some("s"),
        Some("s"),
        false,
        false,
        "p",
    ));
    assert!(!without.iter().any(|a| a == "--control"));
    // `--control` is addressed by the session name, so dropping the session
    // drops it too rather than sending oneharness an unaddressable ask.
    let sessionless = argv_of(&respond_spec(
        "do x",
        "/work",
        None,
        Some("s"),
        false,
        true,
        "p",
    ));
    assert!(!sessionless.iter().any(|a| a == "--control"));
    // The judge side is never controlled.
    assert!(!argv_of(&judge_side_spec(None, Some("s"), None, "p"))
        .iter()
        .any(|a| a == "--control"));
}

#[test]
fn a_provider_that_never_asked_reports_no_control() {
    assert_eq!(
        OneharnessProvider::new().control(),
        &ControlOutcome::NotRequested
    );
    // Asking does not by itself claim an address: only a turn that got one does.
    assert_eq!(
        OneharnessProvider::new().with_control(true).control(),
        &ControlOutcome::NotRequested
    );
}

#[test]
fn a_controlled_report_with_no_socket_is_unavailable_not_open() {
    // oneharness refuses `--control` rather than honoring it silently, so this
    // is unreachable through it — but a stand-in producer could, and reporting
    // a lever that does not exist is the one failure this feature must not have.
    let mut provider = OneharnessProvider::new().with_control(true);
    provider.control_address("/work");
    assert!(provider
        .control()
        .unavailable_reason()
        .expect("a missing socket is a stated reason")
        .contains("named no control socket"));
}

/// The classified error a `oneharness` process that refused the call produces,
/// carrying `stderr` — the shape [`is_control_refused`] reads.
fn stderr_error(stderr: &str) -> Error {
    Error::provider_classified(
        "respond",
        &format!("oneharness exited with exit status: 2: {stderr}"),
        ProviderErrorKind::Protocol,
    )
}

#[test]
fn mod_respond_prompt_switches_on_continuing() {
    let mut messages = vec![Message::user("first")];
    messages.push(Message::assistant("reply"));
    messages.push(Message::user("second"));
    assert_eq!(latest_or_inline(&messages, true), "second");
    assert!(latest_or_inline(&messages, false).contains("first"));
}

#[test]
fn mod_spawn_failure_is_classified() {
    let provider = OneharnessProvider::new().with_bin("definitely-not-oneharness-xyz");
    let Execution::Process(bin) = provider.execution() else {
        panic!("a named binary is spawned");
    };
    let err = spawn_failed("judge", bin, "No such file or directory (os error 2)");
    assert_eq!(err.kind(), Some(ProviderErrorKind::Spawn));
}

/// The error of an in-process run that was refused, in oneharness's own words.
fn library_failed(op: &str, err: &OneharnessError) -> Error {
    run_failed(op, &err.to_string())
}

#[test]
fn a_refused_session_keeps_oneharnesss_own_words_so_the_retry_can_key_off_them() {
    let err = library_failed(
        "respond",
        &OneharnessError::SessionUnsupported {
            id: "goose".into(),
            supported: format!("{}, codex", harness_id()),
        },
    );
    assert!(is_session_unsupported(&err));
    assert!(matches!(
        err,
        Error::Provider {
            kind: Some(ProviderErrorKind::Protocol),
            ..
        }
    ));
}

#[test]
fn a_refused_control_ask_is_recognised_as_a_refusal_not_a_failed_turn() {
    let err = library_failed(
        "respond",
        &OneharnessError::ControlUnsupported {
            id: "goose".into(),
            supported: harness_id().into(),
        },
    );
    assert!(is_control_refused(&err));
}

/// Every flag [`argv`] can emit, paired with the run request field that says the same
/// of an in-process turn. `--compact` has none, and deliberately so: it is about how
/// a report is printed, not how it is produced.
const MAPPED_FLAGS: &[(&str, Option<&str>)] = &[
    ("--compact", None),
    ("--events", Some("events")),
    ("--history", Some("history")),
    ("--history-name", Some("history_name")),
    ("--mock-harness", Some("mock_harness")),
    ("--system", Some("system")),
    ("--cwd", Some("cwd")),
    ("--config", Some("config")),
    ("--session", Some("session")),
    ("--stream", Some("stream")),
    ("--control", Some("control")),
    ("--mode", Some("mode")),
    ("--prompt-file", Some("prompt")),
];

/// The same mapping as its readers are shown it.
const MAPPING_TABLE: &str = "\
| flag | field |
|---|---|
| `--compact` | **none** |
| `--events` | `events` |
| `--history` | `history` |
| `--history-name` | `history_name` |
| `--mock-harness` | `mock_harness` |
| `--system` | `system` |
| `--cwd` | `cwd` |
| `--config` | `config` |
| `--session` | `session` |
| `--stream` | `stream` |
| `--control` | `control` |
| `--mode` | `mode` |
| `--prompt-file` | `prompt` |
";

/// A spec with every field set, so one rendering cannot pass by omission.
fn populated() -> TurnSpec {
    TurnSpec {
        system: Some("do x".into()),
        cwd: Some("/work".into()),
        config: Some("oneharness.judge.toml".into()),
        mock_harness: vec![harness_id().into()],
        session: Some("sess".into()),
        history_name: Some("hist".into()),
        events: true,
        stream: true,
        control: true,
        mode: Some("read-only".into()),
        prompt: "the whole transcript".into(),
    }
}

fn empty() -> TurnSpec {
    TurnSpec {
        system: None,
        cwd: None,
        config: None,
        mock_harness: vec![],
        session: None,
        history_name: None,
        events: false,
        stream: false,
        control: false,
        mode: None,
        prompt: String::new(),
    }
}

#[test]
fn every_argv_flag_sets_the_run_request_field_the_mapping_pairs_it_with() {
    let argv = argv(&populated());
    // Neither rendering may grow a flag the mapping has never seen.
    for flag in argv.iter().filter(|a| a.starts_with("--")) {
        assert!(
            MAPPED_FLAGS.iter().any(|(name, _)| name == flag),
            "`{flag}` has no entry in the RunRequest mapping"
        );
    }
    for (flag, _) in MAPPED_FLAGS {
        assert!(
            argv.iter().any(|a| a == flag),
            "`{flag}` is in the mapping but `argv` no longer emits it"
        );
    }
}

#[test]
fn an_empty_spec_asks_for_nothing_it_was_not_given() {
    let argv = argv(&empty());
    for (flag, _) in MAPPED_FLAGS {
        // `--compact`, `--history` and `--prompt-file` ride every turn; the rest are
        // opt-in.
        if matches!(*flag, "--compact" | "--history" | "--prompt-file") {
            continue;
        }
        assert!(
            !argv.iter().any(|a| a == flag),
            "an empty spec emitted `{flag}`"
        );
    }
}

#[test]
fn the_documented_mapping_matches_the_one_source() {
    for (flag, field) in MAPPED_FLAGS {
        let row = match field {
            Some(name) => format!("| `{flag}` | `{name}"),
            // The fieldless one has to say so where the mapping is read, or it looks
            // like an omission rather than a decision.
            None => format!("| `{flag}` | **none"),
        };
        assert!(MAPPING_TABLE.contains(&row), "no row `{row}…`");
    }
}

#[test]
fn the_prompt_is_an_owned_value_on_the_request_and_stdin_on_the_argv() {
    let argv = argv(&populated());
    // Spawned, it rides stdin.
    assert!(argv.windows(2).any(|w| w == ["--prompt-file", "-"]));
    assert!(!argv.iter().any(|a| a == "the whole transcript"));
}

#[test]
fn a_refused_ask_steps_down_one_rung_at_a_time() {
    let mut provider = OneharnessProvider::new().with_control(true);
    let first = provider.start(Some("s"), true);
    assert_eq!(first, Rung::Controlled);
    let refused = stderr_error("oneharness: error: --control needs --session");
    let second = provider.after_failure(first, &refused).unwrap();
    assert_eq!(second, Rung::Sessioned);
    assert!(provider.control().unavailable_reason().is_some());
    let unsupported = stderr_error("harness `goose` does not support --session");
    let third = provider.after_failure(second, &unsupported).unwrap();
    assert!(matches!(third, Rung::Inline { .. }));
    assert_eq!(provider.after_failure(third, &unsupported), None);
    // An ordinary failure is not retried.
    assert_eq!(provider.after_failure(Rung::Sessioned, &stderr_error("boom")), None);
}

#[test]
fn a_rung_asks_for_what_it_stands_for() {
    let provider = OneharnessProvider::new().with_control(true).with_streaming(true);
    let messages = [
        Message::user("first"),
        Message::assistant("reply"),
        Message::user("second"),
    ];
    let controlled = provider.rung_spec(Rung::Controlled, "do x", "/work", &messages, Some("s"));
    assert!(controlled.control);
    assert_eq!(controlled.session.as_deref(), Some("s"));
    assert_eq!(controlled.prompt, "second");
    let inline = provider.rung_spec(
        Rung::Inline { named: true },
        "do x",
        "/work",
        &messages,
        Some("s"),
    );
    assert!(!inline.control);
    assert_eq!(inline.session, None);
    assert_eq!(inline.history_name.as_deref(), Some("s"));
    assert!(inline.prompt.contains("first"));
}

#[test]
fn an_exit_is_told_in_the_processs_own_words() {
    let err = exit_error(
        "respond",
        &onejudge::command::Ended {
            success: false,
            status: "exit status: 2".into(),
            stdout: String::new(),
            stderr: "  boom\n".into(),
        },
    );
    assert!(err.render().contains("oneharness exited with exit status: 2: boom"));
}
