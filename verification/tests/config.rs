use onejudge::cli::config::{
    CliError, Config, EvalConfig, EvalKind, JudgeSpec, LoadedSkill, Overrides, ProviderConfig,
    ProviderKind, ProviderSpec, UserConfig,
};
use onejudge::cli::provider::AnyProvider;
use onejudge::llmlint::LintRun;
use onejudge::oneharness::provider::Execution;
use onejudge::skill::split_frontmatter;
use onejudge::spawn::AnySpawnHook;
use onejudge::{JudgeKind, Number, SharedSpawnHook, SkillDefinition, SpawnHook};
use serde_json::Value;

/// The id of the first registered harness.
fn harness_id() -> &'static str {
    oneharness_core::domain::harness::all()[0].id
}

fn number(value: &Value) -> Number {
    let x = value.as_f64().expect("a number");
    Number::new(x.to_bits(), &x.to_string(), &format!("{x:?}"))
}

fn text(value: &Value) -> Option<String> {
    value.as_str().map(String::from)
}

fn texts(value: &Value) -> Option<Vec<String>> {
    value
        .as_array()
        .map(|items| items.iter().filter_map(text).collect())
}

fn provider(value: &Value) -> ProviderConfig {
    ProviderConfig {
        kind: match value["kind"].as_str() {
            Some(kind) => ProviderKind::from_name(kind).expect("a provider kind"),
            None => ProviderKind::default(),
        },
        bin: text(&value["bin"]),
        judge_config: text(&value["judge_config"]),
        stream: value["stream"].as_bool(),
        control: value["control"].as_bool(),
        mock_harness: texts(&value["mock_harness"]),
        command: texts(&value["command"]),
        config: text(&value["config"]),
        diff_base: text(&value["diff_base"]),
        args: texts(&value["args"]),
        skill: value.get("skill").map(|child| Box::new(provider(child))),
        judge: value.get("judge").map(|child| Box::new(provider(child))),
        judges: value["judges"]
            .as_array()
            .map(|items| items.iter().map(provider).collect()),
        label: text(&value["label"]),
    }
}

/// The configuration a document of these keys spells.
fn from_yaml(yaml: &str) -> Result<Config, CliError> {
    let value: Value =
        serde_yaml_ng::from_str(yaml).map_err(|err| CliError::Config(err.to_string()))?;
    Ok(Config {
        provider: provider(&value["provider"]),
        skill: text(&value["skill"]),
        system_prompt: text(&value["system_prompt"]),
        task: text(&value["task"]),
        user: value.get("user").map(|user| UserConfig {
            persona: text(&user["persona"]).unwrap_or_default(),
            done_when: text(&user["done_when"]),
            max_turns: user["max_turns"].as_u64().map(|n| n as u32),
            settle_on_noop: user["settle_on_noop"].as_bool(),
            artifacts: texts(&user["artifacts"]).unwrap_or_default(),
        }),
        session: text(&value["session"]),
        evals: value["evals"]
            .as_array()
            .map(|items| {
                items
                    .iter()
                    .map(|item| EvalConfig {
                        criterion: text(&item["criterion"]).unwrap_or_default(),
                        kind: match item["kind"].as_str() {
                            Some("numeric") => JudgeKind::Numeric,
                            _ => JudgeKind::Boolean,
                        },
                        scale: item["scale"]
                            .as_array()
                            .map(|ends| (number(&ends[0]), number(&ends[1]))),
                    })
                    .collect()
            })
            .unwrap_or_default(),
        assessment: text(&value["assessment"]),
    })
}

fn at_colons(list: &str) -> Vec<String> {
    list.split(':').map(String::from).collect()
}

fn scale_of(kind: &EvalKind) -> Option<(f64, f64)> {
    match kind {
        EvalKind::Boolean => None,
        EvalKind::Numeric { scale } => Some((
            f64::from_bits(scale.0.bits),
            f64::from_bits(scale.1.bits),
        )),
    }
}

/// What reading a skill file of these contents comes to.
fn skill_at(dir: &str, contents: &str) -> LoadedSkill {
    let (front, body) = split_frontmatter(contents);
    let named = front.and_then(|front| {
        front
            .lines()
            .find_map(|line| line.strip_prefix("name: "))
            .map(String::from)
    });
    let dir_name = dir.rsplit('/').next().unwrap_or(dir);
    Ok(SkillDefinition::new(named.as_deref(), dir_name, dir, body))
}

#[test]
fn skill_body_and_name_come_from_skill_md() {
    let dir = "/skills/greeter";
    let loaded = skill_at(
        dir,
        "---\nname: greeter\ndescription: a greeter\n---\nGreet the user warmly.\n",
    );
    let plan = from_yaml(&format!("task: x\nskill: {dir}\n"))
        .unwrap()
        .into_plan(Some(loaded))
        .unwrap();
    let skill = &plan.conversation.skill;
    assert_eq!(skill.name, "greeter");
    assert_eq!(skill.instructions, "Greet the user warmly.");
    assert_eq!(skill.dir, dir);
}

#[test]
fn skill_without_frontmatter_name_falls_back_to_the_dir_name() {
    let dir = "/skills/fallback-name";
    let loaded = skill_at(dir, "Just a body, no frontmatter.\n");
    let plan = from_yaml(&format!("task: x\nskill: {dir}\n"))
        .unwrap()
        .into_plan(Some(loaded))
        .unwrap();
    assert_eq!(plan.conversation.skill.name, "fallback-name");
}

#[test]
fn system_prompt_precedes_the_skill_body_when_both_are_set() {
    let dir = "/skills/merged";
    let loaded = skill_at(
        dir,
        "---\nname: merged\ndescription: d\n---\nSkill body text.\n",
    );
    let plan = from_yaml(&format!(
        "task: x\nsystem_prompt: Preamble first.\nskill: {dir}\n"
    ))
    .unwrap()
    .into_plan(Some(loaded))
    .unwrap();
    assert_eq!(
        plan.conversation.skill.instructions,
        "Preamble first.\n\nSkill body text."
    );
}

#[test]
fn a_missing_skill_is_a_loud_config_error() {
    let err = from_yaml("task: x\nskill: /no/such/skill\n")
        .unwrap()
        .into_plan(Some(Err("No such file or directory".into())))
        .err()
        .unwrap();
    assert!(matches!(err, CliError::Config(m) if m.contains("could not load skill")));
}

#[test]
fn skill_override_and_system_prompt_override_win_over_the_file() {
    let dir = "/skills/flag-skill";
    let loaded = skill_at(
        dir,
        "---\nname: flag-skill\ndescription: d\n---\nFlag skill body.\n",
    );
    let mut cfg = from_yaml("task: x\nsystem_prompt: from file\n").unwrap();
    cfg.apply(Overrides {
        skill: Some(dir.into()),
        system_prompt: Some("from flag".into()),
        ..Overrides::default()
    });
    let plan = cfg.into_plan(Some(loaded)).unwrap();
    assert_eq!(
        plan.conversation.skill.instructions,
        "from flag\n\nFlag skill body."
    );
}

#[test]
fn artifact_overrides_replace_the_configured_list_flag_over_env_over_file() {
    let file = "task: t\nuser:\n  persona: p\n  artifacts: [from-file.md, .plans]\n";
    let artifacts_of = |cfg: Config| {
        cfg.into_plan(None)
            .unwrap()
            .conversation
            .user
            .unwrap()
            .artifacts
    };
    assert_eq!(
        artifacts_of(from_yaml(file).unwrap()),
        ["from-file.md", ".plans"]
    );

    let from_env = || {
        Overrides::from_env(
            |k: &str| (k == "ONEJUDGE_ARTIFACTS").then(|| "env-a.md:dir/env-b".to_string()),
            at_colons,
        )
        .unwrap()
    };
    let mut cfg = from_yaml(file).unwrap();
    cfg.apply(from_env());
    assert_eq!(artifacts_of(cfg), ["env-a.md", "dir/env-b"]);
    let mut cfg = from_yaml(file).unwrap();
    cfg.apply(from_env());
    cfg.apply(Overrides {
        artifacts: Some(vec!["flag.md".into()]),
        ..Overrides::default()
    });
    assert_eq!(artifacts_of(cfg), ["flag.md"]);

    // Like the persona override, naming artifacts implies a simulated user.
    let mut bare = from_yaml("task: t\n").unwrap();
    bare.apply(from_env());
    assert_eq!(artifacts_of(bare), ["env-a.md", "dir/env-b"]);
    // An unset list names nothing.
    assert!(artifacts_of(from_yaml("task: t\nuser:\n  persona: p\n").unwrap()).is_empty());
}

#[test]
fn system_prompt_only_becomes_the_instructions() {
    let plan = from_yaml("task: x\nsystem_prompt: Be a careful engineer.\n")
        .unwrap()
        .into_plan(None)
        .unwrap();
    let skill = &plan.conversation.skill;
    assert_eq!(skill.instructions, "Be a careful engineer.");
    assert_eq!(skill.name, "agent");
    assert_eq!(skill.dir, ".");
}

#[test]
fn neither_skill_nor_system_prompt_leaves_empty_instructions() {
    let plan = from_yaml("task: x\n").unwrap().into_plan(None).unwrap();
    assert_eq!(plan.conversation.skill.instructions, "");
}

#[test]
fn minimal_config_resolves_to_a_single_turn_plan() {
    let cfg = from_yaml("task: do the thing\n").unwrap();
    let plan = cfg.into_plan(None).unwrap();
    assert_eq!(plan.settings.max_turns, 8);
    assert!(plan.done_when.is_none());
    assert!(plan.conversation.user.is_none());
    // An omitted judge_config leaves the provider default in place.
    assert!(matches!(
        plan.provider,
        ProviderSpec::Oneharness {
            judge_config: None,
            ..
        }
    ));
}

#[test]
fn missing_task_is_rejected() {
    let err = from_yaml("session: s\n")
        .unwrap()
        .into_plan(None)
        .err()
        .unwrap();
    assert!(matches!(err, CliError::Config(m) if m.contains("no task")));
}

#[test]
fn judge_config_resolves_onto_the_oneharness_spec() {
    let plan = from_yaml(
        "task: x\nprovider:\n  kind: oneharness\n  judge_config: custom.judge.toml\n",
    )
    .unwrap()
    .into_plan(None)
    .unwrap();
    assert!(matches!(
        plan.provider,
        ProviderSpec::Oneharness { judge_config: Some(p), .. } if p == "custom.judge.toml"
    ));
}

#[test]
fn stream_resolves_onto_the_oneharness_spec_and_defaults_off() {
    let streamed =
        from_yaml("task: x\nprovider:\n  kind: oneharness\n  stream: true\n")
            .unwrap()
            .into_plan(None)
            .unwrap();
    assert!(matches!(
        streamed.provider,
        ProviderSpec::Oneharness { stream: true, .. }
    ));

    // Omitted: a provider writes one buffered report document, as before.
    let buffered = from_yaml("task: x\n").unwrap().into_plan(None).unwrap();
    assert!(matches!(
        buffered.provider,
        ProviderSpec::Oneharness { stream: false, .. }
    ));
}

#[test]
fn stream_is_rejected_under_a_kind_that_cannot_honor_it() {
    // `stream` describes the oneharness agent-side call. A `command` backend
    // speaks the request/response protocol, and a `split` declares it on the
    // child that actually runs the agent.
    for yaml in [
        "task: x\nprovider:\n  kind: command\n  command: [p]\n  stream: true\n",
        "task: x\nprovider:\n  kind: split\n  stream: true\n  skill:\n    kind: oneharness\n  judge:\n    kind: oneharness\n",
    ] {
        let err = from_yaml(yaml).unwrap().into_plan(None).err().unwrap();
        assert!(matches!(err, CliError::Config(m) if m.contains("stream")), "{yaml}");
    }

    // Under a split's own oneharness child it is valid, and reaches that child.
    let plan = from_yaml(
        "task: x\nprovider:\n  kind: split\n  skill:\n    kind: oneharness\n    stream: true\n  judge:\n    kind: command\n    command: [j]\n",
    )
    .unwrap()
    .into_plan(None)
    .unwrap();
    match plan.provider {
        ProviderSpec::Split { skill, .. } => assert!(matches!(
            *skill,
            ProviderSpec::Oneharness { stream: true, .. }
        )),
        other => panic!("expected split, got {other:?}"),
    }
}

#[test]
fn control_resolves_onto_the_oneharness_spec_and_defaults_off() {
    let asked = from_yaml("task: x\nprovider:\n  kind: oneharness\n  control: true\n")
        .unwrap()
        .into_plan(None)
        .unwrap();
    assert!(matches!(
        asked.provider,
        ProviderSpec::Oneharness { control: true, .. }
    ));

    // Omitted: no socket, no flag, and a byte-identical argv — the default has
    // to change nothing for every caller that predates turn control.
    let plain = from_yaml("task: x\n").unwrap().into_plan(None).unwrap();
    assert!(matches!(
        plain.provider,
        ProviderSpec::Oneharness { control: false, .. }
    ));
}

#[test]
fn mock_harness_resolves_onto_the_oneharness_spec_and_defaults_to_none() {
    let mocked = from_yaml(&format!(
        "task: x\nprovider:\n  kind: oneharness\n  mock_harness: [{}, codex]\n",
        harness_id()
    ))
    .unwrap()
    .into_plan(None)
    .unwrap();
    match mocked.provider {
        ProviderSpec::Oneharness { mock_harness, .. } => {
            assert_eq!(mock_harness, [harness_id(), "codex"]);
        }
        other => panic!("expected oneharness, got {other:?}"),
    }

    // Omitted: no flag, and a run that bills the model exactly as before.
    let plain = from_yaml("task: x\n").unwrap().into_plan(None).unwrap();
    assert!(matches!(
        plain.provider,
        ProviderSpec::Oneharness { ref mock_harness, .. } if mock_harness.is_empty()
    ));
}

#[test]
fn mock_harness_is_rejected_under_a_kind_that_cannot_honor_it() {
    // A `command` backend is not oneharness, and a `split`'s two sides select
    // their harnesses under two different configs — so the ids belong on the
    // child that runs them.
    for yaml in [
        "task: x\nprovider:\n  kind: command\n  command: [p]\n  mock_harness: [HARNESS]\n",
        "task: x\nprovider:\n  kind: split\n  mock_harness: [HARNESS]\n  skill:\n    kind: oneharness\n  judge:\n    kind: oneharness\n",
    ] {
        let err = from_yaml(&yaml.replace("HARNESS", harness_id())).unwrap().into_plan(None).err().unwrap();
        assert!(
            matches!(err, CliError::Config(m) if m.contains("mock_harness")),
            "{yaml}"
        );
    }

    // On a split's own child it is valid, and reaches that child.
    let plan = from_yaml(
        &"task: x\nprovider:\n  kind: split\n  skill:\n    kind: oneharness\n    \
         mock_harness: [HARNESS]\n  judge:\n    kind: command\n    command: [j]\n"
            .replace("HARNESS", harness_id()),
    )
    .unwrap()
    .into_plan(None)
    .unwrap();
    match plan.provider {
        ProviderSpec::Split { skill, .. } => assert!(matches!(
            *skill,
            ProviderSpec::Oneharness { ref mock_harness, .. } if *mock_harness == [harness_id()]
        )),
        other => panic!("expected split, got {other:?}"),
    }
}

#[test]
fn control_is_rejected_under_a_kind_that_cannot_honor_it() {
    // `control` describes the oneharness agent-side call. A `command` backend
    // has no oneharness socket, and a `split` has two backends — so it declares
    // it on the child that runs the controllable turn.
    for yaml in [
        "task: x\nprovider:\n  kind: command\n  command: [p]\n  control: true\n",
        "task: x\nprovider:\n  kind: split\n  control: true\n  skill:\n    kind: oneharness\n  judge:\n    kind: oneharness\n",
    ] {
        let err = from_yaml(yaml).unwrap().into_plan(None).err().unwrap();
        assert!(
            matches!(err, CliError::Config(m) if m.contains("control")),
            "{yaml}"
        );
    }

    // Under a split's own skill-side child it is valid, and reaches that child.
    let plan = from_yaml(
        "task: x\nprovider:\n  kind: split\n  skill:\n    kind: oneharness\n    control: true\n  judge:\n    kind: command\n    command: [j]\n",
    )
    .unwrap()
    .into_plan(None)
    .unwrap();
    match plan.provider {
        ProviderSpec::Split { skill, .. } => assert!(matches!(
            *skill,
            ProviderSpec::Oneharness { control: true, .. }
        )),
        other => panic!("expected split, got {other:?}"),
    }
}

#[test]
fn settle_on_noop_defaults_to_true_and_is_declarable_either_way() {
    // Omitting the key is what every existing config does, and it must keep
    // meaning "settle a stalled loop". Declaring it is how a conversation whose
    // contract is to report nothing opts out.
    let omitted = from_yaml("task: t\nuser:\n  persona: p\n")
        .unwrap()
        .into_plan(None)
        .unwrap();
    assert!(omitted.settings.settle_on_noop);

    for declared in [true, false] {
        let plan = from_yaml(&format!(
            "task: t\nuser:\n  persona: p\n  settle_on_noop: {declared}\n"
        ))
        .unwrap()
        .into_plan(None)
        .unwrap();
        assert_eq!(plan.settings.settle_on_noop, declared);
    }
}

#[test]
fn user_block_builds_a_multi_turn_plan_with_done_when() {
    let yaml = r#"
task: refactor it
user:
  persona: a demanding lead
  done_when: tests pass
  max_turns: 5
"#;
    let plan = from_yaml(yaml).unwrap().into_plan(None).unwrap();
    assert_eq!(plan.done_when.as_deref(), Some("tests pass"));
    assert_eq!(plan.settings.max_turns, 5);
    let user = plan.conversation.user.unwrap();
    assert_eq!(user.max_turns, Some(5));
    assert_eq!(user.done_when.as_deref(), Some("tests pass"));
}

#[test]
fn overrides_win_over_file_and_imply_a_user() {
    let mut cfg = from_yaml("task: from file\n").unwrap();
    cfg.apply(Overrides {
        task: Some("from flag".into()),
        done_when: Some("it is done".into()),
        max_turns: Some(3),
        ..Overrides::default()
    });
    let plan = cfg.into_plan(None).unwrap();
    assert_eq!(plan.conversation.input, "from flag");
    assert_eq!(plan.done_when.as_deref(), Some("it is done"));
    assert_eq!(plan.settings.max_turns, 3);
}

#[test]
fn env_overrides_use_the_onejudge_prefix_across_the_flag_surface() {
    let env = std::collections::HashMap::from([
        ("ONEJUDGE_JUDGE_CONFIG", "env.judge.toml"),
        ("ONEJUDGE_SKILL", "skills/env-skill"),
        ("ONEJUDGE_SYSTEM_PROMPT", "an env preamble"),
        ("ONEJUDGE_TASK", "from env"),
        ("ONEJUDGE_PERSONA", "an env auditor"),
        ("ONEJUDGE_DONE_WHEN", "it ships"),
        ("ONEJUDGE_MAX_TURNS", "4"),
        ("ONEJUDGE_SESSION", "env-sess"),
        ("ONEJUDGE_PROVIDER", "command"),
    ]);
    let ov = Overrides::from_env(|k: &str| env.get(k).map(|v| (*v).to_string()), at_colons).unwrap();
    assert_eq!(ov.judge_config.as_deref(), Some("env.judge.toml"));
    assert_eq!(
        ov.skill.as_deref(),
        Some("skills/env-skill")
    );
    assert_eq!(ov.system_prompt.as_deref(), Some("an env preamble"));
    assert_eq!(ov.task.as_deref(), Some("from env"));
    assert_eq!(ov.persona.as_deref(), Some("an env auditor"));
    assert_eq!(ov.done_when.as_deref(), Some("it ships"));
    assert_eq!(ov.max_turns, Some(4));
    assert_eq!(ov.session.as_deref(), Some("env-sess"));
    assert_eq!(ov.provider_kind, Some(ProviderKind::Command));
}

#[test]
fn env_layer_beats_the_file_and_a_flag_beats_the_env() {
    // File sets the task and turn cap; the env overrides both; a flag then
    // wins over the env for the task, leaving the env's turn cap in place.
    let env = std::collections::HashMap::from([
        ("ONEJUDGE_TASK", "from env"),
        ("ONEJUDGE_MAX_TURNS", "9"),
    ]);
    let mut cfg =
        from_yaml("task: from file\nuser:\n  persona: p\n  max_turns: 2\n").unwrap();
    cfg.apply(Overrides::from_env(|k: &str| env.get(k).map(|v| (*v).to_string()), at_colons).unwrap());
    cfg.apply(Overrides {
        task: Some("from flag".into()),
        ..Overrides::default()
    });
    let plan = cfg.into_plan(None).unwrap();
    assert_eq!(plan.conversation.input, "from flag");
    assert_eq!(plan.settings.max_turns, 9);
}

#[test]
fn env_persona_implies_a_user_like_the_flag_does() {
    let env = std::collections::HashMap::from([("ONEJUDGE_PERSONA", "an env auditor")]);
    let mut cfg = from_yaml("task: t\n").unwrap();
    cfg.apply(Overrides::from_env(|k: &str| env.get(k).map(|v| (*v).to_string()), at_colons).unwrap());
    let plan = cfg.into_plan(None).unwrap();
    assert_eq!(
        plan.conversation.user.map(|u| u.persona).as_deref(),
        Some("an env auditor")
    );
}

#[test]
fn empty_env_values_are_treated_as_absent() {
    // An exported-but-blank variable must not force an empty override.
    let ov = Overrides::from_env(|k: &str| (k == "ONEJUDGE_TASK").then(String::new), at_colons).unwrap();
    assert!(ov.task.is_none());
}

#[test]
fn no_env_yields_empty_overrides() {
    let ov = Overrides::from_env(|_: &str| None, at_colons).unwrap();
    assert!(ov.task.is_none());
    assert!(ov.max_turns.is_none());
    assert!(ov.provider_kind.is_none());
}

#[test]
fn invalid_env_max_turns_is_a_loud_error() {
    let err = Overrides::from_env(|k: &str| (k == "ONEJUDGE_MAX_TURNS").then(|| "lots".to_string()), at_colons)
        .unwrap_err();
    assert!(matches!(err, CliError::Config(m) if m.contains("ONEJUDGE_MAX_TURNS")));
}

#[test]
fn invalid_env_provider_is_a_loud_error() {
    let err = Overrides::from_env(|k: &str| (k == "ONEJUDGE_PROVIDER").then(|| "nope".to_string()), at_colons)
        .unwrap_err();
    assert!(matches!(err, CliError::Config(m) if m.contains("ONEJUDGE_PROVIDER")));
}

#[test]
fn overrides_apply_judge_config_session_and_persona() {
    let mut cfg = from_yaml("task: t\n").unwrap();
    cfg.apply(Overrides {
        judge_config: Some("j.toml".into()),
        session: Some("sess-9".into()),
        persona: Some("a auditor".into()),
        ..Overrides::default()
    });
    let plan = cfg.into_plan(None).unwrap();
    assert!(matches!(
        &plan.provider,
        ProviderSpec::Oneharness { judge_config: Some(p), .. } if p == "j.toml"
    ));
    assert_eq!(plan.settings.session_name, "sess-9");
    // The persona flag implies a multi-turn conversation.
    assert!(plan.conversation.user.is_some());
    assert_eq!(plan.conversation.user.unwrap().persona, "a auditor");
}

#[test]
fn split_requires_both_a_skill_and_a_judge() {
    let only_skill = "task: x\nprovider:\n  kind: split\n  skill:\n    kind: oneharness\n";
    let err = from_yaml(only_skill)
        .unwrap()
        .into_plan(None)
        .err()
        .unwrap();
    assert!(matches!(err, CliError::Config(m) if m.contains("judge")));

    let only_judge = "task: x\nprovider:\n  kind: split\n  judges:\n    - kind: oneharness\n";
    let err = from_yaml(only_judge)
        .unwrap()
        .into_plan(None)
        .err()
        .unwrap();
    assert!(matches!(err, CliError::Config(m) if m.contains("skill")));
}

#[test]
fn command_provider_requires_argv() {
    let err = from_yaml("task: x\nprovider:\n  kind: command\n")
        .unwrap()
        .into_plan(None)
        .err()
        .unwrap();
    assert!(matches!(err, CliError::Config(m) if m.contains("command")));

    let plan = from_yaml(
        "task: x\nprovider:\n  kind: command\n  command: [my-prov, --flag]\n",
    )
    .unwrap()
    .into_plan(None)
    .unwrap();
    assert!(
        matches!(plan.provider, ProviderSpec::Command { command } if command == ["my-prov", "--flag"])
    );
}

#[test]
fn misplaced_field_for_kind_is_rejected() {
    // `bin` belongs to oneharness, not command.
    let err =
        from_yaml("task: x\nprovider:\n  kind: command\n  command: [p]\n  bin: nope\n")
            .unwrap()
            .into_plan(None)
            .err()
            .unwrap();
    assert!(matches!(err, CliError::Config(m) if m.contains("bin")));

    // `judge_config` belongs to oneharness, not command or split.
    let err = from_yaml(
        "task: x\nprovider:\n  kind: command\n  command: [p]\n  judge_config: j.toml\n",
    )
    .unwrap()
    .into_plan(None)
    .err()
    .unwrap();
    assert!(matches!(err, CliError::Config(m) if m.contains("judge_config")));

    let err = from_yaml(
        "task: x\nprovider:\n  kind: split\n  judge_config: j.toml\n  skill:\n    kind: oneharness\n  judge:\n    kind: oneharness\n",
    )
    .unwrap()
    .into_plan(None)
    .err()
    .unwrap();
    assert!(matches!(err, CliError::Config(m) if m.contains("judge_config")));
}

#[test]
fn split_provider_composes_two_backends() {
    let yaml = r#"
task: x
provider:
  kind: split
  skill:
    kind: oneharness
  judge:
    kind: command
    command: [judge-prov]
"#;
    let plan = from_yaml(yaml).unwrap().into_plan(None).unwrap();
    match plan.provider {
        ProviderSpec::Split { skill, judges } => {
            assert!(matches!(*skill, ProviderSpec::Oneharness { .. }));
            // `judge:` is the one-element list, labelled by its kind.
            assert_eq!(judges.len(), 1);
            assert_eq!(judges[0].label, "command");
            assert!(matches!(judges[0].provider, ProviderSpec::Command { .. }));
        }
        other => panic!("expected split, got {other:?}"),
    }
}

#[test]
fn judge_and_judges_resolve_through_one_path_to_the_same_panel() {
    let one = "task: x\nprovider:\n  kind: split\n  skill:\n    kind: oneharness\n  \
               judge:\n    kind: command\n    command: [judge-prov]\n";
    let list = "task: x\nprovider:\n  kind: split\n  skill:\n    kind: oneharness\n  \
                judges:\n    - kind: command\n      command: [judge-prov]\n";
    let one = from_yaml(one).unwrap().into_plan(None).unwrap();
    let list = from_yaml(list).unwrap().into_plan(None).unwrap();
    assert_eq!(one.provider, list.provider);
}

#[test]
fn a_judge_list_labels_each_entry_by_kind_and_order_unless_named() {
    let yaml = "task: x\nprovider:\n  kind: split\n  skill:\n    kind: oneharness\n  \
                judges:\n    - kind: oneharness\n      judge_config: a.toml\n    \
                - kind: command\n      command: [lint]\n      label: lint_run\n    \
                - kind: command\n      command: [other]\n    \
                - kind: oneharness\n";
    let plan = from_yaml(yaml).unwrap().into_plan(None).unwrap();
    let ProviderSpec::Split { judges, .. } = plan.provider else {
        panic!("a split");
    };
    let labels: Vec<&str> = judges.iter().map(|j| j.label.as_str()).collect();
    // The first judge of a kind is the bare kind, a repeat is `<kind>-<n>`
    // counting every judge of that kind in list order — a labelled one
    // included, so the third entry is the *second* command — and an explicit
    // label is taken verbatim.
    assert_eq!(
        labels,
        ["oneharness", "lint_run", "command-2", "oneharness-2"]
    );
    assert!(matches!(
        &judges[0].provider,
        ProviderSpec::Oneharness { judge_config: Some(p), .. } if p == "a.toml"
    ));
    assert!(judges.iter().all(JudgeSpec::scores_and_writes));
}

#[test]
fn judge_list_shape_errors_name_the_field() {
    let split = |judges: &str| {
        format!("task: x\nprovider:\n  kind: split\n  skill:\n    kind: oneharness\n{judges}")
    };
    let refused = |yaml: &str, needle: &str| {
        let err = from_yaml(yaml).unwrap().into_plan(None).err().unwrap();
        assert!(
            matches!(&err, CliError::Config(m) if m.contains(needle)),
            "{yaml}\n{err:?}"
        );
    };
    // Both spellings at once.
    refused(
        &split("  judge:\n    kind: oneharness\n  judges:\n    - kind: oneharness\n"),
        "`judge` and `judges` are exclusive",
    );
    // An empty list.
    refused(
        &split("  judges: []\n"),
        "`judges` must name at least one judge",
    );
    // Neither.
    refused(&split(""), "`judge` (or `judges`)");
    // A malformed label, and a duplicate one — explicit, and colliding with a
    // defaulted one.
    refused(
        &split("  judges:\n    - kind: oneharness\n      label: 'no spaces'\n"),
        "`label` `no spaces` is invalid",
    );
    refused(
        &split(
            "  judges:\n    - kind: oneharness\n      label: same\n    \
             - kind: command\n      command: [j]\n      label: same\n",
        ),
        "`label` `same` is used by more than one judge",
    );
    refused(
        &split(
            "  judges:\n    - kind: oneharness\n    \
             - kind: command\n      command: [j]\n      label: oneharness\n",
        ),
        "`label` `oneharness` is used by more than one judge",
    );
    // A label anywhere but a judge entry.
    refused(
        "task: x\nprovider:\n  kind: oneharness\n  label: top\n",
        "`label` is only valid on a judge entry",
    );
    refused(
        &split("  label: top\n  judge:\n    kind: oneharness\n"),
        "`label` is only valid on a judge entry",
    );
    refused(
        "task: x\nprovider:\n  kind: split\n  skill:\n    kind: oneharness\n    \
         label: agent\n  judge:\n    kind: oneharness\n",
        "`label` is only valid on a judge entry",
    );
    // `judges` under a kind that has no judge side.
    refused(
        "task: x\nprovider:\n  kind: oneharness\n  judges:\n    - kind: oneharness\n",
        "`judges` is not valid under provider kind `oneharness`",
    );
    refused(
        "task: x\nprovider:\n  kind: command\n  command: [p]\n  judges:\n    - kind: oneharness\n",
        "`judges` is not valid under provider kind `command`",
    );
}

#[test]
fn a_judge_list_that_can_score_accepts_numeric_evals_and_an_assessment() {
    // Every kind this build can name scores numbers and writes prose, so the
    // refusal for a list that cannot is not reachable yet; what is provable
    // is that a list holding a `command` judge is accepted beside both.
    let yaml = "task: x\nprovider:\n  kind: split\n  skill:\n    kind: oneharness\n  \
                judges:\n    - kind: command\n      command: [j]\n\
                evals:\n  - criterion: q\n    kind: numeric\n\
                assessment: follow-ups\n";
    let plan = from_yaml(yaml).unwrap().into_plan(None).unwrap();
    assert_eq!(plan.assessment.as_deref(), Some("follow-ups"));
    assert_eq!(plan.evals.len(), 1);
}

#[test]
fn an_unnamed_binary_leaves_the_turn_in_process() {
    // The default, and the one a config that says nothing about `bin` gets:
    // no `oneharness` process, and nothing needed on PATH. Naming one is the
    // opt-in to spawning, which is the only way to keep `Report::processes`.
    let plan = from_yaml("task: x\nprovider:\n  kind: oneharness\n")
        .unwrap()
        .into_plan(None)
        .unwrap();
    assert!(matches!(
        plan.provider,
        ProviderSpec::Oneharness { bin: None, .. }
    ));
}

#[test]
fn provider_override_changes_only_the_kind() {
    let mut cfg =
        from_yaml("task: x\nprovider:\n  kind: oneharness\n  bin: custom\n").unwrap();
    cfg.apply(Overrides {
        provider_kind: Some(ProviderKind::Oneharness),
        ..Overrides::default()
    });
    let plan = cfg.into_plan(None).unwrap();
    assert!(
        matches!(plan.provider, ProviderSpec::Oneharness { bin, .. } if bin.as_deref() == Some("custom"))
    );
}

#[test]
fn boolean_eval_rejects_a_scale() {
    let err = from_yaml(
        "task: x\nevals:\n  - criterion: it works\n    kind: boolean\n    scale: [1, 5]\n",
    )
    .unwrap()
    .into_plan(None)
    .err()
    .unwrap();
    assert!(matches!(err, CliError::Config(m) if m.contains("scale")));
}

#[test]
fn numeric_eval_default_and_custom_scale() {
    let plan = from_yaml(
        "task: x\nevals:\n  - criterion: quality\n    kind: numeric\n  - criterion: depth\n    kind: numeric\n    scale: [1, 5]\n",
    )
    .unwrap()
    .into_plan(None)
    .unwrap();
    assert_eq!(scale_of(&plan.evals[0].kind), Some((0.0, 10.0)));
    assert_eq!(scale_of(&plan.evals[1].kind), Some((1.0, 5.0)));
}

#[test]
fn numeric_eval_rejects_inverted_scale() {
    let err = from_yaml(
        "task: x\nevals:\n  - criterion: q\n    kind: numeric\n    scale: [5, 1]\n",
    )
    .unwrap()
    .into_plan(None)
    .err()
    .unwrap();
    assert!(matches!(err, CliError::Config(m) if m.contains("greater than max")));
}

#[test]
fn default_boolean_eval_kind() {
    let plan = from_yaml("task: x\nevals:\n  - criterion: it works\n")
        .unwrap()
        .into_plan(None)
        .unwrap();
    assert_eq!(plan.evals[0].kind, EvalKind::Boolean);
}

#[test]
fn assessment_prompt_resolves_and_empty_value_is_ignored() {
    let plan = from_yaml("task: x\nassessment: Identify follow-up work.\n")
        .unwrap()
        .into_plan(None)
        .unwrap();
    assert_eq!(plan.assessment.as_deref(), Some("Identify follow-up work."));

    let empty = from_yaml("task: x\nassessment: '   '\n")
        .unwrap()
        .into_plan(None)
        .unwrap();
    assert_eq!(empty.assessment, None);
}

#[test]
fn an_llmlint_judge_takes_no_seat_but_a_judges() {
    let refused = |yaml: &str| from_yaml(yaml).unwrap().into_plan(None).err().unwrap();
    assert!(matches!(
        refused("task: x\nprovider:\n  kind: llmlint\n"),
        CliError::Config(m) if m.contains("llmlint")
    ));
    assert!(matches!(
        refused(
            "task: x\nprovider:\n  kind: split\n  skill:\n    kind: llmlint\n  judge:\n    kind: oneharness\n"
        ),
        CliError::Config(m) if m.contains("llmlint")
    ));
    let lone = "task: x\nprovider:\n  kind: split\n  skill:\n    kind: oneharness\n  \
                judges:\n    - kind: llmlint\n";
    let plan = from_yaml(lone).unwrap().into_plan(None).unwrap();
    let ProviderSpec::Split { judges, .. } = plan.provider else {
        panic!("a split");
    };
    assert_eq!(judges[0].label, "llmlint");
    assert!(matches!(
        &judges[0].provider,
        ProviderSpec::Llmlint { bin, .. } if bin == "llmlint"
    ));
    assert!(!judges[0].scores_and_writes());
    // Nobody on that panel could score a number or write prose.
    assert!(matches!(
        refused(&format!("{lone}evals:\n  - criterion: q\n    kind: numeric\n")),
        CliError::Config(_)
    ));
    assert!(matches!(
        refused(&format!("{lone}assessment: follow-ups\n")),
        CliError::Config(_)
    ));
}

/// A hook that overrides nothing — enough to prove the plan carries one.
struct Inert;

impl SpawnHook for Inert {}

#[test]
fn a_plan_carries_no_spawn_hook_until_an_embedder_installs_one() {
    // A config file cannot name an in-process hook, so a resolved plan starts without
    // one.
    let plan = from_yaml("task: x\n").unwrap().into_plan(None).unwrap();
    assert!(plan.spawn_hook.is_none());

    let hook = SharedSpawnHook {
        shared: std::sync::Arc::new(AnySpawnHook {
            hook: Box::new(Inert),
        }),
    };
    let installed = plan.with_spawn_hook(hook);
    assert!(installed.spawn_hook.is_some());
    // The rest of the plan is untouched by installing one.
    assert_eq!(installed.conversation.input, "x");

    // The hook reaches the backend that is built for the plan.
    let probe = |_: &str| LintRun::NotStarted("none here".into());
    let backend = AnyProvider::build_for(&installed, &probe).ok().unwrap();
    let AnyProvider::Oneharness(provider) = &backend else {
        panic!("the default backend");
    };
    let shared = |spawner: &onejudge::spawn::Spawner| {
        spawner.hook.as_ref().map(|hook| std::sync::Arc::as_ptr(&hook.shared))
    };
    let own = installed.spawn_hook.as_ref().map(|hook| std::sync::Arc::as_ptr(&hook.shared));
    assert_eq!(shared(provider.spawner()), own);
    assert!(matches!(provider.execution(), Execution::Process(bin) if bin == "oneharness"));

    // And every part of a split.
    let split = ProviderSpec::Split {
        skill: Box::new(ProviderSpec::Command {
            command: vec!["s".into()],
        }),
        judges: vec![JudgeSpec {
            label: "j".into(),
            provider: ProviderSpec::Command {
                command: vec!["j".into()],
            },
        }],
    };
    let hook = installed.spawn_hook.as_ref().unwrap();
    let hooked = AnyProvider::build(&split, &probe).ok().unwrap().with_spawn_hook(hook);
    let AnyProvider::Split { skill, judges } = &hooked else {
        panic!("a split is built as one");
    };
    let AnyProvider::Command(runner) = skill.as_ref() else {
        panic!("the runner is a command");
    };
    assert_eq!(shared(runner.spawner()), own);
    let AnyProvider::Command(judge) = judges.judges()[0].provider() else {
        panic!("the judge is a command");
    };
    assert_eq!(shared(judge.spawner()), own);
}

#[test]
fn a_nested_split_scores_where_one_of_its_judges_does() {
    let lint = || JudgeSpec {
        label: "l".into(),
        provider: ProviderSpec::Llmlint {
            bin: "llmlint".into(),
            config: None,
            diff_base: None,
            args: vec![],
        },
    };
    let command = || ProviderSpec::Command {
        command: vec!["s".into()],
    };
    let nested = |judges: Vec<JudgeSpec>| JudgeSpec {
        label: "j".into(),
        provider: ProviderSpec::Split {
            skill: Box::new(command()),
            judges,
        },
    };
    assert!(!lint().scores_and_writes());
    assert!(!nested(vec![lint()]).scores_and_writes());
    assert!(!nested(vec![nested(vec![lint()])]).scores_and_writes());
    let able = JudgeSpec {
        label: "c".into(),
        provider: command(),
    };
    let mixed = nested(vec![lint(), able]);
    assert!(mixed.scores_and_writes());

    // A panel leaves out of scoring exactly the judges that cannot.
    let answers = |_: &str| {
        LintRun::Ended(onejudge::llmlint::LintEnded {
            code: Some(0),
            status: String::new(),
            stdout: "llmlint 1".into(),
            stderr: String::new(),
        })
    };
    let spec = ProviderSpec::Split {
        skill: Box::new(command()),
        judges: vec![
            lint(),
            nested(vec![lint()]),
            JudgeSpec {
                label: "m".into(),
                provider: mixed.provider,
            },
        ],
    };
    let AnyProvider::Split { judges, .. } = AnyProvider::build(&spec, &answers).ok().unwrap()
    else {
        panic!("a split is built as one");
    };
    assert_eq!(judges.ruling_judges(JudgeKind::Boolean), vec![0, 1, 2]);
    assert_eq!(judges.ruling_judges(JudgeKind::Numeric), vec![2]);
    assert_eq!(judges.writing_judges(), vec![2]);
    assert!(!judges.judges()[1].abilities().user);
}

#[test]
fn flags_win_over_the_environment_and_that_over_the_file() {
    let file = from_yaml("task: file\nskill: a\nuser:\n  persona: of the file\n  max_turns: 5\n")
        .unwrap();
    let env = Overrides {
        task: Some("env".into()),
        skill: Some("b".into()),
        persona: Some("of the env".into()),
        done_when: Some("done".into()),
        ..Overrides::default()
    };
    let flags = Overrides {
        task: Some("flags".into()),
        artifacts: Some(vec!["x".into()]),
        ..Overrides::default()
    };
    let merged = file.layered(env, flags);
    assert_eq!(merged.task.as_deref(), Some("flags"));
    assert_eq!(merged.skill.as_deref(), Some("b"));
    let user = merged.user.unwrap();
    assert_eq!(user.persona, "of the env");
    assert_eq!(user.done_when.as_deref(), Some("done"));
    assert_eq!(user.max_turns, Some(5));
    assert_eq!(user.artifacts, vec!["x".to_string()]);
}
