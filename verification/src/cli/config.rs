//! The configuration surface of the command line, and the typed plan it resolves
//! into. Overrides from the environment and the flags are merged (flags win over
//! env, env wins over file, file wins over defaults), and the result is validated
//! into a [`Plan`]. A malformed configuration — or an invalid override — is a
//! loud, actionable error, never a silent default.

use crate::engine::{Conversation, Settings, SimulatedUser, Skill};
use crate::error::Error;
use crate::llmlint::DEFAULT_LLMLINT_BIN;
use crate::number::{above, greater, Number, TEN};
use crate::panel::{is_valid_label, valid_label};
use crate::provider::JudgeKind;
use crate::skill::{framed, SkillDefinition};
use crate::spawn::SharedSpawnHook;
use crate::text::{
    blank, copy_opt, copy_texts, decimal, decimal_of, is_blank, opt_text, parse_u32, same,
    same_but_case, same_ignoring_case, texts, trim, trimmed, unsigned_value,
};
use vstd::prelude::*;
use vstd::string::*;

verus! {

/// Errors surfaced by the command line. Configuration problems are separated from
/// I/O and engine failures so the entrypoint can exit with a fitting code.
#[derive(Debug, Clone, PartialEq, Eq)]
pub enum CliError {
    /// A malformed or inconsistent config (bad YAML, unknown key, missing task,
    /// misplaced provider field, …).
    Config(String),
    /// An I/O failure reading the config / task or writing the output, by its text.
    Io(String),
    /// A failure from the engine / provider while driving the run.
    Engine(Error),
}

impl CliError {
    /// Whether this is a configuration error saying exactly `what`.
    pub open spec fn refuses(self, what: Seq<char>) -> bool {
        self is Config && self->Config_0@ == what
    }

    /// The text a person reads.
    pub open spec fn shown(self) -> Seq<char> {
        match self {
            CliError::Config(what) => "config error: "@ + what@,
            CliError::Io(what) => what@,
            CliError::Engine(err) => "run failed: "@ + err@.shown(),
        }
    }

    /// The text a person reads.
    #[must_use]
    pub fn render(&self) -> (text: String)
        ensures
            text@ == self.shown(),
    {
        match self {
            CliError::Config(what) => {
                let mut out = "config error: ".to_owned();
                out.append(what.as_str());
                out
            },
            CliError::Io(what) => what.clone(),
            CliError::Engine(err) => {
                let mut out = "run failed: ".to_owned();
                out.append(err.render().as_str());
                out
            },
        }
    }
}

/// The whole configuration of one run.
#[derive(Debug, Default, PartialEq, Eq)]
pub struct Config {
    /// Which backend runs the harness (and judges / plays the user).
    pub provider: ProviderConfig,
    /// Path to a skill directory whose instruction body seeds the system prompt.
    pub skill: Option<String>,
    /// Extra system-prompt text for the harness. When a `skill` is also set, this
    /// comes **first** and the skill's body is appended after it.
    pub system_prompt: Option<String>,
    /// The task to drive to completion; required by the time the plan is built.
    pub task: Option<String>,
    /// The simulated user / supervisor that drives the loop. Omit for a
    /// single-turn run (the agent answers once).
    pub user: Option<UserConfig>,
    /// The caller-owned session name threaded across turns; defaults to
    /// `onejudge`.
    pub session: Option<String>,
    /// Optional criteria to score the finished transcript with.
    pub evals: Vec<EvalConfig>,
    /// Optional prompt for a free-text judgement of the finished transcript.
    pub assessment: Option<String>,
}

/// The simulated user that supervises the agent and drives the loop.
#[derive(Debug, Clone, Default, PartialEq, Eq)]
pub struct UserConfig {
    /// How the simulated user behaves (their instructions).
    pub persona: String,
    /// A plain-English completion condition.
    pub done_when: Option<String>,
    /// The assistant-turn cap for this run.
    pub max_turns: Option<u32>,
    /// Whether a run of quiet, repeated exchanges settles the loop early.
    pub settle_on_noop: Option<bool>,
    /// Files or directories every judge-side prompt names for the evaluator to
    /// read directly.
    pub artifacts: Vec<String>,
}

/// One eval scored against the finished transcript.
#[derive(Debug, Clone, PartialEq, Eq)]
pub struct EvalConfig {
    /// The plain-English criterion.
    pub criterion: String,
    /// Boolean (a pass/fail verdict) or numeric (a score on a scale).
    pub kind: JudgeKind,
    /// The inclusive `(min, max)` scale for a numeric eval; rejected for a boolean
    /// one. Defaults to `(0, 10)`.
    pub scale: Option<(Number, Number)>,
}

/// Which backend runs the harness: a flat struct from which
/// [`ProviderConfig::resolve`] takes only the chosen `kind`'s fields, so a
/// misplaced-but-spelled-right key is still a loud error.
#[derive(Debug, Default, PartialEq, Eq)]
pub struct ProviderConfig {
    /// `oneharness` (default) | `command` | `split` | `llmlint` (a judge entry
    /// only).
    pub kind: ProviderKind,
    /// `oneharness`: the binary to spawn. `llmlint`: the executable.
    pub bin: Option<String>,
    /// `oneharness`: the config file the judge / simulated user run under.
    pub judge_config: Option<String>,
    /// `oneharness`: the agent-side binary speaks the streamed provider protocol.
    pub stream: Option<bool>,
    /// `oneharness`: ask for controllable turns.
    pub control: Option<bool>,
    /// `oneharness`: harness ids to run against the deterministic responder.
    pub mock_harness: Option<Vec<String>>,
    /// `command`: the provider argv (program + args).
    pub command: Option<Vec<String>>,
    /// `llmlint`: the llmlint config file.
    pub config: Option<String>,
    /// `llmlint`: review only what the worktree changed against this revision.
    pub diff_base: Option<String>,
    /// `llmlint`: extra arguments appended to every invocation.
    pub args: Option<Vec<String>>,
    /// `split`: the backend that runs the agent's turns.
    pub skill: Option<Box<ProviderConfig>>,
    /// `split`: the one judge — the shorthand for `judges: [<this>]`.
    pub judge: Option<Box<ProviderConfig>>,
    /// `split`: the judges, one or more.
    pub judges: Option<Vec<ProviderConfig>>,
    /// A judge entry only: this judge's name on every surface.
    pub label: Option<String>,
}

/// The provider backends the command line can build.
#[derive(Debug, Clone, Copy, PartialEq, Eq, Structural, Hash, Default)]
pub enum ProviderKind {
    /// Shell out to the `oneharness` CLI (the default).
    #[default]
    Oneharness,
    /// A custom command speaking the JSON-lines protocol.
    Command,
    /// Compose a skill-runner with a separate judge / simulated-user backend.
    Split,
    /// A judge whose whole verdict is one `llmlint` run over the worker's tree.
    Llmlint,
}

impl ProviderKind {
    /// The stable spelling.
    pub open spec fn name(self) -> Seq<char> {
        match self {
            ProviderKind::Oneharness => "oneharness"@,
            ProviderKind::Command => "command"@,
            ProviderKind::Split => "split"@,
            ProviderKind::Llmlint => "llmlint"@,
        }
    }

    /// The stable spelling — also the `kind` a judge's decision is recorded
    /// under.
    #[must_use]
    pub fn as_str(self) -> (name: &'static str)
        ensures
            name@ == self.name(),
    {
        match self {
            ProviderKind::Oneharness => "oneharness",
            ProviderKind::Command => "command",
            ProviderKind::Split => "split",
            ProviderKind::Llmlint => "llmlint",
        }
    }

    /// Two kinds are never spelled alike, whatever the case.
    pub proof fn lemma_names_differ(a: Self, b: Self)
        requires
            same_but_case(a.name(), b.name()),
        ensures
            a == b,
    {
        reveal_strlit("oneharness");
        reveal_strlit("command");
        reveal_strlit("split");
        reveal_strlit("llmlint");
        assert("oneharness"@.len() == 10 && "command"@.len() == 7);
        assert("split"@.len() == 5 && "llmlint"@.len() == 7);
        assert("command"@[0] == 'c' && "llmlint"@[0] == 'l');
    }

    /// The kind that `raw` spells, disregarding the case of its letters.
    pub fn from_name(raw: &str) -> (kind: Option<Self>)
        ensures
            match kind {
                Some(k) => same_but_case(raw@, k.name()),
                None => forall|k: Self| !same_but_case(raw@, #[trigger] k.name()),
            },
    {
        if same_ignoring_case(raw, "oneharness") {
            Some(ProviderKind::Oneharness)
        } else if same_ignoring_case(raw, "command") {
            Some(ProviderKind::Command)
        } else if same_ignoring_case(raw, "split") {
            Some(ProviderKind::Split)
        } else if same_ignoring_case(raw, "llmlint") {
            Some(ProviderKind::Llmlint)
        } else {
            None
        }
    }
}

// --- The resolved backend ---------------------------------------------------
/// A validated provider backend, ready to build.
#[allow(inconsistent_fields)]
#[derive(Debug, PartialEq, Eq)]
pub enum ProviderSpec {
    /// Run `oneharness`.
    Oneharness {
        /// A binary to **spawn** instead of running the linked engine in process.
        bin: Option<String>,
        /// The judge / simulated-user config file; `None` leaves the provider's
        /// own default.
        judge_config: Option<String>,
        /// The agent-side binary speaks the streamed provider protocol.
        stream: bool,
        /// Ask for a controllable agent turn.
        control: bool,
        /// Harness ids run against the deterministic responder.
        mock_harness: Vec<String>,
    },
    /// A custom command speaking the JSON-lines protocol.
    Command {
        /// The provider argv.
        command: Vec<String>,
    },
    /// A composed skill-runner + judge-panel backend.
    Split {
        /// Runs the agent's turns.
        skill: Box<ProviderSpec>,
        /// The judges, in list order.
        judges: Vec<JudgeSpec>,
    },
    /// A judge whose verdict is one `llmlint` run over the worker's tree.
    Llmlint {
        /// The executable, probed with `--version` when built.
        bin: String,
        /// The llmlint config file, or llmlint's own discovery.
        config: Option<String>,
        /// The git revision to review the changes against, or the whole tree.
        diff_base: Option<String>,
        /// Extra arguments appended to every run.
        args: Vec<String>,
    },
}

/// One judge of a `split`'s panel: its resolved label and the backend that
/// judges under it.
#[derive(Debug, PartialEq, Eq)]
pub struct JudgeSpec {
    /// The label every surface names this judge by.
    pub label: String,
    /// The backend.
    pub provider: ProviderSpec,
}

/// What a [`ProviderSpec`] says, character by character.
#[allow(inconsistent_fields)]
pub enum ProviderModel {
    Oneharness {
        bin: Option<Seq<char>>,
        judge_config: Option<Seq<char>>,
        stream: bool,
        control: bool,
        mock_harness: Seq<Seq<char>>,
    },
    Command { command: Seq<Seq<char>> },
    Split { skill: Box<ProviderModel>, judges: Seq<JudgeModel> },
    Llmlint {
        bin: Seq<char>,
        config: Option<Seq<char>>,
        diff_base: Option<Seq<char>>,
        args: Seq<Seq<char>>,
    },
}

/// What a [`JudgeSpec`] says, character by character.
pub struct JudgeModel {
    pub label: Seq<char>,
    pub provider: ProviderModel,
}

impl ProviderModel {
    /// Which backend this builds.
    pub open spec fn kind(self) -> ProviderKind {
        match self {
            ProviderModel::Oneharness { .. } => ProviderKind::Oneharness,
            ProviderModel::Command { .. } => ProviderKind::Command,
            ProviderModel::Split { .. } => ProviderKind::Split,
            ProviderModel::Llmlint { .. } => ProviderKind::Llmlint,
        }
    }

    /// Whether a judge of this backend scores numbers and writes prose: a nested split
    /// does where one of its own judges does.
    pub open spec fn scores(self) -> bool
        decreases self,
    {
        match self {
            ProviderModel::Oneharness { .. } => true,
            ProviderModel::Command { .. } => true,
            ProviderModel::Llmlint { .. } => false,
            ProviderModel::Split { skill, judges } => exists|i: int|
                0 <= i < judges.len() && (#[trigger] judges[i]).provider.scores(),
        }
    }
}

impl ProviderSpec {
    /// What this spec says.
    pub open spec fn model(self) -> ProviderModel
        decreases self,
    {
        match self {
            ProviderSpec::Oneharness { bin, judge_config, stream, control, mock_harness } => {
                ProviderModel::Oneharness {
                    bin: opt_text(bin),
                    judge_config: opt_text(judge_config),
                    stream,
                    control,
                    mock_harness: texts(mock_harness@),
                }
            },
            ProviderSpec::Command { command } => ProviderModel::Command {
                command: texts(command@),
            },
            ProviderSpec::Split { skill, judges } => ProviderModel::Split {
                skill: Box::new((*skill).model()),
                judges: Seq::new(
                    judges@.len(),
                    |i: int|
                        if 0 <= i < judges@.len() {
                            JudgeModel {
                                label: judges@[i].label@,
                                provider: judges@[i].provider.model(),
                            }
                        } else {
                            arbitrary()
                        },
                ),
            },
            ProviderSpec::Llmlint { bin, config, diff_base, args } => ProviderModel::Llmlint {
                bin: bin@,
                config: opt_text(config),
                diff_base: opt_text(diff_base),
                args: texts(args@),
            },
        }
    }

    /// Which backend this spec builds.
    #[must_use]
    pub fn kind(&self) -> (kind: ProviderKind)
        ensures
            kind == self.model().kind(),
    {
        match self {
            ProviderSpec::Oneharness { .. } => ProviderKind::Oneharness,
            ProviderSpec::Command { .. } => ProviderKind::Command,
            ProviderSpec::Split { .. } => ProviderKind::Split,
            ProviderSpec::Llmlint { .. } => ProviderKind::Llmlint,
        }
    }

    /// Whether a judge of this backend can score a number and write prose.
    #[must_use]
    pub fn scores_and_writes(&self) -> (r: bool)
        ensures
            r == self.model().scores(),
        decreases *self,
    {
        match self {
            ProviderSpec::Oneharness { .. } | ProviderSpec::Command { .. } => true,
            ProviderSpec::Llmlint { .. } => false,
            ProviderSpec::Split { skill: _, judges } => {
                let ghost whole = *self;
                let ghost models = whole.model()->judges;
                let mut i: usize = 0;
                while i < judges.len()
                    invariant
                        i <= judges@.len(),
                        whole == *self,
                        whole is Split,
                        whole->judges == *judges,
                        models == whole.model()->judges,
                        models.len() == judges@.len(),
                        forall|k: int|
                            0 <= k < judges@.len() ==> (#[trigger] models[k]).provider
                                == judges@[k].provider.model(),
                        forall|k: int| 0 <= k < i ==> !(#[trigger] models[k]).provider.scores(),
                    decreases judges@.len() - i,
                {
                    proof {
                        let v = whole->judges;
                        assert(decreases_to!(v => v@[i as int]));
                        assert(decreases_to!(whole => v));
                    }
                    let able = judges[i].provider.scores_and_writes();
                    proof {
                        assert(able == models[i as int].provider.scores());
                    }
                    if able {
                        return true;
                    }
                    i = i + 1;
                }
                false
            },
        }
    }
}

impl JudgeSpec {
    /// What this spec says.
    pub open spec fn model(self) -> JudgeModel {
        JudgeModel { label: self.label@, provider: self.provider.model() }
    }

    /// Whether this judge can score a number and write prose — an `oneharness` or
    /// `command` judge, or a nested split judged by one. An `llmlint` judge cannot: a
    /// lint run has no opinion on a scale and writes no prose, so it is left out of
    /// numeric evals and assessments.
    #[must_use]
    pub fn scores_and_writes(&self) -> (r: bool)
        ensures
            r == self.model().provider.scores(),
    {
        self.provider.scores_and_writes()
    }
}


// --- Resolving a provider ---------------------------------------------------
/// Where in the config a [`ProviderConfig`] sits: the top-level `provider`, a
/// split's `skill:` child, or one entry of its judge list.
#[derive(Debug, Clone, Copy, PartialEq, Eq, Structural)]
pub enum Place {
    /// The top-level `provider`.
    Top,
    /// A split's `skill:` child.
    Skill,
    /// One entry of a split's judge list.
    Judge,
}

/// The refusal of a `label` outside a judge list.
pub open spec fn misplaced_label() -> Seq<char> {
    "`label` is only valid on a judge entry (under `provider.judges:` or                  `provider.judge:`)"@
}

/// The refusal of an llmlint backend outside a judge list.
pub open spec fn misplaced_llmlint(place: Place) -> Seq<char> {
    "provider kind `llmlint` is a judge and cannot run the agent's turns: it is not valid as "@ + (
    if place is Top {
        "the top-level `provider` (or the `--provider` / `ONEJUDGE_PROVIDER` override)"@
    } else {
        "`provider.skill`"@
    })
        + "; put it under `provider.judges:` (or `provider.judge:`) of a `kind: split` provider"@
}

/// The refusal of a field that the kind does not have.
pub open spec fn stray_field(field: Seq<char>, kind: ProviderKind) -> Seq<char> {
    "`"@ + field + "` is not valid under provider kind `"@ + kind.name() + "`"@
}

impl ProviderConfig {
    /// The first field that is set although the kind has no such field, in the
    /// order in which fields are looked at.
    pub open spec fn stray(self) -> Option<Seq<char>> {
        let oneharness_only = if self.judge_config is Some {
            Some("judge_config"@)
        } else if self.stream is Some {
            Some("stream"@)
        } else if self.control is Some {
            Some("control"@)
        } else if self.mock_harness is Some {
            Some("mock_harness"@)
        } else {
            None
        };
        let llmlint_only = if self.config is Some {
            Some("config"@)
        } else if self.diff_base is Some {
            Some("diff_base"@)
        } else if self.args is Some {
            Some("args"@)
        } else {
            None
        };
        let split_only = if self.skill is Some {
            Some("skill"@)
        } else if self.judge is Some {
            Some("judge"@)
        } else if self.judges is Some {
            Some("judges"@)
        } else {
            None
        };
        let bin = if self.bin is Some {
            Some("bin"@)
        } else {
            None
        };
        let command = if self.command is Some {
            Some("command"@)
        } else {
            None
        };
        match self.kind {
            ProviderKind::Oneharness => first_of(command, first_of(llmlint_only, split_only)),
            ProviderKind::Command => first_of(
                bin,
                first_of(oneharness_only, first_of(llmlint_only, split_only)),
            ),
            ProviderKind::Split => first_of(
                bin,
                first_of(oneharness_only, first_of(command, llmlint_only)),
            ),
            ProviderKind::Llmlint => first_of(oneharness_only, first_of(command, split_only)),
        }
    }

    /// How many judges a split names, under either spelling.
    pub open spec fn seats(self) -> nat {
        if self.judge is Some {
            1
        } else if self.judges is Some {
            self.judges->0@.len()
        } else {
            0
        }
    }

    /// The `i`-th judge a split names, under either spelling.
    pub open spec fn seat(self, i: int) -> ProviderConfig {
        if self.judge is Some {
            *self.judge->0
        } else {
            self.judges->0@[i]
        }
    }

    /// How many of the first `n` judges are of `kind`.
    pub open spec fn seats_of_kind(self, kind: ProviderKind, n: nat) -> nat
        decreases n,
    {
        if n == 0 {
            0
        } else {
            self.seats_of_kind(kind, (n - 1) as nat) + if self.seat(n - 1).kind == kind {
                1nat
            } else {
                0nat
            }
        }
    }

    /// The label of the `i`-th judge: the explicit one, else its kind, with
    /// `-<n>` behind it for the n-th judge of that kind from the second on.
    pub open spec fn seat_label(self, i: int) -> Seq<char> {
        let entry = self.seat(i);
        match entry.label {
            Some(label) => label@,
            None => {
                let n = self.seats_of_kind(entry.kind, (i + 1) as nat);
                if n == 1 {
                    entry.kind.name()
                } else {
                    entry.kind.name() + "-"@ + decimal(n)
                }
            },
        }
    }

    /// The backend that this config, at `place`, asks for — or the refusal.
    pub open spec fn resolved(self, place: Place) -> Result<ProviderModel, Seq<char>>
        decreases self, self.seats() + 2,
        via Self::resolved_decreases
    {
        if self.label is Some && !(place is Judge) {
            Err(misplaced_label())
        } else if self.kind is Llmlint && !(place is Judge) {
            Err(misplaced_llmlint(place))
        } else if self.stray() is Some {
            Err(stray_field(self.stray()->0, self.kind))
        } else {
            match self.kind {
                ProviderKind::Oneharness => Ok(
                    ProviderModel::Oneharness {
                        bin: opt_text(self.bin),
                        judge_config: opt_text(self.judge_config),
                        stream: self.stream == Some(true),
                        control: self.control == Some(true),
                        mock_harness: list_or_empty(self.mock_harness),
                    },
                ),
                ProviderKind::Command => if self.command is Some && self.command->0@.len() > 0 {
                    Ok(ProviderModel::Command { command: texts(self.command->0@) })
                } else {
                    Err("provider kind `command` needs a non-empty `command`"@)
                },
                ProviderKind::Split => if self.skill is None {
                    Err("provider kind `split` needs a `skill` provider"@)
                } else if self.judge is Some && self.judges is Some {
                    Err(
                        "`judge` and `judges` are exclusive under provider kind `split`: `judge:` is the one-element shorthand for `judges: [..]`"@,
                    )
                } else if self.judges is Some && self.judges->0@.len() == 0 {
                    Err("`judges` must name at least one judge under provider kind `split`"@)
                } else if self.judge is None && self.judges is None {
                    Err("provider kind `split` needs a `judge` (or `judges`) provider"@)
                } else {
                    match (*self.skill->0).resolved(Place::Skill) {
                        Err(refusal) => Err(refusal),
                        Ok(skill) => match self.panel_resolved(self.seats()) {
                            Err(refusal) => Err(refusal),
                            Ok(judges) => Ok(ProviderModel::Split { skill: Box::new(skill), judges }),
                        },
                    }
                },
                ProviderKind::Llmlint => if self.bin is Some && blank(self.bin->0@) {
                    Err("`bin` under provider kind `llmlint` must name the llmlint executable"@)
                } else {
                    Ok(
                        ProviderModel::Llmlint {
                            bin: if self.bin is Some {
                                self.bin->0@
                            } else {
                                DEFAULT_LLMLINT_BIN@
                            },
                            config: opt_text(self.config),
                            diff_base: if self.diff_base is Some && !blank(self.diff_base->0@) {
                                opt_text(self.diff_base)
                            } else {
                                None
                            },
                            args: list_or_empty(self.args),
                        },
                    )
                },
            }
        }
    }

    /// The first `n` judges of the panel that this split asks for — or the first
    /// refusal among them.
    pub open spec fn panel_resolved(self, n: nat) -> Result<Seq<JudgeModel>, Seq<char>>
        decreases self, n + 1,
        via Self::panel_decreases
    {
        if n == 0 {
            Ok(Seq::empty())
        } else if n > self.seats() {
            arbitrary()
        } else {
            match self.panel_resolved((n - 1) as nat) {
                Err(refusal) => Err(refusal),
                Ok(earlier) => {
                    let entry = self.seat(n - 1);
                    let label = self.seat_label(n - 1);
                    if entry.label is Some && !valid_label(label) {
                        Err(
                            "judge `label` `"@ + label
                                + "` is invalid: a label is `[A-Za-z0-9_-]+`"@,
                        )
                    } else if exists|i: int|
                        0 <= i < earlier.len() && (#[trigger] earlier[i]).label == label {
                        Err(
                            "judge `label` `"@ + label
                                + "` is used by more than one judge; labels are unique within `judges`"@,
                        )
                    } else {
                        match entry.resolved(Place::Judge) {
                            Err(refusal) => Err(refusal),
                            Ok(provider) => Ok(earlier.push(JudgeModel { label, provider })),
                        }
                    }
                },
            }
        }
    }

    #[via_fn]
    proof fn resolved_decreases(self, place: Place) {
    }

    #[via_fn]
    proof fn panel_decreases(self, n: nat) {
        if 0 < n <= self.seats() {
            if self.judge is Some {
            } else {
                let v = self.judges->0;
                assert(decreases_to!(v => v@[n - 1]));
            }
        }
    }
}

/// The first of two that is there.
pub open spec fn first_of(a: Option<Seq<char>>, b: Option<Seq<char>>) -> Option<Seq<char>> {
    if a is Some {
        a
    } else {
        b
    }
}

/// The texts of an optional list, where an absent list is an empty one.
pub open spec fn list_or_empty(list: Option<Vec<String>>) -> Seq<Seq<char>> {
    match list {
        Some(list) => texts(list@),
        None => Seq::empty(),
    }
}

/// Whether a resolution and what it ought to be agree: the same backend, or the
/// same refusal.
pub open spec fn agrees(
    r: Result<ProviderSpec, CliError>,
    model: Result<ProviderModel, Seq<char>>,
) -> bool {
    match (r, model) {
        (Ok(spec), Ok(model)) => spec.model() == model,
        (Err(err), Err(refusal)) => err.refuses(refusal),
        _ => false,
    }
}

/// What a list of judge specs says.
pub open spec fn judge_models(judges: Seq<JudgeSpec>) -> Seq<JudgeModel> {
    Seq::new(judges.len(), |i: int| judges[i].model())
}

fn list_of(list: &Option<Vec<String>>) -> (r: Vec<String>)
    ensures
        texts(r@) == list_or_empty(*list),
{
    match list {
        Some(list) => copy_texts(list),
        None => {
            let none: Vec<String> = Vec::new();
            proof {
                assert(texts(none@) =~= Seq::empty());
            }
            none
        },
    }
}

impl ProviderConfig {
    /// A refusal among the first judges is the refusal of the whole panel.
    proof fn lemma_refusal_stands(self, k: nat, n: nat)
        requires
            k <= n <= self.seats(),
            self.panel_resolved(k) is Err,
        ensures
            self.panel_resolved(n) == self.panel_resolved(k),
        decreases n - k,
    {
        if k < n {
            self.lemma_refusal_stands(k, (n - 1) as nat);
        }
    }

    fn stray_name(&self) -> (field: Option<&'static str>)
        ensures
            match field {
                Some(field) => self.stray() == Some(field@),
                None => self.stray() is None,
            },
    {
        let oneharness_only = if self.judge_config.is_some() {
            Some("judge_config")
        } else if self.stream.is_some() {
            Some("stream")
        } else if self.control.is_some() {
            Some("control")
        } else if self.mock_harness.is_some() {
            Some("mock_harness")
        } else {
            None
        };
        let llmlint_only = if self.config.is_some() {
            Some("config")
        } else if self.diff_base.is_some() {
            Some("diff_base")
        } else if self.args.is_some() {
            Some("args")
        } else {
            None
        };
        let split_only = if self.skill.is_some() {
            Some("skill")
        } else if self.judge.is_some() {
            Some("judge")
        } else if self.judges.is_some() {
            Some("judges")
        } else {
            None
        };
        let bin = if self.bin.is_some() {
            Some("bin")
        } else {
            None
        };
        let command = if self.command.is_some() {
            Some("command")
        } else {
            None
        };
        match self.kind {
            ProviderKind::Oneharness => either(command, either(llmlint_only, split_only)),
            ProviderKind::Command => either(
                bin,
                either(oneharness_only, either(llmlint_only, split_only)),
            ),
            ProviderKind::Split => either(
                bin,
                either(oneharness_only, either(command, llmlint_only)),
            ),
            ProviderKind::Llmlint => either(oneharness_only, either(command, split_only)),
        }
    }

    /// Validate the flat config into a typed [`ProviderSpec`], rejecting fields
    /// that do not belong to the chosen `kind` — or, for `label`, to this place.
    pub fn resolve(&self, place: Place) -> (r: Result<ProviderSpec, CliError>)
        ensures
            agrees(r, self.resolved(place)),
        decreases *self, self.seats() + 2,
    {
        if self.label.is_some() && place != Place::Judge {
            return Err(
                CliError::Config(
                    "`label` is only valid on a judge entry (under `provider.judges:` or                  `provider.judge:`)".to_owned(),
                ),
            );
        }
        if self.kind == ProviderKind::Llmlint && place != Place::Judge {
            let mut refusal =
                "provider kind `llmlint` is a judge and cannot run the agent's turns: it is not valid as ".to_owned();
            refusal.append(
                if place == Place::Top {
                    "the top-level `provider` (or the `--provider` / `ONEJUDGE_PROVIDER` override)"
                } else {
                    "`provider.skill`"
                },
            );
            refusal.append(
                "; put it under `provider.judges:` (or `provider.judge:`) of a `kind: split` provider",
            );
            return Err(CliError::Config(refusal));
        }
        if let Some(field) = self.stray_name() {
            let mut refusal = "`".to_owned();
            refusal.append(field);
            refusal.append("` is not valid under provider kind `");
            refusal.append(self.kind.as_str());
            refusal.append("`");
            return Err(CliError::Config(refusal));
        }
        match self.kind {
            ProviderKind::Oneharness => {
                let spec = ProviderSpec::Oneharness {
                    bin: copy_opt(&self.bin),
                    judge_config: copy_opt(&self.judge_config),
                    stream: match self.stream {
                        Some(stream) => stream,
                        None => false,
                    },
                    control: match self.control {
                        Some(control) => control,
                        None => false,
                    },
                    mock_harness: list_of(&self.mock_harness),
                };
                Ok(spec)
            },
            ProviderKind::Command => match &self.command {
                Some(command) if command.len() > 0 => Ok(
                    ProviderSpec::Command { command: copy_texts(command) },
                ),
                _ => Err(
                    CliError::Config(
                        "provider kind `command` needs a non-empty `command`".to_owned(),
                    ),
                ),
            },
            ProviderKind::Split => self.resolve_split(),
            ProviderKind::Llmlint => {
                let bin = match &self.bin {
                    Some(bin) => {
                        if is_blank(bin.as_str()) {
                            return Err(
                                CliError::Config(
                                    "`bin` under provider kind `llmlint` must name the llmlint executable".to_owned(),
                                ),
                            );
                        }
                        bin.clone()
                    },
                    None => DEFAULT_LLMLINT_BIN.to_owned(),
                };
                let diff_base = match &self.diff_base {
                    Some(base) => if is_blank(base.as_str()) {
                        None
                    } else {
                        Some(base.clone())
                    },
                    None => None,
                };
                Ok(
                    ProviderSpec::Llmlint {
                        bin,
                        config: copy_opt(&self.config),
                        diff_base,
                        args: list_of(&self.args),
                    },
                )
            },
        }
    }

    /// Validate a split: its agent side, and its judges under either spelling as
    /// one list.
    fn resolve_split(&self) -> (r: Result<ProviderSpec, CliError>)
        requires
            self.kind is Split,
            self.stray() is None,
        ensures
            agrees(r, self.resolved(Place::Judge)),
        decreases *self, self.seats() + 1,
    {
        let skill = match &self.skill {
            Some(skill) => skill,
            None => return Err(
                CliError::Config("provider kind `split` needs a `skill` provider".to_owned()),
            ),
        };
        match (&self.judge, &self.judges) {
            (Some(_), Some(_)) => return Err(
                CliError::Config(
                    "`judge` and `judges` are exclusive under provider kind `split`: `judge:` is the one-element shorthand for `judges: [..]`".to_owned(),
                ),
            ),
            (None, None) => return Err(
                CliError::Config(
                    "provider kind `split` needs a `judge` (or `judges`) provider".to_owned(),
                ),
            ),
            (None, Some(judges)) => if judges.len() == 0 {
                return Err(
                    CliError::Config(
                        "`judges` must name at least one judge under provider kind `split`".to_owned(),
                    ),
                );
            },
            (Some(_), None) => {},
        }
        let skill = match skill.resolve(Place::Skill) {
            Ok(skill) => skill,
            Err(err) => return Err(err),
        };
        let judges = match self.resolve_judges() {
            Ok(judges) => judges,
            Err(err) => return Err(err),
        };
        let spec = ProviderSpec::Split { skill: Box::new(skill), judges };
        proof {
            assert(spec.model()->judges =~= judge_models(judges@));
        }
        Ok(spec)
    }

    /// How many of the first `n` judges are of `kind`.
    fn count_of_kind(&self, kind: ProviderKind, n: usize) -> (count: usize)
        requires
            n <= self.seats(),
        ensures
            count == self.seats_of_kind(kind, n as nat),
            count <= n,
    {
        let mut count: usize = 0;
        let mut i: usize = 0;
        while i < n
            invariant
                i <= n <= self.seats(),
                count == self.seats_of_kind(kind, i as nat),
                count <= i,
            decreases n - i,
        {
            if self.entry(i).kind == kind {
                count = count + 1;
            }
            i = i + 1;
        }
        count
    }

    fn entry(&self, i: usize) -> (entry: &ProviderConfig)
        requires
            i < self.seats(),
        ensures
            *entry == self.seat(i as int),
    {
        match (&self.judge, &self.judges) {
            (Some(judge), _) => judge,
            (None, Some(judges)) => &judges[i],
            (None, None) => self,
        }
    }

    /// Resolve a judge list, labelling each entry: the explicit `label` where one
    /// is given, else the entry's `kind` for the first judge of that kind and
    /// `<kind>-<n>` for repeats. A label is refused when it is not
    /// `[A-Za-z0-9_-]+` or is already taken.
    pub fn resolve_judges(&self) -> (r: Result<Vec<JudgeSpec>, CliError>)
        ensures
            match (r, self.panel_resolved(self.seats())) {
                (Ok(judges), Ok(models)) => judge_models(judges@) == models,
                (Err(err), Err(refusal)) => err.refuses(refusal),
                _ => false,
            },
        decreases *self, self.seats(),
    {
        let seats: usize = match (&self.judge, &self.judges) {
            (Some(_), _) => 1,
            (None, Some(judges)) => judges.len(),
            (None, None) => 0,
        };
        let mut done: Vec<JudgeSpec> = Vec::new();
        let mut i: usize = 0;
        proof {
            assert(judge_models(done@) =~= Seq::empty());
        }
        while i < seats
            invariant
                i <= seats == self.seats(),
                done@.len() == i,
                self.panel_resolved(i as nat) == Ok::<Seq<JudgeModel>, Seq<char>>(
                    judge_models(done@),
                ),
            decreases seats - i,
        {
            let entry = self.entry(i);
            let label = match &entry.label {
                Some(label) => {
                    if !is_valid_label(label.as_str()) {
                        let mut refusal = "judge `label` `".to_owned();
                        refusal.append(label.as_str());
                        refusal.append("` is invalid: a label is `[A-Za-z0-9_-]+`");
                        proof {
                            self.lemma_refusal_stands((i + 1) as nat, self.seats());
                        }
                        return Err(CliError::Config(refusal));
                    }
                    label.clone()
                },
                None => {
                    let n: usize = self.count_of_kind(entry.kind, i + 1);
                    let mut label = entry.kind.as_str().to_owned();
                    if n != 1 {
                        label.append("-");
                        label.append(decimal_of(n as u64).as_str());
                    }
                    label
                },
            };
            proof {
                assert(label@ == self.seat_label(i as int));
            }
            let ghost earlier = judge_models(done@);
            let mut k: usize = 0;
            while k < done.len()
                invariant
                    k <= done@.len(),
                    earlier == judge_models(done@),
                    i < self.seats(),
                    label@ == self.seat_label(i as int),
                    self.panel_resolved(i as nat) == Ok::<Seq<JudgeModel>, Seq<char>>(earlier),
                    self.seat(i as int).label is Some ==> valid_label(label@),
                    forall|j: int| 0 <= j < k ==> (#[trigger] earlier[j]).label != label@,
                decreases done@.len() - k,
            {
                if same(done[k].label.as_str(), label.as_str()) {
                    let mut refusal = "judge `label` `".to_owned();
                    refusal.append(label.as_str());
                    refusal.append(
                        "` is used by more than one judge; labels are unique within `judges`",
                    );
                    proof {
                        assert(earlier[k as int].label == label@);
                        self.lemma_refusal_stands((i + 1) as nat, self.seats());
                    }
                    return Err(CliError::Config(refusal));
                }
                k = k + 1;
            }
            let provider = match entry.resolve(Place::Judge) {
                Ok(provider) => provider,
                Err(err) => {
                    proof {
                        self.lemma_refusal_stands((i + 1) as nat, self.seats());
                    }
                    return Err(err);
                },
            };
            done.push(JudgeSpec { label, provider });
            proof {
                assert(judge_models(done@) =~= earlier.push(done@[i as int].model()));
            }
            i = i + 1;
        }
        Ok(done)
    }
}

fn either(a: Option<&'static str>, b: Option<&'static str>) -> (r: Option<&'static str>)
    ensures
        r == if a is Some {
            a
        } else {
            b
        },
{
    if a.is_some() {
        a
    } else {
        b
    }
}

// --- Overrides (flags win over env, env wins over file) ---------------------
/// The subset of config a command-line flag — or the matching `ONEJUDGE_*`
/// environment variable — can override. A `Some` wins over whatever the lower
/// tier (env, then file, then a default) provided.
#[derive(Debug, Clone, Default, PartialEq, Eq)]
pub struct Overrides {
    /// `--judge-config` / `ONEJUDGE_JUDGE_CONFIG`.
    pub judge_config: Option<String>,
    /// `--skill` / `ONEJUDGE_SKILL`.
    pub skill: Option<String>,
    /// `--system-prompt` / `ONEJUDGE_SYSTEM_PROMPT`.
    pub system_prompt: Option<String>,
    /// `--task` / `ONEJUDGE_TASK`.
    pub task: Option<String>,
    /// `--persona` / `ONEJUDGE_PERSONA`.
    pub persona: Option<String>,
    /// `--done-when` / `ONEJUDGE_DONE_WHEN`.
    pub done_when: Option<String>,
    /// `--max-turns` / `ONEJUDGE_MAX_TURNS`.
    pub max_turns: Option<u32>,
    /// `--artifact` (repeatable) / `ONEJUDGE_ARTIFACTS`. Replaces
    /// `user.artifacts`.
    pub artifacts: Option<Vec<String>>,
    /// `--session` / `ONEJUDGE_SESSION`.
    pub session: Option<String>,
    /// `--provider` / `ONEJUDGE_PROVIDER` (override just the backend kind).
    pub provider_kind: Option<ProviderKind>,
}

/// The upper tier's value where it has one, else the lower tier's.
pub open spec fn over<T>(upper: Option<T>, lower: Option<T>) -> Option<T> {
    if upper is Some {
        upper
    } else {
        lower
    }
}

/// Over which of the user's fields a user config speaks, and what it says.
pub open spec fn persona_of(user: Option<UserConfig>) -> Seq<char> {
    match user {
        Some(user) => user.persona@,
        None => Seq::empty(),
    }
}

/// The user's artifacts; none without a user.
pub open spec fn artifacts_of(user: Option<UserConfig>) -> Seq<String> {
    match user {
        Some(user) => user.artifacts@,
        None => Seq::empty(),
    }
}

/// The user's end condition; none without a user.
pub open spec fn done_when_of(user: Option<UserConfig>) -> Option<String> {
    match user {
        Some(user) => user.done_when,
        None => None,
    }
}

/// The user's turn cap; none without a user.
pub open spec fn max_turns_of(user: Option<UserConfig>) -> Option<u32> {
    match user {
        Some(user) => user.max_turns,
        None => None,
    }
}

/// The user's settling choice; none without a user.
pub open spec fn settle_of(user: Option<UserConfig>) -> Option<bool> {
    match user {
        Some(user) => user.settle_on_noop,
        None => None,
    }
}

impl Overrides {
    /// Whether this layer asks for a simulated user: supplying a persona, an end
    /// condition, a turn cap or artifacts is a request to drive the loop.
    pub open spec fn implies_user(self) -> bool {
        self.persona is Some || self.done_when is Some || self.max_turns is Some
            || self.artifacts is Some
    }

    /// Whether `after` is `before` with this layer on top.
    pub open spec fn lays_over(self, before: Config, after: Config) -> bool {
        &&& after.provider == (ProviderConfig {
            kind: if self.provider_kind is Some {
                self.provider_kind->0
            } else {
                before.provider.kind
            },
            judge_config: over(self.judge_config, before.provider.judge_config),
            ..before.provider
        })
        &&& after.skill == over(self.skill, before.skill)
        &&& after.system_prompt == over(self.system_prompt, before.system_prompt)
        &&& after.task == over(self.task, before.task)
        &&& after.session == over(self.session, before.session)
        &&& after.evals == before.evals
        &&& after.assessment == before.assessment
        &&& if self.implies_user() {
            &&& after.user is Some
            &&& persona_of(after.user) == if self.persona is Some {
                self.persona->0@
            } else {
                persona_of(before.user)
            }
            &&& done_when_of(after.user) == over(self.done_when, done_when_of(before.user))
            &&& max_turns_of(after.user) == over(self.max_turns, max_turns_of(before.user))
            &&& settle_of(after.user) == settle_of(before.user)
            &&& artifacts_of(after.user) == if self.artifacts is Some {
                self.artifacts->0@
            } else {
                artifacts_of(before.user)
            }
        } else {
            after.user == before.user
        }
    }
}

impl Config {
    /// Apply a layer of overrides in place; a `Some` field wins over the current
    /// value. The run applies the env layer first, then the flag layer, giving
    /// flags > env > file > defaults.
    pub fn apply(&mut self, overrides: Overrides)
        ensures
            overrides.lays_over(*old(self), *final(self)),
    {
        let ghost before = *self;
        let Overrides {
            judge_config,
            skill,
            system_prompt,
            task,
            persona,
            done_when,
            max_turns,
            artifacts,
            session,
            provider_kind,
        } = overrides;
        if judge_config.is_some() {
            self.provider.judge_config = judge_config;
        }
        if skill.is_some() {
            self.skill = skill;
        }
        if system_prompt.is_some() {
            self.system_prompt = system_prompt;
        }
        if task.is_some() {
            self.task = task;
        }
        if session.is_some() {
            self.session = session;
        }
        if let Some(kind) = provider_kind {
            self.provider.kind = kind;
        }
        if persona.is_some() || done_when.is_some() || max_turns.is_some() || artifacts.is_some() {
            let mut user = match self.user.take() {
                Some(user) => user,
                None => UserConfig {
                    persona: String::new(),
                    done_when: None,
                    max_turns: None,
                    settle_on_noop: None,
                    artifacts: Vec::new(),
                },
            };
            if let Some(persona) = persona {
                user.persona = persona;
            }
            if done_when.is_some() {
                user.done_when = done_when;
            }
            if max_turns.is_some() {
                user.max_turns = max_turns;
            }
            if let Some(artifacts) = artifacts {
                user.artifacts = artifacts;
            }
            self.user = Some(user);
        }
    }

    /// Two layers, one over the other: whatever the upper one sets wins, whatever
    /// it leaves the lower one decides, and what neither sets stays as the file
    /// has it. Naming any of the user's fields in either layer makes a simulated
    /// user.
    pub proof fn lemma_flags_over_env_over_file(
        file: Config,
        env: Overrides,
        with_env: Config,
        flags: Overrides,
        merged: Config,
    )
        requires
            env.lays_over(file, with_env),
            flags.lays_over(with_env, merged),
        ensures
            merged.is_layered(file, env, flags),
    {
    }

    /// Whether this is `file` with the environment over it and the flags over both.
    pub open spec fn is_layered(self, file: Config, env: Overrides, flags: Overrides) -> bool {
        &&& self.provider == (ProviderConfig {
            kind: over(flags.provider_kind, over(env.provider_kind, Some(file.provider.kind)))->0,
            judge_config: over(
                flags.judge_config,
                over(env.judge_config, file.provider.judge_config),
            ),
            ..file.provider
        })
        &&& self.skill == over(flags.skill, over(env.skill, file.skill))
        &&& self.system_prompt == over(
            flags.system_prompt,
            over(env.system_prompt, file.system_prompt),
        )
        &&& self.task == over(flags.task, over(env.task, file.task))
        &&& self.session == over(flags.session, over(env.session, file.session))
        &&& self.evals == file.evals
        &&& self.assessment == file.assessment
        &&& self.user is Some <==> file.user is Some || env.implies_user() || flags.implies_user()
        &&& persona_of(self.user) == if flags.persona is Some {
            flags.persona->0@
        } else if env.persona is Some {
            env.persona->0@
        } else {
            persona_of(file.user)
        }
        &&& done_when_of(self.user) == over(
            flags.done_when,
            over(env.done_when, done_when_of(file.user)),
        )
        &&& max_turns_of(self.user) == over(
            flags.max_turns,
            over(env.max_turns, max_turns_of(file.user)),
        )
        &&& settle_of(self.user) == settle_of(file.user)
        &&& artifacts_of(self.user) == if flags.artifacts is Some {
            flags.artifacts->0@
        } else if env.artifacts is Some {
            env.artifacts->0@
        } else {
            artifacts_of(file.user)
        }
    }

    /// This config file with the environment over it and the flags over both: flags >
    /// env > file > defaults.
    #[must_use]
    pub fn layered(self, env: Overrides, flags: Overrides) -> (merged: Config)
        ensures
            merged.is_layered(self, env, flags),
    {
        let mut merged = self;
        merged.apply(env);
        let ghost with_env = merged;
        merged.apply(flags);
        proof {
            Config::lemma_flags_over_env_over_file(self, env, with_env, flags, merged);
        }
        merged
    }

    /// A layer that sets nothing changes nothing.
    pub proof fn lemma_empty_layer_changes_nothing(
        layer: Overrides,
        before: Config,
        after: Config,
    )
        requires
            layer.lays_over(before, after),
            !layer.implies_user(),
            layer.judge_config is None,
            layer.skill is None,
            layer.system_prompt is None,
            layer.task is None,
            layer.session is None,
            layer.provider_kind is None,
        ensures
            after == before,
    {
    }
}

/// A looked-up variable as an override: an exported-but-blank one counts as
/// absent.
pub open spec fn set_value(looked_up: Option<String>) -> Option<String> {
    if looked_up is Some && looked_up->0@.len() > 0 {
        looked_up
    } else {
        None
    }
}

/// Whether looking `key` up may have given `value` as the override.
pub open spec fn reads<F: Fn(&str) -> Option<String>>(
    getenv: F,
    key: Seq<char>,
    value: Option<String>,
) -> bool {
    exists|name: &str, looked_up: Option<String>|
        name@ == key && #[trigger] call_ensures(getenv, (name,), looked_up) && value == set_value(
            looked_up,
        )
}

/// The refusal of a turn cap that is no number.
pub open spec fn bad_max_turns(value: Seq<char>) -> Seq<char> {
    "ONEJUDGE_MAX_TURNS must be a non-negative integer, got `"@ + value + "`"@
}

/// The refusal of a backend that is none.
pub open spec fn bad_provider(value: Seq<char>) -> Seq<char> {
    "ONEJUDGE_PROVIDER must be `oneharness`, `command`, or `split`, got `"@ + value + "`"@
}

/// The turn cap that `value` spells, when it spells one that fits.
pub open spec fn turns_value(value: Seq<char>) -> Option<u32> {
    match unsigned_value(value) {
        Some(n) if n <= u32::MAX => Some(n as u32),
        _ => None,
    }
}

/// The entries of a list that say something, in their order.
pub open spec fn entries(list: Seq<String>) -> Seq<String> {
    list.filter(|entry: String| entry@.len() > 0)
}

/// Whether splitting `list` may have given `artifacts` as its entries.
pub open spec fn splits<S: Fn(&str) -> Vec<String>>(
    split: S,
    list: Option<String>,
    artifacts: Option<Vec<String>>,
) -> bool {
    match list {
        None => artifacts is None,
        Some(list) => {
            &&& artifacts is Some
            &&& exists|text: &str, parts: Vec<String>|
                text@ == list@ && #[trigger] call_ensures(split, (text,), parts)
                    && artifacts->0@ == entries(parts@)
        },
    }
}

/// Whether `r` is what a provider override of `kind` leads to: the backend it
/// spells, or its refusal.
pub open spec fn names_provider(kind: Option<String>, r: Result<Overrides, CliError>) -> bool {
    match (kind, r) {
        (None, Ok(over)) => over.provider_kind is None,
        (Some(kind), Ok(over)) => {
            &&& over.provider_kind is Some
            &&& same_but_case(kind@, over.provider_kind->0.name())
        },
        (Some(kind), Err(err)) => {
            &&& forall|k: ProviderKind| !same_but_case(kind@, #[trigger] k.name())
            &&& err.refuses(bad_provider(kind@))
        },
        (None, Err(err)) => false,
    }
}

fn lookup<F: Fn(&str) -> Option<String>>(getenv: &F, key: &str) -> (value: Option<String>)
    requires
        forall|key: &str| #[trigger] call_requires(*getenv, (key,)),
    ensures
        reads(*getenv, key@, value),
        value is Some ==> value->0@.len() > 0,
{
    let looked_up = getenv(key);
    match looked_up {
        Some(value) => {
            let ghost was = Some(value);
            if value.as_str().is_empty() {
                proof {
                    assert(call_ensures(*getenv, (key,), was));
                }
                None
            } else {
                proof {
                    assert(call_ensures(*getenv, (key,), was));
                }
                Some(value)
            }
        },
        None => {
            proof {
                assert(call_ensures(*getenv, (key,), None));
            }
            None
        },
    }
}

fn keep_entries(list: Vec<String>) -> (kept: Vec<String>)
    ensures
        kept@ == entries(list@),
{
    let mut kept: Vec<String> = Vec::new();
    let mut i: usize = 0;
    proof {
        assert(list@.take(0) =~= Seq::empty());
        reveal(Seq::filter);
    }
    while i < list.len()
        invariant
            i <= list@.len(),
            kept@ == entries(list@.take(i as int)),
        decreases list@.len() - i,
    {
        proof {
            reveal(Seq::filter);
            assert(list@.take(i + 1).drop_last() =~= list@.take(i as int));
        }
        if !list[i].as_str().is_empty() {
            kept.push(list[i].clone());
        }
        i = i + 1;
    }
    proof {
        assert(list@.take(i as int) =~= list@);
    }
    kept
}

impl Overrides {
    /// Read overrides from the `ONEJUDGE_*` environment, looking each variable up
    /// through `getenv` and splitting the artifact list as the platform splits a
    /// path list, through `split`. This is the middle precedence tier.
    ///
    /// `ONEJUDGE_MAX_TURNS` has to be a non-negative integer and
    /// `ONEJUDGE_PROVIDER` a known backend: an invalid override is a loud error at
    /// the boundary, never silently ignored.
    pub fn from_env<F: Fn(&str) -> Option<String>, S: Fn(&str) -> Vec<String>>(
        getenv: F,
        split: S,
    ) -> (r: Result<Self, CliError>)
        requires
            forall|key: &str| #[trigger] call_requires(getenv, (key,)),
            forall|list: &str| #[trigger] call_requires(split, (list,)),
        ensures
            exists|turns: Option<String>|
                {
                    &&& #[trigger] reads(getenv, "ONEJUDGE_MAX_TURNS"@, turns)
                    &&& if turns is Some && turns_value(turns->0@) is None {
                        r is Err && r->Err_0.refuses(bad_max_turns(turns->0@))
                    } else {
                        &&& r is Ok ==> r->Ok_0.max_turns == if turns is Some {
                            turns_value(turns->0@)
                        } else {
                            None
                        }
                        &&& exists|kind: Option<String>| #[trigger]
                            reads(getenv, "ONEJUDGE_PROVIDER"@, kind) && names_provider(kind, r)
                    }
                },
            r is Ok ==> {
                let over = r->Ok_0;
                &&& reads(getenv, "ONEJUDGE_JUDGE_CONFIG"@, over.judge_config)
                &&& reads(getenv, "ONEJUDGE_SKILL"@, over.skill)
                &&& reads(getenv, "ONEJUDGE_SYSTEM_PROMPT"@, over.system_prompt)
                &&& reads(getenv, "ONEJUDGE_TASK"@, over.task)
                &&& reads(getenv, "ONEJUDGE_PERSONA"@, over.persona)
                &&& reads(getenv, "ONEJUDGE_DONE_WHEN"@, over.done_when)
                &&& reads(getenv, "ONEJUDGE_SESSION"@, over.session)
                &&& exists|list: Option<String>|
                    #[trigger] reads(getenv, "ONEJUDGE_ARTIFACTS"@, list) && splits(
                        split,
                        list,
                        over.artifacts,
                    )
            },
    {
        let turns = lookup(&getenv, "ONEJUDGE_MAX_TURNS");
        let max_turns = match &turns {
            Some(value) => {
                let parsed = parse_u32(value.as_str());
                if parsed.is_none() {
                    let mut refusal =
                        "ONEJUDGE_MAX_TURNS must be a non-negative integer, got `".to_owned();
                    refusal.append(value.as_str());
                    refusal.append("`");
                    return Err(CliError::Config(refusal));
                }
                parsed
            },
            None => None,
        };
        let kind = lookup(&getenv, "ONEJUDGE_PROVIDER");
        let provider_kind = match &kind {
            Some(value) => {
                let named = ProviderKind::from_name(value.as_str());
                if named.is_none() {
                    let mut refusal =
                        "ONEJUDGE_PROVIDER must be `oneharness`, `command`, or `split`, got `".to_owned();
                    refusal.append(value.as_str());
                    refusal.append("`");
                    return Err(CliError::Config(refusal));
                }
                named
            },
            None => None,
        };
        let judge_config = lookup(&getenv, "ONEJUDGE_JUDGE_CONFIG");
        let skill = lookup(&getenv, "ONEJUDGE_SKILL");
        let system_prompt = lookup(&getenv, "ONEJUDGE_SYSTEM_PROMPT");
        let task = lookup(&getenv, "ONEJUDGE_TASK");
        let persona = lookup(&getenv, "ONEJUDGE_PERSONA");
        let done_when = lookup(&getenv, "ONEJUDGE_DONE_WHEN");
        let session = lookup(&getenv, "ONEJUDGE_SESSION");
        let list = lookup(&getenv, "ONEJUDGE_ARTIFACTS");
        let artifacts = match &list {
            Some(text) => {
                let parts = split(text.as_str());
                Some(keep_entries(parts))
            },
            None => None,
        };
        proof {
            assert(splits(split, list, artifacts));
        }
        let overrides = Self {
            judge_config,
            skill,
            system_prompt,
            task,
            persona,
            done_when,
            max_turns,
            artifacts,
            session,
            provider_kind,
        };
        Ok(overrides)
    }
}

// --- The resolved, executable plan ------------------------------------------
/// The kind of a resolved eval, carrying only the data that kind needs.
#[derive(Debug, PartialEq, Eq)]
pub enum EvalKind {
    /// A yes/no verdict.
    Boolean,
    /// A score on an inclusive `(min, max)` scale.
    Numeric {
        /// The inclusive scale bounds.
        scale: (Number, Number),
    },
}

/// One resolved eval: the criterion and its kind (with a scale only for numeric).
#[derive(Debug, PartialEq, Eq)]
pub struct Eval {
    /// The plain-English criterion.
    pub criterion: String,
    /// Boolean, or numeric with its scale.
    pub kind: EvalKind,
}

impl EvalConfig {
    /// Why this eval is refused, when it is.
    pub open spec fn refusal(self) -> Option<Seq<char>> {
        match (self.kind, self.scale) {
            (JudgeKind::Boolean, Some(_)) => Some(
                "eval `"@ + self.criterion@
                    + "` is boolean but has a `scale` (only numeric evals take one)"@,
            ),
            (JudgeKind::Numeric, Some((min, max))) => if above(min.bits, max.bits) {
                Some(
                    "eval `"@ + self.criterion@ + "` has scale min ("@ + min.text@
                        + ") greater than max ("@ + max.text@ + ")"@,
                )
            } else {
                None
            },
            _ => None,
        }
    }

    /// Whether `eval` is what this config resolves to: the same criterion, and the
    /// scale it names, or zero to ten.
    pub open spec fn resolves_to(self, eval: Eval) -> bool {
        &&& eval.criterion@ == self.criterion@
        &&& match self.kind {
            JudgeKind::Boolean => eval.kind is Boolean,
            JudgeKind::Numeric => {
                &&& eval.kind is Numeric
                &&& match self.scale {
                    Some(scale) => eval.kind->scale == scale,
                    None => {
                        let (min, max) = eval.kind->scale;
                        &&& min.bits == 0 && min.text@ == "0"@ && min.json@ == "0.0"@
                        &&& max.bits == TEN && max.text@ == "10"@ && max.json@ == "10.0"@
                    },
                }
            },
        }
    }

    /// Validate one eval: a boolean one takes no scale, and a numeric one takes a
    /// scale that is not upside down.
    pub fn resolve(&self) -> (r: Result<Eval, CliError>)
        ensures
            match r {
                Ok(eval) => self.refusal() is None && self.resolves_to(eval),
                Err(err) => self.refusal() is Some && err.refuses(self.refusal()->0),
            },
    {
        match self.kind {
            JudgeKind::Boolean => {
                if self.scale.is_some() {
                    let mut refusal = "eval `".to_owned();
                    refusal.append(self.criterion.as_str());
                    refusal.append("` is boolean but has a `scale` (only numeric evals take one)");
                    return Err(CliError::Config(refusal));
                }
                Ok(Eval { criterion: self.criterion.clone(), kind: EvalKind::Boolean })
            },
            JudgeKind::Numeric => {
                let scale = match &self.scale {
                    Some((min, max)) => (min.copied(), max.copied()),
                    None => (Number::new(0, "0", "0.0"), Number::new(TEN, "10", "10.0")),
                };
                if greater(scale.0.bits, scale.1.bits) {
                    let mut refusal = "eval `".to_owned();
                    refusal.append(self.criterion.as_str());
                    refusal.append("` has scale min (");
                    refusal.append(scale.0.text.as_str());
                    refusal.append(") greater than max (");
                    refusal.append(scale.1.text.as_str());
                    refusal.append(")");
                    return Err(CliError::Config(refusal));
                }
                Ok(Eval { criterion: self.criterion.clone(), kind: EvalKind::Numeric { scale } })
            },
        }
    }
}

/// The first refusal among the evals, when there is one.
pub open spec fn evals_refusal(evals: Seq<EvalConfig>) -> Option<Seq<char>>
    decreases evals.len(),
{
    if evals.len() == 0 {
        None
    } else if evals[0].refusal() is Some {
        evals[0].refusal()
    } else {
        evals_refusal(evals.drop_first())
    }
}

fn resolve_evals(evals: &Vec<EvalConfig>) -> (r: Result<Vec<Eval>, CliError>)
    ensures
        match r {
            Ok(resolved) => {
                &&& evals_refusal(evals@) is None
                &&& resolved@.len() == evals@.len()
                &&& forall|i: int|
                    0 <= i < evals@.len() ==> evals@[i].resolves_to(#[trigger] resolved@[i])
            },
            Err(err) => evals_refusal(evals@) is Some && err.refuses(evals_refusal(evals@)->0),
        },
{
    let mut resolved: Vec<Eval> = Vec::new();
    let mut i: usize = 0;
    proof {
        assert(evals@.skip(0) =~= evals@);
    }
    while i < evals.len()
        invariant
            i <= evals@.len(),
            resolved@.len() == i,
            evals_refusal(evals@) == evals_refusal(evals@.skip(i as int)),
            forall|j: int| 0 <= j < i ==> evals@[j].resolves_to(#[trigger] resolved@[j]),
        decreases evals@.len() - i,
    {
        proof {
            assert(evals@.skip(i as int).drop_first() =~= evals@.skip(i + 1));
        }
        match evals[i].resolve() {
            Ok(eval) => resolved.push(eval),
            Err(err) => return Err(err),
        }
        i = i + 1;
    }
    Ok(resolved)
}

/// Everything the run driver needs, resolved and validated from the config.
pub struct Plan {
    /// The provider backend to build.
    pub provider: ProviderSpec,
    /// Engine settings (session name, turn cap).
    pub settings: Settings,
    /// The conversation to drive.
    pub conversation: Conversation,
    /// The evals to score afterward.
    pub evals: Vec<Eval>,
    /// The completion condition, if any — re-judged at the end to decide whether
    /// the task actually completed (which drives the exit code).
    pub done_when: Option<String>,
    /// Prompt for the optional free-text assessment.
    pub assessment: Option<String>,
    /// The embedder's hook, offered every process the run starts. A config file
    /// cannot name one.
    pub spawn_hook: Option<SharedSpawnHook>,
}

impl Plan {
    /// Offer every process the run starts to `hook` (builder style).
    #[must_use]
    pub fn with_spawn_hook(self, hook: SharedSpawnHook) -> (plan: Self)
        ensures
            plan == (Plan { spawn_hook: Some(hook), ..self }),
    {
        Plan { spawn_hook: Some(hook), ..self }
    }
}

/// What reading the skill directory came to: the definition, or why it could not
/// be read.
pub type LoadedSkill = Result<SkillDefinition, String>;

/// The text when it says something.
pub open spec fn unless_blank(text: Option<String>) -> Option<Seq<char>> {
    match text {
        Some(text) if !blank(text@) => Some(text@),
        _ => None,
    }
}

/// Whether any eval asks for a score.
pub open spec fn wants_number(evals: Seq<EvalConfig>) -> bool {
    exists|i: int| 0 <= i < evals.len() && (#[trigger] evals[i]).kind is Numeric
}

/// Whether any judge scores numbers and writes prose.
pub open spec fn some_judge_scores(judges: Seq<JudgeModel>) -> bool {
    exists|i: int| 0 <= i < judges.len() && (#[trigger] judges[i]).provider.scores()
}

impl Config {
    /// Why no judge of the panel can answer what the config asks for, when none
    /// can.
    pub open spec fn unanswerable(self, provider: ProviderModel) -> Option<Seq<char>> {
        if provider is Split && (wants_number(self.evals@) || unless_blank(self.assessment) is Some)
            && !some_judge_scores(provider->judges) {
            Some(
                "the config names "@ + (if wants_number(self.evals@) {
                    "a numeric eval"@
                } else {
                    "an `assessment`"@
                })
                    + ", but no judge in `provider.judges` can score a                      number or write prose (that needs an `oneharness` or `command` judge)"@,
            )
        } else {
            None
        }
    }

    /// Why no plan comes of this config, when none does: the first of a missing
    /// task, a refused provider, an unreadable skill, a refused eval, and a panel
    /// that cannot answer.
    pub open spec fn refusal(self, loaded: Option<LoadedSkill>) -> Option<Seq<char>> {
        if unless_blank(self.task) is None {
            Some("no task given: set `task:` in the config or pass `--task` (`-` for stdin)"@)
        } else {
            match self.provider.resolved(Place::Top) {
                Err(refusal) => Some(refusal),
                Ok(provider) => if self.skill is Some && loaded is Some && loaded->0 is Err {
                    Some(
                        "could not load skill `"@ + self.skill->0@ + "`: "@ + loaded->0->Err_0@,
                    )
                } else if evals_refusal(self.evals@) is Some {
                    evals_refusal(self.evals@)
                } else {
                    self.unanswerable(provider)
                },
            }
        }
    }

    /// Whether the skill of the plan is the one this config frames.
    pub open spec fn frames(self, loaded: Option<LoadedSkill>, skill: Skill) -> bool {
        let preamble = if self.system_prompt is Some {
            self.system_prompt->0@
        } else {
            Seq::empty()
        };
        if self.skill is Some {
            &&& loaded is Some && loaded->0 is Ok
            &&& skill.name@ == loaded->0->Ok_0.name@
            &&& skill.dir@ == loaded->0->Ok_0.dir@
            &&& skill.instructions@ == framed(preamble, loaded->0->Ok_0.body@)
        } else {
            &&& skill.name@ == "agent"@
            &&& skill.dir@ == "."@
            &&& skill.instructions@ == trimmed(preamble)
        }
    }

    /// Whether the simulated user of the plan is the one this config asks for.
    pub open spec fn seats_user(self, user: Option<SimulatedUser>) -> bool {
        &&& user is Some <==> self.user is Some
        &&& user is Some ==> {
            &&& user->0.persona@ == self.user->0.persona@
            &&& opt_text(user->0.done_when) == opt_text(self.user->0.done_when)
            &&& user->0.max_turns == self.user->0.max_turns
            &&& user->0.artifacts@ == self.user->0.artifacts@
        }
    }

    /// Whether `plan` is the plan of this config.
    pub open spec fn plans(self, loaded: Option<LoadedSkill>, plan: Plan) -> bool {
        &&& self.provider.resolved(Place::Top) == Ok::<ProviderModel, Seq<char>>(
            plan.provider.model(),
        )
        &&& plan.settings.platform@ == ""@
        &&& plan.settings.model@ == ""@
        &&& plan.settings.judge_model@ == ""@
        &&& plan.settings.session_name@ == if self.session is Some && self.session->0@.len() > 0 {
            self.session->0@
        } else {
            "onejudge"@
        }
        &&& plan.settings.max_turns == if max_turns_of(self.user) is Some {
            max_turns_of(self.user)->0
        } else {
            8
        }
        &&& plan.settings.settle_on_noop == !(settle_of(self.user) == Some(false))
        &&& plan.conversation.input@ == self.task->0@
        &&& self.frames(loaded, plan.conversation.skill)
        &&& self.seats_user(plan.conversation.user)
        &&& opt_text(plan.done_when) == opt_text(done_when_of(self.user))
        &&& plan.evals@.len() == self.evals@.len()
        &&& forall|i: int|
            0 <= i < plan.evals@.len() ==> self.evals@[i].resolves_to(#[trigger] plan.evals@[i])
        &&& opt_text(plan.assessment) == unless_blank(self.assessment)
        &&& plan.spawn_hook is None
    }

    fn refuse_unanswerable(&self, provider: &ProviderSpec) -> (refusal: Option<String>)
        ensures
            opt_text(refusal) == self.unanswerable(provider.model()),
    {
        let judges = match provider {
            ProviderSpec::Split { skill: _, judges } => judges,
            _ => return None,
        };
        let mut wants_number = false;
        let mut i: usize = 0;
        while i < self.evals.len()
            invariant
                i <= self.evals@.len(),
                wants_number <==> exists|j: int|
                    0 <= j < i && (#[trigger] self.evals@[j]).kind is Numeric,
            decreases self.evals@.len() - i,
        {
            if self.evals[i].kind == JudgeKind::Numeric {
                proof {
                    assert(self.evals@[i as int].kind is Numeric);
                }
                wants_number = true;
            }
            i = i + 1;
        }
        let wants_prose = match &self.assessment {
            Some(prompt) => !is_blank(prompt.as_str()),
            None => false,
        };
        if !wants_number && !wants_prose {
            return None;
        }
        let ghost models = provider.model()->judges;
        let mut k: usize = 0;
        while k < judges.len()
            invariant
                k <= judges@.len(),
                models.len() == judges@.len(),
                forall|j: int| 0 <= j < judges@.len() ==> #[trigger] models[j] == judges@[j].model(),
                forall|j: int| 0 <= j < k ==> !(#[trigger] models[j]).provider.scores(),
                provider.model() is Split,
                models == provider.model()->judges,
            decreases judges@.len() - k,
        {
            if judges[k].scores_and_writes() {
                proof {
                    assert(models[k as int] == judges@[k as int].model());
                }
                return None;
            }
            proof {
                assert(models[k as int] == judges@[k as int].model());
            }
            k = k + 1;
        }
        let mut refusal = "the config names ".to_owned();
        refusal.append(
            if wants_number {
                "a numeric eval"
            } else {
                "an `assessment`"
            },
        );
        refusal.append(
            ", but no judge in `provider.judges` can score a                      number or write prose (that needs an `oneharness` or `command` judge)",
        );
        Some(refusal)
    }

    fn build_skill(&self, loaded: &Option<LoadedSkill>) -> (r: Result<Skill, CliError>)
        requires
            self.skill is Some ==> loaded is Some,
        ensures
            match r {
                Ok(skill) => {
                    &&& !(self.skill is Some && loaded->0 is Err)
                    &&& self.frames(*loaded, skill)
                },
                Err(err) => {
                    &&& self.skill is Some && loaded->0 is Err
                    &&& err.refuses(
                        "could not load skill `"@ + self.skill->0@ + "`: "@ + loaded->0->Err_0@,
                    )
                },
            },
    {
        let preamble = match &self.system_prompt {
            Some(prompt) => prompt.clone(),
            None => String::new(),
        };
        match (&self.skill, loaded) {
            (Some(dir), Some(loaded)) => match loaded {
                Ok(definition) => Ok(definition.into_skill(preamble.as_str())),
                Err(why) => {
                    let mut refusal = "could not load skill `".to_owned();
                    refusal.append(dir.as_str());
                    refusal.append("`: ");
                    refusal.append(why.as_str());
                    Err(CliError::Config(refusal))
                },
            },
            _ => Ok(Skill::new("agent", ".", trim(preamble.as_str()))),
        }
    }

    /// Validate and resolve the config into an executable [`Plan`]. `loaded` is
    /// what reading the skill directory came to, where the config names one.
    pub fn into_plan(self, loaded: Option<LoadedSkill>) -> (r: Result<Plan, CliError>)
        requires
            self.skill is Some ==> loaded is Some,
        ensures
            match r {
                Ok(plan) => self.refusal(loaded) is None && self.plans(loaded, plan),
                Err(err) => self.refusal(loaded) is Some && err.refuses(self.refusal(loaded)->0),
            },
    {
        let task = match &self.task {
            Some(task) if !is_blank(task.as_str()) => task.clone(),
            _ => return Err(
                CliError::Config(
                    "no task given: set `task:` in the config or pass `--task` (`-` for stdin)".to_owned(),
                ),
            ),
        };
        let provider = match self.provider.resolve(Place::Top) {
            Ok(provider) => provider,
            Err(err) => return Err(err),
        };
        let mut settings = Settings::new("", "", "");
        if let Some(session) = &self.session {
            if !session.as_str().is_empty() {
                settings = settings.with_session_name(session.as_str());
            }
        }
        let skill = match self.build_skill(&loaded) {
            Ok(skill) => skill,
            Err(err) => return Err(err),
        };
        let (conversation, done_when) = match &self.user {
            Some(u) => {
                if let Some(turns) = u.max_turns {
                    settings = settings.with_max_turns(turns);
                }
                if let Some(settle) = u.settle_on_noop {
                    settings = settings.with_settle_on_noop(settle);
                }
                let mut sim = SimulatedUser::new(u.persona.as_str()).artifacts(
                    copy_texts(&u.artifacts),
                );
                if let Some(criterion) = &u.done_when {
                    sim = sim.done_when(criterion.as_str());
                }
                if let Some(turns) = u.max_turns {
                    sim = sim.max_turns(turns);
                }
                (Conversation::multi_turn(skill, task.as_str(), sim), copy_opt(&u.done_when))
            },
            None => (Conversation::single_turn(skill, task.as_str()), None),
        };
        let evals = match resolve_evals(&self.evals) {
            Ok(evals) => evals,
            Err(err) => return Err(err),
        };
        let assessment = match &self.assessment {
            Some(prompt) if !is_blank(prompt.as_str()) => Some(prompt.clone()),
            _ => None,
        };
        if let Some(refusal) = self.refuse_unanswerable(&provider) {
            return Err(CliError::Config(refusal));
        }
        Ok(
            Plan {
                provider,
                settings,
                conversation,
                evals,
                done_when,
                assessment,
                spawn_hook: None,
            },
        )
    }
}

// --- What holds of every resolved configuration -----------------------------
/// Every label of a panel is well-formed and names one judge only.
pub open spec fn labels_stand(judges: Seq<JudgeModel>) -> bool {
    &&& forall|i: int| 0 <= i < judges.len() ==> valid_label((#[trigger] judges[i]).label)
    &&& forall|i: int, j: int|
        0 <= i < j < judges.len() ==> (#[trigger] judges[i]).label != (#[trigger] judges[j]).label
}

proof fn lemma_decimal_is_label(n: nat)
    ensures
        valid_label(decimal(n)),
    decreases n,
{
    if n >= 10 {
        lemma_decimal_is_label(n / 10);
    }
}

proof fn lemma_kind_name_is_label(kind: ProviderKind)
    ensures
        valid_label(kind.name()),
{
    reveal_strlit("oneharness");
    reveal_strlit("command");
    reveal_strlit("split");
    reveal_strlit("llmlint");
    assert("oneharness"@.len() == 10 && "command"@.len() == 7);
    assert("split"@.len() == 5 && "llmlint"@.len() == 7);
}

impl ProviderConfig {
    /// A resolved backend is of the kind the config names.
    pub proof fn lemma_kind_is_kept(self, place: Place)
        requires
            self.resolved(place) is Ok,
        ensures
            self.resolved(place)->Ok_0.kind() == self.kind,
    {
    }

    /// Whatever resolves in the agent's seat can run the agent's turns: an
    /// llmlint backend is refused at the top and under a split's `skill:`.
    pub proof fn lemma_agent_seat_runs_turns(self, place: Place)
        requires
            self.resolved(place) is Ok,
            !(place is Judge),
        ensures
            !(self.resolved(place)->Ok_0 is Llmlint),
            self.resolved(place)->Ok_0 is Split ==> !(
            *(self.resolved(place)->Ok_0->skill) is Llmlint),
    {
        if self.kind is Split {
            let skill = (*self.skill->0).resolved(Place::Skill);
            assert(skill is Ok ==> !(skill->Ok_0 is Llmlint));
        }
    }

    /// A label on anything but a judge entry is refused, whatever else is set.
    pub proof fn lemma_label_names_judges_only(self, place: Place)
        requires
            self.label is Some,
            !(place is Judge),
        ensures
            self.resolved(place) == Err::<ProviderModel, Seq<char>>(misplaced_label()),
    {
    }

    /// A resolved panel has one seat per entry, and its labels are well-formed and
    /// name one judge each — so a panel can always be built from it.
    pub proof fn lemma_panel_labels_stand(self, n: nat)
        requires
            n <= self.seats(),
            self.panel_resolved(n) is Ok,
        ensures
            self.panel_resolved(n)->Ok_0.len() == n,
            labels_stand(self.panel_resolved(n)->Ok_0),
        decreases n,
    {
        if n > 0 {
            self.lemma_panel_labels_stand((n - 1) as nat);
            let earlier = self.panel_resolved((n - 1) as nat)->Ok_0;
            let entry = self.seat(n - 1);
            let label = self.seat_label(n - 1);
            let all = self.panel_resolved(n)->Ok_0;
            assert(valid_label(label)) by {
                if entry.label is None {
                    let count = self.seats_of_kind(entry.kind, n);
                    lemma_kind_name_is_label(entry.kind);
                    lemma_decimal_is_label(count);
                    reveal_strlit("-");
                    assert("-"@.len() == 1 && "-"@[0] == '-');
                }
            }
            assert(all.last().label == label);
            assert forall|i: int| 0 <= i < all.len() implies valid_label(
                (#[trigger] all[i]).label,
            ) by {
                if i < n - 1 {
                    assert(all[i] == earlier[i]);
                }
            }
            assert forall|i: int, j: int| 0 <= i < j < all.len() implies (#[trigger] all[i]).label
                != (#[trigger] all[j]).label by {
                assert(all[i] == earlier[i]);
                if j < n - 1 {
                    assert(all[j] == earlier[j]);
                }
            }
        }
    }

    /// `judge: X` and `judges: [X]` are one and the same panel, wherever the split
    /// stands.
    pub proof fn lemma_one_judge_is_a_list_of_one(self, list: ProviderConfig, place: Place)
        requires
            self.kind is Split,
            self.judge is Some,
            self.judges is None,
            list.judges is Some,
            list.judges->0@ == seq![*self.judge->0],
            list == (ProviderConfig { judge: None, judges: list.judges, ..self }),
        ensures
            self.resolved(place) == list.resolved(place),
    {
        assert(self.seats() == 1 && list.seats() == 1);
        assert(self.seat(0) == list.seat(0));
        let kind = self.seat(0).kind;
        assert(self.seats_of_kind(kind, 1) == 1) by {
            assert(self.seats_of_kind(kind, 0) == 0);
        }
        assert(list.seats_of_kind(kind, 1) == 1) by {
            assert(list.seats_of_kind(kind, 0) == 0);
        }
        assert(self.seat_label(0) == list.seat_label(0));
        assert(self.panel_resolved(0) == list.panel_resolved(0));
        assert(self.panel_resolved(1) == list.panel_resolved(1));
        assert(self.stray() == list.stray());
    }
}

// --- What the layers, the environment and the plan say ----------------------
impl Config {
    /// **Flags win over the environment, and that over the file, field by field**: what
    /// [`Config::layered`] gives has each field from the highest layer that names it, and
    /// what no layer can name as the file has it.
    pub proof fn lemma_the_highest_layer_wins(
        file: Config,
        env: Overrides,
        flags: Overrides,
        merged: Config,
    )
        requires
            call_ensures(Config::layered, (file, env, flags), merged),
        ensures
            flags.task is Some ==> merged.task == flags.task,
            flags.task is None && env.task is Some ==> merged.task == env.task,
            flags.task is None && env.task is None ==> merged.task == file.task,
            flags.skill is Some ==> merged.skill == flags.skill,
            flags.skill is None && env.skill is Some ==> merged.skill == env.skill,
            flags.skill is None && env.skill is None ==> merged.skill == file.skill,
            flags.system_prompt is Some ==> merged.system_prompt == flags.system_prompt,
            flags.system_prompt is None && env.system_prompt is Some ==> merged.system_prompt == env.system_prompt,
            flags.system_prompt is None && env.system_prompt is None ==> merged.system_prompt == file.system_prompt,
            flags.session is Some ==> merged.session == flags.session,
            flags.session is None && env.session is Some ==> merged.session == env.session,
            flags.session is None && env.session is None ==> merged.session == file.session,
            flags.judge_config is Some ==> merged.provider.judge_config == flags.judge_config,
            flags.judge_config is None && env.judge_config is Some ==> merged.provider.judge_config
                == env.judge_config,
            flags.judge_config is None && env.judge_config is None ==> merged.provider.judge_config
                == file.provider.judge_config,
            flags.provider_kind is Some ==> merged.provider.kind == flags.provider_kind->0,
            flags.provider_kind is None && env.provider_kind is Some ==> merged.provider.kind
                == env.provider_kind->0,
            flags.provider_kind is None && env.provider_kind is None ==> merged.provider.kind
                == file.provider.kind,
            flags.done_when is Some ==> merged.user is Some && merged.user->0.done_when == flags.done_when,
            flags.done_when is None && env.done_when is Some ==> merged.user is Some && merged.user->0.done_when
                == env.done_when,
            flags.done_when is None && env.done_when is None && file.user is Some ==> merged.user is Some
                && merged.user->0.done_when == file.user->0.done_when,
            flags.max_turns is Some ==> merged.user is Some && merged.user->0.max_turns == flags.max_turns,
            flags.max_turns is None && env.max_turns is Some ==> merged.user is Some && merged.user->0.max_turns
                == env.max_turns,
            flags.max_turns is None && env.max_turns is None && file.user is Some ==> merged.user is Some
                && merged.user->0.max_turns == file.user->0.max_turns,
            flags.persona is Some ==> merged.user is Some && merged.user->0.persona@
                == flags.persona->0@,
            flags.persona is None && env.persona is Some ==> merged.user is Some
                && merged.user->0.persona@ == env.persona->0@,
            flags.persona is None && env.persona is None && file.user is Some ==> merged.user is Some
                && merged.user->0.persona@ == file.user->0.persona@,
            flags.artifacts is Some ==> merged.user is Some && merged.user->0.artifacts@
                == flags.artifacts->0@,
            flags.artifacts is None && env.artifacts is Some ==> merged.user is Some
                && merged.user->0.artifacts@ == env.artifacts->0@,
            flags.artifacts is None && env.artifacts is None && file.user is Some
                ==> merged.user->0.artifacts@ == file.user->0.artifacts@,
            merged.evals == file.evals,
            merged.assessment == file.assessment,
            merged.provider.command == file.provider.command,
            merged.provider.judges == file.provider.judges,
            merged.provider.judge == file.provider.judge,
            merged.provider.skill == file.provider.skill,
            merged.provider.bin == file.provider.bin,
    {
    }

    /// **A plan drives the task that was given, as it was configured**: the task is what is
    /// said first, the simulated user has the configured persona, end condition, cap and
    /// artifacts, the condition re-judged at the end is the same one, every eval keeps its
    /// criterion and its scale, and the session its name. A config without a task gives
    /// none.
    pub proof fn lemma_a_plan_drives_the_task_given(
        self,
        loaded: Option<LoadedSkill>,
        r: Result<Plan, CliError>,
    )
        requires
            self.skill is Some ==> loaded is Some,
            call_ensures(Config::into_plan, (self, loaded), r),
        ensures
            self.task is None || blank(self.task->0@) ==> r is Err && r->Err_0 is Config,
            r is Err ==> r->Err_0 is Config,
            r is Ok ==> {
                let plan = r->Ok_0;
                &&& plan.conversation.input@ == self.task->0@
                &&& plan.conversation.user is Some <==> self.user is Some
                &&& self.user is Some ==> {
                    &&& plan.conversation.user->0.persona@ == self.user->0.persona@
                    &&& plan.conversation.user->0.max_turns == self.user->0.max_turns
                    &&& plan.conversation.user->0.artifacts@ == self.user->0.artifacts@
                    &&& opt_text(plan.conversation.user->0.done_when) == opt_text(
                        self.user->0.done_when,
                    )
                    &&& opt_text(plan.done_when) == opt_text(self.user->0.done_when)
                    &&& self.user->0.max_turns is Some ==> plan.settings.max_turns
                        == self.user->0.max_turns->0
                    &&& self.user->0.settle_on_noop is Some ==> plan.settings.settle_on_noop
                        == self.user->0.settle_on_noop->0
                }
                &&& self.user is None ==> plan.done_when is None
                &&& self.user is None || self.user->0.max_turns is None ==> plan.settings.max_turns
                    == 8
                &&& self.session is Some && self.session->0@.len() > 0
                    ==> plan.settings.session_name@ == self.session->0@
                &&& self.session is None ==> plan.settings.session_name@ == "onejudge"@
                &&& plan.evals@.len() == self.evals@.len()
                &&& forall|i: int|
                    0 <= i < self.evals@.len() ==> {
                        let asked = #[trigger] self.evals@[i];
                        let eval = plan.evals@[i];
                        &&& eval.criterion@ == asked.criterion@
                        &&& eval.kind is Boolean <==> asked.kind is Boolean
                        &&& asked.kind is Numeric && asked.scale is Some ==> eval.kind->scale
                            == asked.scale->0
                        &&& asked.kind is Boolean ==> asked.scale is None
                    }
                &&& plan.assessment is Some <==> self.assessment is Some && !blank(
                    self.assessment->0@,
                )
                &&& plan.assessment is Some ==> plan.assessment->0@ == self.assessment->0@
                &&& plan.provider.model().kind() == self.provider.kind
                &&& self.skill is None ==> plan.conversation.skill.instructions@
                    == match self.system_prompt {
                    Some(prompt) => trimmed(prompt@),
                    None => Seq::empty(),
                }
                &&& self.skill is Some ==> {
                    &&& plan.conversation.skill.name@ == loaded->0->Ok_0.name@
                    &&& plan.conversation.skill.dir@ == loaded->0->Ok_0.dir@
                }
            },
    {
        if r is Ok {
            let plan = r->Ok_0;
            self.provider.lemma_kind_is_kept(Place::Top);
            assert forall|i: int| 0 <= i < self.evals@.len() implies {
                let asked = #[trigger] self.evals@[i];
                let eval = plan.evals@[i];
                &&& eval.criterion@ == asked.criterion@
                &&& eval.kind is Boolean <==> asked.kind is Boolean
                &&& asked.kind is Numeric && asked.scale is Some ==> eval.kind->scale
                    == asked.scale->0
                &&& asked.kind is Boolean ==> asked.scale is None
            } by {
                assert(self.evals@[i].resolves_to(plan.evals@[i]));
                lemma_no_eval_refused(self.evals@, i);
            }
            if self.skill is None && self.system_prompt is None {
                crate::text::lemma_blank_trims_to_nothing(Seq::empty());
                assert(trimmed(Seq::<char>::empty()) =~= Seq::empty());
            }
        }
    }

    /// **A skill is framed by the system prompt first and its own body after it**: both are
    /// said in full, the prompt before the body, where both are there.
    pub proof fn lemma_a_skill_is_framed_prompt_first(
        self,
        loaded: Option<LoadedSkill>,
        r: Result<Plan, CliError>,
    )
        requires
            self.skill is Some,
            loaded is Some,
            call_ensures(Config::into_plan, (self, loaded), r),
            r is Ok,
            self.system_prompt is Some,
            !blank(self.system_prompt->0@),
            !blank(loaded->0->Ok_0.body@),
        ensures
            exists|at: Seq<int>|
                crate::text::laid_out(
                    r->Ok_0.conversation.skill.instructions@,
                    seq![trimmed(self.system_prompt->0@), trimmed(loaded->0->Ok_0.body@)],
                    "\n\n"@,
                    at,
                ),
    {
        let prompt = trimmed(self.system_prompt->0@);
        let body = trimmed(loaded->0->Ok_0.body@);
        crate::text::lemma_blank_trims_to_nothing(self.system_prompt->0@);
        crate::text::lemma_blank_trims_to_nothing(loaded->0->Ok_0.body@);
        let parts = seq![prompt, body];
        assert(parts.drop_last() =~= seq![prompt]);
        crate::text::lemma_joined_is_laid_out(parts, "\n\n"@);
        assert(crate::text::joined(parts, "\n\n"@) == prompt + "\n\n"@ + body);
        let at = choose|at: Seq<int>|
            crate::text::laid_out(crate::text::joined(parts, "\n\n"@), parts, "\n\n"@, at);
        assert(crate::text::laid_out(
            r->Ok_0.conversation.skill.instructions@,
            parts,
            "\n\n"@,
            at,
        ));
    }

    /// **An ordinary config makes a plan**: a task, evals that are in order, no skill to
    /// read and the default backend are enough.
    pub proof fn lemma_an_ordinary_config_makes_a_plan(
        self,
        loaded: Option<LoadedSkill>,
        r: Result<Plan, CliError>,
    )
        requires
            call_ensures(Config::into_plan, (self, loaded), r),
            self.task is Some && !blank(self.task->0@),
            self.skill is None,
            self.provider.kind is Oneharness,
            self.provider.label is None,
            self.provider.command is None,
            self.provider.config is None && self.provider.diff_base is None
                && self.provider.args is None,
            self.provider.skill is None && self.provider.judge is None
                && self.provider.judges is None,
            forall|i: int|
                0 <= i < self.evals@.len() ==> {
                    &&& (#[trigger] self.evals@[i]).kind is Boolean ==> self.evals@[i].scale is None
                    &&& self.evals@[i].kind is Numeric && self.evals@[i].scale is Some ==> !above(
                        (self.evals@[i].scale->0).0.bits,
                        (self.evals@[i].scale->0).1.bits,
                    )
                },
        ensures
            r is Ok,
    {
        lemma_fit_evals(self.evals@);
        assert(self.provider.resolved(Place::Top) is Ok);
    }
}

proof fn lemma_no_eval_refused(evals: Seq<EvalConfig>, i: int)
    requires
        evals_refusal(evals) is None,
        0 <= i < evals.len(),
    ensures
        evals[i].refusal() is None,
    decreases evals.len(),
{
    if i > 0 {
        lemma_no_eval_refused(evals.drop_first(), i - 1);
        assert(evals.drop_first()[i - 1] == evals[i]);
    }
}

proof fn lemma_fit_evals(evals: Seq<EvalConfig>)
    requires
        forall|i: int|
            0 <= i < evals.len() ==> {
                &&& (#[trigger] evals[i]).kind is Boolean ==> evals[i].scale is None
                &&& evals[i].kind is Numeric && evals[i].scale is Some ==> !above(
                    (evals[i].scale->0).0.bits,
                    (evals[i].scale->0).1.bits,
                )
            },
    ensures
        evals_refusal(evals) is None,
    decreases evals.len(),
{
    if evals.len() > 0 {
        let rest = evals.drop_first();
        assert forall|i: int| 0 <= i < rest.len() implies (#[trigger] rest[i]) == evals[i + 1] by {}
        assert(evals[0].refusal() is None);
        lemma_fit_evals(rest);
    }
}

/// **An eval keeps its criterion and its scale**: a boolean one takes none, a numeric one
/// its own or zero to ten, and one that is upside down is refused.
pub proof fn lemma_an_eval_keeps_its_scale(config: EvalConfig, r: Result<Eval, CliError>)
    requires
        call_ensures(EvalConfig::resolve, (&config,), r),
    ensures
        r is Err <==> (config.kind is Boolean && config.scale is Some) || (config.kind is Numeric
            && config.scale is Some && above(
            (config.scale->0).0.bits,
            (config.scale->0).1.bits,
        )),
        r is Ok ==> {
            &&& r->Ok_0.criterion@ == config.criterion@
            &&& r->Ok_0.kind is Boolean <==> config.kind is Boolean
            &&& config.kind is Numeric && config.scale is Some ==> r->Ok_0.kind->scale
                == config.scale->0
            &&& config.kind is Numeric && config.scale is None ==> {
                &&& (r->Ok_0.kind->scale).0.text@ == "0"@
                &&& (r->Ok_0.kind->scale).1.text@ == "10"@
                &&& (r->Ok_0.kind->scale).0.bits == 0
                &&& (r->Ok_0.kind->scale).1.bits == 0x4024_0000_0000_0000u64
            }
        },
{
}

/// Whether an override is what a variable exports: its value, where it is set to something.
pub open spec fn exported(value: Option<String>, over: Option<String>) -> bool {
    &&& over is Some <==> value is Some && value->0@.len() > 0
    &&& over is Some ==> over->0@ == value->0@
}

impl Overrides {
    /// **The environment is read variable by variable**: each override is what its own
    /// `ONEJUDGE_` variable is set to, a blank one counts as unset, and a turn cap or a
    /// backend that is none is refused.
    pub proof fn lemma_the_environment_is_read_by_name<
        F: Fn(&str) -> Option<String>,
        S: Fn(&str) -> Vec<String>,
    >(getenv: F, split: S, values: spec_fn(Seq<char>) -> Option<String>, r: Result<Self, CliError>)
        requires
            call_ensures(Overrides::from_env::<F, S>, (getenv, split), r),
            forall|name: &str, value: Option<String>| #[trigger]
                call_ensures(getenv, (name,), value) ==> value == values(name@),
        ensures
            r is Ok ==> exported(values("ONEJUDGE_JUDGE_CONFIG"@), r->Ok_0.judge_config),
            r is Ok ==> exported(values("ONEJUDGE_SKILL"@), r->Ok_0.skill),
            r is Ok ==> exported(values("ONEJUDGE_SYSTEM_PROMPT"@), r->Ok_0.system_prompt),
            r is Ok ==> exported(values("ONEJUDGE_TASK"@), r->Ok_0.task),
            r is Ok ==> exported(values("ONEJUDGE_PERSONA"@), r->Ok_0.persona),
            r is Ok ==> exported(values("ONEJUDGE_DONE_WHEN"@), r->Ok_0.done_when),
            r is Ok ==> exported(values("ONEJUDGE_SESSION"@), r->Ok_0.session),
            ({
                let turns = values("ONEJUDGE_MAX_TURNS"@);
                let set = turns is Some && turns->0@.len() > 0;
                &&& set && turns_value(turns->0@) is None ==> r is Err && r->Err_0 is Config
                &&& set && r is Ok ==> r->Ok_0.max_turns == turns_value(turns->0@)
                &&& !set && r is Ok ==> r->Ok_0.max_turns is None
            }),
            ({
                let kind = values("ONEJUDGE_PROVIDER"@);
                let set = kind is Some && kind->0@.len() > 0;
                &&& !set && r is Ok ==> r->Ok_0.provider_kind is None
                &&& set && r is Ok ==> r->Ok_0.provider_kind is Some && same_but_case(
                    kind->0@,
                    match r->Ok_0.provider_kind->0 {
                        ProviderKind::Oneharness => "oneharness"@,
                        ProviderKind::Command => "command"@,
                        ProviderKind::Split => "split"@,
                        ProviderKind::Llmlint => "llmlint"@,
                    },
                )
            }),
    {
    }
}

/// **A number of turns is read as it is written**: the digits of a number give the number,
/// and nothing that has another character in it, or none, is one.
pub proof fn lemma_turns_are_read_as_written(n: u32, text: Seq<char>, i: int)
    ensures
        turns_value(decimal(n as nat)) == Some(n),
        text.len() == 0 ==> turns_value(text) is None,
        0 <= i < text.len() && !(('0' <= text[i] && text[i] <= '9') || (i == 0 && text[i] == '+'))
            ==> turns_value(text) is None,
{
    crate::text::lemma_decimal_reads_back(n as nat);
    let digits = decimal(n as nat);
    assert(crate::text::is_digit(digits[0]));
    assert(crate::text::unsigned_digits(digits) == digits);
    if 0 <= i < text.len() && !(('0' <= text[i] && text[i] <= '9') || (i == 0 && text[i] == '+')) {
        let rest = crate::text::unsigned_digits(text);
        if text[0] == '+' {
            assert(rest[i - 1] == text[i]);
        } else {
            assert(rest[i] == text[i]);
        }
    }
}

impl ProviderConfig {
    /// **A backend is what its config says**: of its own kind, with its own fields; a field
    /// that belongs to another kind is refused, and so is a judge in the agent's seat.
    pub proof fn lemma_a_backend_is_what_its_config_says(
        self,
        place: Place,
        r: Result<ProviderSpec, CliError>,
    )
        requires
            call_ensures(ProviderConfig::resolve, (&self, place), r),
        ensures
            r is Err ==> r->Err_0 is Config,
            self.kind is Llmlint && !(place is Judge) ==> r is Err,
            self.label is Some && !(place is Judge) ==> r is Err,
            !(self.kind is Command) && self.command is Some ==> r is Err,
            !(self.kind is Oneharness) && (self.judge_config is Some || self.stream is Some
                || self.control is Some || self.mock_harness is Some) ==> r is Err,
            !(self.kind is Llmlint) && (self.config is Some || self.diff_base is Some
                || self.args is Some) ==> r is Err,
            !(self.kind is Split) && (self.skill is Some || self.judge is Some
                || self.judges is Some) ==> r is Err,
            (self.kind is Command || self.kind is Split) && self.bin is Some ==> r is Err,
            self.kind is Command && (self.command is None || self.command->0@.len() == 0)
                ==> r is Err,
            self.kind is Split && (self.skill is None || (self.judge is None
                && self.judges is None) || (self.judge is Some && self.judges is Some)) ==> r is Err,
            r is Ok ==> match r->Ok_0 {
                ProviderSpec::Oneharness { bin, judge_config, stream, control, mock_harness } => {
                    &&& self.kind is Oneharness
                    &&& opt_text(bin) == opt_text(self.bin)
                    &&& opt_text(judge_config) == opt_text(self.judge_config)
                    &&& stream <==> self.stream == Some(true)
                    &&& control <==> self.control == Some(true)
                    &&& self.mock_harness is Some ==> texts(mock_harness@) == texts(
                        self.mock_harness->0@,
                    )
                    &&& self.mock_harness is None ==> mock_harness@.len() == 0
                },
                ProviderSpec::Command { command } => {
                    &&& self.kind is Command
                    &&& texts(command@) == texts(self.command->0@)
                },
                ProviderSpec::Split { skill, judges } => {
                    &&& self.kind is Split
                    &&& (*skill).model().kind() == (*self.skill->0).kind
                    &&& judges@.len() == if self.judge is Some {
                        1
                    } else {
                        self.judges->0@.len()
                    }
                },
                ProviderSpec::Llmlint { bin, config, diff_base, args } => {
                    &&& self.kind is Llmlint
                    &&& self.bin is Some ==> bin@ == self.bin->0@
                    &&& self.bin is None ==> bin@ == "llmlint"@
                    &&& opt_text(config) == opt_text(self.config)
                    &&& self.diff_base is Some && !blank(self.diff_base->0@) ==> opt_text(diff_base)
                        == Some(self.diff_base->0@)
                    &&& self.diff_base is None ==> diff_base is None
                    &&& self.args is Some ==> texts(args@) == texts(self.args->0@)
                },
            },
    {
        if r is Ok {
            let model = r->Ok_0.model();
            match r->Ok_0 {
                ProviderSpec::Oneharness { bin, judge_config, stream, control, mock_harness } => {
                    assert(texts(mock_harness@).len() == mock_harness@.len());
                },
                ProviderSpec::Split { skill, judges } => {
                    (*self.skill->0).lemma_kind_is_kept(Place::Skill);
                    self.lemma_panel_labels_stand(self.seats());
                    assert(model->judges.len() == judges@.len());
                },
                _ => {},
            }
        }
    }

    /// **Judges stand in the order they are named, under their own labels**: an explicit
    /// label is taken as it is; without one the first judge of a kind is called by the kind
    /// and the second `<kind>-2`.
    pub proof fn lemma_judges_are_labelled_in_order(
        self,
        i: int,
        r: Result<Vec<JudgeSpec>, CliError>,
    )
        requires
            call_ensures(ProviderConfig::resolve_judges, (&self,), r),
            r is Ok,
            self.judge is None,
            self.judges is Some,
            0 <= i < self.judges->0@.len(),
        ensures
            r->Ok_0@.len() == self.judges->0@.len(),
            r->Ok_0@[i].provider.model().kind() == self.judges->0@[i].kind,
            self.judges->0@[i].label is Some ==> r->Ok_0@[i].label@ == self.judges->0@[i].label->0@,
            self.judges->0@[i].label is None && (forall|j: int|
                0 <= j < i ==> (#[trigger] self.judges->0@[j]).kind != self.judges->0@[i].kind)
                ==> r->Ok_0@[i].label@ == self.judges->0@[i].kind.name(),
            forall|k: int|
                self.judges->0@[i].label is None && 0 <= k < i && (
                #[trigger] self.judges->0@[k]).kind == self.judges->0@[i].kind && (forall|j: int|
                    0 <= j < i && j != k ==> (#[trigger] self.judges->0@[j]).kind
                        != self.judges->0@[i].kind) ==> r->Ok_0@[i].label@
                    == self.judges->0@[i].kind.name() + "-"@ + seq!['2'],
    {
        let n = self.seats();
        let models = self.panel_resolved(n)->Ok_0;
        self.lemma_panel_labels_stand(n);
        self.lemma_panel_seat(n, i);
        assert(judge_models(r->Ok_0@).len() == r->Ok_0@.len());
        assert(models[i] == r->Ok_0@[i].model());
        self.seat(i).lemma_kind_is_kept(Place::Judge);
        let kind = self.seat(i).kind;
        if forall|j: int|
            0 <= j < i ==> (#[trigger] self.judges->0@[j]).kind != self.judges->0@[i].kind {
            self.lemma_none_of_kind(kind, i as nat);
        }
        assert forall|k: int|
            self.judges->0@[i].label is None && 0 <= k < i && (
            #[trigger] self.judges->0@[k]).kind == self.judges->0@[i].kind && (forall|j: int|
                0 <= j < i && j != k ==> (#[trigger] self.judges->0@[j]).kind
                    != self.judges->0@[i].kind) implies r->Ok_0@[i].label@
            == self.judges->0@[i].kind.name() + "-"@ + seq!['2'] by {
            self.lemma_one_of_kind(kind, i as nat, k);
            assert(decimal(2) =~= seq!['2']);
        }
    }

    proof fn lemma_none_of_kind(self, kind: ProviderKind, n: nat)
        requires
            forall|j: int| 0 <= j < n ==> (#[trigger] self.judges->0@[j]).kind != kind,
            self.judge is None,
        ensures
            self.seats_of_kind(kind, n) == 0,
        decreases n,
    {
        if n > 0 {
            self.lemma_none_of_kind(kind, (n - 1) as nat);
            assert(self.judges->0@[n - 1].kind != kind);
        }
    }

    proof fn lemma_one_of_kind(self, kind: ProviderKind, n: nat, k: int)
        requires
            0 <= k < n,
            self.judges->0@[k].kind == kind,
            forall|j: int| 0 <= j < n && j != k ==> (#[trigger] self.judges->0@[j]).kind != kind,
            self.judge is None,
        ensures
            self.seats_of_kind(kind, n) == 1,
        decreases n,
    {
        if k == n - 1 {
            self.lemma_none_of_kind(kind, (n - 1) as nat);
        } else {
            self.lemma_one_of_kind(kind, (n - 1) as nat, k);
            assert(self.judges->0@[n - 1].kind != kind);
        }
    }

    proof fn lemma_panel_seat(self, n: nat, i: int)
        requires
            n <= self.seats(),
            self.panel_resolved(n) is Ok,
            0 <= i < n,
        ensures
            self.panel_resolved(n)->Ok_0[i].label == self.seat_label(i),
            self.seat(i).resolved(Place::Judge) == Ok::<ProviderModel, Seq<char>>(
                self.panel_resolved(n)->Ok_0[i].provider,
            ),
        decreases n,
    {
        self.lemma_panel_labels_stand(n);
        self.lemma_panel_labels_stand((n - 1) as nat);
        if i < n - 1 {
            self.lemma_panel_seat((n - 1) as nat, i);
        }
    }
}

/// **Who can score and write**: an `oneharness` or `command` judge, never an `llmlint` one,
/// and a split exactly where one of its own judges can.
pub proof fn lemma_who_can_score_and_write(judge: JudgeSpec, r: bool, inner: Seq<bool>)
    requires
        call_ensures(JudgeSpec::scores_and_writes, (&judge,), r),
        judge.provider is Split ==> inner.len() == judge.provider->judges@.len() && forall|i: int|
            0 <= i < inner.len() ==> call_ensures(
                JudgeSpec::scores_and_writes,
                (&judge.provider->judges@[i],),
                #[trigger] inner[i],
            ),
    ensures
        judge.provider is Oneharness || judge.provider is Command ==> r,
        judge.provider is Llmlint ==> !r,
        judge.provider is Split ==> (r <==> exists|i: int| 0 <= i < inner.len() && #[trigger] inner[i]),
{
    if judge.provider is Split {
        let judges = judge.provider->judges;
        let models = judge.provider.model()->judges;
        assert(models.len() == judges@.len());
        assert forall|i: int| 0 <= i < inner.len() implies #[trigger] inner[i]
            == models[i].provider.scores() by {
            assert(models[i].provider == judges@[i].provider.model());
        }
        if r {
            let i = choose|i: int| 0 <= i < models.len() && (#[trigger] models[i]).provider.scores();
            assert(inner[i]);
        }
        if exists|i: int| 0 <= i < inner.len() && #[trigger] inner[i] {
            let i = choose|i: int| 0 <= i < inner.len() && #[trigger] inner[i];
            assert(models[i].provider.scores());
        }
    }
}

/// **A layer says what it says and leaves the rest**: each setting it gives replaces the one
/// below, each it leaves out stays, and giving anything about the user brings one in.
pub proof fn lemma_a_layer_says_what_it_says(before: Config, layer: Overrides, after: Config)
    requires
        exists|cfg: &mut Config|
            *cfg == before && *final(cfg) == after && #[trigger] call_ensures(
                Config::apply,
                (cfg, layer),
                (),
            ),
    ensures
        layer.task is Some ==> after.task == layer.task,
        layer.task is None ==> after.task == before.task,
        layer.skill is Some ==> after.skill == layer.skill,
        layer.skill is None ==> after.skill == before.skill,
        layer.system_prompt is Some ==> after.system_prompt == layer.system_prompt,
        layer.system_prompt is None ==> after.system_prompt == before.system_prompt,
        layer.session is Some ==> after.session == layer.session,
        layer.session is None ==> after.session == before.session,
        layer.provider_kind is Some ==> after.provider.kind == layer.provider_kind->0,
        layer.provider_kind is None ==> after.provider.kind == before.provider.kind,
        layer.judge_config is Some ==> after.provider.judge_config == layer.judge_config,
        layer.judge_config is None ==> after.provider.judge_config == before.provider.judge_config,
        after.evals == before.evals,
        after.assessment == before.assessment,
        layer.persona is Some ==> after.user is Some && after.user->0.persona@ == layer.persona->0@,
        layer.persona is None && before.user is Some ==> after.user is Some
            && after.user->0.persona@ == before.user->0.persona@,
        layer.max_turns is Some ==> after.user is Some && after.user->0.max_turns
            == layer.max_turns,
        layer.max_turns is None && before.user is Some ==> after.user->0.max_turns
            == before.user->0.max_turns,
        layer.done_when is Some ==> after.user is Some && after.user->0.done_when
            == layer.done_when,
        layer.done_when is None && before.user is Some ==> after.user->0.done_when
            == before.user->0.done_when,
        layer.artifacts is Some ==> after.user is Some && after.user->0.artifacts@
            == layer.artifacts->0@,
        layer.persona is None && layer.max_turns is None && layer.done_when is None
            && layer.artifacts is None ==> after.user == before.user,
{
}

/// **A backend is named by its own name**, and by no other's.
pub proof fn lemma_a_backend_is_named_by_its_own_name(kind: ProviderKind, name: &str)
    requires
        call_ensures(ProviderKind::as_str, (kind,), name),
    ensures
        kind is Oneharness <==> name@ == "oneharness"@,
        kind is Command <==> name@ == "command"@,
        kind is Split <==> name@ == "split"@,
        kind is Llmlint <==> name@ == "llmlint"@,
{
    reveal_strlit("oneharness");
    reveal_strlit("command");
    reveal_strlit("split");
    reveal_strlit("llmlint");
    assert("oneharness"@.len() == 10 && "split"@.len() == 5);
    assert("command"@.len() == 7 && "llmlint"@.len() == 7);
    assert("command"@[0] == 'c' && "llmlint"@[0] == 'l');
}

} // verus!
