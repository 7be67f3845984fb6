//! The command line's arguments, and what follows from them before anything runs.

use super::config::{CliError, Config, Overrides, ProviderKind};
use crate::paths::{resolve, resolved};
use crate::text::{same, texts, trim, trimmed};
use vstd::prelude::*;
use vstd::string::*;

verus! {

/// The config file a run reads when none is named.
pub const DEFAULT_CONFIG: &'static str = "onejudge.yaml";

/// The oldest `oneharness` release that can produce the report this crate reads.
pub const MIN_ONEHARNESS: &'static str = "0.6.14";

/// `onejudge` — drive a harness through a simulated-user loop to complete a task.
#[derive(Debug, PartialEq, Eq)]
pub struct Cli {
    /// The subcommand to run.
    pub command: Command,
}

/// The `onejudge` subcommands.
#[derive(Debug, PartialEq, Eq)]
pub enum Command {
    /// Drive one task to completion via a simulated-user loop.
    Run(RunArgs),
    /// Write a starter `onejudge.yaml`.
    Init(InitArgs),
    /// Print the annotated config schema.
    Schema,
}

/// Arguments for `onejudge run`. Each flag also has a matching `ONEJUDGE_*`
/// environment override; precedence is flags > env > config file > defaults.
#[derive(Debug, PartialEq, Eq)]
pub struct RunArgs {
    /// The config file (defaults to `./onejudge.yaml` when present).
    pub config: Option<String>,
    /// The judge / simulated-user config file.
    pub judge_config: Option<String>,
    /// A skill directory whose body seeds the system prompt.
    pub skill: Option<String>,
    /// Extra system-prompt text for the harness.
    pub system_prompt: Option<String>,
    /// The task to drive to completion (`-` reads stdin).
    pub task: Option<String>,
    /// The simulated user's persona.
    pub persona: Option<String>,
    /// The completion condition the simulated user drives toward.
    pub done_when: Option<String>,
    /// The assistant-turn cap.
    pub max_turns: Option<u32>,
    /// Files or directories to name to the judges (repeatable).
    pub artifact: Vec<String>,
    /// The caller-owned session name threaded across turns.
    pub session: Option<String>,
    /// Override just the provider backend kind.
    pub provider: Option<ProviderKind>,
    /// The output format.
    pub format: Format,
    /// Publish the run on stdout as the streamed protocol.
    pub stream: bool,
    /// Write the result here instead of stdout.
    pub output: Option<String>,
}

/// Arguments for `onejudge init`.
#[derive(Debug, PartialEq, Eq)]
pub struct InitArgs {
    /// Where to write the starter config.
    pub path: String,
    /// Overwrite existing files.
    pub force: bool,
    /// The `oneharness` binary used to scaffold its config files.
    pub oneharness_bin: String,
}

/// The `--format` choices.
#[derive(Debug, Clone, Copy, PartialEq, Eq, Structural)]
pub enum Format {
    /// A readable transcript + result summary.
    Human,
    /// The versioned report as JSON.
    Json,
}

impl RunArgs {
    /// Refuse an output surface that would discard the stream: `--stream`
    /// publishes JSON lines on stdout, so a human rendering or a file destination
    /// has no place beside it.
    pub fn check_output(&self) -> (r: Result<(), CliError>)
        ensures
            match r {
                Ok(()) => self.stream ==> self.format is Json && self.output is None,
                Err(err) => {
                    &&& self.stream
                    &&& !(self.format is Json) ==> err.refuses(
                        "--stream publishes the JSON streamed protocol; pass --format json"@,
                    )
                    &&& self.format is Json ==> self.output is Some && err.refuses(
                        "--stream writes the event stream to stdout; drop --output"@,
                    )
                },
            },
    {
        if self.stream {
            if self.format != Format::Json {
                return Err(
                    CliError::Config(
                        "--stream publishes the JSON streamed protocol; pass --format json".to_owned(),
                    ),
                );
            }
            if self.output.is_some() {
                return Err(
                    CliError::Config(
                        "--stream writes the event stream to stdout; drop --output".to_owned(),
                    ),
                );
            }
        }
        Ok(())
    }

    /// The override layer of these flags. `task` is the task once `-` was replaced
    /// by what stdin held.
    pub fn overrides(self, task: Option<String>) -> (over: Overrides)
        ensures
            over.judge_config == self.judge_config,
            over.skill == self.skill,
            over.system_prompt == self.system_prompt,
            over.task == task,
            over.persona == self.persona,
            over.done_when == self.done_when,
            over.max_turns == self.max_turns,
            over.artifacts == (if self.artifact@.len() > 0 {
                Some(self.artifact)
            } else {
                None
            }),
            over.session == self.session,
            over.provider_kind == self.provider,
    {
        let artifacts = if self.artifact.len() > 0 {
            Some(self.artifact)
        } else {
            None
        };
        Overrides {
            judge_config: self.judge_config,
            skill: self.skill,
            system_prompt: self.system_prompt,
            task,
            persona: self.persona,
            done_when: self.done_when,
            max_turns: self.max_turns,
            artifacts,
            session: self.session,
            provider_kind: self.provider,
        }
    }
}

/// The config file a run reads: the one named, or `./onejudge.yaml` when it exists.
/// `None` means no file — flags alone drive the run.
pub fn resolve_config_path(named: Option<&str>, default_exists: bool) -> (path: Option<String>)
    ensures
        crate::text::opt_text(path) == match named {
            Some(named) => Some(named@),
            None => if default_exists {
                Some(DEFAULT_CONFIG@)
            } else {
                None
            },
        },
{
    match named {
        Some(named) => Some(named.to_owned()),
        None => if default_exists {
            Some(DEFAULT_CONFIG.to_owned())
        } else {
            None
        },
    }
}

/// Resolve a config-file `skill:` path relative to the config's own directory, so
/// `onejudge run sub/onejudge.yaml` finds `sub/skills/x` from `skill: skills/x`. An
/// absolute path is left as it is, and an empty `base` changes nothing.
pub fn rebase_skill(cfg: &mut Config, base: &str)
    ensures
        crate::text::opt_text(final(cfg).skill) == match old(cfg).skill {
            Some(skill) => Some(resolved(base@, skill@)),
            None => None,
        },
        *final(cfg) == (Config { skill: final(cfg).skill, ..*old(cfg) }),
{
    let rebased = match &cfg.skill {
        Some(skill) => Some(resolve(base, skill.as_str())),
        None => None,
    };
    cfg.skill = rebased;
}

/// Whether `--task` asks for stdin: exactly `-` does.
pub fn reads_stdin(task: &str) -> (r: bool)
    ensures
        r == (task@ == "-"@),
{
    same(task, "-")
}

/// The task that stdin held.
pub fn stdin_task(text: &str) -> (task: String)
    ensures
        task@ == trimmed(text@),
{
    trim(text).to_owned()
}

impl InitArgs {
    /// Refuse to overwrite an existing starter config, unless forced to.
    pub fn check_target(&self, present: bool) -> (r: Result<(), CliError>)
        ensures
            match r {
                Ok(()) => !present || self.force,
                Err(err) => {
                    &&& present && !self.force
                    &&& err.refuses(self.path@ + " already exists (use --force to overwrite)"@)
                },
            },
    {
        if present && !self.force {
            let mut refusal = self.path.clone();
            refusal.append(" already exists (use --force to overwrite)");
            return Err(CliError::Config(refusal));
        }
        Ok(())
    }

    /// The arguments of one `oneharness init`.
    pub fn scaffold_args(&self, path: &str) -> (argv: Vec<String>)
        ensures
            texts(argv@) == if self.force {
                seq!["init"@, path@, "--force"@]
            } else {
                seq!["init"@, path@]
            },
    {
        let mut argv: Vec<String> = Vec::new();
        argv.push("init".to_owned());
        argv.push(path.to_owned());
        if self.force {
            argv.push("--force".to_owned());
        }
        proof {
            if self.force {
                assert(texts(argv@) =~= seq!["init"@, path@, "--force"@]);
            } else {
                assert(texts(argv@) =~= seq!["init"@, path@]);
            }
        }
        argv
    }

    /// The error of an `oneharness init` that could not be started.
    pub fn scaffold_unstarted(&self, path: &str, why: &str) -> (err: CliError)
        ensures
            err.refuses(
                "could not run `"@ + self.oneharness_bin@ + " init "@ + path@ + "`: "@ + why@
                    + ". Is oneharness ("@ + MIN_ONEHARNESS@
                    + "+) installed and on PATH? Install it or pass --oneharness-bin <path>."@,
            ),
    {
        let mut text = "could not run `".to_owned();
        text.append(self.oneharness_bin.as_str());
        text.append(" init ");
        text.append(path);
        text.append("`: ");
        text.append(why);
        text.append(". Is oneharness (");
        text.append(MIN_ONEHARNESS);
        text.append("+) installed and on PATH? Install it or pass --oneharness-bin <path>.");
        CliError::Config(text)
    }

    /// The error of an `oneharness init` that failed.
    pub fn scaffold_failed(&self, path: &str, stderr: &str) -> (err: CliError)
        ensures
            err.refuses(
                "`"@ + self.oneharness_bin@ + " init "@ + path@ + "` failed: "@ + trimmed(
                    stderr@,
                ),
            ),
    {
        let mut text = "`".to_owned();
        text.append(self.oneharness_bin.as_str());
        text.append(" init ");
        text.append(path);
        text.append("` failed: ");
        text.append(trim(stderr));
        CliError::Config(text)
    }
}

/// The error of a config file that could not be read.
pub fn unreadable_config(path: &str, why: &str) -> (err: CliError)
    ensures
        err.refuses("could not read config `"@ + path@ + "`: "@ + why@),
{
    let mut text = "could not read config `".to_owned();
    text.append(path);
    text.append("`: ");
    text.append(why);
    CliError::Config(text)
}

/// The progress line of one tool event.
pub fn progress_line(turn: usize, summary: &str) -> (line: String)
    ensures
        line@ == "· turn "@ + crate::text::decimal(turn as nat) + " — "@ + summary@,
{
    let mut line = "· turn ".to_owned();
    line.append(crate::text::decimal_of(turn as u64).as_str());
    line.append(" — ");
    line.append(summary);
    line
}

/// **A stream goes out alone**: the output is refused exactly where a stream is asked for
/// beside a rendering for people or a file.
pub proof fn lemma_a_stream_goes_out_alone(args: RunArgs, r: Result<(), CliError>)
    requires
        call_ensures(RunArgs::check_output, (&args,), r),
    ensures
        r is Err <==> args.stream && (args.format is Human || args.output is Some),
{
}

/// **Flags are layered as they were given**: each is the override of its own setting, and
/// artifacts are overridden only where some are named.
pub proof fn lemma_flags_are_layered_as_given(
    args: RunArgs,
    task: Option<String>,
    over: Overrides,
)
    requires
        call_ensures(RunArgs::overrides, (args, task), over),
    ensures
        over.task == task,
        over.judge_config == args.judge_config,
        over.skill == args.skill,
        over.system_prompt == args.system_prompt,
        over.persona == args.persona,
        over.done_when == args.done_when,
        over.max_turns == args.max_turns,
        over.session == args.session,
        over.provider_kind == args.provider,
        args.artifact@.len() == 0 <==> over.artifacts is None,
        over.artifacts is Some ==> over.artifacts->0 == args.artifact,
{
}

/// **The named config is read**: the default one only where none is named and it is there.
pub proof fn lemma_the_named_config_is_read(
    named: Option<&str>,
    default_exists: bool,
    path: Option<String>,
)
    requires
        call_ensures(resolve_config_path, (named, default_exists), path),
    ensures
        named is Some ==> path is Some && path->0@ == named->0@,
        named is None ==> (path is Some <==> default_exists),
        named is None && default_exists ==> path->0@ == DEFAULT_CONFIG@,
{
}

/// **A starter config is never overwritten unasked**, and only a forced one forces what it
/// scaffolds.
pub proof fn lemma_nothing_is_overwritten_unasked(
    args: InitArgs,
    present: bool,
    path: &str,
    r: Result<(), CliError>,
    argv: Vec<String>,
)
    requires
        call_ensures(InitArgs::check_target, (&args, present), r),
        call_ensures(InitArgs::scaffold_args, (&args, path), argv),
    ensures
        r is Err <==> present && !args.force,
        argv@.len() >= 2,
        argv@[1]@ == path@,
        argv@.len() == 3 <==> args.force,
        argv@.len() <= 3,
        args.force ==> argv@[2]@ == "--force"@,
{
    assert(texts(argv@).len() == argv@.len());
    assert(texts(argv@)[1] == argv@[1]@);
    if args.force {
        assert(texts(argv@)[2] == argv@[2]@);
    }
}

/// **The task on stdin is asked for by a dash alone**, and is what stands there but for the
/// white space around it.
pub proof fn lemma_a_dash_asks_for_stdin(task: &str, text: &str, asks: bool, read: String)
    requires
        call_ensures(reads_stdin, (task,), asks),
        call_ensures(stdin_task, (text,), read),
    ensures
        asks <==> task@.len() == 1 && task@[0] == '-',
        exists|front: Seq<char>, back: Seq<char>|
            text@ == #[trigger] (front + read@ + back) && crate::text::blank(front)
                && crate::text::blank(back),
{
    reveal_strlit("-");
    if task@.len() == 1 && task@[0] == '-' {
        assert(task@ =~= "-"@);
    }
    crate::text::lemma_trimming_takes_white_space_only(text@);
}

} // verus!
