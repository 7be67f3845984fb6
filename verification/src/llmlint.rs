//! [`LlmlintProvider`]: a judge whose whole verdict is one `llmlint` run over the
//! worker's tree.
//!
//! A run with failing rules is a *not done* decision whose message to the worker
//! is llmlint's own evaluation output, verbatim; a run with no failing rules is
//! *done*; and a run that could not complete is an error of the turn that is
//! never mistaken for either.
//!
//! llmlint is met at the process boundary only. The arguments of a run and what
//! its exit means are decided here; starting the process is the embedder's.

use crate::error::{classified, Error, ErrorView, ProviderErrorKind};
use crate::prompts::last_index;
use crate::provider::{
    said, Assessment, AssistantTurn, EvidenceContext, JudgeKind, JudgeValue, JudgeValueView,
    JudgeVerdict, JudgeVerdictView, SupervisorOutcome, SupervisorOutcomeView, SupervisorTurn,
    SupervisorTurnView, UserTurn,
};
use crate::spawn::{SharedSpawnHook, Spawner, TelemetryRole};
use crate::telemetry::InvocationTelemetry;
use crate::text::{
    blank, copy_texts, head, is_blank, lemma_blank_trims_to_nothing, opt_text, signed_decimal,
    signed_decimal_of, texts, trim, trim_end, trimmed, trimmed_end,
};
use crate::usage::{Usage, UsageView};
use vstd::prelude::*;
use vstd::string::*;

verus! {

/// The `llmlint` executable a judge runs when it names none.
pub const DEFAULT_LLMLINT_BIN: &'static str = "llmlint";

/// How many characters of llmlint's output an error of the turn carries.
pub const OUTPUT_BOUND: usize = 4096;

/// How an `llmlint` process ended.
#[derive(Debug, Clone, PartialEq, Eq)]
pub struct LintEnded {
    /// Its exit code, where it exited.
    pub code: Option<i32>,
    /// How it ended, in the platform's words.
    pub status: String,
    /// What it wrote to stdout.
    pub stdout: String,
    /// What it wrote to stderr.
    pub stderr: String,
}

/// What became of an `llmlint` process.
#[derive(Debug, Clone, PartialEq, Eq)]
pub enum LintRun {
    /// It could not be started; the platform's words on why.
    NotStarted(String),
    /// It did not run to its end; the platform's words on why.
    Incomplete(String),
    /// It ended.
    Ended(LintEnded),
}

/// What one `llmlint lint` run decided.
#[derive(Debug, Clone, PartialEq, Eq)]
pub enum Lint {
    /// Every rule holds.
    Clean {
        /// The report's summary line.
        summary: String,
    },
    /// At least one rule fails.
    Failing {
        /// llmlint's evaluation output, verbatim.
        report: String,
        /// The report's summary line.
        summary: String,
    },
}

/// What a [`Lint`] says.
pub enum LintView {
    Clean { summary: Seq<char> },
    Failing { report: Seq<char>, summary: Seq<char> },
}

impl View for Lint {
    type V = LintView;

    open spec fn view(&self) -> LintView {
        match self {
            Lint::Clean { summary } => LintView::Clean { summary: summary@ },
            Lint::Failing { report, summary } => LintView::Failing {
                report: report@,
                summary: summary@,
            },
        }
    }
}

// --- Reading a run ----------------------------------------------------------
/// The last line of a text.
pub open spec fn last_line(s: Seq<char>) -> Seq<char> {
    s.skip(last_index(s, '\n', s.len() as int) + 1)
}

/// The report's summary line: the last line of stdout that is not blank, without
/// the white space around it.
pub open spec fn summary_of(stdout: Seq<char>) -> Option<Seq<char>> {
    if blank(stdout) {
        None
    } else {
        Some(trimmed(last_line(trimmed_end(stdout))))
    }
}

/// The report's summary line: the last non-empty line of stdout.
pub fn summary_line(stdout: &str) -> (line: Option<String>)
    ensures
        opt_text(line) == summary_of(stdout@),
{
    if is_blank(stdout) {
        return None;
    }
    let text = trim_end(stdout);
    let n: usize = text.unicode_len();
    let mut start: usize = n;
    while start > 0 && text.get_char(start - 1) != '\n'
        invariant
            start <= n,
            n == text@.len(),
            last_index(text@, '\n', n as int) == last_index(text@, '\n', start as int),
        decreases start,
    {
        start = start - 1;
    }
    proof {
        assert(last_index(text@, '\n', n as int) == start - 1);
        assert(text@.subrange(start as int, n as int) =~= last_line(text@));
    }
    Some(trim(text.substring_char(start, n)).to_owned())
}

/// `exit <code>` for a process that exited, and the platform's own description for
/// one that did not.
pub open spec fn described(ended: LintEnded) -> Seq<char> {
    match ended.code {
        Some(code) => "exit "@ + signed_decimal(code as int),
        None => ended.status@,
    }
}

/// `exit <code>` for a process that exited, and the platform's own description for
/// one that did not.
pub fn describe(ended: &LintEnded) -> (words: String)
    ensures
        words@ == described(*ended),
{
    match ended.code {
        Some(code) => {
            let mut out = "exit ".to_owned();
            out.append(signed_decimal_of(code as i64).as_str());
            out
        },
        None => ended.status.clone(),
    }
}

/// What a process wrote: stderr, then stdout, without the white space around
/// either, a newline between them where both say something.
pub open spec fn output_words(stderr: Seq<char>, stdout: Seq<char>) -> Seq<char> {
    if blank(stderr) && blank(stdout) {
        "(no output)"@
    } else if blank(stderr) {
        trimmed(stdout)
    } else if blank(stdout) {
        trimmed(stderr)
    } else {
        trimmed(stderr) + "\n"@ + trimmed(stdout)
    }
}

/// What a process wrote, cut to the bound.
pub open spec fn bounded_words(stderr: Seq<char>, stdout: Seq<char>) -> Seq<char> {
    let words = output_words(stderr, stdout);
    if words.len() > OUTPUT_BOUND {
        words.take(OUTPUT_BOUND as int) + " […]"@
    } else {
        words
    }
}

/// stderr, then stdout, trimmed, joined by a newline and cut to [`OUTPUT_BOUND`]
/// characters.
pub fn bounded(stderr: &str, stdout: &str) -> (words: String)
    ensures
        words@ == bounded_words(stderr@, stdout@),
{
    let (no_stderr, no_stdout) = (is_blank(stderr), is_blank(stdout));
    let text = if no_stderr && no_stdout {
        "(no output)".to_owned()
    } else if no_stderr {
        trim(stdout).to_owned()
    } else if no_stdout {
        trim(stderr).to_owned()
    } else {
        let mut text = trim(stderr).to_owned();
        text.append("\n");
        text.append(trim(stdout));
        text
    };
    if text.as_str().unicode_len() > OUTPUT_BOUND {
        let mut cut = head(text.as_str(), OUTPUT_BOUND).to_owned();
        cut.append(" […]");
        return cut;
    }
    text
}

/// What an ended run means: exit 0 is clean and exit 1 is failing, each provided
/// there is a report, which a failing run hands on verbatim; any other code, and death
/// by a signal, is an error and never a verdict.
pub open spec fn lint_meaning(op: Seq<char>, ended: LintEnded) -> Result<LintView, ErrorView> {
    if ended.code == Some(0i32) {
        match summary_of(ended.stdout@) {
            Some(summary) => Ok(LintView::Clean { summary }),
            None => Err(
                classified(
                    op,
                    "llmlint exited 0 but wrote no report (expected its summary line on stdout)"@,
                    ProviderErrorKind::Protocol,
                ),
            ),
        }
    } else if ended.code == Some(1i32) {
        match summary_of(ended.stdout@) {
            Some(summary) => Ok(LintView::Failing { report: ended.stdout@, summary }),
            None => Err(
                classified(
                    op,
                    "llmlint exited 1 (at least one rule fails) but wrote no report: there is nothing to hand the worker"@,
                    ProviderErrorKind::Protocol,
                ),
            ),
        }
    } else {
        Err(
            classified(
                op,
                "llmlint could not complete ("@ + described(ended) + "): "@ + bounded_words(
                    ended.stderr@,
                    ended.stdout@,
                ),
                ProviderErrorKind::Other,
            ),
        )
    }
}

// --- The provider -----------------------------------------------------------
/// A judge whose verdict is one `llmlint lint` run over the worker's tree.
pub struct LlmlintProvider {
    bin: String,
    config: Option<String>,
    diff_base: Option<String>,
    args: Vec<String>,
    spawner: Spawner,
}

/// What an [`LlmlintProvider`] is set to.
pub struct LlmlintSetup {
    pub bin: Seq<char>,
    pub config: Option<Seq<char>>,
    pub diff_base: Option<Seq<char>>,
    pub args: Seq<Seq<char>>,
    pub hook: Option<SharedSpawnHook>,
}

impl View for LlmlintProvider {
    type V = LlmlintSetup;

    closed spec fn view(&self) -> LlmlintSetup {
        LlmlintSetup {
            bin: self.bin@,
            config: opt_text(self.config),
            diff_base: opt_text(self.diff_base),
            args: texts(self.args@),
            hook: self.spawner.hook,
        }
    }
}

impl LlmlintSetup {
    /// The error of a process that could not be started.
    pub open spec fn unstarted(self, op: Seq<char>, why: Seq<char>) -> ErrorView {
        classified(
            op,
            "could not run llmlint `"@ + self.bin + "` (the provider's `bin`): "@ + why
                + ". Is llmlint installed and on PATH?"@,
            ProviderErrorKind::Spawn,
        )
    }

    /// The error of a process that did not run to its end.
    pub open spec fn incomplete(self, op: Seq<char>, why: Seq<char>) -> ErrorView {
        ErrorView::Provider {
            context: op,
            message: "llmlint `"@ + self.bin + "` did not complete: "@ + why,
            kind: None,
        }
    }

    /// What becomes of a run.
    pub open spec fn run_meaning(self, op: Seq<char>, run: LintRun) -> Result<LintView, ErrorView> {
        match run {
            LintRun::NotStarted(why) => Err(self.unstarted(op, why@)),
            LintRun::Incomplete(why) => Err(self.incomplete(op, why@)),
            LintRun::Ended(ended) => lint_meaning(op, ended),
        }
    }

    /// Why the executable is refused, given what became of `<bin> --version`.
    pub open spec fn probe_refusal(self, probe: LintRun) -> Option<ErrorView> {
        match probe {
            LintRun::NotStarted(why) => Some(self.unstarted("probe"@, why@)),
            LintRun::Incomplete(why) => Some(self.incomplete("probe"@, why@)),
            LintRun::Ended(ended) => if ended.code == Some(0i32) {
                None
            } else {
                Some(
                    classified(
                        "probe"@,
                        "llmlint `"@ + self.bin
                            + "` (the provider's `bin`) could not answer `--version` ("@
                            + described(ended) + "): "@ + bounded_words(
                            ended.stderr@,
                            ended.stdout@,
                        ),
                        ProviderErrorKind::Spawn,
                    ),
                )
            },
        }
    }

    /// The arguments of a run over `worktree`.
    pub open spec fn lint_args(self, worktree: Seq<char>) -> Seq<Seq<char>> {
        let base = seq![
            "lint"@,
            "--cwd"@,
            worktree,
            "--format"@,
            "human"@,
            "--color"@,
            "never"@,
            "--progress"@,
            "never"@,
        ];
        let configured = match self.config {
            Some(config) => base + seq!["-c"@, config],
            None => base,
        };
        let compared = match self.diff_base {
            Some(base) => configured + seq!["--diff"@, "--diff-base"@, base],
            None => configured,
        };
        compared + self.args
    }
}

/// The refusal of an operation a lint run cannot answer.
pub open spec fn cannot_words(what: Seq<char>) -> ErrorView {
    ErrorView::Invalid(
        "an llmlint judge "@ + what
            + "; it takes part only in the per-turn supervisor decision and boolean judgements, as one judge of a `SplitProvider` panel"@,
    )
}

fn cannot(what: &str) -> (err: Error)
    ensures
        err@ == cannot_words(what@),
{
    let mut text = "an llmlint judge ".to_owned();
    text.append(what);
    text.append(
        "; it takes part only in the per-turn supervisor decision and boolean judgements, as one judge of a `SplitProvider` panel",
    );
    Error::invalid(text.as_str())
}

/// The decision a run comes to: failing rules continue with the report as the
/// worker's next instruction, a clean run completes.
pub open spec fn supervision_of(lint: Result<LintView, ErrorView>) -> Result<
    SupervisorTurnView,
    ErrorView,
> {
    match lint {
        Err(err) => Err(err),
        Ok(LintView::Clean { summary }) => Ok(
            SupervisorTurnView {
                outcome: SupervisorOutcomeView::Completed { reason: summary },
                usage: None,
            },
        ),
        Ok(LintView::Failing { report, summary }) => Ok(
            SupervisorTurnView {
                outcome: SupervisorOutcomeView::Continue { message: report, reason: summary },
                usage: None,
            },
        ),
    }
}

/// The verdict a run comes to: whether every rule holds.
pub open spec fn verdict_of(lint: Result<LintView, ErrorView>) -> Result<
    JudgeVerdictView,
    ErrorView,
> {
    match lint {
        Err(err) => Err(err),
        Ok(LintView::Clean { summary }) => Ok(
            JudgeVerdictView {
                value: JudgeValueView::Bool(true),
                reason: summary,
                usage: None,
            },
        ),
        Ok(LintView::Failing { report, summary }) => Ok(
            JudgeVerdictView {
                value: JudgeValueView::Bool(false),
                reason: summary,
                usage: None,
            },
        ),
    }
}

impl LlmlintProvider {
    /// Refuse an executable that is not named.
    pub fn check_bin(bin: &str) -> (r: Result<(), Error>)
        ensures
            match r {
                Ok(()) => !blank(bin@),
                Err(err) => blank(bin@) && err@ == ErrorView::Invalid("llmlint `bin` is empty"@),
            },
    {
        if is_blank(bin) {
            return Err(Error::invalid("llmlint `bin` is empty"));
        }
        Ok(())
    }

    /// Build a provider over the `llmlint` executable `bin` (a name resolved on
    /// `PATH`, or a path), given what became of probing it with `<bin> --version`.
    /// A blank name, and an executable that cannot be run or does not answer, are
    /// refused here, before any turn.
    pub fn new(bin: &str, probe: &LintRun) -> (r: Result<Self, Error>)
        ensures
            ({
                let setup = LlmlintSetup {
                    bin: bin@,
                    config: None,
                    diff_base: None,
                    args: Seq::empty(),
                    hook: None,
                };
                match r {
                    Ok(provider) => {
                        &&& !blank(bin@)
                        &&& setup.probe_refusal(*probe) is None
                        &&& provider@ == setup
                    },
                    Err(err) => if blank(bin@) {
                        err@ == ErrorView::Invalid("llmlint `bin` is empty"@)
                    } else {
                        setup.probe_refusal(*probe) == Some(err@)
                    },
                }
            }),
    {
        if is_blank(bin) {
            return Err(Error::invalid("llmlint `bin` is empty"));
        }
        let provider = LlmlintProvider {
            bin: bin.to_owned(),
            config: None,
            diff_base: None,
            args: Vec::new(),
            spawner: Spawner::bare(),
        };
        proof {
            assert(provider@.args =~= Seq::empty());
        }
        match probe {
            LintRun::NotStarted(why) => Err(provider.spawn_failed("probe", why.as_str())),
            LintRun::Incomplete(why) => Err(provider.did_not_complete("probe", why.as_str())),
            LintRun::Ended(ended) => {
                let answered = match ended.code {
                    Some(code) => code == 0,
                    None => false,
                };
                if answered {
                    return Ok(provider);
                }
                let mut message = "llmlint `".to_owned();
                message.append(bin);
                message.append("` (the provider's `bin`) could not answer `--version` (");
                message.append(describe(ended).as_str());
                message.append("): ");
                message.append(bounded(ended.stderr.as_str(), ended.stdout.as_str()).as_str());
                Err(
                    Error::provider_classified(
                        "probe",
                        message.as_str(),
                        ProviderErrorKind::Spawn,
                    ),
                )
            },
        }
    }

    /// Pass `config` to every run as `llmlint lint -c <config>`. Unset, llmlint
    /// discovers its own configuration from the worktree it lints.
    #[must_use]
    pub fn with_config(self, config: &str) -> (provider: Self)
        ensures
            provider@ == (LlmlintSetup { config: Some(config@), ..self@ }),
    {
        LlmlintProvider { config: Some(config.to_owned()), ..self }
    }

    /// Review only what the worktree changed against the git revision `base`:
    /// every run adds `--diff --diff-base <base>`.
    #[must_use]
    pub fn with_diff_base(self, base: &str) -> (provider: Self)
        ensures
            provider@ == (LlmlintSetup { diff_base: Some(base@), ..self@ }),
    {
        LlmlintProvider { diff_base: Some(base.to_owned()), ..self }
    }

    /// Append `args` to every `llmlint lint` invocation, after the composed ones.
    #[must_use]
    pub fn with_args(self, args: Vec<String>) -> (provider: Self)
        ensures
            provider@ == (LlmlintSetup { args: texts(args@), ..self@ }),
    {
        LlmlintProvider { args, ..self }
    }

    /// Offer every process this provider spawns to `hook` before it starts work.
    #[must_use]
    pub fn with_spawn_hook(self, hook: SharedSpawnHook) -> (provider: Self)
        ensures
            provider@ == (LlmlintSetup { hook: Some(hook), ..self@ }),
    {
        LlmlintProvider { spawner: Spawner { hook: Some(hook) }, ..self }
    }

    /// The executable this provider runs.
    #[must_use]
    pub fn bin(&self) -> (bin: &str)
        ensures
            bin@ == self@.bin,
    {
        self.bin.as_str()
    }

    /// The config file every run is handed, if one was set.
    #[must_use]
    pub fn config(&self) -> (config: Option<&str>)
        ensures
            crate::text::opt_str(config) == self@.config,
    {
        match &self.config {
            Some(config) => Some(config.as_str()),
            None => None,
        }
    }

    /// The comparison base every run diffs against, if one was set.
    #[must_use]
    pub fn diff_base(&self) -> (base: Option<&str>)
        ensures
            crate::text::opt_str(base) == self@.diff_base,
    {
        match &self.diff_base {
            Some(base) => Some(base.as_str()),
            None => None,
        }
    }

    /// The extra arguments appended to every run.
    #[must_use]
    pub fn args(&self) -> (args: &Vec<String>)
        ensures
            texts(args@) == self@.args,
    {
        &self.args
    }

    /// What processes are started through.
    #[must_use]
    pub fn spawner(&self) -> (spawner: &Spawner)
        ensures
            spawner.hook == self@.hook,
    {
        &self.spawner
    }

    /// The error of a process that could not be started.
    pub fn spawn_failed(&self, op: &str, why: &str) -> (err: Error)
        ensures
            err@ == self@.unstarted(op@, why@),
    {
        let mut message = "could not run llmlint `".to_owned();
        message.append(self.bin.as_str());
        message.append("` (the provider's `bin`): ");
        message.append(why);
        message.append(". Is llmlint installed and on PATH?");
        Error::provider_classified(op, message.as_str(), ProviderErrorKind::Spawn)
    }

    /// The error of a process that did not run to its end.
    pub fn did_not_complete(&self, op: &str, why: &str) -> (err: Error)
        ensures
            err@ == self@.incomplete(op@, why@),
    {
        let mut message = "llmlint `".to_owned();
        message.append(self.bin.as_str());
        message.append("` did not complete: ");
        message.append(why);
        Error::provider(op, message.as_str())
    }

    /// The arguments of a run over `worktree`: `lint --cwd <worktree> --format human
    /// --color never --progress never [-c <config>] [--diff --diff-base <ref>]
    /// [<args>…]`.
    pub fn lint_argv(&self, worktree: &str) -> (argv: Vec<String>)
        ensures
            texts(argv@) == self@.lint_args(worktree@),
    {
        let mut argv: Vec<String> = Vec::new();
        argv.push("lint".to_owned());
        argv.push("--cwd".to_owned());
        argv.push(worktree.to_owned());
        argv.push("--format".to_owned());
        argv.push("human".to_owned());
        argv.push("--color".to_owned());
        argv.push("never".to_owned());
        argv.push("--progress".to_owned());
        argv.push("never".to_owned());
        let ghost base = texts(argv@);
        proof {
            assert(base =~= seq![
                "lint"@,
                "--cwd"@,
                worktree@,
                "--format"@,
                "human"@,
                "--color"@,
                "never"@,
                "--progress"@,
                "never"@,
            ]);
        }
        if let Some(config) = &self.config {
            argv.push("-c".to_owned());
            argv.push(config.clone());
            proof {
                assert(texts(argv@) =~= base + seq!["-c"@, config@]);
            }
        }
        let ghost configured = texts(argv@);
        if let Some(base) = &self.diff_base {
            argv.push("--diff".to_owned());
            argv.push("--diff-base".to_owned());
            argv.push(base.clone());
            proof {
                assert(texts(argv@) =~= configured + seq!["--diff"@, "--diff-base"@, base@]);
            }
        }
        let ghost compared = texts(argv@);
        let mut more = copy_texts(&self.args);
        argv.append(&mut more);
        proof {
            assert(texts(argv@) =~= compared + texts(self.args@));
        }
        argv
    }

    /// What became of a run under `op` (`supervise` or `judge`).
    pub fn lint(&self, op: &str, run: &LintRun) -> (r: Result<Lint, Error>)
        ensures
            said(r) == self@.run_meaning(op@, *run),
    {
        let ended = match run {
            LintRun::NotStarted(why) => return Err(self.spawn_failed(op, why.as_str())),
            LintRun::Incomplete(why) => return Err(self.did_not_complete(op, why.as_str())),
            LintRun::Ended(ended) => ended,
        };
        match ended.code {
            Some(0) => match summary_line(ended.stdout.as_str()) {
                Some(summary) => Ok(Lint::Clean { summary }),
                None => Err(
                    Error::provider_classified(
                        op,
                        "llmlint exited 0 but wrote no report (expected its summary line on stdout)",
                        ProviderErrorKind::Protocol,
                    ),
                ),
            },
            Some(1) => match summary_line(ended.stdout.as_str()) {
                Some(summary) => Ok(Lint::Failing { report: ended.stdout.clone(), summary }),
                None => Err(
                    Error::provider_classified(
                        op,
                        "llmlint exited 1 (at least one rule fails) but wrote no report: there is nothing to hand the worker",
                        ProviderErrorKind::Protocol,
                    ),
                ),
            },
            _ => {
                let mut message = "llmlint could not complete (".to_owned();
                message.append(describe(ended).as_str());
                message.append("): ");
                message.append(bounded(ended.stderr.as_str(), ended.stdout.as_str()).as_str());
                Err(Error::provider_classified(op, message.as_str(), ProviderErrorKind::Other))
            },
        }
    }

    /// The per-turn decision a run over the query's worktree comes to. The
    /// transcript and session are not consulted — the tree is the evidence.
    pub fn supervise(&self, run: &LintRun) -> (r: Result<SupervisorTurn, Error>)
        ensures
            said(r) == supervision_of(self@.run_meaning("supervise"@, *run)),
    {
        let outcome = match self.lint("supervise", run) {
            Ok(Lint::Clean { summary }) => SupervisorOutcome::Completed { reason: summary },
            Ok(Lint::Failing { report, summary }) => SupervisorOutcome::Continue {
                message: report,
                reason: summary,
            },
            Err(err) => return Err(err),
        };
        Ok(SupervisorTurn { outcome, usage: None })
    }

    /// The worktree to lint for a judgement: a score is refused, and so is a
    /// judgement without a worktree.
    pub fn judged_worktree<'a>(&self, kind: JudgeKind, evidence: &EvidenceContext<'a>) -> (r: Result<
        &'a str,
        Error,
    >)
        ensures
            match r {
                Ok(worktree) => {
                    &&& kind is Boolean
                    &&& evidence.worktree is Some
                    &&& worktree@ == evidence.worktree->0@
                },
                Err(err) => if kind is Numeric {
                    err@ == cannot_words("scores no number"@)
                } else {
                    &&& evidence.worktree is None
                    &&& err@ == ErrorView::Invalid(
                        "an llmlint judgement needs the worktree to lint (`EvidenceContext::worktree`), and none was supplied"@,
                    )
                },
            },
    {
        if kind == JudgeKind::Numeric {
            return Err(cannot("scores no number"));
        }
        match evidence.worktree {
            Some(worktree) => Ok(worktree),
            None => Err(
                Error::invalid(
                    "an llmlint judgement needs the worktree to lint (`EvidenceContext::worktree`), and none was supplied",
                ),
            ),
        }
    }

    /// The boolean verdict a run comes to: `true` when every rule holds, `false`
    /// when at least one fails, the summary line as the reason either way.
    pub fn judge(&self, run: &LintRun) -> (r: Result<JudgeVerdict, Error>)
        ensures
            said(r) == verdict_of(self@.run_meaning("judge"@, *run)),
    {
        let (value, reason) = match self.lint("judge", run) {
            Ok(Lint::Clean { summary }) => (true, summary),
            Ok(Lint::Failing { report: _, summary }) => (false, summary),
            Err(err) => return Err(err),
        };
        Ok(JudgeVerdict { value: JudgeValue::Bool(value), reason, usage: None })
    }

    /// A lint run is no agent turn.
    pub fn respond(&self) -> (r: Result<AssistantTurn, Error>)
        ensures
            r is Err,
            r->Err_0@ == cannot_words("runs no agent turn"@),
    {
        Err(cannot("runs no agent turn"))
    }

    /// A lint run plays no user.
    pub fn simulate_user(&self) -> (r: Result<UserTurn, Error>)
        ensures
            r is Err,
            r->Err_0@ == cannot_words("cannot play the simulated user"@),
    {
        Err(cannot("cannot play the simulated user"))
    }

    /// A lint run writes no prose.
    pub fn assess(&self) -> (r: Result<Assessment, Error>)
        ensures
            r is Err,
            r->Err_0@ == cannot_words("writes no assessment"@),
    {
        Err(cannot("writes no assessment"))
    }

    /// The record of a run that took `millis`: its wall time is tool time, and no
    /// candidate is named.
    pub fn record(&self, millis: u64) -> (record: InvocationTelemetry)
        ensures
            record.role == Some(TelemetryRole::Judge),
            record.tool_ms == Some(millis),
            record.model_ms is None,
            record.time_to_first_token_ms is None,
            record.usage@ == UsageView::none(),
            record.session_id is None,
            record.started_at is None,
            record.finished_at is None,
            record.history_id is None,
            record.ran is None,
            record.fell_through@.len() == 0,
            record.candidates@.len() == 0,
            record.history_file is None,
            record.judge is None,
    {
        InvocationTelemetry {
            role: Some(TelemetryRole::Judge),
            model_ms: None,
            tool_ms: Some(millis),
            time_to_first_token_ms: None,
            usage: Usage::none(),
            session_id: None,
            started_at: None,
            finished_at: None,
            history_id: None,
            ran: None,
            fell_through: Vec::new(),
            candidates: Vec::new(),
            history_file: None,
            judge: None,
        }
    }
}

// --- What holds of every run ------------------------------------------------
/// A run that could not complete is never a decision: only exit 0 completes the
/// work, only exit 1 continues it, and everything else — another code, a signal, a
/// process that never ran — is an error.
pub proof fn lemma_only_a_verdict_decides(setup: LlmlintSetup, op: Seq<char>, run: LintRun)
    ensures
        setup.run_meaning(op, run) is Ok ==> {
            &&& run is Ended
            &&& setup.run_meaning(op, run)->Ok_0 is Clean <==> run->Ended_0.code == Some(0i32)
            &&& setup.run_meaning(op, run)->Ok_0 is Failing <==> run->Ended_0.code == Some(1i32)
        },
        supervision_of(setup.run_meaning(op, run)) is Ok ==> {
            let outcome = supervision_of(setup.run_meaning(op, run))->Ok_0.outcome;
            outcome is Completed || outcome is Continue
        },
{
}

/// An error message never carries more of the output than the bound and the mark
/// that shows it was cut.
pub proof fn lemma_output_is_bounded(stderr: Seq<char>, stdout: Seq<char>)
    ensures
        bounded_words(stderr, stdout).len() <= OUTPUT_BOUND + " […]"@.len(),
        bounded_words(stderr, stdout).len() > 0,
{
    reveal_strlit("(no output)");
    reveal_strlit(" […]");
    assert("(no output)"@.len() == 11);
    lemma_blank_trims_to_nothing(stderr);
    lemma_blank_trims_to_nothing(stdout);
}

/// A summary line always says something.
pub proof fn lemma_summary_says_something(stdout: Seq<char>)
    ensures
        summary_of(stdout) is Some ==> !blank(summary_of(stdout)->0),
{
    if !blank(stdout) {
        let text = trimmed_end(stdout);
        lemma_end_of_trimmed(stdout);
        let line = last_line(text);
        let start = last_index(text, '\n', text.len() as int) + 1;
        lemma_last_index(text, '\n', text.len() as int);
        assert(line.last() == text.last());
        assert(!blank(line));
        lemma_trimmed_keeps_words(line);
    }
}

proof fn lemma_last_index(s: Seq<char>, c: char, to: int)
    requires
        0 <= to <= s.len(),
    ensures
        -1 <= last_index(s, c, to) < to || to == 0,
        last_index(s, c, to) >= 0 ==> s[last_index(s, c, to)] == c,
        to == 0 ==> last_index(s, c, to) == -1,
        to > 0 && s[to - 1] != c ==> last_index(s, c, to) < to - 1,
    decreases to,
{
    if to > 0 && s[to - 1] != c {
        lemma_last_index(s, c, to - 1);
    }
}

proof fn lemma_end_of_trimmed(s: Seq<char>)
    requires
        !blank(s),
    ensures
        trimmed_end(s).len() > 0,
        !crate::text::white(trimmed_end(s).last()),
    decreases s.len(),
{
    if s.len() > 0 && crate::text::white(s.last()) {
        let rest = s.drop_last();
        assert(!blank(rest)) by {
            if blank(rest) {
                assert forall|i: int| 0 <= i < s.len() implies crate::text::white(
                    #[trigger] s[i],
                ) by {
                    if i < rest.len() {
                        assert(rest[i] == s[i]);
                    }
                }
            }
        }
        lemma_end_of_trimmed(rest);
    }
}

proof fn lemma_trimmed_keeps_words(s: Seq<char>)
    requires
        !blank(s),
    ensures
        !blank(trimmed(s)),
{
    lemma_blank_trims_to_nothing(s);
    let rest = crate::text::trimmed_start(s);
    if blank(rest) {
        lemma_start_of_trimmed(s);
    }
    lemma_end_of_trimmed(rest);
    let all = trimmed(s);
    assert(!crate::text::white(all[all.len() - 1]));
}

proof fn lemma_start_of_trimmed(s: Seq<char>)
    requires
        !blank(s),
    ensures
        !blank(crate::text::trimmed_start(s)),
    decreases s.len(),
{
    if s.len() > 0 && crate::text::white(s[0]) {
        let rest = s.drop_first();
        assert(!blank(rest)) by {
            if blank(rest) {
                assert forall|i: int| 0 <= i < s.len() implies crate::text::white(
                    #[trigger] s[i],
                ) by {
                    if i > 0 {
                        assert(rest[i - 1] == s[i]);
                    }
                }
            }
        }
        lemma_start_of_trimmed(rest);
    }
}

/// Whether `line` is the last line of `text` that says something, without the white space
/// around it: only white space comes after it, and between it and the line break before it.
pub open spec fn is_last_word(text: Seq<char>, line: Seq<char>) -> bool {
    exists|front: Seq<char>, back: Seq<char>, from: int|
        {
            &&& text == #[trigger] (front + line + back)
            &&& blank(back)
            &&& 0 <= from <= front.len()
            &&& from > 0 ==> front[from - 1] == '\n'
            &&& blank(#[trigger] front.skip(from))
            &&& line.len() > 0
            &&& !line.contains('\n')
            &&& !crate::text::white(line[0])
            &&& !crate::text::white(line.last())
        }
}

/// **The summary is the last line that says something**, and there is one exactly where
/// anything was said.
pub proof fn lemma_the_summary_is_the_last_word(stdout: &str, line: Option<String>)
    requires
        call_ensures(summary_line, (stdout,), line),
    ensures
        line is None <==> blank(stdout@),
        line is Some ==> is_last_word(stdout@, line->0@),
{
    if !blank(stdout@) {
        lemma_last_word(stdout@);
    }
}

proof fn lemma_last_word(stdout: Seq<char>)
    requires
        !blank(stdout),
    ensures
        is_last_word(stdout, summary_of(stdout)->0),
{
    let text = trimmed_end(stdout);
    lemma_end_of_trimmed(stdout);
    lemma_tail_is_white(stdout);
    let n = text.len() as int;
    let at = last_index(text, '\n', n);
    lemma_last_index(text, '\n', n);
    lemma_last_index_is_last(text, '\n', n);
    let last = last_line(text);
    assert(last =~= text.skip(at + 1));
    assert(last.last() == text.last());
    assert(!blank(last)) by {
        assert(!crate::text::white(last[last.len() - 1]));
    }
    crate::text::lemma_trimming_takes_white_space_only(last);
    lemma_blank_trims_to_nothing(last);
    let (a, b) = choose|a: Seq<char>, b: Seq<char>|
        last == #[trigger] (a + trimmed(last) + b) && blank(a) && blank(b);
    let word = trimmed(last);
    if b.len() > 0 {
        assert(b[b.len() - 1] == last[last.len() - 1]);
        assert(crate::text::white(b[b.len() - 1]));
    }
    let front = text.take(at + 1) + a;
    let back = stdout.skip(n);
    assert(b =~= Seq::empty());
    assert(last =~= a + word);
    assert(text =~= text.take(at + 1) + (a + word));
    assert(stdout =~= text + back);
    assert(front + word =~= text.take(at + 1) + (a + word));
    assert(front.skip(at + 1) =~= a);
    assert(!word.contains('\n')) by {
        if word.contains('\n') {
            let i = choose|i: int| 0 <= i < word.len() && word[i] == '\n';
            assert(last[a.len() + i] == '\n');
            assert(text[at + 1 + a.len() + i] == '\n');
        }
    }
    assert forall|i: int| 0 <= i < back.len() implies crate::text::white(
        #[trigger] back[i],
    ) by {
        assert(back[i] == stdout[n + i]);
    }
    assert(at + 1 > 0 ==> front[at] == text[at]);
    assert(is_last_word(stdout, word)) by {
        assert(front + word + back == stdout);
        assert(blank(front.skip(at + 1)));
    }
}

proof fn lemma_tail_is_white(s: Seq<char>)
    ensures
        trimmed_end(s).len() <= s.len(),
        trimmed_end(s) == s.take(trimmed_end(s).len() as int),
        forall|i: int|
            trimmed_end(s).len() <= i < s.len() ==> crate::text::white(#[trigger] s[i]),
    decreases s.len(),
{
    if s.len() > 0 && crate::text::white(s.last()) {
        let rest = s.drop_last();
        lemma_tail_is_white(rest);
        let kept = trimmed_end(s);
        assert(kept =~= s.take(kept.len() as int));
        assert forall|i: int| kept.len() <= i < s.len() implies crate::text::white(
            #[trigger] s[i],
        ) by {
            if i < rest.len() {
                assert(rest[i] == s[i]);
            }
        }
    } else {
        assert(s =~= s.take(s.len() as int));
    }
}

proof fn lemma_last_index_is_last(s: Seq<char>, c: char, to: int)
    requires
        0 <= to <= s.len(),
    ensures
        -1 <= last_index(s, c, to),
        forall|i: int| last_index(s, c, to) < i < to ==> s[i] != c,
    decreases to,
{
    if to > 0 && s[to - 1] != c {
        lemma_last_index_is_last(s, c, to - 1);
    }
}

impl LlmlintProvider {
    /// **A lint run decides by its exit code, in its own words**: exit zero with a report
    /// completes the work and holds, exit one with a report continues it with exactly that
    /// report and does not hold — each for the reason its summary line gives; without a
    /// report, and on any other ending, it decides nothing.
    pub proof fn lemma_a_lint_run_decides_by_its_exit_code(
        self,
        run: LintRun,
        decision: Result<SupervisorTurn, Error>,
        verdict: Result<JudgeVerdict, Error>,
    )
        requires
            call_ensures(LlmlintProvider::supervise, (&self, &run), decision),
            call_ensures(LlmlintProvider::judge, (&self, &run), verdict),
        ensures
            decision is Ok <==> run is Ended && !blank(run->Ended_0.stdout@) && (
            run->Ended_0.code == Some(0i32) || run->Ended_0.code == Some(1i32)),
            verdict is Ok <==> decision is Ok,
            decision is Ok && run->Ended_0.code == Some(0i32) ==> {
                &&& decision->Ok_0.outcome is Completed
                &&& is_last_word(
                    run->Ended_0.stdout@,
                    decision->Ok_0.outcome->Completed_reason@,
                )
                &&& verdict->Ok_0.value == JudgeValue::Bool(true)
                &&& verdict->Ok_0.reason@ == decision->Ok_0.outcome->Completed_reason@
            },
            decision is Ok && run->Ended_0.code == Some(1i32) ==> {
                &&& decision->Ok_0.outcome is Continue
                &&& decision->Ok_0.outcome->Continue_message@ == run->Ended_0.stdout@
                &&& is_last_word(run->Ended_0.stdout@, decision->Ok_0.outcome->Continue_reason@)
                &&& verdict->Ok_0.value == JudgeValue::Bool(false)
                &&& verdict->Ok_0.reason@ == decision->Ok_0.outcome->Continue_reason@
            },
            decision is Ok ==> decision->Ok_0.usage is None && verdict->Ok_0.usage is None,
            run is NotStarted ==> decision->Err_0@.kind() == Some(ProviderErrorKind::Spawn),
            run is Ended && (run->Ended_0.code == Some(0i32) || run->Ended_0.code == Some(1i32))
                && decision is Err ==> decision->Err_0@.kind() == Some(
                ProviderErrorKind::Protocol,
            ),
            run is Ended && run->Ended_0.code != Some(0i32) && run->Ended_0.code != Some(1i32)
                ==> decision->Err_0@.kind() == Some(ProviderErrorKind::Other),
    {
        if run is Ended && !blank(run->Ended_0.stdout@) {
            lemma_last_word(run->Ended_0.stdout@);
            match verdict {
                Ok(v) => {
                    assert(v.value@ == verdict->Ok_0@.value);
                    if run->Ended_0.code == Some(0i32) {
                        assert(v.value is Bool && v.value->Bool_0);
                    } else {
                        assert(v.value is Bool && !v.value->Bool_0);
                    }
                },
                Err(_) => {},
            }
        }
    }

    /// **A lint run is over the worktree, as it was configured**: the tree it is asked about
    /// stands directly behind `--cwd`, the config behind `-c`, the base behind
    /// `--diff-base`, and the extra arguments at the end, in their order.
    pub proof fn lemma_a_lint_run_is_over_the_worktree(self, worktree: &str, argv: Vec<String>)
        requires
            call_ensures(LlmlintProvider::lint_argv, (&self, worktree), argv),
        ensures
            texts(argv@).len() > 2,
            texts(argv@)[0] == "lint"@,
            texts(argv@)[1] == "--cwd"@,
            texts(argv@)[2] == worktree@,
            texts(argv@).skip(texts(argv@).len() - self@.args.len()) == self@.args,
            self@.config is Some ==> {
                &&& texts(argv@)[9] == "-c"@
                &&& texts(argv@)[10] == self@.config->0
            },
            self@.diff_base is Some ==> {
                let at = texts(argv@).len() - self@.args.len();
                &&& texts(argv@)[at - 3] == "--diff"@
                &&& texts(argv@)[at - 2] == "--diff-base"@
                &&& texts(argv@)[at - 1] == self@.diff_base->0
            },
            texts(argv@).len() == 9 + self@.args.len() + (if self@.config is Some {
                2int
            } else {
                0int
            }) + (if self@.diff_base is Some {
                3int
            } else {
                0int
            }),
    {
        let all = texts(argv@);
        assert(all.skip(all.len() - self@.args.len()) =~= self@.args);
    }

    /// **An executable is taken where it is named and answers**, and refused where it is not
    /// named, cannot be run, or does not answer.
    pub proof fn lemma_an_executable_has_to_answer(
        bin: &str,
        probe: LintRun,
        r: Result<LlmlintProvider, Error>,
    )
        requires
            call_ensures(LlmlintProvider::new, (bin, &probe), r),
        ensures
            r is Ok <==> !blank(bin@) && probe is Ended && probe->Ended_0.code == Some(0i32),
            r is Ok ==> r->Ok_0@.bin == bin@ && r->Ok_0@.config is None && r->Ok_0@.diff_base is None
                && r->Ok_0@.args.len() == 0 && r->Ok_0@.hook is None,
    {
    }
}

/// **A lint judges yes or no of a worktree, and does nothing else**: a score and a judgement
/// without a worktree are refused; it runs no turn, plays no user and writes nothing.
pub proof fn lemma_a_lint_judges_and_does_nothing_else(
    provider: LlmlintProvider,
    kind: JudgeKind,
    evidence: EvidenceContext<'_>,
    r: Result<&str, Error>,
    turn: Result<AssistantTurn, Error>,
    user: Result<UserTurn, Error>,
    text: Result<Assessment, Error>,
)
    requires
        call_ensures(LlmlintProvider::judged_worktree, (&provider, kind, &evidence), r),
        call_ensures(LlmlintProvider::respond, (&provider,), turn),
        call_ensures(LlmlintProvider::simulate_user, (&provider,), user),
        call_ensures(LlmlintProvider::assess, (&provider,), text),
    ensures
        r is Ok <==> kind is Boolean && evidence.worktree is Some,
        r is Ok ==> r->Ok_0@ == evidence.worktree->0@,
        turn is Err && user is Err && text is Err,
{
}

/// **A lint's output is told as it is, up to the bound**: what went to stderr first, what
/// went to stdout behind it, cut from the end where there is too much.
pub proof fn lemma_output_is_told_up_to_the_bound(stderr: &str, stdout: &str, words: String)
    requires
        call_ensures(bounded, (stderr, stdout), words),
    ensures
        ({
            let (a, b) = (trimmed(stderr@), trimmed(stdout@));
            let whole = if a.len() > 0 && b.len() > 0 {
                a + "\n"@ + b
            } else {
                a + b
            };
            &&& 0 < whole.len() <= OUTPUT_BOUND ==> words@ == whole
            &&& whole.len() > OUTPUT_BOUND ==> words@.take(OUTPUT_BOUND as int) == whole.take(
                OUTPUT_BOUND as int,
            )
            &&& whole.len() == 0 ==> words@.len() > 0
        }),
{
    crate::text::lemma_blank_trims_to_nothing(stderr@);
    crate::text::lemma_blank_trims_to_nothing(stdout@);
    reveal_strlit("(no output)");
    let (a, b) = (trimmed(stderr@), trimmed(stdout@));
    assert(a.len() == 0 ==> a + b =~= b);
    assert(b.len() == 0 ==> a + b =~= a);
    let whole = output_words(stderr@, stdout@);
    if whole.len() > OUTPUT_BOUND {
        assert(words@.take(OUTPUT_BOUND as int) =~= whole.take(OUTPUT_BOUND as int));
    }
}

/// **A lint is set to what it was given**, one setting at a time, and its time is a tool's.
pub proof fn lemma_a_lint_is_set_to_what_it_was_given(
    provider: LlmlintProvider,
    config: &str,
    base: &str,
    args: Vec<String>,
    configured: LlmlintProvider,
    based: LlmlintProvider,
    extended: LlmlintProvider,
    millis: u64,
    record: InvocationTelemetry,
)
    requires
        call_ensures(LlmlintProvider::with_config, (provider, config), configured),
        call_ensures(LlmlintProvider::with_diff_base, (provider, base), based),
        call_ensures(LlmlintProvider::with_args, (provider, args), extended),
        call_ensures(LlmlintProvider::record, (&provider, millis), record),
    ensures
        configured@.config == Some(config@),
        configured@.bin == provider@.bin && configured@.diff_base == provider@.diff_base
            && configured@.args == provider@.args,
        based@.diff_base == Some(base@),
        based@.bin == provider@.bin && based@.config == provider@.config && based@.args
            == provider@.args,
        extended@.args.len() == args@.len(),
        forall|i: int| 0 <= i < args@.len() ==> #[trigger] extended@.args[i] == args@[i]@,
        extended@.bin == provider@.bin && extended@.config == provider@.config,
        record.tool_ms == Some(millis),
        record.model_ms is None,
        record.role == Some(TelemetryRole::Judge),
{
}

} // verus!
