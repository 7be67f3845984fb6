//! [`OneharnessProvider`]: what it is set to, how it asks for a turn, and what the
//! answers mean. Running `oneharness` — in process or by spawning it — is the
//! embedder's.

use super::attribution::{invocation_telemetry, leaves};
use super::history::{entries, HistoryEntry};
use super::report::{
    control_socket, event_views, invoked_text, invoked_value, parse_report, parse_report_value,
    socket_address, ControlSocket, Invocation, InvocationView,
};
use super::turn::{
    carries, judge_side_spec, judge_side_view, lemma_everything_given_is_asked_for,
    lemma_what_is_put_in_is_carried, respond_spec, respond_view, TurnSpec, TurnView,
};
use crate::command::Ended;
use crate::control::{ControlAddress, ControlOutcome, ControlView};
use crate::error::{classified, Error, ErrorView, ProviderErrorKind};
use crate::json::{json_outcome, value_model};
use crate::prompts::{
    latest_or_inline, parse_supervisor, parse_verdict, supervision_said, turn_prompt, verdict_said,
};
use crate::provider::{
    said, Assessment, AssessmentView, AssistantTurn, JudgeKind, JudgeVerdict, JudgeVerdictView,
    SupervisorTurn, SupervisorTurnView, UserTurn,
};
use crate::spawn::{role_of, SharedSpawnHook, Spawner, TelemetryRole};
use crate::telemetry::InvocationTelemetry;
use crate::text::{
    blank, contains, copy_texts, has, is_blank, opt_str, opt_text, same, texts, trim, trimmed,
};
use crate::transcript::{lemma_transcripts_show_everything, lines, Message, MessageView};
use crate::usage::opt_usage;
use vstd::prelude::*;
use vstd::string::*;

verus! {

/// The default judge/simulated-user config filename.
pub const DEFAULT_JUDGE_CONFIG: &'static str = "oneharness.judge.toml";

/// The stable substring in the error of a harness that cannot bind a session name.
pub const SESSION_UNSUPPORTED_MARKER: &'static str = "does not support --session";

// --- Refusals ---------------------------------------------------------------
/// Whether an error is the refusal of a session.
pub open spec fn refuses_session(err: ErrorView) -> bool {
    has(err.shown(), SESSION_UNSUPPORTED_MARKER@)
}

/// Whether an error is the refusal of the *control ask* — as opposed to a failed
/// turn: every such refusal quotes the flag or names the socket.
pub open spec fn refuses_control(err: ErrorView) -> bool {
    has(err.shown(), "--control"@) || has(err.shown(), "control socket"@) || has(
        err.shown(),
        "controlled turn"@,
    )
}

/// Whether `err` is the refusal of `--session` by a harness that exposes no session
/// id headlessly — the one failure recovered from by retrying without it.
pub fn is_session_unsupported(err: &Error) -> (r: bool)
    ensures
        r == refuses_session(err@),
{
    contains(err.render().as_str(), SESSION_UNSUPPORTED_MARKER)
}

/// Whether `err` is the refusal of the control ask. Only consulted on a call that
/// actually asked.
pub fn is_control_refused(err: &Error) -> (r: bool)
    ensures
        r == refuses_control(err@),
{
    let text = err.render();
    contains(text.as_str(), "--control") || contains(text.as_str(), "control socket") || contains(
        text.as_str(),
        "controlled turn",
    )
}

/// Why a platform cannot carry a control channel.
pub open spec fn no_socket_reason() -> Seq<char> {
    "oneharness's turn-control socket is a unix domain socket, which this platform does not provide"@
}

/// Why this platform cannot carry a control channel, or `None` when it can.
pub fn control_platform_reason(unix: bool) -> (reason: Option<&'static str>)
    ensures
        opt_str(reason) == if unix {
            None
        } else {
            Some(no_socket_reason())
        },
{
    if unix {
        None
    } else {
        Some(
            "oneharness's turn-control socket is a unix domain socket, which this platform does not provide",
        )
    }
}

/// The words of a refusal: the message of a provider error, else the whole error.
pub open spec fn refusal_words(err: ErrorView) -> Seq<char> {
    match err {
        ErrorView::Provider { context, message, kind } => message,
        other => other.shown(),
    }
}

fn refusal(err: &Error) -> (words: String)
    ensures
        words@ == refusal_words(err@),
{
    match err {
        Error::Provider { context: _, message, kind: _ } => message.clone(),
        other => other.render(),
    }
}

// --- The provider -----------------------------------------------------------
/// How a turn is executed.
#[derive(Debug, Clone, PartialEq, Eq)]
pub enum Execution {
    /// In process, through the linked engine.
    Library,
    /// Spawn this `oneharness` executable and read its stdout.
    Process(String),
}

/// What an [`Execution`] says: the executable, where one is spawned.
pub open spec fn spawned_bin(execution: Execution) -> Option<Seq<char>> {
    match execution {
        Execution::Library => None,
        Execution::Process(bin) => Some(bin@),
    }
}

/// The default provider: runs each turn through `oneharness`.
pub struct OneharnessProvider {
    execution: Execution,
    judge_config: Option<String>,
    mock_harness: Vec<String>,
    stream: bool,
    control: bool,
    control_outcome: ControlOutcome,
    control_socket: Option<ControlSocket>,
    telemetry: Vec<InvocationTelemetry>,
    spawner: Spawner,
}

/// What an [`OneharnessProvider`] is set to.
pub struct OneharnessSetup {
    pub bin: Option<Seq<char>>,
    pub judge_config: Option<Seq<char>>,
    pub mock_harness: Seq<Seq<char>>,
    pub stream: bool,
    pub control: bool,
    pub hook: Option<SharedSpawnHook>,
}

impl OneharnessSetup {
    /// The spawning seam, from `PATH` unless an executable was named.
    pub open spec fn spawning(self) -> OneharnessSetup {
        OneharnessSetup {
            bin: if self.bin is Some {
                self.bin
            } else {
                Some("oneharness"@)
            },
            ..self
        }
    }
}

impl View for OneharnessProvider {
    type V = OneharnessSetup;

    closed spec fn view(&self) -> OneharnessSetup {
        OneharnessSetup {
            bin: spawned_bin(self.execution),
            judge_config: opt_text(self.judge_config),
            mock_harness: texts(self.mock_harness@),
            stream: self.stream,
            control: self.control,
            hook: self.spawner.hook,
        }
    }
}

/// The address of a socket, where one is named.
pub open spec fn socket_view(socket: Option<ControlSocket>) -> Option<(Seq<char>, Seq<char>)> {
    match socket {
        Some(socket) => Some((socket.session@, socket.session_dir@)),
        None => None,
    }
}

impl Default for OneharnessProvider {
    fn default() -> (provider: Self)
        ensures
            provider@ == (OneharnessSetup {
                bin: None,
                judge_config: Some(DEFAULT_JUDGE_CONFIG@),
                mock_harness: Seq::empty(),
                stream: false,
                control: false,
                hook: None,
            }),
    {
        OneharnessProvider::new()
    }
}

impl OneharnessProvider {
    /// What can be said about turn control.
    pub closed spec fn outcome(self) -> ControlView {
        self.control_outcome@
    }

    /// The socket the agent side's last report named, not yet an address.
    pub closed spec fn pending_socket(self) -> Option<(Seq<char>, Seq<char>)> {
        socket_view(self.control_socket)
    }

    /// What was recorded of each call.
    pub closed spec fn records(self) -> Seq<InvocationTelemetry> {
        self.telemetry@
    }

    /// A provider that runs each turn through the **engine in process**, running
    /// the judge and simulated user under `oneharness.judge.toml`.
    /// [`with_bin`](Self::with_bin), [`with_mock_harness`](Self::with_mock_harness)
    /// and [`with_spawn_hook`](Self::with_spawn_hook) opt into spawning one.
    #[must_use]
    pub fn new() -> (provider: Self)
        ensures
            provider@ == (OneharnessSetup {
                bin: None,
                judge_config: Some(DEFAULT_JUDGE_CONFIG@),
                mock_harness: Seq::empty(),
                stream: false,
                control: false,
                hook: None,
            }),
            provider.outcome() is NotRequested,
            provider.pending_socket() is None,
            provider.records().len() == 0,
    {
        let provider = OneharnessProvider {
            execution: Execution::Library,
            judge_config: Some(DEFAULT_JUDGE_CONFIG.to_owned()),
            mock_harness: Vec::new(),
            stream: false,
            control: false,
            control_outcome: ControlOutcome::NotRequested,
            control_socket: None,
            telemetry: Vec::new(),
            spawner: Spawner::bare(),
        };
        proof {
            assert(provider@.mock_harness =~= Seq::empty());
        }
        provider
    }

    fn spawn_by_default(execution: Execution) -> (r: Execution)
        ensures
            spawned_bin(r) == if spawned_bin(execution) is Some {
                spawned_bin(execution)
            } else {
                Some("oneharness"@)
            },
    {
        match execution {
            Execution::Library => Execution::Process("oneharness".to_owned()),
            Execution::Process(bin) => Execution::Process(bin),
        }
    }

    /// Offer every process this provider spawns to `hook` before it starts work.
    ///
    /// **This selects the spawning seam** (`oneharness` from `PATH` unless
    /// [`with_bin`](Self::with_bin) named one): a hook offers a *process*, and an
    /// in-process turn has none to offer.
    #[must_use]
    pub fn with_spawn_hook(self, hook: SharedSpawnHook) -> (provider: Self)
        ensures
            provider@ == (OneharnessSetup { hook: Some(hook), ..self@.spawning() }),
            provider.outcome() == self.outcome(),
            provider.pending_socket() == self.pending_socket(),
            provider.records() == self.records(),
    {
        OneharnessProvider {
            execution: Self::spawn_by_default(self.execution),
            spawner: Spawner { hook: Some(hook) },
            ..self
        }
    }

    /// Run each turn by **spawning** this `oneharness` executable instead of the
    /// linked engine.
    #[must_use]
    pub fn with_bin(self, bin: &str) -> (provider: Self)
        ensures
            provider@ == (OneharnessSetup { bin: Some(bin@), ..self@ }),
            provider.outcome() == self.outcome(),
            provider.pending_socket() == self.pending_socket(),
            provider.records() == self.records(),
    {
        OneharnessProvider { execution: Execution::Process(bin.to_owned()), ..self }
    }

    /// Run this harness id against the **deterministic responder** instead of a
    /// paid model. Repeatable. **This selects the spawning seam**, and it applies
    /// to both sides of the conversation, since either one otherwise bills a model.
    #[must_use]
    pub fn with_mock_harness(self, id: &str) -> (provider: Self)
        ensures
            provider@ == (OneharnessSetup {
                mock_harness: self@.mock_harness.push(id@),
                ..self@.spawning()
            }),
            provider.outcome() == self.outcome(),
            provider.pending_socket() == self.pending_socket(),
            provider.records() == self.records(),
    {
        let ghost before = self@;
        let mut mock_harness = self.mock_harness;
        mock_harness.push(id.to_owned());
        let provider = OneharnessProvider {
            execution: Self::spawn_by_default(self.execution),
            mock_harness,
            ..self
        };
        proof {
            assert(provider@.mock_harness =~= before.mock_harness.push(id@));
        }
        provider
    }

    /// Override the config file the judge and simulated user run under (default
    /// `oneharness.judge.toml`).
    #[must_use]
    pub fn with_judge_config(self, config: &str) -> (provider: Self)
        ensures
            provider@ == (OneharnessSetup { judge_config: Some(config@), ..self@ }),
            provider.outcome() == self.outcome(),
            provider.pending_socket() == self.pending_socket(),
            provider.records() == self.records(),
    {
        OneharnessProvider { judge_config: Some(config.to_owned()), ..self }
    }

    /// Declare that the agent side **streams**: the turn publishes its tool events
    /// as they are observed, and the finished report is read exactly as a buffered
    /// one is. Off by default.
    #[must_use]
    pub fn with_streaming(self, stream: bool) -> (provider: Self)
        ensures
            provider@ == (OneharnessSetup { stream, ..self@ }),
            provider.outcome() == self.outcome(),
            provider.pending_socket() == self.pending_socket(),
            provider.records() == self.records(),
    {
        OneharnessProvider { stream, ..self }
    }

    /// Ask for a **controllable** agent turn. Off by default, and off changes
    /// nothing at all. On, the ask is best-effort: a refusal is reported as
    /// [`ControlOutcome::Unavailable`] rather than failing the run.
    #[must_use]
    pub fn with_control(self, control: bool) -> (provider: Self)
        ensures
            provider@ == (OneharnessSetup { control, ..self@ }),
            provider.outcome() == self.outcome(),
            provider.pending_socket() == self.pending_socket(),
            provider.records() == self.records(),
    {
        OneharnessProvider { control, ..self }
    }

    /// How a turn is executed.
    #[must_use]
    pub fn execution(&self) -> (execution: &Execution)
        ensures
            spawned_bin(*execution) == self@.bin,
    {
        &self.execution
    }

    /// The config file the judge and simulated user run under.
    #[must_use]
    pub fn judge_config(&self) -> (config: Option<&str>)
        ensures
            opt_str(config) == self@.judge_config,
    {
        match &self.judge_config {
            Some(config) => Some(config.as_str()),
            None => None,
        }
    }

    /// Whether the agent side streams.
    #[must_use]
    pub fn streams(&self) -> (stream: bool)
        ensures
            stream == self@.stream,
    {
        self.stream
    }

    /// What processes are started through.
    #[must_use]
    pub fn spawner(&self) -> (spawner: &Spawner)
        ensures
            spawner.hook == self@.hook,
    {
        &self.spawner
    }

    /// What can be said about turn control for the last run.
    #[must_use]
    pub fn control(&self) -> (outcome: &ControlOutcome)
        ensures
            outcome@ == self.outcome(),
    {
        &self.control_outcome
    }

    /// What was recorded of each call.
    #[must_use]
    pub fn invocations(&self) -> (records: &Vec<InvocationTelemetry>)
        ensures
            records@ == self.records(),
    {
        &self.telemetry
    }

    /// Forget what was recorded, and the control outcome: it describes one run's
    /// turn, not the provider.
    pub fn reset_telemetry(&mut self)
        ensures
            final(self)@ == old(self)@,
            final(self).outcome() is NotRequested,
            final(self).pending_socket() is None,
            final(self).records().len() == 0,
    {
        self.telemetry = Vec::new();
        self.control_outcome = ControlOutcome::NotRequested;
        self.control_socket = None;
    }

    /// Fold this provider's mock-harness selection into a freshly described turn.
    /// One place, so neither side can be left billing a model while the other is
    /// mocked.
    pub fn mocked(&self, spec: TurnSpec) -> (r: TurnSpec)
        ensures
            r@ == (TurnView { mock_harness: self@.mock_harness, ..spec@ }),
    {
        TurnSpec { mock_harness: copy_texts(&self.mock_harness), ..spec }
    }

    /// Record why an asked-for control channel is missing.
    pub fn control_unavailable(&mut self, reason: &str)
        ensures
            final(self).outcome() == ControlView::Unavailable(reason@),
            final(self)@ == old(self)@,
            final(self).pending_socket() == old(self).pending_socket(),
            final(self).records() == old(self).records(),
    {
        self.control_outcome = ControlOutcome::Unavailable(reason.to_owned());
    }

    /// Fold the working directory the turn ran under into the socket the report
    /// named, producing the address an interrupt takes. A controlled attempt whose
    /// report named no socket must not be reported as a lever: it becomes an
    /// `Unavailable`.
    pub fn control_address(&mut self, worktree: &str)
        ensures
            final(self)@ == old(self)@,
            final(self).pending_socket() is None,
            final(self).records() == old(self).records(),
            final(self).outcome() == match old(self).pending_socket() {
                Some((session, session_dir)) => ControlView::Open {
                    session,
                    session_dir,
                    cwd: worktree@,
                },
                None => ControlView::Unavailable(
                    "the run accepted `--control` but its report named no control socket"@,
                ),
            },
    {
        match self.control_socket.take() {
            Some(socket) => {
                self.control_outcome =
                ControlOutcome::Open(
                    ControlAddress {
                        session: socket.session,
                        session_dir: socket.session_dir,
                        cwd: worktree.to_owned(),
                    },
                );
            },
            None => {
                self.control_unavailable(
                    "the run accepted `--control` but its report named no control socket",
                );
            },
        }
    }
}

// --- The ladder of a skill turn ---------------------------------------------
/// One attempt at a skill turn. Each drops exactly the one thing the one before it
/// was refused for.
#[derive(Debug, Clone, Copy, PartialEq, Eq, Structural)]
pub enum Rung {
    /// Under the session, asking for control.
    Controlled,
    /// Under the session.
    Sessioned,
    /// Without a session, the whole conversation inlined. `named` says whether the
    /// history still goes by the session's name.
    Inline {
        /// Whether the history goes by the session's name.
        named: bool,
    },
}

/// The rung a turn starts on.
pub open spec fn first_rung(session: bool, control: bool, unix: bool) -> Rung {
    if !session {
        Rung::Inline { named: false }
    } else if control && unix {
        Rung::Controlled
    } else {
        Rung::Sessioned
    }
}

/// The rung after a refusal, where there is one: a refused control ask is dropped,
/// a refused session is dropped with it, and any other failure is final.
pub open spec fn next_rung(rung: Rung, err: ErrorView) -> Option<Rung> {
    match rung {
        Rung::Controlled => if refuses_control(err) {
            Some(Rung::Sessioned)
        } else if refuses_session(err) {
            Some(Rung::Inline { named: false })
        } else {
            None
        },
        Rung::Sessioned => if refuses_session(err) {
            Some(Rung::Inline { named: true })
        } else {
            None
        },
        Rung::Inline { .. } => None,
    }
}

/// How many rungs are left below one.
pub open spec fn height(rung: Rung) -> nat {
    match rung {
        Rung::Controlled => 2,
        Rung::Sessioned => 1,
        Rung::Inline { .. } => 0,
    }
}

/// Every retry is a rung further down, so a turn is attempted three times at most,
/// and the last attempt is without a session.
pub proof fn lemma_retries_only_descend(rung: Rung, err: ErrorView)
    ensures
        next_rung(rung, err) is Some ==> height(next_rung(rung, err)->0) < height(rung),
        height(rung) == 0 ==> next_rung(rung, err) is None && rung is Inline,
        height(rung) <= 2,
{
}

/// An ordinary failure of a turn is never retried.
pub proof fn lemma_failures_are_final(rung: Rung, err: ErrorView)
    requires
        !refuses_control(err),
        !refuses_session(err),
    ensures
        next_rung(rung, err) is None,
{
}

/// What is said of control once an attempt was refused.
pub open spec fn control_after(rung: Rung, err: ErrorView, before: ControlView) -> ControlView {
    if rung is Controlled && refuses_control(err) {
        ControlView::Unavailable(refusal_words(err))
    } else if rung is Controlled && refuses_session(err) {
        ControlView::Unavailable(
            "the agent harness does not support --session, which --control needs for an address"@,
        )
    } else {
        before
    }
}

/// What the turn of a rung says.
pub open spec fn rung_view(
    setup: OneharnessSetup,
    rung: Rung,
    instructions: Seq<char>,
    worktree: Seq<char>,
    messages: Seq<MessageView>,
    session: Option<Seq<char>>,
) -> TurnView {
    let turn = match rung {
        Rung::Controlled | Rung::Sessioned => respond_view(
            instructions,
            worktree,
            session,
            session,
            setup.stream,
            rung is Controlled,
            turn_prompt(messages, true),
        ),
        Rung::Inline { named } => respond_view(
            instructions,
            worktree,
            None,
            if named {
                session
            } else {
                None
            },
            setup.stream,
            false,
            turn_prompt(messages, false),
        ),
    };
    TurnView { mock_harness: setup.mock_harness, ..turn }
}

/// **A refused session is retried without it, re-prompting the inlined conversation**:
/// the next attempt names no session, asks for no control, and says every word that was
/// said so far.
pub proof fn lemma_refused_sessions_retry_inline(
    setup: OneharnessSetup,
    rung: Rung,
    err: ErrorView,
    instructions: Seq<char>,
    worktree: Seq<char>,
    messages: Seq<MessageView>,
    session: Option<Seq<char>>,
)
    requires
        !(rung is Inline),
        refuses_session(err),
        rung is Controlled ==> !refuses_control(err),
    ensures
        next_rung(rung, err) is Some,
        ({
            let retry = rung_view(
                setup,
                next_rung(rung, err)->0,
                instructions,
                worktree,
                messages,
                session,
            );
            &&& retry.session is None
            &&& !retry.control
            &&& retry.system == Some(instructions)
            &&& forall|i: int|
                0 <= i < messages.len() ==> has(retry.prompt, (#[trigger] messages[i]).content)
        }),
{
    assert forall|i: int| 0 <= i < messages.len() implies has(
        turn_prompt(messages, false),
        (#[trigger] messages[i]).content,
    ) by {
        lemma_transcripts_show_everything(messages, false, i);
    }
}

impl OneharnessProvider {
    /// The rung a turn starts on. Where control was asked for and the platform
    /// cannot carry it, that is recorded rather than asked for.
    pub fn start(&mut self, session: Option<&str>, unix: bool) -> (rung: Rung)
        ensures
            rung == first_rung(session is Some, old(self)@.control, unix),
            final(self)@ == old(self)@,
            final(self).pending_socket() == old(self).pending_socket(),
            final(self).records() == old(self).records(),
            final(self).outcome() == if session is Some && old(self)@.control && !unix {
                ControlView::Unavailable(no_socket_reason())
            } else {
                old(self).outcome()
            },
    {
        if session.is_none() {
            return Rung::Inline { named: false };
        }
        if !self.control {
            return Rung::Sessioned;
        }
        match control_platform_reason(unix) {
            Some(reason) => {
                self.control_unavailable(reason);
                Rung::Sessioned
            },
            None => Rung::Controlled,
        }
    }

    /// The turn a rung asks for: under a session only what the user said last,
    /// without one the whole conversation.
    pub fn rung_spec(
        &self,
        rung: Rung,
        instructions: &str,
        worktree: &str,
        messages: &[Message],
        session: Option<&str>,
    ) -> (spec: TurnSpec)
        ensures
            spec@ == rung_view(
                self@,
                rung,
                instructions@,
                worktree@,
                lines(messages@),
                opt_str(session),
            ),
    {
        let spec = match rung {
            Rung::Controlled | Rung::Sessioned => {
                let prompt = latest_or_inline(messages, true);
                let control = match rung {
                    Rung::Controlled => true,
                    _ => false,
                };
                respond_spec(
                    instructions,
                    worktree,
                    session,
                    session,
                    self.stream,
                    control,
                    prompt.as_str(),
                )
            },
            Rung::Inline { named } => {
                let prompt = latest_or_inline(messages, false);
                let history_name = if named {
                    session
                } else {
                    None
                };
                respond_spec(
                    instructions,
                    worktree,
                    None,
                    history_name,
                    self.stream,
                    false,
                    prompt.as_str(),
                )
            },
        };
        self.mocked(spec)
    }

    /// The rung after an attempt failed, where there is one, recording what became
    /// of the control ask.
    pub fn after_failure(&mut self, rung: Rung, err: &Error) -> (next: Option<Rung>)
        ensures
            next == next_rung(rung, err@),
            final(self)@ == old(self)@,
            final(self).pending_socket() == old(self).pending_socket(),
            final(self).records() == old(self).records(),
            final(self).outcome() == control_after(rung, err@, old(self).outcome()),
    {
        match rung {
            Rung::Controlled => {
                if is_control_refused(err) {
                    let words = refusal(err);
                    self.control_unavailable(words.as_str());
                    return Some(Rung::Sessioned);
                }
                if is_session_unsupported(err) {
                    self.control_unavailable(
                        "the agent harness does not support --session, which --control needs for an address",
                    );
                    return Some(Rung::Inline { named: false });
                }
                None
            },
            Rung::Sessioned => if is_session_unsupported(err) {
                Some(Rung::Inline { named: true })
            } else {
                None
            },
            Rung::Inline { .. } => None,
        }
    }

    /// Take in that an attempt succeeded: a controlled one has an address now.
    pub fn after_success(&mut self, rung: Rung, worktree: &str)
        ensures
            final(self)@ == old(self)@,
            final(self).records() == old(self).records(),
            final(self).pending_socket() == if rung is Controlled {
                None
            } else {
                old(self).pending_socket()
            },
            !(rung is Controlled) ==> final(self).outcome() == old(self).outcome(),
            rung is Controlled ==> final(self).outcome() == (match old(self).pending_socket() {
                Some((session, session_dir)) => ControlView::Open {
                    session,
                    session_dir,
                    cwd: worktree@,
                },
                None => ControlView::Unavailable(
                    "the run accepted `--control` but its report named no control socket"@,
                ),
            }),
    {
        if let Rung::Controlled = rung {
            self.control_address(worktree);
        }
    }

    /// The turn the judge or simulated user is asked for, under `session` where it
    /// is given one.
    pub fn judge_spec(&self, prompt: &str, session: Option<&str>, cwd: Option<&str>) -> (spec:
        TurnSpec)
        ensures
            spec@ == (TurnView {
                mock_harness: self@.mock_harness,
                ..judge_side_view(self@.judge_config, opt_str(session), opt_str(cwd), prompt@)
            }),
    {
        let spec = judge_side_spec(self.judge_config(), session, cwd, prompt);
        self.mocked(spec)
    }

    /// Whether a judge-side turn is asked for again without its session: only when
    /// it had one and that was refused.
    pub fn judge_retries(&self, had_session: bool, err: &Error) -> (r: bool)
        ensures
            r == (had_session && refuses_session(err@)),
    {
        had_session && is_session_unsupported(err)
    }
}

// --- What a run means -------------------------------------------------------
/// The error of a process that exited non-zero.
pub open spec fn exited(op: Seq<char>, ended: Ended) -> ErrorView {
    classified(
        op,
        "oneharness exited with "@ + ended.status@ + ": "@ + trimmed(ended.stderr@),
        ProviderErrorKind::Protocol,
    )
}

/// The error of a process that exited non-zero.
pub fn exit_error(op: &str, ended: &Ended) -> (err: Error)
    ensures
        err@ == exited(op@, *ended),
{
    let mut message = "oneharness exited with ".to_owned();
    message.append(ended.status.as_str());
    message.append(": ");
    message.append(trim(ended.stderr.as_str()));
    Error::provider_classified(op, message.as_str(), ProviderErrorKind::Protocol)
}

/// The error of a run that could not produce a report at all, in its own words: the
/// session and control recoveries both key off them.
pub fn run_failed(op: &str, why: &str) -> (err: Error)
    ensures
        err@ == classified(op@, "oneharness run failed: "@ + why@, ProviderErrorKind::Protocol),
{
    let mut message = "oneharness run failed: ".to_owned();
    message.append(why);
    Error::provider_classified(op, message.as_str(), ProviderErrorKind::Protocol)
}

/// The error of an executable that could not be started.
pub fn spawn_failed(op: &str, bin: &str, why: &str) -> (err: Error)
    ensures
        err@ == classified(
            op@,
            "could not run `"@ + bin@ + "`: "@ + why@ + ". Is oneharness installed and on PATH?"@,
            ProviderErrorKind::Spawn,
        ),
{
    let mut message = "could not run `".to_owned();
    message.append(bin);
    message.append("`: ");
    message.append(why);
    message.append(". Is oneharness installed and on PATH?");
    Error::provider_classified(op, message.as_str(), ProviderErrorKind::Spawn)
}

/// An error with what the process wrote to stderr behind it, where it wrote any.
pub open spec fn with_words(err: ErrorView, stderr: Seq<char>) -> ErrorView {
    match err {
        ErrorView::Provider { context, message, kind } => if blank(stderr) {
            err
        } else {
            ErrorView::Provider {
                context,
                message: message + "; oneharness stderr: "@ + trimmed(stderr),
                kind,
            }
        },
        other => other,
    }
}

/// Attach a streamed child's stderr to `err`, when it wrote any. The stream
/// violation stays the headline.
pub fn with_stderr(err: Error, stderr: &str) -> (r: Error)
    ensures
        r@ == with_words(err@, stderr@),
{
    if is_blank(stderr) {
        return err;
    }
    match err {
        Error::Provider { context, message, kind } => {
            let mut message = message;
            message.append("; oneharness stderr: ");
            message.append(trim(stderr));
            Error::Provider { context, message, kind }
        },
        other => other,
    }
}

/// What an ended run comes to: its report, readable even where it exited non-zero;
/// and where there is none, its own exit, unless that was a success.
pub open spec fn finished(op: Seq<char>, ended: Ended) -> Result<InvocationView, ErrorView> {
    match invoked_text(op, ended.stdout@) {
        Ok(invocation) => Ok(invocation),
        Err(unreadable) => if ended.success {
            Err(unreadable)
        } else {
            Err(exited(op, ended))
        },
    }
}

/// Read the report of an ended run.
pub fn finish(op: &str, ended: &Ended) -> (r: Result<Invocation, Error>)
    ensures
        said(r) == finished(op@, *ended),
        r is Ok ==> r->Ok_0@.wf(),
{
    match parse_report(op, ended.stdout.as_str()) {
        Ok(invocation) => Ok(invocation),
        Err(unreadable) => if ended.success {
            Err(unreadable)
        } else {
            Err(exit_error(op, ended))
        },
    }
}

/// Whether `turn` is the turn of an invocation: its reply, its usage and its events.
pub open spec fn is_turn(invocation: InvocationView, turn: AssistantTurn) -> bool {
    &&& turn.message@ == invocation.reply()
    &&& !turn.done
    &&& opt_usage(turn.usage) == invocation.usage()
    &&& event_views(turn.events@) == invocation.events()
}

/// Lift an invocation into the engine's assistant turn.
pub fn assistant_turn(invocation: &Invocation) -> (turn: AssistantTurn)
    requires
        invocation@.wf(),
    ensures
        is_turn(invocation@, turn),
{
    AssistantTurn {
        message: invocation.reply(),
        done: false,
        usage: invocation.usage(),
        events: invocation.events(),
    }
}

/// What reading a stream came to.
#[derive(Debug, PartialEq, Eq)]
pub enum StreamOutcome {
    /// The sink asked to stop mid-turn.
    Aborted,
    /// The stream ended with this report.
    Report(serde_json::Value),
}

/// What a streamed run comes to, where it was not aborted: the report it ended
/// with, read exactly as a buffered one is; or the violation of the stream, with
/// what the process wrote to stderr.
pub open spec fn streamed(
    op: Seq<char>,
    outcome: Result<StreamOutcome, Error>,
    ended: Ended,
) -> Result<Option<InvocationView>, ErrorView> {
    match outcome {
        Ok(StreamOutcome::Aborted) => Ok(None),
        Ok(StreamOutcome::Report(report)) => match invoked_value(op, value_model(report)) {
            Ok(invocation) => Ok(Some(invocation)),
            Err(unreadable) => if ended.success {
                Err(unreadable)
            } else {
                Err(exited(op, ended))
            },
        },
        Err(err) => Err(with_words(err@, ended.stderr@)),
    }
}

/// Read what a streamed run came to. `None` means that the sink asked to stop: the
/// events it saw are the whole turn.
pub fn finish_streamed(op: &str, outcome: Result<StreamOutcome, Error>, ended: &Ended) -> (r:
    Result<Option<Invocation>, Error>)
    ensures
        match r {
            Ok(Some(invocation)) => {
                &&& streamed(op@, outcome, *ended) == Ok::<_, ErrorView>(Some(invocation@))
                &&& invocation@.wf()
            },
            Ok(None) => streamed(op@, outcome, *ended) == Ok::<Option<InvocationView>, ErrorView>(
                None,
            ),
            Err(err) => streamed(op@, outcome, *ended) == Err::<Option<InvocationView>, _>(err@),
        },
{
    match outcome {
        Ok(StreamOutcome::Aborted) => Ok(None),
        Ok(StreamOutcome::Report(report)) => match parse_report_value(op, report) {
            Ok(invocation) => Ok(Some(invocation)),
            Err(unreadable) => if ended.success {
                Err(unreadable)
            } else {
                Err(exit_error(op, ended))
            },
        },
        Err(err) => Err(with_stderr(err, ended.stderr.as_str())),
    }
}

/// **A streamed run and a buffered one are read alike**: the report a stream ends with
/// comes to what the same report, printed whole, comes to — the same invocation, or the
/// same failure.
pub proof fn lemma_streamed_and_buffered_runs_are_read_alike(
    op: Seq<char>,
    report: serde_json::Value,
    ended: Ended,
)
    requires
        json_outcome(trimmed(ended.stdout@)) == Ok::<_, Seq<char>>(value_model(report)),
    ensures
        streamed(op, Ok(StreamOutcome::Report(report)), ended) == match finished(op, ended) {
            Ok(invocation) => Ok(Some(invocation)),
            Err(err) => Err(err),
        },
{
}

/// What the turn of a streamed run is: the failure its report carries; else, where
/// the process then died on teardown, its exit; else the turn.
pub open spec fn streamed_turn(
    op: Seq<char>,
    invocation: InvocationView,
    ended: Ended,
    r: Result<AssistantTurn, Error>,
) -> bool {
    match invocation.failure {
        Some(err) => r is Err && r->Err_0@ == err,
        None => if !ended.success {
            r is Err && r->Err_0@ == exited(op, ended)
        } else {
            r is Ok && is_turn(invocation, r->Ok_0)
        },
    }
}

/// Say what the turn of a streamed run is.
pub fn settle_streamed(op: &str, invocation: Invocation, ended: &Ended) -> (r: Result<
    AssistantTurn,
    Error,
>)
    requires
        invocation@.wf(),
    ensures
        streamed_turn(op@, invocation@, *ended, r),
{
    let invocation = match invocation.into_ok() {
        Ok(invocation) => invocation,
        Err(err) => return Err(err),
    };
    if !ended.success {
        return Err(exit_error(op, ended));
    }
    Ok(assistant_turn(&invocation))
}

impl OneharnessProvider {
    /// Record one invocation against the party that made the call — and, on the
    /// agent side of a controlled run, the socket its report named. `attempts` are
    /// the history records of its candidates.
    pub fn record(&mut self, op: &str, invocation: &Invocation, attempts: &Vec<HistoryEntry>)
        requires
            invocation@.wf(),
        ensures
            final(self)@ == old(self)@,
            final(self).outcome() == old(self).outcome(),
            final(self).pending_socket() == if op@ == "respond"@ && old(self)@.control {
                socket_address(invocation@.report)
            } else {
                old(self).pending_socket()
            },
            final(self).records().len() == old(self).records().len() + 1,
            final(self).records().drop_last() == old(self).records(),
            leaves(
                if op@ == "respond"@ {
                    TelemetryRole::Agent
                } else {
                    TelemetryRole::Judge
                },
                invocation@,
                entries(attempts@),
                final(self).records().last(),
            ),
    {
        let role = role_of(op);
        if same(op, "respond") && self.control {
            self.control_socket = control_socket(&invocation.report);
        }
        let record = invocation_telemetry(role, invocation, attempts);
        let ghost before = self.telemetry@;
        self.telemetry.push(record);
        proof {
            assert(self.telemetry@.drop_last() =~= before);
        }
    }
}

// --- What judge-side answers mean -------------------------------------------
/// The simulated user's turn of an invocation.
pub fn user_turn(invocation: &Invocation) -> (turn: UserTurn)
    requires
        invocation@.wf(),
    ensures
        turn.message@ == invocation@.reply(),
        !turn.stop,
        opt_usage(turn.usage) == invocation@.usage(),
{
    UserTurn { message: invocation.reply(), stop: false, usage: invocation.usage() }
}

/// The supervisor's decision of an invocation.
pub open spec fn supervisor_of(invocation: InvocationView) -> Result<
    SupervisorTurnView,
    ErrorView,
> {
    match supervision_said("oneharness:supervisor"@, invocation.reply()) {
        Ok(outcome) => Ok(SupervisorTurnView { outcome, usage: invocation.usage() }),
        Err(err) => Err(err),
    }
}

/// The supervisor's decision of an invocation.
pub fn supervisor_turn(invocation: &Invocation) -> (r: Result<SupervisorTurn, Error>)
    requires
        invocation@.wf(),
    ensures
        said(r) == supervisor_of(invocation@),
{
    match parse_supervisor("oneharness:supervisor", invocation.reply().as_str()) {
        Ok(outcome) => Ok(SupervisorTurn { outcome, usage: invocation.usage() }),
        Err(err) => Err(err),
    }
}

/// The verdict of an invocation.
pub open spec fn verdict_of(kind: JudgeKind, invocation: InvocationView) -> Result<
    JudgeVerdictView,
    ErrorView,
> {
    match verdict_said(kind, "oneharness:judge"@, invocation.reply()) {
        Ok(verdict) => Ok(JudgeVerdictView { usage: invocation.usage(), ..verdict }),
        Err(err) => Err(err),
    }
}

/// The verdict of an invocation.
pub fn judge_verdict(kind: JudgeKind, invocation: &Invocation) -> (r: Result<JudgeVerdict, Error>)
    requires
        invocation@.wf(),
    ensures
        said(r) == verdict_of(kind, invocation@),
{
    match parse_verdict(kind, "oneharness:judge", invocation.reply().as_str()) {
        Ok(verdict) => Ok(JudgeVerdict { usage: invocation.usage(), ..verdict }),
        Err(err) => Err(err),
    }
}

/// The assessment of an invocation: a text that says something.
pub open spec fn assessment_of(invocation: InvocationView) -> Result<AssessmentView, ErrorView> {
    if blank(invocation.reply()) {
        Err(
            ErrorView::Provider {
                context: "oneharness:assess"@,
                message: "judge returned an empty assessment"@,
                kind: None,
            },
        )
    } else {
        Ok(AssessmentView { text: invocation.reply(), usage: invocation.usage() })
    }
}

/// The assessment of an invocation.
pub fn assessment(invocation: &Invocation) -> (r: Result<Assessment, Error>)
    requires
        invocation@.wf(),
    ensures
        said(r) == assessment_of(invocation@),
{
    let text = invocation.reply();
    if is_blank(text.as_str()) {
        return Err(Error::provider("oneharness:assess", "judge returned an empty assessment"));
    }
    Ok(Assessment { text, usage: invocation.usage() })
}

// --- What every attempt asks ------------------------------------------------
/// **Every attempt runs the skill**: on whatever rung, the turn carries the skill's
/// instructions as its system prompt, runs in the worktree, asks for events, and mocks and
/// streams as the provider is set.
pub proof fn lemma_every_attempt_runs_the_skill(
    setup: OneharnessSetup,
    rung: Rung,
    instructions: Seq<char>,
    worktree: Seq<char>,
    messages: Seq<MessageView>,
    session: Option<Seq<char>>,
    spec: TurnSpec,
)
    requires
        spec@ == rung_view(setup, rung, instructions, worktree, messages, session),
    ensures
        spec.system is Some && spec.system->0@ == instructions,
        carries(spec@.argv(), "--system"@, instructions),
        spec.cwd is Some && spec.cwd->0@ == worktree,
        carries(spec@.argv(), "--cwd"@, worktree),
        spec.events,
        spec.stream == setup.stream,
        spec.mock_harness@.len() == setup.mock_harness.len(),
        forall|i: int|
            0 <= i < setup.mock_harness.len() ==> (#[trigger] spec.mock_harness@[i])@
                == setup.mock_harness[i],
        spec.config is None,
        spec.mode is None,
{
    let turn = spec@;
    assert(turn.mock_harness == setup.mock_harness);
    assert forall|i: int| 0 <= i < setup.mock_harness.len() implies (
    #[trigger] spec.mock_harness@[i])@ == setup.mock_harness[i] by {
        assert(turn.mock_harness[i] == spec.mock_harness@[i]@);
    }
    lemma_everything_given_is_asked_for(turn, instructions);
    assert(TurnView { system: Some(instructions), ..turn } == turn);
    lemma_what_is_put_in_is_carried(
        (TurnView { system: None, ..turn }).argv(),
        "--system"@,
        instructions,
        turn.argv(),
    );
    lemma_everything_given_is_asked_for(turn, worktree);
    assert(TurnView { cwd: Some(worktree), ..turn } == turn);
    lemma_what_is_put_in_is_carried(
        (TurnView { cwd: None, ..turn }).argv(),
        "--cwd"@,
        worktree,
        turn.argv(),
    );
}

/// **One session is threaded through, and continued by the latest word**: under a session a
/// turn names it — `--session`, directly followed by it — goes under its name in the
/// history, and says only what the user said last; without one it names none and says the
/// whole conversation in its order. Control is asked for on the first rung alone.
pub proof fn lemma_the_session_is_threaded_through(
    setup: OneharnessSetup,
    rung: Rung,
    instructions: Seq<char>,
    worktree: Seq<char>,
    messages: Seq<MessageView>,
    session: Seq<char>,
    last: int,
    words: Seq<Seq<char>>,
    spec: TurnSpec,
)
    requires
        spec@ == rung_view(setup, rung, instructions, worktree, messages, Some(session)),
        0 <= last < messages.len(),
        messages[last].role is User,
        forall|j: int| last < j < messages.len() ==> !((#[trigger] messages[j]).role is User),
        words.len() == messages.len(),
        forall|i: int|
            0 <= i < messages.len() ==> #[trigger] words[i] == crate::transcript::spoken(
                messages[i],
            ),
    ensures
        rung is Controlled || rung is Sessioned ==> {
            &&& spec.session is Some && spec.session->0@ == session
            &&& carries(spec@.argv(), "--session"@, session)
            &&& spec.history_name is Some && spec.history_name->0@ == session
            &&& spec.prompt@ == messages[last].content
        },
        rung is Inline ==> {
            &&& spec.session is None
            &&& spec.history_name is Some <==> rung->named
            &&& rung->named ==> spec.history_name->0@ == session
            &&& exists|at: Seq<int>| crate::text::laid_out(spec.prompt@, words, "\n"@, at)
        },
        spec.control <==> rung is Controlled,
{
    crate::prompts::lemma_the_last_word_of_the_user(messages, last);
    crate::prompts::lemma_an_inlined_turn_says_everything(messages, words);
    let turn = spec@;
    if !(rung is Inline) {
        lemma_everything_given_is_asked_for(turn, session);
        assert(TurnView { session: Some(session), ..turn } == turn);
        lemma_what_is_put_in_is_carried(
            (TurnView { session: None, ..turn }).argv(),
            "--session"@,
            session,
            turn.argv(),
        );
    } else {
        let at = choose|at: Seq<int>|
            crate::text::laid_out(turn_prompt(messages, false), words, "\n"@, at);
        assert(crate::text::laid_out(spec.prompt@, words, "\n"@, at));
    }
}

/// **A turn starts with all it may have and drops what it is refused**: under a session
/// with control where that is wanted and possible; without control once that is refused;
/// without the session once that is refused, in so many words; and gives up on anything
/// else.
pub proof fn lemma_a_turn_drops_what_it_is_refused(
    wants_session: bool,
    wants_control: bool,
    unix: bool,
    rung: Rung,
    err: ErrorView,
)
    ensures
        first_rung(wants_session, wants_control, unix) is Inline <==> !wants_session,
        first_rung(wants_session, wants_control, unix) is Controlled <==> wants_session
            && wants_control && unix,
        wants_session && !(wants_control && unix) ==> first_rung(
            wants_session,
            wants_control,
            unix,
        ) is Sessioned,
        has(err.shown(), "does not support --session"@) && rung is Sessioned ==> next_rung(
            rung,
            err,
        ) is Some && next_rung(rung, err)->0 is Inline,
        !(has(err.shown(), "does not support --session"@)) && !(rung is Controlled) ==> next_rung(
            rung,
            err,
        ) is None,
        rung is Controlled && (has(err.shown(), "--control"@) || has(
            err.shown(),
            "control socket"@,
        )) ==> next_rung(rung, err) == Some(Rung::Sessioned),
        rung is Inline ==> next_rung(rung, err) is None,
{
}

/// **What a judge-side run says is its candidate's reply**: a user's words are the reply, a
/// verdict and a decision are read off it, an assessment is it — each with what the run
/// used.
pub proof fn lemma_judge_side_answers_are_read_off_the_reply(
    invocation: InvocationView,
    kind: JudgeKind,
)
    ensures
        match verdict_said(kind, "oneharness:judge"@, invocation.reply()) {
            Ok(verdict) => {
                &&& verdict_of(kind, invocation) is Ok
                &&& verdict_of(kind, invocation)->Ok_0.value == verdict.value
                &&& verdict_of(kind, invocation)->Ok_0.reason == verdict.reason
                &&& verdict_of(kind, invocation)->Ok_0.usage == invocation.usage()
            },
            Err(err) => verdict_of(kind, invocation) is Err && verdict_of(kind, invocation)->Err_0
                == err,
        },
        match supervision_said("oneharness:supervisor"@, invocation.reply()) {
            Ok(outcome) => {
                &&& supervisor_of(invocation) is Ok
                &&& supervisor_of(invocation)->Ok_0.outcome == outcome
                &&& supervisor_of(invocation)->Ok_0.usage == invocation.usage()
            },
            Err(err) => supervisor_of(invocation) is Err && supervisor_of(invocation)->Err_0 == err,
        },
        blank(invocation.reply()) <==> assessment_of(invocation) is Err,
        !blank(invocation.reply()) ==> {
            &&& assessment_of(invocation)->Ok_0.text == invocation.reply()
            &&& assessment_of(invocation)->Ok_0.usage == invocation.usage()
        },
{
}

/// **A judge-side turn runs under the provider's judge config, mocks and all**, says the
/// prompt, and asks for nothing of the agent's.
pub proof fn lemma_a_judge_is_run_as_the_provider_is_set(
    provider: OneharnessProvider,
    prompt: &str,
    session: Option<&str>,
    cwd: Option<&str>,
    spec: TurnSpec,
)
    requires
        call_ensures(OneharnessProvider::judge_spec, (&provider, prompt, session, cwd), spec),
    ensures
        spec.prompt@ == prompt@,
        opt_text(spec.config) == provider@.judge_config,
        opt_text(spec.session) == opt_str(session),
        opt_text(spec.cwd) == opt_str(cwd),
        spec.mock_harness@.len() == provider@.mock_harness.len(),
        spec.system is None,
        !spec.events && !spec.stream && !spec.control,
{
    assert(spec@.mock_harness.len() == spec.mock_harness@.len());
}

/// **A turn starts with everything it was set to**: under its session where it has one,
/// asking for control only where that was wanted, there is a session to address and the
/// platform has sockets.
pub proof fn lemma_a_turn_starts_with_everything(
    provider: OneharnessProvider,
    session: Option<&str>,
    unix: bool,
    after: OneharnessProvider,
    rung: Rung,
)
    requires
        exists|p: &mut OneharnessProvider|
            *p == provider && *final(p) == after && #[trigger] call_ensures(
                OneharnessProvider::start,
                (p, session, unix),
                rung,
            ),
    ensures
        rung is Inline <==> session is None,
        rung is Controlled <==> session is Some && provider@.control && unix,
        after@ == provider@,
        after.records() == provider.records(),
        after.outcome() is Unavailable || after.outcome() == provider.outcome(),
        session is Some && provider@.control && !unix ==> after.outcome() is Unavailable,
{
}

/// **A turn gives up only what was refused**: a refused control costs the control, a refused
/// session the session, and any other failure is the turn's; the failure is remembered where
/// control was lost, and nothing else changes.
pub proof fn lemma_a_turn_gives_up_only_what_was_refused(
    provider: OneharnessProvider,
    rung: Rung,
    err: Error,
    after: OneharnessProvider,
    next: Option<Rung>,
)
    requires
        exists|p: &mut OneharnessProvider|
            *p == provider && *final(p) == after && #[trigger] call_ensures(
                OneharnessProvider::after_failure,
                (p, rung, &err),
                next,
            ),
    ensures
        ({
            let words = err@.shown();
            let no_control = has(words, "--control"@) || has(words, "control socket"@) || has(
                words,
                "controlled turn"@,
            );
            let no_session = has(words, "does not support --session"@);
            &&& rung is Controlled && no_control ==> next == Some(Rung::Sessioned)
            &&& rung is Sessioned && no_session ==> next is Some && next->0 is Inline
            &&& rung is Controlled && !no_control && no_session ==> next is Some && next->0
                is Inline
            &&& !no_control && !no_session ==> next is None && after.outcome()
                == provider.outcome()
            &&& rung is Inline ==> next is None
            &&& rung is Controlled && (no_control || no_session) ==> after.outcome() is Unavailable
            &&& !(rung is Controlled) ==> after.outcome() == provider.outcome()
        }),
        after@ == provider@,
        after.records() == provider.records(),
{
    lemma_a_turn_drops_what_it_is_refused(true, true, true, rung, err@);
}

/// **A controlled turn is addressed where its report says**: at the session and the directory
/// of the socket it opened, in its own worktree.
pub proof fn lemma_a_controlled_turn_is_addressed(
    provider: OneharnessProvider,
    rung: Rung,
    worktree: &str,
    after: OneharnessProvider,
)
    requires
        exists|p: &mut OneharnessProvider|
            *p == provider && *final(p) == after && #[trigger] call_ensures(
                OneharnessProvider::after_success,
                (p, rung, worktree),
                (),
            ),
    ensures
        rung is Controlled && provider.pending_socket() is Some ==> after.outcome() == (
        ControlView::Open {
            session: (provider.pending_socket()->0).0,
            session_dir: (provider.pending_socket()->0).1,
            cwd: worktree@,
        }),
        rung is Controlled && provider.pending_socket() is None ==> after.outcome() is Unavailable,
        !(rung is Controlled) ==> after.outcome() == provider.outcome(),
        after@ == provider@,
        after.records() == provider.records(),
{
}

/// **Each attempt is asked as its rung says**: the skill's instructions in its worktree on
/// every one; the user's last word under the session, or the whole conversation without.
pub proof fn lemma_each_attempt_is_asked_as_its_rung_says(
    provider: OneharnessProvider,
    rung: Rung,
    instructions: &str,
    worktree: &str,
    messages: &[Message],
    session: Option<&str>,
    last: int,
    words: Seq<Seq<char>>,
    spec: TurnSpec,
)
    requires
        call_ensures(
            OneharnessProvider::rung_spec,
            (&provider, rung, instructions, worktree, messages, session),
            spec,
        ),
        0 <= last < messages@.len(),
        messages@[last].role is User,
        forall|j: int| last < j < messages@.len() ==> !((#[trigger] messages@[j]).role is User),
        words.len() == messages@.len(),
        forall|i: int|
            0 <= i < messages@.len() ==> #[trigger] words[i] == crate::transcript::spoken(
                messages@[i]@,
            ),
    ensures
        carries(spec@.argv(), "--system"@, instructions@),
        carries(spec@.argv(), "--cwd"@, worktree@),
        spec.events,
        spec.stream == provider@.stream,
        session is Some ==> {
            &&& rung is Controlled || rung is Sessioned ==> {
                &&& carries(spec@.argv(), "--session"@, session->0@)
                &&& spec.prompt@ == messages@[last].content@
            }
            &&& rung is Inline ==> spec.session is None && exists|at: Seq<int>|
                crate::text::laid_out(spec.prompt@, words, "\n"@, at)
            &&& spec.control <==> rung is Controlled
        },
{
    let all = lines(messages@);
    lemma_every_attempt_runs_the_skill(
        provider@,
        rung,
        instructions@,
        worktree@,
        all,
        opt_str(session),
        spec,
    );
    if session is Some {
        assert(all[last] == messages@[last]@);
        assert forall|j: int| last < j < all.len() implies !((#[trigger] all[j]).role is User) by {
            assert(!(messages@[j].role is User));
        }
        assert forall|i: int| 0 <= i < all.len() implies #[trigger] words[i]
            == crate::transcript::spoken(all[i]) by {}
        lemma_the_session_is_threaded_through(
            provider@,
            rung,
            instructions@,
            worktree@,
            all,
            session->0@,
            last,
            words,
            spec,
        );
    }
}

/// **What the judge side said is what its candidate replied**: the user's words, the
/// assessor's text, and the verdict or decision read off the reply — with the candidate's own
/// usage.
pub proof fn lemma_what_the_judge_side_said(
    invocation: Invocation,
    kind: JudgeKind,
    reply: String,
    context: &str,
    text: &str,
    user: UserTurn,
    written: Result<Assessment, Error>,
    verdict: Result<JudgeVerdict, Error>,
    read: Result<JudgeVerdict, Error>,
    turn: AssistantTurn,
)
    requires
        call_ensures(Invocation::reply, (&invocation,), reply),
        text@ == reply@,
        context@ == "oneharness:judge"@,
        call_ensures(user_turn, (&invocation,), user),
        call_ensures(assessment, (&invocation,), written),
        call_ensures(judge_verdict, (kind, &invocation), verdict),
        call_ensures(parse_verdict, (kind, context, text), read),
        call_ensures(assistant_turn, (&invocation,), turn),
    ensures
        user.message@ == reply@,
        !user.stop,
        turn.message@ == reply@,
        !turn.done,
        opt_usage(turn.usage) == opt_usage(user.usage),
        blank(reply@) <==> written is Err,
        written is Ok ==> written->Ok_0.text@ == reply@ && opt_usage(written->Ok_0.usage)
            == opt_usage(user.usage),
        verdict is Ok <==> read is Ok,
        verdict is Ok ==> {
            &&& verdict->Ok_0.value@ == read->Ok_0.value@
            &&& verdict->Ok_0.reason@ == read->Ok_0.reason@
            &&& opt_usage(verdict->Ok_0.usage) == opt_usage(user.usage)
        },
        verdict is Err ==> verdict->Err_0@ == read->Err_0@,
{
    if written is Ok {
        assert(written->Ok_0@.text == written->Ok_0.text@);
    }
    if verdict is Ok {
        assert(verdict->Ok_0@.value == verdict->Ok_0.value@);
        assert(read->Ok_0@.value == read->Ok_0.value@);
    }
}

/// **Every call is on the record, once**: recording one leaves the earlier records as they
/// are and adds one, of the side that was called.
pub proof fn lemma_every_call_is_recorded_once(
    provider: OneharnessProvider,
    op: &str,
    invocation: Invocation,
    attempts: Vec<HistoryEntry>,
    after: OneharnessProvider,
)
    requires
        exists|p: &mut OneharnessProvider|
            *p == provider && *final(p) == after && #[trigger] call_ensures(
                OneharnessProvider::record,
                (p, op, &invocation, &attempts),
                (),
            ),
    ensures
        after@ == provider@,
        after.outcome() == provider.outcome(),
        after.records().len() == provider.records().len() + 1,
        forall|i: int|
            0 <= i < provider.records().len() ==> #[trigger] after.records()[i]
                == provider.records()[i],
        ({
            let record = after.records().last();
            &&& record.role is Some
            &&& record.role->0 is Agent <==> op@ == "respond"@
            &&& record.candidates@.len() == invocation.report.results@.len()
        }),
{
    let earlier = after.records().drop_last();
    assert forall|i: int| 0 <= i < provider.records().len() implies #[trigger] after.records()[i]
        == provider.records()[i] by {
        assert(earlier[i] == after.records()[i]);
    }
}

/// **A failed process is told by its own words**: an unreadable report of a process that
/// failed is that failure, with its status and what it wrote to stderr; and a stream's
/// violation keeps its own words before those.
pub proof fn lemma_a_failed_process_is_told_by_its_words(
    op: &str,
    ended: Ended,
    violation: Error,
    r: Result<Invocation, Error>,
    told: Error,
)
    requires
        call_ensures(finish, (op, &ended), r),
        !ended.success,
        r is Err,
        violation is Provider,
        ended.stderr@.len() > 0,
        exists|stderr: &str|
            stderr@ == ended.stderr@ && #[trigger] call_ensures(
                with_stderr,
                (violation, stderr),
                told,
            ),
    ensures
        has(r->Err_0@->message, ended.status@),
        has(r->Err_0@->message, trimmed(ended.stderr@)),
        r->Err_0@.kind() == Some(ProviderErrorKind::Protocol),
        told@.kind() == violation@.kind(),
        has(told@->message, violation@->message),
        !blank(ended.stderr@) ==> has(told@->message, trimmed(ended.stderr@)),
{
    let none = Seq::<char>::empty();
    let front = "oneharness exited with "@;
    let words = trimmed(ended.stderr@);
    let whole = front + ended.status@ + ": "@ + words;
    assert(r->Err_0@->message == whole);
    crate::text::lemma_has_between(front, ended.status@, ": "@ + words);
    assert(front + ended.status@ + (": "@ + words) =~= whole);
    crate::text::lemma_has_between(front + ended.status@ + ": "@, words, none);
    assert(whole + none =~= whole);
    let headline = violation@->message;
    let rest = told@->message.skip(headline.len() as int);
    crate::text::lemma_has_between(none, headline, rest);
    assert(none + headline + rest =~= told@->message);
    if !blank(ended.stderr@) {
        let before = headline + "; oneharness stderr: "@;
        crate::text::lemma_has_between(before, words, none);
        assert(before + words + none =~= told@->message);
    }
}

} // verus!
