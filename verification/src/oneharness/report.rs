//! The run report of `oneharness`, read through its own contract types
//! (`oneharness_core::domain::report`) into plain values.
//!
//! Two decisions live here:
//!
//! * **Which result is the turn.** Under fallback there is one result per
//!   *attempted* candidate — the ones fallen through, in priority order, then the
//!   one that actually ran. [`select`] picks the candidate that ran, and turns "no
//!   candidate could run at all" into one classified error that names the whole
//!   chain.
//! * **What counts as a failure.** A candidate that timed out, could not be
//!   spawned, or was skipped carries no failure kind — its [`Status`] is the signal.

use crate::error::{classified, Error, ErrorView, ProviderErrorKind};
use crate::json::{
    json_outcome, parse_value, read, value_model, written, Json, JsonView,
};
use crate::paths::{parent, parent_of};
use crate::text::{
    decimal, decimal_of, join, joined, opt_text, same, texts, trim, trimmed,
};
use crate::transcript::ToolEvent;
use crate::usage::{opt_usage, Usage, UsageView};
use vstd::prelude::*;
use vstd::string::*;

verus! {

/// How attempting one candidate ended.
#[derive(Debug, Clone, Copy, PartialEq, Eq, Structural)]
pub enum Status {
    /// It exited 0.
    Succeeded,
    /// It exited non-zero.
    Nonzero,
    /// It was killed after exceeding its deadline.
    Timeout,
    /// It was torn down because the run was cancelled.
    Cancelled,
    /// Its binary could not be executed.
    SpawnError,
    /// It was not run.
    Skipped,
    /// Its command was only built.
    Planned,
}

impl Status {
    /// The stable kebab-case token.
    pub open spec fn token(self) -> Seq<char> {
        match self {
            Status::Succeeded => "ok"@,
            Status::Nonzero => "nonzero"@,
            Status::Timeout => "timeout"@,
            Status::Cancelled => "cancelled"@,
            Status::SpawnError => "spawn-error"@,
            Status::Skipped => "skipped"@,
            Status::Planned => "planned"@,
        }
    }
}

/// The stable kebab-case token of a status.
pub fn status_token(status: Status) -> (token: &'static str)
    ensures
        token@ == status.token(),
{
    match status {
        Status::Succeeded => "ok",
        Status::Nonzero => "nonzero",
        Status::Timeout => "timeout",
        Status::Cancelled => "cancelled",
        Status::SpawnError => "spawn-error",
        Status::Skipped => "skipped",
        Status::Planned => "planned",
    }
}

/// What was measured of one candidate, by whom.
#[derive(Debug, Clone, PartialEq, Eq)]
pub enum ExecutionTelemetry {
    /// The provider's own trace.
    ProviderMeasured {
        /// When it started.
        started_at: String,
        /// When it finished.
        finished_at: Option<String>,
        /// Time spent in the model.
        model_ms: Option<u128>,
        /// Time spent in tools.
        tool_ms: Option<u128>,
        /// Time until the first token.
        time_to_first_token_ms: Option<u128>,
    },
    /// A trace that stopped mid-turn: only when it started is known.
    PartialInvocation {
        /// When it started.
        started_at: String,
    },
    /// Tool intervals seen at the stdout pipe.
    StdoutObserved {
        /// Their union.
        tool_ms: u128,
    },
}

/// What an [`ExecutionTelemetry`] says.
pub enum TelemetryView {
    ProviderMeasured {
        started_at: Seq<char>,
        finished_at: Option<Seq<char>>,
        model_ms: Option<u128>,
        tool_ms: Option<u128>,
        time_to_first_token_ms: Option<u128>,
    },
    PartialInvocation { started_at: Seq<char> },
    StdoutObserved { tool_ms: u128 },
}

impl View for ExecutionTelemetry {
    type V = TelemetryView;

    open spec fn view(&self) -> TelemetryView {
        match self {
            ExecutionTelemetry::ProviderMeasured {
                started_at,
                finished_at,
                model_ms,
                tool_ms,
                time_to_first_token_ms,
            } => TelemetryView::ProviderMeasured {
                started_at: started_at@,
                finished_at: opt_text(*finished_at),
                model_ms: *model_ms,
                tool_ms: *tool_ms,
                time_to_first_token_ms: *time_to_first_token_ms,
            },
            ExecutionTelemetry::PartialInvocation { started_at } => {
                TelemetryView::PartialInvocation { started_at: started_at@ }
            },
            ExecutionTelemetry::StdoutObserved { tool_ms } => TelemetryView::StdoutObserved {
                tool_ms: *tool_ms,
            },
        }
    }
}

/// One candidate's result.
#[derive(Debug, Clone, PartialEq, Eq)]
pub struct CandidateResult {
    /// The base harness.
    pub harness: String,
    /// The variant, where there is one.
    pub variant: Option<String>,
    /// The full identity, variant included.
    pub harness_id: String,
    /// The model it ran on.
    pub model: Option<String>,
    /// Whether it was installed at all.
    pub available: bool,
    /// Its native session.
    pub session_id: Option<String>,
    /// How it ended.
    pub status: Status,
    /// Its exit code.
    pub exit_code: Option<i32>,
    /// How long it took.
    pub duration_ms: Option<u128>,
    /// What it said.
    pub text: Option<String>,
    /// What its process wrote to stdout.
    pub stdout: String,
    /// Its own error text.
    pub error: Option<String>,
    /// The classified failure, by its snake_case token.
    pub failure_kind: Option<String>,
    /// What the classification was read from.
    pub failure_kind_source: Option<String>,
    /// What was measured.
    pub telemetry: Option<ExecutionTelemetry>,
    /// What it used.
    pub usage: Usage,
    /// What it did on the way.
    pub events: Option<Vec<ToolEvent>>,
}

/// What a [`CandidateResult`] says.
pub struct ResultView {
    pub harness: Seq<char>,
    pub variant: Option<Seq<char>>,
    pub harness_id: Seq<char>,
    pub model: Option<Seq<char>>,
    pub available: bool,
    pub session_id: Option<Seq<char>>,
    pub status: Status,
    pub exit_code: Option<i32>,
    pub duration_ms: Option<u128>,
    pub text: Option<Seq<char>>,
    pub stdout: Seq<char>,
    pub error: Option<Seq<char>>,
    pub failure_kind: Option<Seq<char>>,
    pub failure_kind_source: Option<Seq<char>>,
    pub telemetry: Option<TelemetryView>,
    pub usage: UsageView,
    pub events: Option<Seq<EventView>>,
}

/// What a [`ToolEvent`] says.
pub struct EventView {
    pub kind: Seq<char>,
    pub name: Option<Seq<char>>,
    pub input: Option<Seq<char>>,
    pub output: Option<Seq<char>>,
    pub index: usize,
    pub tool_call_id: Option<Seq<char>>,
}

/// What an event says.
pub open spec fn event_view(event: ToolEvent) -> EventView {
    EventView {
        kind: event.kind@,
        name: opt_text(event.name),
        input: opt_text(event.input),
        output: opt_text(event.output),
        index: event.index,
        tool_call_id: opt_text(event.tool_call_id),
    }
}

/// What a list of events says.
pub open spec fn event_views(events: Seq<ToolEvent>) -> Seq<EventView> {
    Seq::new(events.len(), |i: int| event_view(events[i]))
}

/// What an optional list of events says.
pub open spec fn opt_events(events: Option<Vec<ToolEvent>>) -> Option<Seq<EventView>> {
    match events {
        Some(events) => Some(event_views(events@)),
        None => None,
    }
}

/// What an optional telemetry says.
pub open spec fn opt_telemetry(telemetry: Option<ExecutionTelemetry>) -> Option<TelemetryView> {
    match telemetry {
        Some(telemetry) => Some(telemetry@),
        None => None,
    }
}

impl View for CandidateResult {
    type V = ResultView;

    open spec fn view(&self) -> ResultView {
        ResultView {
            harness: self.harness@,
            variant: opt_text(self.variant),
            harness_id: self.harness_id@,
            model: opt_text(self.model),
            available: self.available,
            session_id: opt_text(self.session_id),
            status: self.status,
            exit_code: self.exit_code,
            duration_ms: self.duration_ms,
            text: opt_text(self.text),
            stdout: self.stdout@,
            error: opt_text(self.error),
            failure_kind: opt_text(self.failure_kind),
            failure_kind_source: opt_text(self.failure_kind_source),
            telemetry: opt_telemetry(self.telemetry),
            usage: self.usage@,
            events: opt_events(self.events),
        }
    }
}

/// A candidate a chain passed over, and why.
#[derive(Debug, Clone, PartialEq, Eq)]
pub struct FallThrough {
    /// The harness.
    pub harness: String,
    /// Why, by its kebab-case token.
    pub reason: String,
}

/// What became of a fallback chain.
#[derive(Debug, Clone, PartialEq, Eq)]
pub struct FallbackReport {
    /// The candidate that ran, where one did.
    pub ran: Option<String>,
    /// The candidates passed over, in order.
    pub fell_through: Vec<FallThrough>,
}

/// What a [`FallbackReport`] says: who ran, and who was passed over why.
pub struct FallbackView {
    pub ran: Option<Seq<char>>,
    pub fell_through: Seq<(Seq<char>, Seq<char>)>,
}

/// What a list of passed-over candidates says.
pub open spec fn falls(fell_through: Seq<FallThrough>) -> Seq<(Seq<char>, Seq<char>)> {
    Seq::new(fell_through.len(), |i: int| (fell_through[i].harness@, fell_through[i].reason@))
}

impl View for FallbackReport {
    type V = FallbackView;

    open spec fn view(&self) -> FallbackView {
        FallbackView { ran: opt_text(self.ran), fell_through: falls(self.fell_through@) }
    }
}

/// A whole run report.
#[derive(Debug, Clone, PartialEq, Eq)]
pub struct TurnReport {
    /// The session handle the run bound, where it bound one.
    pub session: Option<String>,
    /// The path of the control socket the run opened, where it opened one.
    pub socket: Option<String>,
    /// The history file the run was recorded in.
    pub history_file: Option<String>,
    /// What became of the fallback chain, where there was one.
    pub fallback: Option<FallbackReport>,
    /// One result per attempted candidate.
    pub results: Vec<CandidateResult>,
}

/// What a [`TurnReport`] says.
pub struct ReportView {
    pub session: Option<Seq<char>>,
    pub socket: Option<Seq<char>>,
    pub history_file: Option<Seq<char>>,
    pub fallback: Option<FallbackView>,
    pub results: Seq<ResultView>,
}

/// What a list of results says.
pub open spec fn result_views(results: Seq<CandidateResult>) -> Seq<ResultView> {
    Seq::new(results.len(), |i: int| results[i]@)
}

impl View for TurnReport {
    type V = ReportView;

    open spec fn view(&self) -> ReportView {
        ReportView {
            session: opt_text(self.session),
            socket: opt_text(self.socket),
            history_file: opt_text(self.history_file),
            fallback: match self.fallback {
                Some(fallback) => Some(fallback@),
                None => None,
            },
            results: result_views(self.results@),
        }
    }
}

// --- Choosing the turn ------------------------------------------------------
/// The kind a fall-through reason stands for.
pub open spec fn kind_of_reason(reason: Seq<char>) -> ProviderErrorKind {
    if reason == "not-installed"@ || reason == "spawn-error"@ {
        ProviderErrorKind::Spawn
    } else if reason == "auth"@ {
        ProviderErrorKind::Auth
    } else if reason == "quota"@ {
        ProviderErrorKind::Quota
    } else if reason == "model-not-found"@ {
        ProviderErrorKind::ModelNotFound
    } else if reason == "rate-limit"@ {
        ProviderErrorKind::RateLimit
    } else {
        ProviderErrorKind::Other
    }
}

/// Map a fall-through reason token to a classified kind; an unknown one stays
/// unclassified rather than being guessed at.
pub fn reason_kind(reason: &str) -> (kind: ProviderErrorKind)
    ensures
        kind == kind_of_reason(reason@),
{
    if same(reason, "not-installed") || same(reason, "spawn-error") {
        ProviderErrorKind::Spawn
    } else if same(reason, "auth") {
        ProviderErrorKind::Auth
    } else if same(reason, "quota") {
        ProviderErrorKind::Quota
    } else if same(reason, "model-not-found") {
        ProviderErrorKind::ModelNotFound
    } else if same(reason, "rate-limit") {
        ProviderErrorKind::RateLimit
    } else {
        ProviderErrorKind::Other
    }
}

/// The kind a failure token stands for.
pub open spec fn kind_of_failure(token: Seq<char>) -> ProviderErrorKind {
    if token == "auth"@ {
        ProviderErrorKind::Auth
    } else if token == "rate_limit"@ {
        ProviderErrorKind::RateLimit
    } else if token == "model_not_found"@ {
        ProviderErrorKind::ModelNotFound
    } else if token == "quota"@ {
        ProviderErrorKind::Quota
    } else {
        ProviderErrorKind::Other
    }
}

/// Map a failure token onto the kinds a caller branches on. A deferred tool call
/// and a session that is not there are no environment category, so they stay
/// [`ProviderErrorKind::Other`], as does a kind this version does not know.
pub fn classify(token: &str) -> (kind: ProviderErrorKind)
    ensures
        kind == kind_of_failure(token@),
{
    if same(token, "auth") {
        ProviderErrorKind::Auth
    } else if same(token, "rate_limit") {
        ProviderErrorKind::RateLimit
    } else if same(token, "model_not_found") {
        ProviderErrorKind::ModelNotFound
    } else if same(token, "quota") {
        ProviderErrorKind::Quota
    } else {
        ProviderErrorKind::Other
    }
}

/// The passed-over candidates in words: `<harness> [<reason>]`.
pub open spec fn chain_words(fell_through: Seq<(Seq<char>, Seq<char>)>) -> Seq<Seq<char>> {
    Seq::new(
        fell_through.len(),
        |i: int| fell_through[i].0 + " ["@ + fell_through[i].1 + "]"@,
    )
}

/// The failure of a chain in which no candidate could run, classified by the last
/// reason tried.
pub open spec fn exhausted(op: Seq<char>, fell_through: Seq<(Seq<char>, Seq<char>)>) -> ErrorView {
    classified(
        op,
        "no oneharness fallback candidate could run the turn; all "@ + decimal(
            fell_through.len(),
        ) + " candidate(s) failed to start ("@ + joined(chain_words(fell_through), ", "@) + ")"@,
        if fell_through.len() == 0 {
            ProviderErrorKind::Spawn
        } else {
            kind_of_reason(fell_through.last().1)
        },
    )
}

/// Whether the result is that of the candidate called `ran`.
pub open spec fn is_candidate(result: ResultView, ran: Seq<char>) -> bool {
    result.harness_id == ran || result.harness == ran
}

/// The last result below `n` of the candidate called `ran`, or -1.
pub open spec fn last_of(results: Seq<ResultView>, ran: Seq<char>, n: int) -> int
    decreases n,
{
    if n <= 0 || n > results.len() {
        -1
    } else if is_candidate(results[n - 1], ran) {
        n - 1
    } else {
        last_of(results, ran, n - 1)
    }
}

/// Which result is the turn, or why there is none: without a chain the first
/// result; with one the last result of the candidate that ran, or the last result
/// of all where none carries its name; and where no candidate ran, none. A report
/// that cannot describe a run at all is a violation of the protocol.
pub open spec fn selected(op: Seq<char>, report: ReportView) -> Result<
    Result<int, ErrorView>,
    ErrorView,
> {
    match report.fallback {
        Some(fallback) => match fallback.ran {
            None => Ok(Err(exhausted(op, fallback.fell_through))),
            Some(ran) => if report.results.len() == 0 {
                Err(
                    classified(
                        op,
                        "oneharness reported fallback harness `"@ + ran
                            + "` but carried no results"@,
                        ProviderErrorKind::Protocol,
                    ),
                )
            } else {
                let last = last_of(report.results, ran, report.results.len() as int);
                Ok(
                    Ok(
                        if last >= 0 {
                            last
                        } else {
                            report.results.len() - 1
                        },
                    ),
                )
            },
        },
        None => if report.results.len() == 0 {
            Err(
                classified(
                    op,
                    "oneharness report carried no results"@,
                    ProviderErrorKind::Protocol,
                ),
            )
        } else {
            Ok(Ok(0))
        },
    }
}

/// The kind of failure a status stands for, where it stands for one.
pub open spec fn kind_of_status(status: Status) -> Option<ProviderErrorKind> {
    match status {
        Status::Timeout => Some(ProviderErrorKind::Timeout),
        Status::Cancelled => Some(ProviderErrorKind::Cancelled),
        Status::SpawnError | Status::Skipped => Some(ProviderErrorKind::Spawn),
        Status::Planned => Some(ProviderErrorKind::Protocol),
        Status::Succeeded | Status::Nonzero => None,
    }
}

/// The classified error of a candidate that did not produce a turn, or none when it
/// did: its failure kind first, and where it has none its status.
pub open spec fn failure_of(op: Seq<char>, result: ResultView) -> Option<ErrorView> {
    match result.failure_kind {
        Some(kind) => Some(
            classified(
                op,
                match result.error {
                    Some(error) => error,
                    None => "harness failed ("@ + kind + ")"@,
                },
                kind_of_failure(kind),
            ),
        ),
        None => match kind_of_status(result.status) {
            None => None,
            Some(kind) => Some(
                classified(
                    op,
                    "harness `"@ + result.harness_id + "` did not run the turn: "@ + (
                    match result.error {
                        Some(error) => error,
                        None => "oneharness reported status `"@ + result.status.token() + "`"@,
                    }),
                    kind,
                ),
            ),
        },
    }
}

/// Pick the result that is this turn: its place, or the failure of a chain that
/// produced none. The outer error is for a report that cannot describe a run.
pub fn select(op: &str, report: &TurnReport) -> (r: Result<Result<usize, Error>, Error>)
    ensures
        match r {
            Ok(Ok(index)) => {
                &&& selected(op@, report@) == Ok::<_, ErrorView>(
                    Ok::<int, ErrorView>(index as int),
                )
                &&& index < report.results@.len()
            },
            Ok(Err(err)) => selected(op@, report@) == Ok::<_, ErrorView>(
                Err::<int, ErrorView>(err@),
            ),
            Err(err) => selected(op@, report@) == Err::<Result<int, ErrorView>, _>(err@),
        },
{
    let fallback = match &report.fallback {
        Some(fallback) => fallback,
        None => {
            if report.results.len() == 0 {
                return Err(
                    Error::provider_classified(
                        op,
                        "oneharness report carried no results",
                        ProviderErrorKind::Protocol,
                    ),
                );
            }
            return Ok(Ok(0));
        },
    };
    let ran = match &fallback.ran {
        Some(ran) => ran,
        None => return Ok(Err(exhausted_chain(op, &fallback.fell_through))),
    };
    let n: usize = report.results.len();
    if n == 0 {
        let mut message = "oneharness reported fallback harness `".to_owned();
        message.append(ran.as_str());
        message.append("` but carried no results");
        return Err(
            Error::provider_classified(op, message.as_str(), ProviderErrorKind::Protocol),
        );
    }
    let ghost results = report@.results;
    let mut i: usize = n;
    while i > 0
        invariant
            i <= n,
            n == report.results@.len(),
            results == result_views(report.results@),
            last_of(results, ran@, n as int) == last_of(results, ran@, i as int),
            n > 0,
            report@.results == results,
            report@.fallback is Some,
            report@.fallback->0.ran == Some(ran@),
        decreases i,
    {
        let result = &report.results[i - 1];
        proof {
            assert(results[i - 1] == report.results@[i - 1]@);
        }
        if same(result.harness_id.as_str(), ran.as_str()) || same(
            result.harness.as_str(),
            ran.as_str(),
        ) {
            return Ok(Ok(i - 1));
        }
        i = i - 1;
    }
    Ok(Ok(n - 1))
}

fn exhausted_chain(op: &str, fell_through: &Vec<FallThrough>) -> (err: Error)
    ensures
        err@ == exhausted(op@, falls(fell_through@)),
{
    let mut parts: Vec<String> = Vec::new();
    let mut i: usize = 0;
    while i < fell_through.len()
        invariant
            i <= fell_through@.len(),
            parts@.len() == i,
            forall|j: int|
                0 <= j < i ==> (#[trigger] parts@[j])@ == chain_words(falls(fell_through@))[j],
        decreases fell_through@.len() - i,
    {
        let mut part = fell_through[i].harness.clone();
        part.append(" [");
        part.append(fell_through[i].reason.as_str());
        part.append("]");
        parts.push(part);
        i = i + 1;
    }
    proof {
        assert(texts(parts@) =~= chain_words(falls(fell_through@)));
    }
    let mut message = "no oneharness fallback candidate could run the turn; all ".to_owned();
    message.append(decimal_of(fell_through.len() as u64).as_str());
    message.append(" candidate(s) failed to start (");
    message.append(join(parts.as_slice(), ", ").as_str());
    message.append(")");
    let kind = if fell_through.len() == 0 {
        ProviderErrorKind::Spawn
    } else {
        reason_kind(fell_through[fell_through.len() - 1].reason.as_str())
    };
    Error::provider_classified(op, message.as_str(), kind)
}

/// The classified error of a candidate that did not produce a turn, or `None` when
/// it did.
pub fn failure(op: &str, result: &CandidateResult) -> (err: Option<Error>)
    ensures
        match err {
            Some(err) => failure_of(op@, result@) == Some(err@),
            None => failure_of(op@, result@) is None,
        },
{
    if let Some(kind) = &result.failure_kind {
        let message = match &result.error {
            Some(error) => error.clone(),
            None => {
                let mut message = "harness failed (".to_owned();
                message.append(kind.as_str());
                message.append(")");
                message
            },
        };
        return Some(
            Error::provider_classified(op, message.as_str(), classify(kind.as_str())),
        );
    }
    let kind = match result.status {
        Status::Timeout => ProviderErrorKind::Timeout,
        Status::Cancelled => ProviderErrorKind::Cancelled,
        Status::SpawnError | Status::Skipped => ProviderErrorKind::Spawn,
        Status::Planned => ProviderErrorKind::Protocol,
        Status::Succeeded | Status::Nonzero => return None,
    };
    let detail = match &result.error {
        Some(error) => error.clone(),
        None => {
            let mut detail = "oneharness reported status `".to_owned();
            detail.append(status_token(result.status));
            detail.append("`");
            detail
        },
    };
    let mut message = "harness `".to_owned();
    message.append(result.harness_id.as_str());
    message.append("` did not run the turn: ");
    message.append(detail.as_str());
    Some(Error::provider_classified(op, message.as_str(), kind))
}

// --- Measurements -----------------------------------------------------------
/// A duration narrowed to 64 bits. One that does not fit is not plausible, so it is
/// reported as unknown rather than wrapped into a wrong one.
pub fn millis(value: Option<u128>) -> (r: Option<u64>)
    ensures
        r == narrowed(value),
{
    match value {
        Some(v) => if v <= u64::MAX as u128 {
            Some(v as u64)
        } else {
            None
        },
        None => None,
    }
}

/// A duration narrowed to 64 bits, unknown where it does not fit.
pub open spec fn narrowed(value: Option<u128>) -> Option<u64> {
    match value {
        Some(v) => if v <= u64::MAX {
            Some(v as u64)
        } else {
            None
        },
        None => None,
    }
}

/// What was measured of one candidate.
#[derive(Debug, Clone, Default, PartialEq, Eq)]
pub struct Measured {
    /// When it started.
    pub started_at: Option<String>,
    /// When it finished.
    pub finished_at: Option<String>,
    /// Time spent in the model.
    pub model_ms: Option<u64>,
    /// Time spent in tools.
    pub tool_ms: Option<u64>,
    /// Time until the first token.
    pub time_to_first_token_ms: Option<u64>,
}

/// What a [`Measured`] says.
pub struct MeasuredView {
    pub started_at: Option<Seq<char>>,
    pub finished_at: Option<Seq<char>>,
    pub model_ms: Option<u64>,
    pub tool_ms: Option<u64>,
    pub time_to_first_token_ms: Option<u64>,
}

impl View for Measured {
    type V = MeasuredView;

    open spec fn view(&self) -> MeasuredView {
        MeasuredView {
            started_at: opt_text(self.started_at),
            finished_at: opt_text(self.finished_at),
            model_ms: self.model_ms,
            tool_ms: self.tool_ms,
            time_to_first_token_ms: self.time_to_first_token_ms,
        }
    }
}

impl MeasuredView {
    /// Nothing measured.
    pub open spec fn nothing() -> Self {
        MeasuredView {
            started_at: None,
            finished_at: None,
            model_ms: None,
            tool_ms: None,
            time_to_first_token_ms: None,
        }
    }
}

/// What a telemetry claims to have measured: a provider's trace everything, one
/// that stopped mid-turn only its start, and intervals seen at a pipe nothing of
/// what is reported here.
pub open spec fn measured_of(telemetry: Option<TelemetryView>) -> MeasuredView {
    match telemetry {
        Some(
            TelemetryView::ProviderMeasured {
                started_at,
                finished_at,
                model_ms,
                tool_ms,
                time_to_first_token_ms,
            },
        ) => MeasuredView {
            started_at: Some(started_at),
            finished_at,
            model_ms: narrowed(model_ms),
            tool_ms: narrowed(tool_ms),
            time_to_first_token_ms: narrowed(time_to_first_token_ms),
        },
        Some(TelemetryView::PartialInvocation { started_at }) => MeasuredView {
            started_at: Some(started_at),
            ..MeasuredView::nothing()
        },
        _ => MeasuredView::nothing(),
    }
}

fn unmeasured() -> (m: Measured)
    ensures
        m@ == MeasuredView::nothing(),
{
    Measured {
        started_at: None,
        finished_at: None,
        model_ms: None,
        tool_ms: None,
        time_to_first_token_ms: None,
    }
}

/// Read what was measured of one result, reporting only what its telemetry claims
/// to have measured.
pub fn measured(result: &CandidateResult) -> (m: Measured)
    ensures
        m@ == measured_of(result@.telemetry),
{
    match &result.telemetry {
        Some(
            ExecutionTelemetry::ProviderMeasured {
                started_at,
                finished_at,
                model_ms,
                tool_ms,
                time_to_first_token_ms,
            },
        ) => Measured {
            started_at: Some(started_at.clone()),
            finished_at: crate::text::copy_opt(finished_at),
            model_ms: millis(*model_ms),
            tool_ms: millis(*tool_ms),
            time_to_first_token_ms: millis(*time_to_first_token_ms),
        },
        Some(ExecutionTelemetry::PartialInvocation { started_at }) => Measured {
            started_at: Some(started_at.clone()),
            finished_at: None,
            model_ms: None,
            tool_ms: None,
            time_to_first_token_ms: None,
        },
        Some(ExecutionTelemetry::StdoutObserved { .. }) | None => unmeasured(),
    }
}

// --- Reading a report -------------------------------------------------------
/// A run report of `oneharness_core`.
#[verifier::external_type_specification]
#[verifier::external_body]
pub struct ExRunReport(oneharness_core::domain::report::RunReport);

/// One candidate's result of `oneharness_core`.
#[verifier::external_type_specification]
#[verifier::external_body]
pub struct ExRunResult(oneharness_core::domain::report::RunResult);

/// What reading a document as a run report gives: the report, or the reader's words
/// on why it is none.
pub uninterp spec fn report_outcome(json: JsonView) -> Result<ReportView, Seq<char>>;

/// What a run report of `oneharness_core` says.
pub uninterp spec fn report_model(
    report: oneharness_core::domain::report::RunReport,
) -> ReportView;

/// What one candidate's result of `oneharness_core` says.
pub uninterp spec fn result_model(
    result: oneharness_core::domain::report::RunResult,
) -> ResultView;

/// `serde_json::from_value` into `oneharness_core`'s `RunReport`. What it gives is a
/// function of the document alone, named `report_outcome`: the report, or the words
/// of its error.
#[verifier::external_body]
fn report_of(value: &serde_json::Value) -> (r: Result<
    oneharness_core::domain::report::RunReport,
    String,
>)
    ensures
        report_outcome(value_model(*value)) == match r {
            Ok(report) => Ok(report_model(report)),
            Err(why) => Err(why@),
        },
{
    serde_json::from_value(value.clone()).map_err(|why: serde_json::Error| why.to_string())
}

/// Takes a `RunReport` of `oneharness_core` apart: what it says of the run, and its
/// results as they are. A socket path that is not valid UTF-8 counts as none.
#[verifier::external_body]
fn open_report(report: oneharness_core::domain::report::RunReport) -> (r: (
    TurnReport,
    Vec<oneharness_core::domain::report::RunResult>,
))
    ensures
        report_model(report) == (ReportView {
            results: Seq::new(r.1@.len(), |i: int| result_model(r.1@[i])),
            ..r.0@
        }),
{
    let socket = report.control.as_ref().and_then(|c| c.socket.as_path().to_str());
    let head = TurnReport {
        session: report.session.map(|s| s.name),
        socket: socket.map(str::to_string),
        history_file: report.history_file,
        fallback: report.fallback.map(|f| FallbackReport {
            ran: f.ran,
            fell_through: f.fell_through.into_iter().map(|t| FallThrough {
                harness: t.harness,
                reason: t.reason.as_str().to_string(),
            }).collect(),
        }),
        results: Vec::new(),
    };
    (head, report.results)
}

/// Who a candidate is.
struct Identity {
    harness: String,
    variant: Option<String>,
    harness_id: String,
    model: Option<String>,
    available: bool,
    session_id: Option<String>,
}

/// How a candidate ended.
struct Ending {
    status: Status,
    exit_code: Option<i32>,
    duration_ms: Option<u128>,
    text: Option<String>,
    stdout: String,
    error: Option<String>,
}

/// Reads who a candidate is off a `RunResult` of `oneharness_core`, field by field.
#[verifier::external_body]
fn result_identity(result: &oneharness_core::domain::report::RunResult) -> (r: Identity)
    ensures
        result_model(*result).harness == r.harness@,
        result_model(*result).variant == opt_text(r.variant),
        result_model(*result).harness_id == r.harness_id@,
        result_model(*result).model == opt_text(r.model),
        result_model(*result).available == r.available,
        result_model(*result).session_id == opt_text(r.session_id),
{
    Identity {
        harness: result.harness.clone(),
        variant: result.variant.clone(),
        harness_id: result.harness_id.clone(),
        model: result.model.clone(),
        available: result.available,
        session_id: result.session_id.clone(),
    }
}

/// Reads how a candidate ended off a `RunResult` of `oneharness_core`, field by
/// field.
#[verifier::external_body]
fn result_ending(result: &oneharness_core::domain::report::RunResult) -> (r: Ending)
    ensures
        result_model(*result).status == r.status,
        result_model(*result).exit_code == r.exit_code,
        result_model(*result).duration_ms == r.duration_ms,
        result_model(*result).text == opt_text(r.text),
        result_model(*result).stdout == r.stdout@,
        result_model(*result).error == opt_text(r.error),
{
    let status = match result.status {
        oneharness_core::domain::report::Status::Ok => Status::Succeeded,
        oneharness_core::domain::report::Status::Nonzero => Status::Nonzero,
        oneharness_core::domain::report::Status::Timeout => Status::Timeout,
        oneharness_core::domain::report::Status::Cancelled => Status::Cancelled,
        oneharness_core::domain::report::Status::SpawnError => Status::SpawnError,
        oneharness_core::domain::report::Status::Skipped => Status::Skipped,
        oneharness_core::domain::report::Status::Planned => Status::Planned,
    };
    let (text, stdout) = (result.text.clone(), result.stdout.clone());
    let (exit_code, duration_ms) = (result.exit_code, result.duration_ms);
    Ending { status, exit_code, duration_ms, text, stdout, error: result.error.clone() }
}

/// Reads the classified failure off a `RunResult` of `oneharness_core`: the token
/// its `FailureKind::as_str` gives, and what it was read from.
#[verifier::external_body]
fn result_failure(result: &oneharness_core::domain::report::RunResult) -> (r: (
    Option<String>,
    Option<String>,
))
    ensures
        result_model(*result).failure_kind == opt_text(r.0),
        result_model(*result).failure_kind_source == opt_text(r.1),
{
    (
        result.failure_kind.map(|kind| kind.as_str().to_string()),
        result.failure_kind_source.clone(),
    )
}

/// Reads what was measured off a `RunResult` of `oneharness_core`, variant by
/// variant.
#[verifier::external_body]
fn result_telemetry(result: &oneharness_core::domain::report::RunResult) -> (r: Option<
    ExecutionTelemetry,
>)
    ensures
        result_model(*result).telemetry == opt_telemetry(r),
{
    result.telemetry.clone().map(|telemetry| match telemetry {
        oneharness_core::domain::report::ExecutionTelemetry::ProviderMeasured { started_at, finished_at, model_ms, tool_ms, time_to_first_token_ms } => {
            ExecutionTelemetry::ProviderMeasured { started_at: started_at.as_str().to_string(), finished_at: finished_at.map(|at| at.as_str().to_string()), model_ms, tool_ms, time_to_first_token_ms }
        },
        oneharness_core::domain::report::ExecutionTelemetry::PartialInvocation { started_at } => {
            ExecutionTelemetry::PartialInvocation { started_at: started_at.as_str().to_string() }
        },
        oneharness_core::domain::report::ExecutionTelemetry::StdoutObserved { tool_ms } => {
            ExecutionTelemetry::StdoutObserved { tool_ms }
        },
    })
}

/// Reads the accounting off a `RunResult` of `oneharness_core`, field by field; the
/// cost by its bits.
#[verifier::external_body]
fn result_usage(result: &oneharness_core::domain::report::RunResult) -> (r: Usage)
    ensures
        result_model(*result).usage == r@,
{
    Usage {
        input_tokens: result.usage.input_tokens,
        output_tokens: result.usage.output_tokens,
        cache_read_tokens: result.usage.cache_read_tokens,
        cache_write_tokens: result.usage.cache_write_tokens,
        costs: result.usage.cost_usd.into_iter().map(|cost| cost.to_bits()).collect(),
    }
}

/// Reads the actions off a `RunResult` of `oneharness_core`: what a transcript keeps
/// of each `ActionEvent`, its input by its JSON text.
#[verifier::external_body]
fn result_events(result: &oneharness_core::domain::report::RunResult) -> (r: Option<Vec<ToolEvent>>)
    ensures
        result_model(*result).events == opt_events(r),
{
    result.events.clone().map(|events| events.into_iter().map(|event| ToolEvent {
        kind: event.kind,
        name: event.name,
        input: event.input.map(|input| input.to_string()),
        output: event.output,
        index: event.index,
        tool_call_id: event.tool_call_id,
    }).collect())
}

fn read_result(result: &oneharness_core::domain::report::RunResult) -> (r: CandidateResult)
    ensures
        r@ == result_model(*result),
{
    let Identity { harness, variant, harness_id, model, available, session_id } = result_identity(
        result,
    );
    let Ending { status, exit_code, duration_ms, text, stdout, error } = result_ending(result);
    let (failure_kind, failure_kind_source) = result_failure(result);
    let telemetry = result_telemetry(result);
    let usage = result_usage(result);
    let events = result_events(result);
    CandidateResult {
        harness,
        variant,
        harness_id,
        model,
        available,
        session_id,
        status,
        exit_code,
        duration_ms,
        text,
        stdout,
        error,
        failure_kind,
        failure_kind_source,
        telemetry,
        usage,
        events,
    }
}

/// The plain values of a report that `oneharness_core` handed back as a value.
pub fn read_report(report: oneharness_core::domain::report::RunReport) -> (r: TurnReport)
    ensures
        r@ == report_model(report),
{
    let (head, rest) = open_report(report);
    let mut results: Vec<CandidateResult> = Vec::new();
    let mut i: usize = 0;
    while i < rest.len()
        invariant
            i <= rest@.len(),
            results@.len() == i,
            forall|j: int| 0 <= j < i ==> (#[trigger] results@[j])@ == result_model(rest@[j]),
        decreases rest@.len() - i,
    {
        results.push(read_result(&rest[i]));
        i = i + 1;
    }
    let r = TurnReport { results, ..head };
    proof {
        assert(r@.results =~= report_model(report).results);
    }
    r
}

// --- An invocation ----------------------------------------------------------
/// The signals a report does not carry by itself, where whoever wrote it supplied
/// them on the result.
#[derive(Debug, Clone, Default, PartialEq, Eq)]
pub struct Supplemental {
    /// Time spent in the model.
    pub model_ms: Option<u64>,
    /// Time spent in tools.
    pub tool_ms: Option<u64>,
    /// Time until the first token.
    pub time_to_first_token_ms: Option<u64>,
    /// When the run started.
    pub started_at: Option<String>,
    /// When the run finished.
    pub finished_at: Option<String>,
    /// The history record of the run.
    pub history_id: Option<String>,
}

/// What a [`Supplemental`] says.
pub struct SupplementalView {
    pub model_ms: Option<u64>,
    pub tool_ms: Option<u64>,
    pub time_to_first_token_ms: Option<u64>,
    pub started_at: Option<Seq<char>>,
    pub finished_at: Option<Seq<char>>,
    pub history_id: Option<Seq<char>>,
}

impl View for Supplemental {
    type V = SupplementalView;

    open spec fn view(&self) -> SupplementalView {
        SupplementalView {
            model_ms: self.model_ms,
            tool_ms: self.tool_ms,
            time_to_first_token_ms: self.time_to_first_token_ms,
            started_at: opt_text(self.started_at),
            finished_at: opt_text(self.finished_at),
            history_id: opt_text(self.history_id),
        }
    }
}

impl SupplementalView {
    /// Nothing supplied.
    pub open spec fn nothing() -> Self {
        SupplementalView {
            model_ms: None,
            tool_ms: None,
            time_to_first_token_ms: None,
            started_at: None,
            finished_at: None,
            history_id: None,
        }
    }
}

/// Whether a member is left out, null, or of the wanted type.
pub open spec fn counts_or_absent(json: JsonView, name: Seq<char>) -> bool {
    match json.get(name) {
        None | Some(JsonView::Null) => true,
        Some(value) => value.whole() is Some,
    }
}

/// Whether a member is left out, null, or a string.
pub open spec fn says_or_absent(json: JsonView, name: Seq<char>) -> bool {
    match json.get(name) {
        None | Some(JsonView::Null) => true,
        Some(value) => value.text() is Some,
    }
}

/// The count of a member, where it has one.
pub open spec fn count_at(json: JsonView, name: Seq<char>) -> Option<u64> {
    match json.get(name) {
        Some(value) => value.whole(),
        None => None,
    }
}

/// The text of a member, where it has one.
pub open spec fn text_at(json: JsonView, name: Seq<char>) -> Option<Seq<char>> {
    match json.get(name) {
        Some(value) => value.text(),
        None => None,
    }
}

/// What a result supplies by itself: all of it where every signal is of its type,
/// else nothing.
pub open spec fn supplied(result: JsonView) -> SupplementalView {
    if result is Object && counts_or_absent(result, "model_ms"@) && counts_or_absent(
        result,
        "tool_ms"@,
    ) && counts_or_absent(result, "time_to_first_token_ms"@) && says_or_absent(
        result,
        "started_at"@,
    ) && says_or_absent(result, "finished_at"@) && says_or_absent(result, "history_id"@) {
        SupplementalView {
            model_ms: count_at(result, "model_ms"@),
            tool_ms: count_at(result, "tool_ms"@),
            time_to_first_token_ms: count_at(result, "time_to_first_token_ms"@),
            started_at: text_at(result, "started_at"@),
            finished_at: text_at(result, "finished_at"@),
            history_id: text_at(result, "history_id"@),
        }
    } else {
        SupplementalView::nothing()
    }
}

/// What a report document supplies on the result at `index`.
pub open spec fn supplied_at(json: JsonView, index: int) -> SupplementalView {
    match json.get("results"@) {
        Some(JsonView::List(items)) => if 0 <= index < items.len() {
            supplied(items[index])
        } else {
            SupplementalView::nothing()
        },
        _ => SupplementalView::nothing(),
    }
}

fn nothing_supplied() -> (s: Supplemental)
    ensures
        s@ == SupplementalView::nothing(),
{
    Supplemental {
        model_ms: None,
        tool_ms: None,
        time_to_first_token_ms: None,
        started_at: None,
        finished_at: None,
        history_id: None,
    }
}

fn read_count_at(json: &Json, name: &str) -> (r: Option<Option<u64>>)
    ensures
        match r {
            Some(count) => counts_or_absent(json@, name@) && count == count_at(json@, name@),
            None => !counts_or_absent(json@, name@),
        },
{
    match json.get(name) {
        None | Some(Json::Null) => Some(None),
        Some(value) => match value.as_u64() {
            Some(n) => Some(Some(n)),
            None => None,
        },
    }
}

fn read_text_at(json: &Json, name: &str) -> (r: Option<Option<String>>)
    ensures
        match r {
            Some(text) => says_or_absent(json@, name@) && opt_text(text) == text_at(json@, name@),
            None => !says_or_absent(json@, name@),
        },
{
    match json.get(name) {
        None | Some(Json::Null) => Some(None),
        Some(value) => match value.as_str() {
            Some(text) => Some(Some(text.to_owned())),
            None => None,
        },
    }
}

fn read_supplied(result: &Json) -> (s: Supplemental)
    ensures
        s@ == supplied(result@),
{
    match result {
        Json::Object(_) => {},
        _ => return nothing_supplied(),
    }
    match (
        read_count_at(result, "model_ms"),
        read_count_at(result, "tool_ms"),
        read_count_at(result, "time_to_first_token_ms"),
        read_text_at(result, "started_at"),
        read_text_at(result, "finished_at"),
        read_text_at(result, "history_id"),
    ) {
        (
            Some(model_ms),
            Some(tool_ms),
            Some(time_to_first_token_ms),
            Some(started_at),
            Some(finished_at),
            Some(history_id),
        ) => Supplemental {
            model_ms,
            tool_ms,
            time_to_first_token_ms,
            started_at,
            finished_at,
            history_id,
        },
        _ => nothing_supplied(),
    }
}

fn read_supplied_at(json: &Json, index: usize) -> (s: Supplemental)
    ensures
        s@ == supplied_at(json@, index as int),
{
    if let Some(results) = json.get("results") {
        if let Some(items) = results.as_array() {
            if index < items.len() {
                proof {
                    assert(crate::json::all_json(items@)[index as int] == items@[index as int]@);
                }
                return read_supplied(&items[index]);
            }
        }
    }
    nothing_supplied()
}

/// One invocation of `oneharness`: its whole report, which of its results is the
/// turn, and the classified failure it carries (if any).
///
/// A *readable* report is always an invocation, even when the run failed: the
/// failure is exactly the case whose per-candidate attribution a consumer needs, so
/// the caller records the invocation and only then surfaces the failure with
/// [`Invocation::into_ok`].
#[derive(Debug, Clone, PartialEq, Eq)]
pub struct Invocation {
    /// The report.
    pub report: TurnReport,
    /// The place of the candidate that actually ran; `None` when no candidate could
    /// run at all.
    pub ran: Option<usize>,
    /// The signals the report does not carry by itself.
    pub supplemental: Supplemental,
    /// Why this invocation produced no usable turn, when it did not.
    pub failure: Option<Error>,
}

/// What an [`Invocation`] says.
pub struct InvocationView {
    pub report: ReportView,
    pub ran: Option<int>,
    pub supplemental: SupplementalView,
    pub failure: Option<ErrorView>,
}

impl View for Invocation {
    type V = InvocationView;

    open spec fn view(&self) -> InvocationView {
        InvocationView {
            report: self.report@,
            ran: match self.ran {
                Some(index) => Some(index as int),
                None => None,
            },
            supplemental: self.supplemental@,
            failure: match self.failure {
                Some(err) => Some(err@),
                None => None,
            },
        }
    }
}

impl InvocationView {
    /// The candidate that ran is one of the results.
    pub open spec fn wf(self) -> bool {
        self.ran is Some ==> 0 <= self.ran->0 < self.report.results.len()
    }

    /// The candidate whose result is this turn, when one ran.
    pub open spec fn result(self) -> Option<ResultView> {
        match self.ran {
            Some(index) => Some(self.report.results[index]),
            None => None,
        }
    }

    /// The reply text: what the candidate said, or what its process wrote where it
    /// said nothing.
    pub open spec fn reply(self) -> Seq<char> {
        match self.result() {
            Some(result) => match result.text {
                Some(text) => if text.len() > 0 {
                    text
                } else {
                    result.stdout
                },
                None => result.stdout,
            },
            None => Seq::empty(),
        }
    }

    /// What the turn used, where anything was reported.
    pub open spec fn usage(self) -> Option<UsageView> {
        match self.result() {
            Some(result) => result.usage.reported(),
            None => None,
        }
    }

    /// What the turn did on the way.
    pub open spec fn events(self) -> Seq<EventView> {
        match self.result() {
            Some(result) => match result.events {
                Some(events) => events,
                None => Seq::empty(),
            },
            None => Seq::empty(),
        }
    }
}

/// What a report comes to: the turn it selects, what is supplied on it, and its
/// failure where it carries one.
pub open spec fn invoked(
    op: Seq<char>,
    report: ReportView,
    supplied: spec_fn(int) -> SupplementalView,
) -> Result<InvocationView, ErrorView> {
    match selected(op, report) {
        Err(err) => Err(err),
        Ok(Err(err)) => Ok(
            InvocationView {
                report,
                ran: None,
                supplemental: SupplementalView::nothing(),
                failure: Some(err),
            },
        ),
        Ok(Ok(index)) => Ok(
            InvocationView {
                report,
                ran: Some(index),
                supplemental: supplied(index),
                failure: failure_of(op, report.results[index]),
            },
        ),
    }
}

/// What a report handed back as a value comes to.
pub open spec fn invoked_typed(op: Seq<char>, report: ReportView) -> Result<
    InvocationView,
    ErrorView,
> {
    invoked(op, report, |index: int| SupplementalView::nothing())
}

/// What a report document comes to.
pub open spec fn invoked_value(op: Seq<char>, json: JsonView) -> Result<InvocationView, ErrorView> {
    match report_outcome(json) {
        Err(why) => Err(
            classified(
                op,
                "oneharness report had an unreadable shape: "@ + why + "; got: "@ + written(json),
                ProviderErrorKind::Protocol,
            ),
        ),
        Ok(report) => invoked(op, report, |index: int| supplied_at(json, index)),
    }
}

/// What a report text comes to.
pub open spec fn invoked_text(op: Seq<char>, stdout: Seq<char>) -> Result<
    InvocationView,
    ErrorView,
> {
    match json_outcome(trimmed(stdout)) {
        Err(why) => Err(
            classified(
                op,
                "oneharness report was not valid JSON: "@ + why + "; got: "@ + trimmed(stdout),
                ProviderErrorKind::Protocol,
            ),
        ),
        Ok(json) => invoked_value(op, json),
    }
}

/// Classify a report that was handed back **as a value**. The selection and the
/// failure classification are the same a report document goes through.
pub fn parse_report_typed(op: &str, report: TurnReport) -> (r: Result<Invocation, Error>)
    ensures
        crate::provider::said(r) == invoked_typed(op@, report@),
        r is Ok ==> r->Ok_0@.wf(),
{
    match select(op, &report) {
        Err(err) => Err(err),
        Ok(Err(err)) => Ok(
            Invocation {
                report,
                ran: None,
                supplemental: nothing_supplied(),
                failure: Some(err),
            },
        ),
        Ok(Ok(index)) => {
            proof {
                assert(report@.results[index as int] == report.results@[index as int]@);
            }
            let failure = failure(op, &report.results[index]);
            Ok(
                Invocation {
                    report,
                    ran: Some(index),
                    supplemental: nothing_supplied(),
                    failure,
                },
            )
        },
    }
}

/// Read an already-decoded report document. A streamed report's terminal line and a
/// buffered report both land here.
pub fn parse_report_value(op: &str, value: serde_json::Value) -> (r: Result<Invocation, Error>)
    ensures
        crate::provider::said(r) == invoked_value(op@, value_model(value)),
        r is Ok ==> r->Ok_0@.wf(),
{
    let typed = report_of(&value);
    let json = read(value);
    let report = match typed {
        Ok(report) => read_report(report),
        Err(why) => {
            let mut message = "oneharness report had an unreadable shape: ".to_owned();
            message.append(why.as_str());
            message.append("; got: ");
            message.append(json.write().as_str());
            return Err(
                Error::provider_classified(op, message.as_str(), ProviderErrorKind::Protocol),
            );
        },
    };
    match select(op, &report) {
        Err(err) => Err(err),
        Ok(Err(err)) => Ok(
            Invocation {
                report,
                ran: None,
                supplemental: nothing_supplied(),
                failure: Some(err),
            },
        ),
        Ok(Ok(index)) => {
            proof {
                assert(report@.results[index as int] == report.results@[index as int]@);
            }
            let supplemental = read_supplied_at(&json, index);
            let failure = failure(op, &report.results[index]);
            Ok(Invocation { report, ran: Some(index), supplemental, failure })
        },
    }
}

/// Read a report off the stdout of a run.
pub fn parse_report(op: &str, stdout: &str) -> (r: Result<Invocation, Error>)
    ensures
        crate::provider::said(r) == invoked_text(op@, stdout@),
        r is Ok ==> r->Ok_0@.wf(),
{
    let text = trim(stdout);
    match parse_value(text) {
        Ok(value) => parse_report_value(op, value),
        Err(why) => {
            let mut message = "oneharness report was not valid JSON: ".to_owned();
            message.append(why.as_str());
            message.append("; got: ");
            message.append(text);
            Err(Error::provider_classified(op, message.as_str(), ProviderErrorKind::Protocol))
        },
    }
}

impl Invocation {
    /// Surface the classified failure this invocation carries, if any. Called after
    /// the caller has recorded it, so a failed run still attributes itself to the
    /// identities that were attempted.
    pub fn into_ok(self) -> (r: Result<Self, Error>)
        ensures
            match self.failure {
                Some(err) => r == Err::<Invocation, Error>(err),
                None => r == Ok::<Invocation, Error>(self),
            },
    {
        match self.failure {
            Some(err) => Err(err),
            None => Ok(
                Invocation {
                    report: self.report,
                    ran: self.ran,
                    supplemental: self.supplemental,
                    failure: None,
                },
            ),
        }
    }

    /// The candidate whose result is this turn, when one ran.
    pub fn result(&self) -> (r: Option<&CandidateResult>)
        requires
            self@.wf(),
        ensures
            match r {
                Some(result) => self@.result() == Some(result@),
                None => self@.result() is None,
            },
    {
        match self.ran {
            Some(index) => {
                proof {
                    assert(self@.report.results[index as int]
                        == self.report.results@[index as int]@);
                }
                Some(&self.report.results[index])
            },
            None => None,
        }
    }

    /// The reply text, falling back to raw stdout where the candidate produced
    /// output but no text.
    pub fn reply(&self) -> (text: String)
        requires
            self@.wf(),
        ensures
            text@ == self@.reply(),
    {
        match self.result() {
            Some(result) => match &result.text {
                Some(text) => if text.as_str().is_empty() {
                    result.stdout.clone()
                } else {
                    text.clone()
                },
                None => result.stdout.clone(),
            },
            None => String::new(),
        }
    }

    /// The turn's accounting, or `None` when nothing was reported.
    pub fn usage(&self) -> (usage: Option<Usage>)
        requires
            self@.wf(),
        ensures
            opt_usage(usage) == self@.usage(),
    {
        match self.result() {
            Some(result) => {
                let mut usage = Usage::none();
                usage.add(&result.usage);
                proof {
                    crate::usage::lemma_nothing_adds_nothing(result.usage@);
                }
                usage.reported()
            },
            None => None,
        }
    }

    /// The turn's tool events.
    pub fn events(&self) -> (events: Vec<ToolEvent>)
        requires
            self@.wf(),
        ensures
            event_views(events@) == self@.events(),
    {
        let mut out: Vec<ToolEvent> = Vec::new();
        if let Some(result) = self.result() {
            if let Some(events) = &result.events {
                let mut i: usize = 0;
                while i < events.len()
                    invariant
                        i <= events@.len(),
                        out@.len() == i,
                        forall|j: int|
                            0 <= j < i ==> event_view(#[trigger] out@[j]) == event_view(events@[j]),
                    decreases events@.len() - i,
                {
                    out.push(copy_event(&events[i]));
                    i = i + 1;
                }
                proof {
                    assert(event_views(out@) =~= event_views(events@));
                }
                return out;
            }
        }
        proof {
            assert(event_views(out@) =~= Seq::empty());
        }
        out
    }
}

/// The same event once more.
pub fn copy_event(event: &ToolEvent) -> (r: ToolEvent)
    ensures
        r == *event,
{
    ToolEvent {
        kind: event.kind.clone(),
        name: crate::text::copy_opt(&event.name),
        input: crate::text::copy_opt(&event.input),
        output: crate::text::copy_opt(&event.output),
        index: event.index,
        tool_call_id: crate::text::copy_opt(&event.tool_call_id),
    }
}

// --- The control address ----------------------------------------------------
/// The half of a control address the report carries: the session handle the run
/// bound, and the store directory holding both that handle and its
/// `control/<session>.sock`. The turn's working directory is the caller's to add.
#[derive(Debug, Clone, PartialEq, Eq)]
pub struct ControlSocket {
    /// The session handle.
    pub session: String,
    /// The store directory.
    pub session_dir: String,
}

/// The address of the control socket a report names: the session the run bound, and
/// the socket's own grandparent directory.
pub open spec fn socket_address(report: ReportView) -> Option<(Seq<char>, Seq<char>)> {
    match (report.session, report.socket) {
        (Some(session), Some(socket)) => match parent(socket) {
            Some(control_dir) => match parent(control_dir) {
                Some(session_dir) => Some((session, session_dir)),
                None => None,
            },
            None => None,
        },
        _ => None,
    }
}

/// Read the address of the control socket a controlled run opened, or `None` when
/// the report names none. Both halves come off the report rather than off what was
/// asked for.
pub fn control_socket(report: &TurnReport) -> (r: Option<ControlSocket>)
    ensures
        match r {
            Some(socket) => socket_address(report@) == Some(
                (socket.session@, socket.session_dir@),
            ),
            None => socket_address(report@) is None,
        },
{
    match (&report.session, &report.socket) {
        (Some(session), Some(socket)) => match parent_of(socket.as_str()) {
            Some(control_dir) => match parent_of(control_dir) {
                Some(session_dir) => Some(
                    ControlSocket { session: session.clone(), session_dir: session_dir.to_owned() },
                ),
                None => None,
            },
            None => None,
        },
        _ => None,
    }
}

// --- What holds of every report ---------------------------------------------
proof fn lemma_last_of(results: Seq<ResultView>, ran: Seq<char>, n: int)
    requires
        0 <= n <= results.len(),
    ensures
        -1 <= last_of(results, ran, n) < n || n == 0,
        n == 0 ==> last_of(results, ran, n) == -1,
        last_of(results, ran, n) >= 0 ==> is_candidate(results[last_of(results, ran, n)], ran),
        forall|i: int|
            last_of(results, ran, n) < i < n ==> !is_candidate(#[trigger] results[i], ran),
    decreases n,
{
    if n > 0 && !is_candidate(results[n - 1], ran) {
        lemma_last_of(results, ran, n - 1);
    }
}

/// Under a fallback chain the turn is never that of a candidate the chain passed
/// over, as long as the report carries a result of the one that ran.
pub proof fn lemma_the_turn_is_the_candidate_that_ran(
    op: Seq<char>,
    report: ReportView,
    ran: Seq<char>,
    i: int,
)
    requires
        report.fallback is Some,
        report.fallback->0.ran == Some(ran),
        0 <= i < report.results.len(),
        is_candidate(report.results[i], ran),
    ensures
        selected(op, report) is Ok,
        selected(op, report)->Ok_0 is Ok,
        0 <= selected(op, report)->Ok_0->Ok_0 < report.results.len(),
        is_candidate(report.results[selected(op, report)->Ok_0->Ok_0], ran),
{
    lemma_last_of(report.results, ran, report.results.len() as int);
}

/// A chain in which nothing ran is a classified failure, never a turn.
pub proof fn lemma_an_exhausted_chain_is_no_turn(op: Seq<char>, report: ReportView)
    requires
        report.fallback is Some,
        report.fallback->0.ran is None,
    ensures
        invoked_typed(op, report) is Ok,
        invoked_typed(op, report)->Ok_0.ran is None,
        invoked_typed(op, report)->Ok_0.failure is Some,
        invoked_typed(op, report)->Ok_0.failure->0.kind() is Some,
{
}

/// A candidate is loud exactly when it did not produce a turn: it carries a failure
/// kind, or it ended in any way but an exit of its own.
pub proof fn lemma_failures_are_loud(op: Seq<char>, result: ResultView)
    ensures
        failure_of(op, result) is Some <==> result.failure_kind is Some || !(
        result.status is Succeeded || result.status is Nonzero),
        failure_of(op, result) is Some ==> failure_of(op, result)->0.kind() is Some,
{
}

/// Every readable report yields an invocation whose turn is one of its results, so a
/// failed run still attributes itself.
pub proof fn lemma_invocations_point_at_results(op: Seq<char>, report: ReportView)
    requires
        invoked_typed(op, report) is Ok,
    ensures
        invoked_typed(op, report)->Ok_0.wf(),
        invoked_typed(op, report)->Ok_0.report == report,
{
    match report.fallback {
        Some(fallback) => match fallback.ran {
            Some(ran) => {
                lemma_last_of(report.results, ran, report.results.len() as int);
            },
            None => {},
        },
        None => {},
    }
}

/// **Which result is the turn**: without a chain the first; under one the last that bears
/// the name of the candidate that ran, and the last of all where none does. Without a
/// result there is no turn.
pub proof fn lemma_which_result_is_the_turn(op: Seq<char>, report: ReportView, i: int)
    ensures
        report.fallback is None && report.results.len() > 0 ==> selected(op, report) == Ok::<
            _,
            ErrorView,
        >(Ok::<int, ErrorView>(0)),
        report.fallback is Some && report.fallback->0.ran is Some && 0 <= i < report.results.len()
            && (report.results[i].harness_id == report.fallback->0.ran->0
            || report.results[i].harness == report.fallback->0.ran->0) && (forall|j: int|
            i < j < report.results.len() ==> (#[trigger] report.results[j]).harness_id
                != report.fallback->0.ran->0 && report.results[j].harness
                != report.fallback->0.ran->0) ==> selected(op, report) == Ok::<_, ErrorView>(
            Ok::<int, ErrorView>(i),
        ),
        report.fallback is Some && report.fallback->0.ran is Some && report.results.len() > 0 && (
        forall|j: int|
            0 <= j < report.results.len() ==> (#[trigger] report.results[j]).harness_id
                != report.fallback->0.ran->0 && report.results[j].harness
                != report.fallback->0.ran->0) ==> selected(op, report) == Ok::<_, ErrorView>(
            Ok::<int, ErrorView>(report.results.len() - 1),
        ),
        report.results.len() == 0 && (report.fallback is None || report.fallback->0.ran is Some)
            ==> selected(op, report) is Err && selected(op, report)->Err_0.kind() == Some(
            ProviderErrorKind::Protocol,
        ),
        report.fallback is Some && report.fallback->0.ran is None ==> selected(op, report) is Ok
            && selected(op, report)->Ok_0 is Err,
{
    if report.fallback is Some && report.fallback->0.ran is Some {
        let ran = report.fallback->0.ran->0;
        lemma_last_of(report.results, ran, report.results.len() as int);
        let last = last_of(report.results, ran, report.results.len() as int);
        if last >= 0 {
            assert(is_candidate(report.results[last], ran));
        }
        if 0 <= i < report.results.len() && is_candidate(report.results[i], ran) && last < i {
            assert(!is_candidate(report.results[i], ran));
        }
    }
}

/// **A failed candidate is classified by what it reports**: by its failure kind, in its own
/// words where it has any; else by how it ended; and one that took its turn has not failed.
pub proof fn lemma_failures_are_classified(op: Seq<char>, result: ResultView)
    ensures
        result.failure_kind is Some ==> {
            let token = result.failure_kind->0;
            let kind = failure_of(op, result)->0.kind();
            &&& failure_of(op, result) is Some
            &&& token == "auth"@ ==> kind == Some(ProviderErrorKind::Auth)
            &&& token == "rate_limit"@ ==> kind == Some(ProviderErrorKind::RateLimit)
            &&& token == "model_not_found"@ ==> kind == Some(ProviderErrorKind::ModelNotFound)
            &&& token == "quota"@ ==> kind == Some(ProviderErrorKind::Quota)
            &&& token != "auth"@ && token != "rate_limit"@ && token != "model_not_found"@ && token
                != "quota"@ ==> kind == Some(ProviderErrorKind::Other)
            &&& result.error is Some ==> failure_of(op, result)->0->message == result.error->0
            &&& failure_of(op, result)->0->context == op
        },
        result.failure_kind is None ==> match result.status {
            Status::Succeeded | Status::Nonzero => failure_of(op, result) is None,
            Status::Timeout => failure_of(op, result)->0.kind() == Some(ProviderErrorKind::Timeout),
            Status::Cancelled => failure_of(op, result)->0.kind() == Some(
                ProviderErrorKind::Cancelled,
            ),
            Status::SpawnError | Status::Skipped => failure_of(op, result)->0.kind() == Some(
                ProviderErrorKind::Spawn,
            ),
            Status::Planned => failure_of(op, result)->0.kind() == Some(
                ProviderErrorKind::Protocol,
            ),
        },
        result.failure_kind is None && failure_of(op, result) is Some && result.error is Some
            ==> crate::text::has(failure_of(op, result)->0->message, result.error->0)
            && crate::text::has(failure_of(op, result)->0->message, result.harness_id),
{
    reveal_strlit("auth");
    reveal_strlit("rate_limit");
    reveal_strlit("model_not_found");
    reveal_strlit("quota");
    assert("auth"@.len() == 4 && "rate_limit"@.len() == 10 && "model_not_found"@.len() == 15
        && "quota"@.len() == 5);
    if result.failure_kind is None && failure_of(op, result) is Some && result.error is Some {
        let message = failure_of(op, result)->0->message;
        let none = Seq::<char>::empty();
        let front = "harness `"@;
        let middle = "` did not run the turn: "@;
        crate::text::lemma_has_between(front, result.harness_id, middle + result.error->0);
        assert(front + result.harness_id + (middle + result.error->0) =~= message);
        crate::text::lemma_has_between(front + result.harness_id + middle, result.error->0, none);
        assert(front + result.harness_id + middle + result.error->0 + none =~= message);
    }
}

/// **An exhausted chain says who was tried and why each was passed over**, in the order
/// they were tried, and is classified by the last reason.
pub proof fn lemma_an_exhausted_chain_names_everyone(
    op: Seq<char>,
    fell_through: Seq<(Seq<char>, Seq<char>)>,
    tried: Seq<Seq<char>>,
)
    requires
        tried.len() == fell_through.len(),
        forall|i: int|
            0 <= i < tried.len() ==> #[trigger] tried[i] == fell_through[i].0 + " ["@
                + fell_through[i].1 + "]"@,
    ensures
        crate::text::has_in_order(exhausted(op, fell_through)->message, tried),
        exhausted(op, fell_through)->context == op,
        fell_through.len() > 0 ==> {
            let why = fell_through.last().1;
            let kind = exhausted(op, fell_through).kind();
            &&& why == "auth"@ ==> kind == Some(ProviderErrorKind::Auth)
            &&& why == "quota"@ ==> kind == Some(ProviderErrorKind::Quota)
            &&& why == "rate-limit"@ ==> kind == Some(ProviderErrorKind::RateLimit)
            &&& why == "model-not-found"@ ==> kind == Some(ProviderErrorKind::ModelNotFound)
            &&& why == "not-installed"@ || why == "spawn-error"@ ==> kind == Some(
                ProviderErrorKind::Spawn,
            )
        },
        fell_through.len() == 0 ==> exhausted(op, fell_through).kind() == Some(
            ProviderErrorKind::Spawn,
        ),
{
    reveal_strlit("auth");
    reveal_strlit("quota");
    reveal_strlit("rate-limit");
    reveal_strlit("model-not-found");
    reveal_strlit("not-installed");
    reveal_strlit("spawn-error");
    assert("auth"@.len() == 4 && "quota"@.len() == 5 && "rate-limit"@.len() == 10
        && "model-not-found"@.len() == 15 && "not-installed"@.len() == 13 && "spawn-error"@.len()
        == 11);
    assert(chain_words(fell_through) =~= tried);
    let words = joined(tried, ", "@);
    crate::text::lemma_joined_in_order(tried, ", "@);
    let front = "no oneharness fallback candidate could run the turn; all "@ + decimal(
        fell_through.len(),
    ) + " candidate(s) failed to start ("@;
    crate::text::lemma_has_between(front, words, ")"@);
    crate::text::lemma_in_order_within(exhausted(op, fell_through)->message, words, tried);
}

/// **A turn is what its candidate reported**: its words, or what its process wrote where it
/// said none; its usage; its events in their order — and a run's failure is its
/// candidate's own.
pub proof fn lemma_a_turn_is_what_its_candidate_reported(
    op: Seq<char>,
    report: ReportView,
    i: int,
)
    requires
        selected(op, report) == Ok::<_, ErrorView>(Ok::<int, ErrorView>(i)),
        0 <= i < report.results.len(),
    ensures
        invoked_typed(op, report) is Ok,
        ({
            let invocation = invoked_typed(op, report)->Ok_0;
            let result = report.results[i];
            &&& invocation.report == report
            &&& invocation.ran == Some(i)
            &&& invocation.failure == failure_of(op, result)
            &&& result.text is Some && result.text->0.len() > 0 ==> invocation.reply()
                == result.text->0
            &&& result.text is None || result.text->0.len() == 0 ==> invocation.reply()
                == result.stdout
            &&& match invocation.usage() {
                Some(usage) => usage == result.usage,
                None => result.usage.costs.len() == 0 && result.usage.input_tokens is None
                    && result.usage.output_tokens is None && result.usage.cache_read_tokens is None
                    && result.usage.cache_write_tokens is None,
            }
            &&& result.events is Some ==> invocation.events() == result.events->0
            &&& result.events is None ==> invocation.events().len() == 0
        }),
{
}

/// **The turn is the result of the candidate the report says ran**: the first result where
/// no chain was tried; the last one that goes by the name of the candidate that ran, where
/// one was; and none where the chain was exhausted or nothing is reported.
pub proof fn lemma_selecting_takes_the_candidate_that_ran(
    op: &str,
    report: TurnReport,
    i: int,
    r: Result<Result<usize, Error>, Error>,
)
    requires
        call_ensures(select, (op, &report), r),
    ensures
        report.fallback is None && report.results@.len() > 0 ==> r is Ok && r->Ok_0 is Ok
            && r->Ok_0->Ok_0 == 0,
        report.fallback is Some && report.fallback->0.ran is Some && 0 <= i < report.results@.len()
            && (report.results@[i].harness_id@ == report.fallback->0.ran->0@
            || report.results@[i].harness@ == report.fallback->0.ran->0@) && (forall|j: int|
            i < j < report.results@.len() ==> (#[trigger] report.results@[j]).harness_id@
                != report.fallback->0.ran->0@ && report.results@[j].harness@
                != report.fallback->0.ran->0@) ==> r is Ok && r->Ok_0 is Ok && r->Ok_0->Ok_0 == i,
        report.fallback is Some && report.fallback->0.ran is None ==> r is Ok && r->Ok_0 is Err,
        report.results@.len() == 0 && report.fallback is None ==> r is Err,
{
    let view = report@;
    assert(view.results.len() == report.results@.len());
    assert forall|j: int| 0 <= j < report.results@.len() implies #[trigger] view.results[j]
        == report.results@[j]@ by {}
    if report.fallback is Some && report.fallback->0.ran is Some && 0 <= i < report.results@.len()
        && (forall|j: int|
        i < j < report.results@.len() ==> (#[trigger] report.results@[j]).harness_id@
            != report.fallback->0.ran->0@ && report.results@[j].harness@
            != report.fallback->0.ran->0@) {
        assert forall|j: int| i < j < view.results.len() implies (
        #[trigger] view.results[j]).harness_id != report.fallback->0.ran->0@
            && view.results[j].harness != report.fallback->0.ran->0@ by {
            assert(report.results@[j].harness_id@ != report.fallback->0.ran->0@);
        }
    }
    lemma_which_result_is_the_turn(op@, view, i);
}

/// **A failed candidate fails its turn, as what it failed of**: a classified failure as its
/// kind, an ended one by how it ended, and one that ran its course not at all.
pub proof fn lemma_a_failed_candidate_fails_its_turn(
    op: &str,
    result: CandidateResult,
    err: Option<Error>,
)
    requires
        call_ensures(failure, (op, &result), err),
    ensures
        err is Some <==> result.failure_kind is Some || !(result.status is Succeeded
            || result.status is Nonzero),
        result.failure_kind is Some ==> {
            let token = result.failure_kind->0@;
            let kind = err->0@.kind();
            &&& token == "auth"@ ==> kind == Some(ProviderErrorKind::Auth)
            &&& token == "rate_limit"@ ==> kind == Some(ProviderErrorKind::RateLimit)
            &&& token == "model_not_found"@ ==> kind == Some(ProviderErrorKind::ModelNotFound)
            &&& token == "quota"@ ==> kind == Some(ProviderErrorKind::Quota)
            &&& result.error is Some ==> err->0@->message == result.error->0@
        },
        result.failure_kind is None && result.status is Timeout ==> err->0@.kind() == Some(
            ProviderErrorKind::Timeout,
        ),
        result.failure_kind is None && result.status is Cancelled ==> err->0@.kind() == Some(
            ProviderErrorKind::Cancelled,
        ),
        result.failure_kind is None && (result.status is SpawnError || result.status is Skipped)
            ==> err->0@.kind() == Some(ProviderErrorKind::Spawn),
{
    lemma_failures_are_classified(op@, result@);
    lemma_failures_are_loud(op@, result@);
}

/// **What an invocation gives is its candidate's**: the reply is what the candidate said, or
/// what its process wrote where it said nothing; the usage and the events are its own, the
/// events in their order.
pub proof fn lemma_an_invocation_gives_what_its_candidate_did(
    invocation: Invocation,
    i: int,
    reply: String,
    usage: Option<Usage>,
    events: Vec<ToolEvent>,
    r: Result<Invocation, Error>,
)
    requires
        invocation.ran is Some,
        invocation.ran->0 == i,
        0 <= i < invocation.report.results@.len(),
        call_ensures(Invocation::reply, (&invocation,), reply),
        call_ensures(Invocation::usage, (&invocation,), usage),
        call_ensures(Invocation::events, (&invocation,), events),
        call_ensures(Invocation::into_ok, (invocation,), r),
    ensures
        ({
            let result = invocation.report.results@[i];
            &&& result.text is Some && result.text->0@.len() > 0 ==> reply@ == result.text->0@
            &&& result.text is None || result.text->0@.len() == 0 ==> reply@ == result.stdout@
            &&& usage is Some ==> usage->0@ == result.usage@
            &&& usage is None ==> result.usage@.input_tokens is None && result.usage@.costs.len()
                == 0
            &&& result.events is None ==> events@.len() == 0
            &&& result.events is Some ==> events@.len() == result.events->0@.len() && forall|k: int|
                0 <= k < events@.len() ==> (#[trigger] events@[k]).kind@
                    == result.events->0@[k].kind@ && opt_text(events@[k].name) == opt_text(
                    result.events->0@[k].name,
                ) && opt_text(events@[k].input) == opt_text(result.events->0@[k].input)
                    && opt_text(events@[k].output) == opt_text(result.events->0@[k].output)
                    && events@[k].index == result.events->0@[k].index
        }),
        invocation.failure is None <==> r is Ok,
        invocation.failure is Some ==> r->Err_0 == invocation.failure->0,
        r is Ok ==> r->Ok_0 == invocation,
{
    let result = invocation.report.results@[i];
    assert(invocation@.report.results[i] == result@);
    let told = event_views(events@);
    assert(told.len() == events@.len());
    if result.events is Some {
        let own = result.events->0@;
        assert forall|k: int| 0 <= k < events@.len() implies (#[trigger] events@[k]).kind@
            == own[k].kind@ && opt_text(events@[k].name) == opt_text(own[k].name) && opt_text(
            events@[k].input,
        ) == opt_text(own[k].input) && opt_text(events@[k].output) == opt_text(own[k].output)
            && events@[k].index == own[k].index by {
            assert(told[k] == event_views(own)[k]);
        }
    }
}

/// **A report becomes the invocation it reports**: kept whole, with the candidate that ran,
/// and with that candidate's failure where it failed.
pub proof fn lemma_a_report_becomes_the_invocation_it_reports(
    op: &str,
    report: TurnReport,
    picked: Result<Result<usize, Error>, Error>,
    r: Result<Invocation, Error>,
)
    requires
        call_ensures(select, (op, &report), picked),
        call_ensures(parse_report_typed, (op, report), r),
    ensures
        picked is Err ==> r is Err && r->Err_0@ == picked->Err_0@,
        picked is Ok ==> r is Ok && r->Ok_0@.report == report@,
        picked is Ok && picked->Ok_0 is Ok ==> {
            let result = report.results@[picked->Ok_0->Ok_0 as int];
            &&& r->Ok_0@.ran == Some(picked->Ok_0->Ok_0 as int)
            &&& r->Ok_0.failure is Some <==> result.failure_kind is Some || !(result.status is Succeeded
                || result.status is Nonzero)
        },
        picked is Ok && picked->Ok_0 is Err ==> r->Ok_0.ran is None && r->Ok_0.failure is Some
            && r->Ok_0.failure->0@ == picked->Ok_0->Err_0@,
{
    if picked is Ok && picked->Ok_0 is Ok {
        let i = picked->Ok_0->Ok_0 as int;
        assert(report@.results[i] == report.results@[i]@);
        lemma_failures_are_loud(op@, report@.results[i]);
    }
}

/// **What was measured is told as it was measured**: a provider's trace in full, each time
/// under its own name; one that stopped half way by its start alone; and anything else not at
/// all.
pub proof fn lemma_what_was_measured_is_told(result: CandidateResult, m: Measured)
    requires
        call_ensures(measured, (&result,), m),
    ensures
        result.telemetry is None ==> m.started_at is None && m.model_ms is None && m.tool_ms is None,
        result.telemetry is Some ==> match result.telemetry->0 {
            ExecutionTelemetry::ProviderMeasured {
                started_at,
                finished_at,
                model_ms,
                tool_ms,
                time_to_first_token_ms,
            } => {
                &&& opt_text(m.started_at) == Some(started_at@)
                &&& opt_text(m.finished_at) == opt_text(finished_at)
                &&& model_ms is Some && model_ms->0 <= u64::MAX ==> m.model_ms is Some
                    && m.model_ms->0 == model_ms->0
                &&& tool_ms is Some && tool_ms->0 <= u64::MAX ==> m.tool_ms is Some && m.tool_ms->0
                    == tool_ms->0
                &&& time_to_first_token_ms is Some && time_to_first_token_ms->0 <= u64::MAX
                    ==> m.time_to_first_token_ms is Some && m.time_to_first_token_ms->0
                    == time_to_first_token_ms->0
                &&& model_ms is None ==> m.model_ms is None
                &&& tool_ms is None ==> m.tool_ms is None
            },
            ExecutionTelemetry::PartialInvocation { started_at } => {
                &&& opt_text(m.started_at) == Some(started_at@)
                &&& m.finished_at is None && m.model_ms is None && m.tool_ms is None
            },
            ExecutionTelemetry::StdoutObserved { tool_ms } => {
                &&& m.started_at is None && m.finished_at is None
                &&& m.model_ms is None && m.tool_ms is None
            },
        },
{
}

/// **A socket is addressed by its session, in the store it lies in**: two directories up
/// from the socket itself.
pub proof fn lemma_a_socket_is_addressed_in_its_store(
    report: TurnReport,
    dir: &str,
    path: &str,
    r: Option<ControlSocket>,
    control: Option<&str>,
    above: Option<&str>,
)
    requires
        call_ensures(control_socket, (&report,), r),
        report.socket is Some,
        path@ == report.socket->0@,
        call_ensures(crate::paths::parent_of, (path,), control),
        control is Some,
        dir@ == control->0@,
        call_ensures(crate::paths::parent_of, (dir,), above),
        above is Some,
    ensures
        r is Some <==> report.session is Some,
        r is Some ==> r->0.session@ == report.session->0@ && r->0.session_dir@ == above->0@,
{
}

} // verus!
